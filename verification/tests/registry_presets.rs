use robot_joint_pubsub::presets::{
    joint_name_matches_suffix, set_finger_curled, set_joint_fraction_of_range, set_joint_value,
    HandPreset, PresetEntry, PresetTarget,
};
use robot_joint_pubsub::registry::{
    clamp_to_range, name_passes_filter, resolve_bounds, JointRegistry,
};

fn bytes(s: &str) -> Vec<u8> {
    s.as_bytes().to_vec()
}

fn registry_with(names: &[(&str, i64, i64)]) -> JointRegistry {
    let mut reg = JointRegistry::new();
    for (name, lo, hi) in names {
        assert!(reg.add_joint(bytes(name), *lo, *hi));
    }
    reg
}

#[test]
fn clamping_caps_target_at_the_bounds() {
    // a joint bounded [-1.0, 1.0] radians, written far outside
    let mut reg = registry_with(&[("j", -1_000_000, 1_000_000)]);
    reg.set_value(&bytes("j"), 5_000_000);
    assert_eq!(reg.entries[0].current_value, 1_000_000);
    reg.set_value(&bytes("j"), -5_000_000);
    assert_eq!(reg.entries[0].current_value, -1_000_000);
    reg.set_value(&bytes("j"), 250_000);
    assert_eq!(reg.entries[0].current_value, 250_000);
}

#[test]
fn clamp_to_range_is_exact() {
    assert_eq!(clamp_to_range(5, -1, 1), 1);
    assert_eq!(clamp_to_range(-5, -1, 1), -1);
    assert_eq!(clamp_to_range(0, -1, 1), 0);
}

#[test]
fn set_value_ignores_unknown_names() {
    let mut reg = registry_with(&[("known", -1, 1)]);
    reg.set_value(&bytes("unknown"), 12345);
    assert_eq!(reg.entries[0].current_value, 0);
}

#[test]
fn add_joint_rejects_bad_input() {
    let mut reg = JointRegistry::new();
    assert!(!reg.add_joint(bytes(""), -1, 1));
    assert!(!reg.add_joint(bytes("backwards"), 1, -1));
    assert!(!reg.add_joint(bytes("quote\"name"), -1, 1));
    assert!(reg.add_joint(bytes("ok"), -1, 1));
    assert!(!reg.add_joint(bytes("ok"), -2, 2));
    assert_eq!(reg.len(), 1);
}

#[test]
fn add_joint_clamps_initial_zero_into_bounds() {
    let reg = registry_with(&[("above", 250_000, 500_000)]);
    assert_eq!(reg.entries[0].current_value, 250_000);
    assert_eq!(reg.entries[0].last_applied_value, 250_000);
}

#[test]
fn preset_suffix_matching_requires_a_boundary() {
    assert!(joint_name_matches_suffix(&bytes("i1_MCP"), &bytes("i1_MCP")));
    assert!(joint_name_matches_suffix(&bytes("L/i1_MCP"), &bytes("i1_MCP")));
    assert!(!joint_name_matches_suffix(&bytes("xi1_MCP"), &bytes("i1_MCP")));
    assert!(!joint_name_matches_suffix(&bytes("i1_MC"), &bytes("i1_MCP")));
}

#[test]
fn set_joint_value_writes_every_matching_entry() {
    let mut reg = registry_with(&[
        ("L/j1", -1_000_000, 1_000_000),
        ("R/j1", -1_000_000, 1_000_000),
        ("xj1", -1_000_000, 1_000_000),
    ]);
    set_joint_value(&mut reg, &bytes("j1"), 300_000);
    assert_eq!(reg.entries[0].current_value, 300_000);
    assert_eq!(reg.entries[1].current_value, 300_000);
    assert_eq!(reg.entries[2].current_value, 0);
}

#[test]
fn fraction_of_range_interpolates_linearly() {
    let mut reg = registry_with(&[("j", -1_000_000, 1_000_000)]);
    // half of the range: min + 0.5 * span = 0
    set_joint_fraction_of_range(&mut reg, &bytes("j"), 500_000);
    assert_eq!(reg.entries[0].current_value, 0);
    // the whole range lands on max
    set_joint_fraction_of_range(&mut reg, &bytes("j"), 1_000_000);
    assert_eq!(reg.entries[0].current_value, 1_000_000);
    // a fraction beyond the range is clamped to the whole range
    set_joint_fraction_of_range(&mut reg, &bytes("j"), 3_000_000);
    assert_eq!(reg.entries[0].current_value, 1_000_000);
}

#[test]
fn curled_finger_lands_near_the_stop() {
    let mut reg = registry_with(&[("i1_MCP", 0, 1_000_000)]);
    set_finger_curled(&mut reg, b'i');
    // min + 0.95 * span
    assert_eq!(reg.entries[0].current_value, 950_000);
}

#[test]
fn fist_preset_curls_fingers_and_thumb() {
    let mut reg = registry_with(&[
        ("L/i1_MCP", 0, 1_000_000),
        ("L/i0_CMC_abd", -500_000, 500_000),
        ("L/t1_TM", 0, 2_000_000),
        ("L/wrist", -1, 1),
    ]);
    HandPreset::Fist.apply(&mut reg);
    assert_eq!(reg.entries[0].current_value, 950_000);
    // abduction joints go neutral
    assert_eq!(reg.entries[1].current_value, 0);
    assert_eq!(reg.entries[2].current_value, 1_900_000);
    // unrelated joints keep their state
    assert_eq!(reg.entries[3].current_value, 0);
}

#[test]
fn open_hand_preset_goes_neutral() {
    let mut reg = registry_with(&[("i1_MCP", -1_000_000, 1_000_000), ("t1_TM", 250_000, 500_000)]);
    HandPreset::Fist.apply(&mut reg);
    HandPreset::OpenHand.apply(&mut reg);
    assert_eq!(reg.entries[0].current_value, 0);
    // neutral zero clamps into the thumb's positive range
    assert_eq!(reg.entries[1].current_value, 250_000);
}

#[test]
fn preset_labels_name_each_pose() {
    assert_eq!(HandPreset::Fist.label(), "Fist");
    assert_eq!(HandPreset::OpenHand.label(), "Open Hand");
    assert_eq!(HandPreset::Scissor.label(), "Scissor");
    assert_eq!(HandPreset::IndexFinger.label(), "Index Finger");
    assert_eq!(HandPreset::MiddleFinger.label(), "Middle Finger");
    assert_eq!(HandPreset::RingFinger.label(), "Ring Finger");
    assert_eq!(HandPreset::PinkyFinger.label(), "Pinky Finger");
}

#[test]
fn apply_preset_runs_a_plan_in_order() {
    let mut reg = registry_with(&[("j", -1_000_000, 1_000_000)]);
    let plan = vec![
        PresetEntry { fragment: bytes("j"), target: PresetTarget::Absolute(700_000) },
        PresetEntry { fragment: bytes("j"), target: PresetTarget::Fraction(0) },
    ];
    reg.apply_preset(&plan);
    // the later action wins: fraction zero lands on min
    assert_eq!(reg.entries[0].current_value, -1_000_000);
}

#[test]
fn filter_and_bounds_resolution() {
    let no_filter: Vec<Vec<u8>> = vec![];
    assert!(name_passes_filter(&bytes("anything"), &no_filter));
    let filter = vec![bytes("finger_"), bytes("thumb_")];
    assert!(name_passes_filter(&bytes("finger_1"), &filter));
    assert!(name_passes_filter(&bytes("thumb_0"), &filter));
    assert!(!name_passes_filter(&bytes("wrist"), &filter));

    assert_eq!(resolve_bounds(true, -2_000_000, 2_000_000), (-2_000_000, 2_000_000));
    // unordered or unlimited ranges fall back to the conservative band
    assert_eq!(resolve_bounds(true, 5, 5), (-1_500_000, 1_500_000));
    assert_eq!(resolve_bounds(false, -2_000_000, 2_000_000), (-1_500_000, 1_500_000));
}
