use robot_joint_pubsub::codec::decode;
use robot_joint_pubsub::publisher::{collect_snapshot, Publisher};
use robot_joint_pubsub::registry::{JointRegistry, JointRegistryEntry};

fn bytes(s: &str) -> Vec<u8> {
    s.as_bytes().to_vec()
}

#[test]
fn publish_below_interval_does_nothing() {
    let mut p = Publisher::new(bytes("robot_joints"), bytes("r1"), 100_000);
    let mut reg = JointRegistry::new();
    assert!(reg.add_joint(bytes("elbow"), -1_570_000, 1_570_000));
    assert!(p.publish_if_due(&mut reg, 99_999).is_none());
    assert_eq!(p.seq, 0);
}

#[test]
fn publish_at_interval_emits_a_decodable_frame() {
    let mut p = Publisher::new(bytes("robot_joints"), bytes("r1"), 100_000);
    let mut reg = JointRegistry::new();
    assert!(reg.add_joint(bytes("elbow"), -1_570_000, 1_570_000));
    reg.set_value(&bytes("elbow"), 500_000);
    let frame = p.publish_if_due(&mut reg, 100_000).expect("due");
    assert_eq!(p.seq, 1);
    let (topic, st) = decode(&frame).expect("own frames decode");
    assert_eq!(topic, bytes("robot_joints"));
    assert_eq!(st.timestamp, 1);
    assert_eq!(st.source_id, bytes("r1"));
    assert_eq!(st.joints.len(), 1);
    assert_eq!(st.joints[0].joint_name, bytes("elbow"));
    assert_eq!(st.joints[0].angle_urad, 500_000);
    // set_value syncs the last-applied value, so the estimate is zero
    assert_eq!(st.joints[0].velocity_urad, 0);
    assert_eq!(st.joints[0].torque_unm, 0);
}

#[test]
fn velocity_estimate_divides_change_by_elapsed() {
    let mut reg = JointRegistry {
        entries: vec![JointRegistryEntry {
            name: bytes("j"),
            current_value: 1_000_000,
            min_bound: -2_000_000,
            max_bound: 2_000_000,
            last_applied_value: 0,
        }],
    };
    // one radian moved over half a second: two radians per second
    let st = collect_snapshot(&mut reg, 3, &bytes("r1"), 500_000);
    assert_eq!(st.joints[0].velocity_urad, 2_000_000);
    // publishing marks the value as applied
    assert_eq!(reg.entries[0].last_applied_value, 1_000_000);
    // a second snapshot with no movement reports zero
    let st2 = collect_snapshot(&mut reg, 4, &bytes("r1"), 500_000);
    assert_eq!(st2.joints[0].velocity_urad, 0);
}

#[test]
fn velocity_estimate_floors_elapsed_time() {
    let mut reg = JointRegistry {
        entries: vec![JointRegistryEntry {
            name: bytes("j"),
            current_value: 5,
            min_bound: -10,
            max_bound: 10,
            last_applied_value: 0,
        }],
    };
    // zero elapsed time is floored to one microsecond, never dividing by zero
    let st = collect_snapshot(&mut reg, 1, &bytes("r1"), 0);
    assert_eq!(st.joints[0].velocity_urad, 5_000_000);
}

#[test]
fn velocity_estimate_truncates_toward_zero() {
    let mut reg = JointRegistry {
        entries: vec![JointRegistryEntry {
            name: bytes("j"),
            current_value: -1,
            min_bound: -10,
            max_bound: 10,
            last_applied_value: 0,
        }],
    };
    // -1 micro over 3 seconds: -0.333... micro/s truncates to zero
    let st = collect_snapshot(&mut reg, 1, &bytes("r1"), 3_000_000);
    assert_eq!(st.joints[0].velocity_urad, 0);
}

#[test]
fn publish_now_fires_out_of_cadence() {
    let mut p = Publisher::new(bytes("t"), bytes("r"), 1_000_000);
    let mut reg = JointRegistry::new();
    let frame = p.publish_now(&mut reg);
    assert_eq!(p.seq, 1);
    let (topic, st) = decode(&frame).expect("decodes");
    assert_eq!(topic, bytes("t"));
    assert_eq!(st.timestamp, 1);
    assert_eq!(st.joints.len(), 0);
}

#[test]
fn sequence_numbers_rise_across_publishes() {
    let mut p = Publisher::new(bytes("t"), bytes("r"), 10);
    let mut reg = JointRegistry::new();
    for expect in 1u64..=5 {
        let frame = p.publish_if_due(&mut reg, 10).expect("due");
        let (_, st) = decode(&frame).expect("decodes");
        assert_eq!(st.timestamp, expect);
    }
}
