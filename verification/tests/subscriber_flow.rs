use robot_joint_pubsub::codec::encode;
use robot_joint_pubsub::registry::JointRegistry;
use robot_joint_pubsub::state::{JointAngles, RobotState};
use robot_joint_pubsub::subscriber::{ReceiveOutcome, Subscriber};

fn bytes(s: &str) -> Vec<u8> {
    s.as_bytes().to_vec()
}

fn snapshot(ts: u64, names_angles: &[(&str, i64)]) -> RobotState {
    let joints = names_angles
        .iter()
        .map(|(name, angle)| JointAngles {
            timestamp: ts,
            joint_name: bytes(name),
            angle_urad: *angle,
            velocity_urad: 0,
            torque_unm: 0,
        })
        .collect();
    RobotState { timestamp: ts, source_id: bytes("r1"), joints }
}

fn frame(topic: &str, st: &RobotState) -> Vec<u8> {
    encode(&bytes(topic), st)
}

#[test]
fn staleness_sequence_accepts_only_strictly_newer() {
    let mut sub = Subscriber::new(bytes("robot_joints"));
    let mut reg = JointRegistry::new();
    assert!(reg.add_joint(bytes("elbow"), -1_570_000, 1_570_000));
    let mut accepted: Vec<u64> = Vec::new();
    for ts in [5u64, 3, 7, 7, 10] {
        let f = frame("robot_joints", &snapshot(ts, &[("elbow", 100_000)]));
        match sub.handle_frame(&f, &mut reg) {
            ReceiveOutcome::Applied(_) => accepted.push(ts),
            ReceiveOutcome::Stale => {},
            other => panic!("unexpected outcome: {:?}", outcome_name(&other)),
        }
    }
    assert_eq!(accepted, vec![5, 7, 10]);
    assert_eq!(sub.last_accepted, 10);
}

fn outcome_name(o: &ReceiveOutcome) -> &'static str {
    match o {
        ReceiveOutcome::Malformed => "Malformed",
        ReceiveOutcome::WrongTopic => "WrongTopic",
        ReceiveOutcome::Stale => "Stale",
        ReceiveOutcome::Applied(_) => "Applied",
    }
}

#[test]
fn unknown_joints_are_skipped_without_error() {
    let mut sub = Subscriber::new(bytes("robot_joints"));
    let mut reg = JointRegistry::new();
    assert!(reg.add_joint(bytes("elbow"), -1_570_000, 1_570_000));
    let st = snapshot(1, &[("nonexistent_joint", 900_000), ("elbow", 500_000)]);
    let f = frame("robot_joints", &st);
    match sub.handle_frame(&f, &mut reg) {
        ReceiveOutcome::Applied(updates) => {
            assert_eq!(updates.len(), 1);
            assert_eq!(updates[0].index, 0);
            assert_eq!(updates[0].angle_urad, 500_000);
        },
        other => panic!("unexpected outcome: {}", outcome_name(&other)),
    }
    assert_eq!(reg.entries[0].current_value, 500_000);
}

#[test]
fn topic_filtering_is_exact() {
    let mut sub = Subscriber::new(bytes("robot_joints"));
    let mut reg = JointRegistry::new();
    assert!(reg.add_joint(bytes("elbow"), -1_570_000, 1_570_000));
    let f = frame("other_topic", &snapshot(1, &[("elbow", 500_000)]));
    assert!(matches!(sub.handle_frame(&f, &mut reg), ReceiveOutcome::WrongTopic));
    assert_eq!(reg.entries[0].current_value, 0);
    assert_eq!(sub.last_accepted, 0);
    // a shared prefix is not a match either
    let f2 = frame("robot_joints_extra", &snapshot(1, &[("elbow", 500_000)]));
    assert!(matches!(sub.handle_frame(&f2, &mut reg), ReceiveOutcome::WrongTopic));
}

#[test]
fn malformed_frames_are_discarded_without_state_change() {
    let mut sub = Subscriber::new(bytes("robot_joints"));
    let mut reg = JointRegistry::new();
    assert!(reg.add_joint(bytes("elbow"), -1_570_000, 1_570_000));
    let f = bytes("robot_joints {broken");
    assert!(matches!(sub.handle_frame(&f, &mut reg), ReceiveOutcome::Malformed));
    assert_eq!(sub.last_accepted, 0);
    assert_eq!(reg.entries[0].current_value, 0);
}

#[test]
fn applied_angles_are_clamped_into_bounds() {
    let mut sub = Subscriber::new(bytes("robot_joints"));
    let mut reg = JointRegistry::new();
    assert!(reg.add_joint(bytes("elbow"), -1_000_000, 1_000_000));
    let f = frame("robot_joints", &snapshot(1, &[("elbow", 5_000_000)]));
    match sub.handle_frame(&f, &mut reg) {
        ReceiveOutcome::Applied(updates) => {
            assert_eq!(updates[0].angle_urad, 1_000_000);
        },
        other => panic!("unexpected outcome: {}", outcome_name(&other)),
    }
    assert_eq!(reg.entries[0].current_value, 1_000_000);
}

#[test]
fn duplicate_readings_apply_in_order_and_the_last_wins() {
    let mut sub = Subscriber::new(bytes("robot_joints"));
    let mut reg = JointRegistry::new();
    assert!(reg.add_joint(bytes("elbow"), -1_570_000, 1_570_000));
    let st = snapshot(1, &[("elbow", 100_000), ("elbow", 200_000)]);
    let f = frame("robot_joints", &st);
    match sub.handle_frame(&f, &mut reg) {
        ReceiveOutcome::Applied(updates) => assert_eq!(updates.len(), 2),
        other => panic!("unexpected outcome: {}", outcome_name(&other)),
    }
    assert_eq!(reg.entries[0].current_value, 200_000);
}

#[test]
fn end_to_end_publish_and_apply() {
    // publish one snapshot for the elbow and watch the subscriber's
    // registry take up the value
    let st = RobotState {
        timestamp: 1,
        source_id: bytes("r1"),
        joints: vec![JointAngles {
            timestamp: 1,
            joint_name: bytes("elbow"),
            angle_urad: 500_000,
            velocity_urad: 0,
            torque_unm: 0,
        }],
    };
    assert!(st.check_wf());
    let f = encode(&bytes("robot_joints"), &st);
    let mut sub = Subscriber::new(bytes("robot_joints"));
    let mut reg = JointRegistry::new();
    assert!(reg.add_joint(bytes("elbow"), -1_570_000, 1_570_000));
    assert!(matches!(sub.handle_frame(&f, &mut reg), ReceiveOutcome::Applied(_)));
    assert_eq!(reg.entries[0].current_value, 500_000);
    assert_eq!(sub.last_accepted, 1);
}
