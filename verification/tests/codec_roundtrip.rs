use robot_joint_pubsub::codec::{decode, encode, DecodeError};
use robot_joint_pubsub::state::{JointAngles, RobotState};

fn bytes(s: &str) -> Vec<u8> {
    s.as_bytes().to_vec()
}

fn joint(ts: u64, name: &str, angle: i64, vel: i64, torque: i64) -> JointAngles {
    JointAngles {
        timestamp: ts,
        joint_name: bytes(name),
        angle_urad: angle,
        velocity_urad: vel,
        torque_unm: torque,
    }
}

fn sample_state() -> RobotState {
    RobotState {
        timestamp: 42,
        source_id: bytes("robot_arm_001"),
        joints: vec![
            joint(41, "shoulder_pan", 500_000, -123_456, 0),
            joint(42, "elbow", -1_570_000, 0, 2_500_000),
        ],
    }
}

#[test]
fn encode_produces_expected_frame_text() {
    let st = RobotState {
        timestamp: 1,
        source_id: bytes("r1"),
        joints: vec![joint(1, "elbow", 500_000, 0, 0)],
    };
    let frame = encode(&bytes("robot_joints"), &st);
    let expected = "robot_joints {\"timestamp\":1,\"robot_id\":\"r1\",\"joints\":[{\"timestamp\":1,\"joint_name\":\"elbow\",\"angle_rad\":0.500000,\"velocity\":0.000000,\"torque\":0.000000}]}";
    assert_eq!(frame, bytes(expected));
}

#[test]
fn round_trip_preserves_topic_and_state() {
    let st = sample_state();
    let frame = encode(&bytes("robot_joints"), &st);
    let (topic, back) = decode(&frame).expect("round trip must decode");
    assert_eq!(topic, bytes("robot_joints"));
    assert_eq!(back.timestamp, 42);
    assert_eq!(back.source_id, bytes("robot_arm_001"));
    assert_eq!(back.joints.len(), 2);
    assert_eq!(back.joints[0].joint_name, bytes("shoulder_pan"));
    assert_eq!(back.joints[0].angle_urad, 500_000);
    assert_eq!(back.joints[0].velocity_urad, -123_456);
    assert_eq!(back.joints[0].torque_unm, 0);
    assert_eq!(back.joints[1].joint_name, bytes("elbow"));
    assert_eq!(back.joints[1].angle_urad, -1_570_000);
    assert_eq!(back.joints[1].torque_unm, 2_500_000);
}

#[test]
fn round_trip_with_no_joints() {
    let st = RobotState { timestamp: 7, source_id: bytes("empty"), joints: vec![] };
    let frame = encode(&bytes("t"), &st);
    let (topic, back) = decode(&frame).expect("decodes");
    assert_eq!(topic, bytes("t"));
    assert_eq!(back.timestamp, 7);
    assert_eq!(back.joints.len(), 0);
}

#[test]
fn round_trip_extreme_values() {
    let st = RobotState {
        timestamp: 9_999_999_999_999_999_999,
        source_id: bytes(""),
        joints: vec![joint(1, "j", i64::MAX, -i64::MAX, 1)],
    };
    let frame = encode(&bytes("x"), &st);
    let (_, back) = decode(&frame).expect("decodes");
    assert_eq!(back.timestamp, 9_999_999_999_999_999_999);
    assert_eq!(back.joints[0].angle_urad, i64::MAX);
    assert_eq!(back.joints[0].velocity_urad, -i64::MAX);
}

#[test]
fn decode_short_fraction_pads_to_millionths() {
    let frame = bytes(
        "robot_joints {\"timestamp\":1,\"robot_id\":\"r\",\"joints\":[{\"timestamp\":1,\"joint_name\":\"a\",\"angle_rad\":0.5,\"velocity\":-1.57,\"torque\":2}]}",
    );
    let (_, st) = decode(&frame).expect("decodes");
    assert_eq!(st.joints[0].angle_urad, 500_000);
    assert_eq!(st.joints[0].velocity_urad, -1_570_000);
    assert_eq!(st.joints[0].torque_unm, 2_000_000);
}

#[test]
fn decode_allows_an_empty_topic() {
    // a frame that begins with the separator carries an empty topic; the
    // subscriber's exact-match filter discards it later
    let st = RobotState { timestamp: 1, source_id: bytes("r"), joints: vec![] };
    let payload = encode(&bytes("topic"), &st);
    let frame: Vec<u8> = payload[5..].to_vec();
    let (topic, _) = decode(&frame).expect("decodes");
    assert_eq!(topic, bytes(""));
}

#[test]
fn decode_requires_the_canonical_field_order() {
    // the grammar reads the known fields in their canonical order;
    // a reordered payload is rejected as malformed
    let frame = bytes("t {\"robot_id\":\"r\",\"timestamp\":1,\"joints\":[]}");
    assert_eq!(decode(&frame).unwrap_err(), DecodeError::Malformed);
}

#[test]
fn decode_rejects_frame_without_separator() {
    let frame = bytes("no_space_here");
    assert_eq!(decode(&frame).unwrap_err(), DecodeError::Malformed);
}

#[test]
fn decode_rejects_bad_payload() {
    let frame = bytes("topic {\"nope\":1}");
    assert_eq!(decode(&frame).unwrap_err(), DecodeError::Malformed);
}

#[test]
fn decode_rejects_trailing_garbage() {
    let st = RobotState { timestamp: 1, source_id: bytes("r"), joints: vec![] };
    let mut frame = encode(&bytes("t"), &st);
    frame.push(b'x');
    assert_eq!(decode(&frame).unwrap_err(), DecodeError::Malformed);
}

#[test]
fn decode_rejects_seven_fraction_digits() {
    let frame = bytes(
        "t {\"timestamp\":1,\"robot_id\":\"r\",\"joints\":[{\"timestamp\":1,\"joint_name\":\"a\",\"angle_rad\":0.1234567,\"velocity\":0.0,\"torque\":0.0}]}",
    );
    assert_eq!(decode(&frame).unwrap_err(), DecodeError::Malformed);
}

#[test]
fn decode_rejects_value_beyond_fixed_range() {
    let frame = bytes(
        "t {\"timestamp\":1,\"robot_id\":\"r\",\"joints\":[{\"timestamp\":1,\"joint_name\":\"a\",\"angle_rad\":99999999999999.0,\"velocity\":0.0,\"torque\":0.0}]}",
    );
    assert_eq!(decode(&frame).unwrap_err(), DecodeError::Malformed);
}

#[test]
fn decode_rejects_twenty_digit_timestamp() {
    let frame = bytes(
        "t {\"timestamp\":12345678901234567890,\"robot_id\":\"r\",\"joints\":[]}",
    );
    assert_eq!(decode(&frame).unwrap_err(), DecodeError::Malformed);
}

#[test]
fn decode_accepts_integer_valued_numbers() {
    let frame = bytes(
        "t {\"timestamp\":3,\"robot_id\":\"r\",\"joints\":[{\"timestamp\":3,\"joint_name\":\"a\",\"angle_rad\":-2,\"velocity\":0,\"torque\":1}]}",
    );
    let (_, st) = decode(&frame).expect("decodes");
    assert_eq!(st.joints[0].angle_urad, -2_000_000);
    assert_eq!(st.joints[0].velocity_urad, 0);
    assert_eq!(st.joints[0].torque_unm, 1_000_000);
}

#[test]
fn decode_skips_unknown_trailing_fields() {
    let frame = bytes(
        "t {\"timestamp\":1,\"robot_id\":\"r\",\"joints\":[{\"timestamp\":1,\"joint_name\":\"a\",\"angle_rad\":0.5,\"velocity\":0.0,\"torque\":0.0,\"stiffness\":3.5,\"tags\":[\"x\",{\"nested\":null}]}],\"schema\":2,\"flags\":{\"active\":true}}",
    );
    let (_, st) = decode(&frame).expect("unknown trailing members are tolerated");
    assert_eq!(st.timestamp, 1);
    assert_eq!(st.joints.len(), 1);
    assert_eq!(st.joints[0].angle_urad, 500_000);
}

#[test]
fn decode_rejects_unclosed_unknown_member() {
    let frame = bytes("t {\"timestamp\":1,\"robot_id\":\"r\",\"joints\":[],\"extra\":{\"open\":1}");
    assert_eq!(decode(&frame).unwrap_err(), DecodeError::Malformed);
}

#[test]
fn wf_check_accepts_sample_and_rejects_duplicates() {
    assert!(sample_state().check_wf());
    let dup = RobotState {
        timestamp: 5,
        source_id: bytes("r"),
        joints: vec![joint(1, "a", 0, 0, 0), joint(2, "a", 1, 0, 0)],
    };
    assert!(!dup.check_wf());
    let late = RobotState {
        timestamp: 5,
        source_id: bytes("r"),
        joints: vec![joint(6, "a", 0, 0, 0)],
    };
    assert!(!late.check_wf());
}
