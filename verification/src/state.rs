//! Wire-level value types: a joint reading and an aggregate robot state.
//!
//! Bounds are a registry concept, not a wire concept: a reading's angle has no
//! inherent bound at this layer. Names and identifiers are ASCII byte strings.

use vstd::prelude::*;

verus! {

/// Largest tick the codec can carry: nineteen decimal digits.
pub const MAX_TICK: u64 = 9_999_999_999_999_999_999;

/// A byte that may stand inside a wire string without escaping:
/// printable ASCII, excluding the double quote and the backslash.
pub open spec fn plain_byte(b: u8) -> bool {
    0x20 <= b <= 0x7e && b != 0x22 && b != 0x5c
}

/// Every byte of the string is plain.
pub open spec fn plain_text(s: Seq<u8>) -> bool {
    forall|i: int| 0 <= i < s.len() ==> plain_byte(s[i])
}

/// A topic token: nonempty printable ASCII with no embedded spaces.
pub open spec fn wf_topic(s: Seq<u8>) -> bool {
    s.len() > 0 && forall|i: int| 0 <= i < s.len() ==> 0x21 <= #[trigger] s[i] <= 0x7e
}

/// Mathematical model of one joint reading.
#[verifier::ext_equal]
pub struct JointView {
    pub timestamp: nat,
    pub name: Seq<u8>,
    pub angle: int,
    pub velocity: int,
    pub torque: int,
}

/// Mathematical model of one robot-state snapshot.
#[verifier::ext_equal]
pub struct StateView {
    pub timestamp: nat,
    pub source_id: Seq<u8>,
    pub joints: Seq<JointView>,
}

/// One joint's instantaneous state, as carried on the wire.
/// Angle, velocity and torque are fixed-point millionths
/// (micro-radians, micro-radians per second, micro-newton-meters).
#[derive(Debug)]
pub struct JointAngles {
    pub timestamp: u64,
    pub joint_name: Vec<u8>,
    pub angle_urad: i64,
    pub velocity_urad: i64,
    pub torque_unm: i64,
}

/// A snapshot of zero or more joints at one instant.
#[derive(Debug)]
pub struct RobotState {
    pub timestamp: u64,
    pub source_id: Vec<u8>,
    pub joints: Vec<JointAngles>,
}

impl View for JointAngles {
    type V = JointView;

    open spec fn view(&self) -> JointView {
        JointView {
            timestamp: self.timestamp as nat,
            name: self.joint_name@,
            angle: self.angle_urad as int,
            velocity: self.velocity_urad as int,
            torque: self.torque_unm as int,
        }
    }
}

impl View for RobotState {
    type V = StateView;

    open spec fn view(&self) -> StateView {
        StateView {
            timestamp: self.timestamp as nat,
            source_id: self.source_id@,
            joints: self.joints@.map_values(|j: JointAngles| j@),
        }
    }
}

/// A fixed-point value the codec can print: its magnitude must be negatable.
pub open spec fn encodable_value(v: int) -> bool {
    i64::MIN < v <= i64::MAX
}

/// Well-formedness of one reading's model: nonempty plain name,
/// printable values, and a tick the codec can carry.
pub open spec fn wf_joint(j: JointView) -> bool {
    &&& j.name.len() > 0
    &&& plain_text(j.name)
    &&& j.timestamp <= MAX_TICK
    &&& encodable_value(j.angle)
    &&& encodable_value(j.velocity)
    &&& encodable_value(j.torque)
}

/// Well-formedness of a snapshot's model: a plain source identifier, a tick
/// that matches or exceeds every joint's tick, well-formed joints, and names
/// unique within the snapshot.
pub open spec fn wf_state(st: StateView) -> bool {
    &&& plain_text(st.source_id)
    &&& st.timestamp <= MAX_TICK
    &&& forall|i: int| 0 <= i < st.joints.len() ==> wf_joint(#[trigger] st.joints[i])
    &&& forall|i: int| 0 <= i < st.joints.len() ==> (#[trigger] st.joints[i]).timestamp <= st.timestamp
    &&& forall|i: int, k: int|
        0 <= i < k < st.joints.len() ==> (#[trigger] st.joints[i]).name != (#[trigger] st.joints[k]).name
}

/// Whether `name` is nonempty plain text.
pub fn plain_name(name: &Vec<u8>) -> (r: bool)
    ensures
        r == (name@.len() > 0 && plain_text(name@)),
{
    if name.len() == 0 {
        return false;
    }
    let n: usize = name.len();
    let mut k: usize = 0;
    while k < n
        invariant
            0 <= k <= n,
            n == name@.len(),
            forall|m: int| 0 <= m < k ==> plain_byte(#[trigger] name@[m]),
        decreases n - k,
    {
        let b = name[k];
        if b < 0x20 || b > 0x7e || b == 0x22 || b == 0x5c {
            assert(!plain_byte(name@[k as int]));
            return false;
        }
        k = k + 1;
    }
    assert(plain_text(name@));
    true
}

/// Whether `s` is plain text (it may be empty).
pub fn plain_string(s: &Vec<u8>) -> (r: bool)
    ensures
        r == plain_text(s@),
{
    let n: usize = s.len();
    let mut k: usize = 0;
    while k < n
        invariant
            0 <= k <= n,
            n == s@.len(),
            forall|m: int| 0 <= m < k ==> plain_byte(#[trigger] s@[m]),
        decreases n - k,
    {
        let b = s[k];
        if b < 0x20 || b > 0x7e || b == 0x22 || b == 0x5c {
            assert(!plain_byte(s@[k as int]));
            return false;
        }
        k = k + 1;
    }
    assert(plain_text(s@));
    true
}

impl JointAngles {
    /// Executable well-formedness, matching `wf_joint` on the view.
    pub open spec fn wf(&self) -> bool {
        wf_joint(self@)
    }

    /// Decides well-formedness of this reading.
    pub fn check_wf(&self) -> (r: bool)
        ensures
            r == self.wf(),
    {
        plain_name(&self.joint_name) && self.timestamp <= MAX_TICK && self.angle_urad
            > i64::MIN && self.velocity_urad > i64::MIN && self.torque_unm > i64::MIN
    }
}

impl RobotState {
    /// Executable well-formedness, matching `wf_state` on the view.
    pub open spec fn wf(&self) -> bool {
        wf_state(self@)
    }

    /// Decides well-formedness of this snapshot: plain source, tick in
    /// range and covering every joint's tick, well-formed joints, unique
    /// names.
    pub fn check_wf(&self) -> (r: bool)
        ensures
            r == self.wf(),
    {
        if !plain_string(&self.source_id) {
            return false;
        }
        if self.timestamp > MAX_TICK {
            return false;
        }
        let n: usize = self.joints.len();
        let mut k: usize = 0;
        while k < n
            invariant
                0 <= k <= n,
                n == self.joints@.len(),
                forall|i: int| 0 <= i < k ==> wf_joint(#[trigger] self@.joints[i]),
                forall|i: int|
                    0 <= i < k ==> (#[trigger] self@.joints[i]).timestamp
                        <= self.timestamp as nat,
                forall|i: int, m: int|
                    0 <= i < m < k ==> (#[trigger] self@.joints[i]).name != (
                    #[trigger] self@.joints[m]).name,
            decreases n - k,
        {
            if !self.joints[k].check_wf() {
                assert(!wf_joint(self@.joints[k as int]));
                return false;
            }
            if self.joints[k].timestamp > self.timestamp {
                assert(self@.joints[k as int].timestamp > self.timestamp as nat);
                return false;
            }
            let mut m: usize = 0;
            while m < k
                invariant
                    0 <= m <= k < n,
                    n == self.joints@.len(),
                    forall|i: int|
                        0 <= i < m ==> (#[trigger] self@.joints[i]).name
                            != self@.joints[k as int].name,
                decreases k - m,
            {
                if crate::registry::bytes_eq(&self.joints[m].joint_name, &self.joints[k].joint_name)
                {
                    assert(self@.joints[m as int].name == self@.joints[k as int].name);
                    return false;
                }
                m = m + 1;
            }
            k = k + 1;
        }
        true
    }
}

} // verus!
