//! Producer-side snapshot building: gather the registry's joint values at a
//! cadence, estimate velocities, and encode a frame to send.
//!
//! The host loop owns the clock and the socket; it reports how many
//! microseconds have passed since the last publish, takes the encoded frame
//! back, and sends it. One send per tick, fire and forget.

use vstd::prelude::*;
use crate::state::{
    plain_text, wf_joint, wf_state, wf_topic, JointAngles, JointView, RobotState, StateView,
    MAX_TICK,
};
use crate::codec::{enc_frame, encode};
use crate::registry::{wf_entry, wf_registry, JointEntryView, JointRegistry};

verus! {

/// Division truncating toward zero, the machine's signed division.
pub open spec fn trunc_div(d: int, e: int) -> int {
    if d >= 0 {
        d / e
    } else {
        -((-d) / e)
    }
}

/// The elapsed time used for velocity estimation: at least one microsecond
/// (avoiding division by zero), and within the signed range.
pub open spec fn elapsed_floor(elapsed: int) -> int {
    if elapsed < 1 {
        1
    } else if elapsed > i64::MAX {
        i64::MAX as int
    } else {
        elapsed
    }
}

/// Instantaneous velocity estimate, in micro-radians per second: the value
/// change over the floored elapsed time.
pub open spec fn vel_estimate(cur: int, last: int, elapsed: int) -> int {
    trunc_div((cur - last) * 1_000_000, elapsed_floor(elapsed))
}

/// The reading published for one registry entry.
pub open spec fn snapshot_joint(e: JointEntryView, ts: nat, elapsed: int) -> JointView {
    JointView {
        timestamp: ts,
        name: e.name,
        angle: e.current,
        velocity: vel_estimate(e.current, e.last_applied, elapsed),
        torque: 0,
    }
}

/// The readings published for the whole registry, in entry order.
pub open spec fn snapshot_joints(
    entries: Seq<JointEntryView>,
    ts: nat,
    elapsed: int,
) -> Seq<JointView> {
    entries.map_values(|e: JointEntryView| snapshot_joint(e, ts, elapsed))
}

/// The registry after a publish: every entry's last-applied value has
/// caught up with its current value.
pub open spec fn synced_entries(entries: Seq<JointEntryView>) -> Seq<JointEntryView> {
    entries.map_values(|e: JointEntryView| e.synced())
}

/// Signed division truncating toward zero.
fn div_trunc(d: i64, e: i64) -> (r: i64)
    requires
        e >= 1,
        d > i64::MIN,
    ensures
        r == trunc_div(d as int, e as int),
        (if d >= 0 { r <= d } else { d <= r }),
        r > i64::MIN,
{
    if d >= 0 {
        let q: u64 = (d as u64) / (e as u64);
        q as i64
    } else {
        let m: u64 = (-d) as u64;
        let q: u64 = m / (e as u64);
        -(q as i64)
    }
}

/// Builds the snapshot for tick `ts` from the registry's current values,
/// estimating each joint's velocity against the elapsed time, and marks
/// every entry's value as applied.
pub fn collect_snapshot(
    reg: &mut JointRegistry,
    ts: u64,
    source_id: &Vec<u8>,
    elapsed_micros: u64,
) -> (st: RobotState)
    requires
        wf_registry(old(reg)@),
        ts <= MAX_TICK,
        plain_text(source_id@),
    ensures
        wf_registry(final(reg)@),
        final(reg)@ =~= synced_entries(old(reg)@),
        st@ =~= (StateView {
            timestamp: ts as nat,
            source_id: source_id@,
            joints: snapshot_joints(old(reg)@, ts as nat, elapsed_micros as int),
        }),
        st.wf(),
{
    let e64: i64 = if elapsed_micros == 0 {
        1
    } else if elapsed_micros > 0x7fff_ffff_ffff_ffff {
        i64::MAX
    } else {
        elapsed_micros as i64
    };
    assert(e64 as int == elapsed_floor(elapsed_micros as int));
    let mut joints: Vec<JointAngles> = Vec::new();
    let n: usize = reg.entries.len();
    let mut k: usize = 0;
    while k < n
        invariant
            0 <= k <= n,
            n == reg.entries@.len(),
            reg@.len() == n,
            old(reg)@.len() == n,
            wf_registry(old(reg)@),
            e64 as int == elapsed_floor(elapsed_micros as int),
            e64 >= 1,
            ts <= MAX_TICK,
            forall|i: int| k <= i < n ==> #[trigger] reg@[i] == old(reg)@[i],
            forall|i: int| 0 <= i < k ==> #[trigger] reg@[i] == old(reg)@[i].synced(),
            joints@.len() == k,
            forall|i: int|
                0 <= i < k ==> (#[trigger] joints@[i])@ == snapshot_joint(
                    old(reg)@[i],
                    ts as nat,
                    elapsed_micros as int,
                ),
        decreases n - k,
    {
        proof {
            assert(reg@[k as int] == old(reg)@[k as int]);
            assert(wf_entry(old(reg)@[k as int]));
        }
        let cur: i64 = reg.entries[k].current_value;
        let last: i64 = reg.entries[k].last_applied_value;
        let delta: i64 = cur - last;
        let scaled: i64 = delta * 1_000_000;
        let vel: i64 = div_trunc(scaled, e64);
        let name_copy: Vec<u8> = reg.entries[k].name.clone();
        proof {
            assert(name_copy@ =~= old(reg)@[k as int].name);
        }
        let ghost before = reg@;
        reg.entries[k].last_applied_value = cur;
        proof {
            assert(reg@[k as int] =~= old(reg)@[k as int].synced());
            assert(forall|i: int|
                0 <= i < n && i != k ==> #[trigger] reg@[i] == before[i]);
        }
        let reading = JointAngles {
            timestamp: ts,
            joint_name: name_copy,
            angle_urad: cur,
            velocity_urad: vel,
            torque_unm: 0,
        };
        proof {
            assert(reading@ =~= snapshot_joint(
                old(reg)@[k as int],
                ts as nat,
                elapsed_micros as int,
            ));
        }
        joints.push(reading);
        k = k + 1;
    }
    let st = RobotState { timestamp: ts, source_id: source_id_copy(source_id), joints };
    proof {
        assert(st@.joints =~= snapshot_joints(old(reg)@, ts as nat, elapsed_micros as int));
        assert(st@ =~= (StateView {
            timestamp: ts as nat,
            source_id: source_id@,
            joints: snapshot_joints(old(reg)@, ts as nat, elapsed_micros as int),
        }));
        assert(reg@ =~= synced_entries(old(reg)@));
        // the snapshot is well-formed: every reading mirrors a well-formed
        // entry, and entry names are unique
        assert forall|i: int| 0 <= i < st@.joints.len() implies wf_joint(
            #[trigger] st@.joints[i],
        ) by {
            assert(wf_entry(old(reg)@[i]));
            assert(st@.joints[i] == snapshot_joint(old(reg)@[i], ts as nat, elapsed_micros as int));
        }
        assert forall|i: int, m: int| 0 <= i < m < st@.joints.len() implies (
        #[trigger] st@.joints[i]).name != (#[trigger] st@.joints[m]).name by {
            assert(st@.joints[i].name == old(reg)@[i].name);
            assert(st@.joints[m].name == old(reg)@[m].name);
        }
        assert(wf_state(st@));
    }
    st
}

/// Copies a byte string.
fn source_id_copy(s: &Vec<u8>) -> (r: Vec<u8>)
    ensures
        r@ == s@,
{
    let r = s.clone();
    proof {
        assert(r@ =~= s@);
    }
    r
}

/// Producer-side publish state: where frames go, who they speak for, how
/// often they leave, and the tick counter stamped on each snapshot.
#[derive(Debug)]
pub struct Publisher {
    pub topic: Vec<u8>,
    pub source_id: Vec<u8>,
    pub interval_micros: u64,
    pub seq: u64,
}

impl Publisher {
    /// Publisher invariant: a well-formed topic and a plain source
    /// identifier.
    pub open spec fn wf(&self) -> bool {
        &&& wf_topic(self.topic@)
        &&& plain_text(self.source_id@)
    }

    /// A publisher that has sent nothing yet.
    pub fn new(topic: Vec<u8>, source_id: Vec<u8>, interval_micros: u64) -> (r: Publisher)
        ensures
            r.topic@ == topic@,
            r.source_id@ == source_id@,
            r.interval_micros == interval_micros,
            r.seq == 0,
    {
        Publisher { topic, source_id, interval_micros, seq: 0 }
    }

    /// One cadence check: when at least the publish interval has passed
    /// since the last publish, advance the tick, take a snapshot of the
    /// registry, and hand back the encoded frame to send; otherwise do
    /// nothing. The caller reports the elapsed time and resets its timer
    /// exactly when a frame comes back.
    pub fn publish_if_due(
        &mut self,
        reg: &mut JointRegistry,
        elapsed_micros: u64,
    ) -> (r: Option<Vec<u8>>)
        requires
            old(self).wf(),
            wf_registry(old(reg)@),
            old(self).seq < MAX_TICK,
        ensures
            final(self).wf(),
            wf_registry(final(reg)@),
            final(self).topic@ == old(self).topic@,
            final(self).source_id@ == old(self).source_id@,
            final(self).interval_micros == old(self).interval_micros,
            elapsed_micros < old(self).interval_micros ==> {
                &&& r is None
                &&& final(self).seq == old(self).seq
                &&& final(reg)@ =~= old(reg)@
            },
            elapsed_micros >= old(self).interval_micros ==> {
                &&& final(self).seq == old(self).seq + 1
                &&& final(reg)@ =~= synced_entries(old(reg)@)
                &&& r matches Some(frame) && frame@ == enc_frame(
                    old(self).topic@,
                    StateView {
                        timestamp: (old(self).seq + 1) as nat,
                        source_id: old(self).source_id@,
                        joints: snapshot_joints(
                            old(reg)@,
                            (old(self).seq + 1) as nat,
                            elapsed_micros as int,
                        ),
                    },
                )
            },
    {
        if elapsed_micros < self.interval_micros {
            return None;
        }
        self.seq = self.seq + 1;
        let st = collect_snapshot(reg, self.seq, &self.source_id, elapsed_micros);
        let frame = encode(&self.topic, &st);
        Some(frame)
    }

    /// An immediate, out-of-cadence publish: behaves exactly as if a full
    /// interval had passed, so the caller's cadence timer restarts and the
    /// next scheduled publish does not double-fire.
    pub fn publish_now(&mut self, reg: &mut JointRegistry) -> (r: Vec<u8>)
        requires
            old(self).wf(),
            wf_registry(old(reg)@),
            old(self).seq < MAX_TICK,
        ensures
            final(self).wf(),
            wf_registry(final(reg)@),
            final(self).topic@ == old(self).topic@,
            final(self).source_id@ == old(self).source_id@,
            final(self).interval_micros == old(self).interval_micros,
            final(self).seq == old(self).seq + 1,
            final(reg)@ =~= synced_entries(old(reg)@),
            r@ == enc_frame(
                old(self).topic@,
                StateView {
                    timestamp: (old(self).seq + 1) as nat,
                    source_id: old(self).source_id@,
                    joints: snapshot_joints(
                        old(reg)@,
                        (old(self).seq + 1) as nat,
                        old(self).interval_micros as int,
                    ),
                },
            ),
    {
        let interval = self.interval_micros;
        let r = self.publish_if_due(reg, interval);
        match r {
            Some(frame) => frame,
            None => {
                proof {
                    assert(false);
                }
                Vec::new()
            },
        }
    }
}

} // verus!
