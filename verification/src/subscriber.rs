//! Consumer-side frame handling: decode, topic filtering, staleness
//! rejection, and best-effort application onto the joint registry.
//!
//! The subscriber accepts snapshots in strictly increasing timestamp order
//! and silently drops anything not newer than the last accepted one; that
//! rule is the system's entire consistency mechanism. Readings for unknown
//! joint names are skipped without error.

use vstd::prelude::*;
use crate::state::JointView;
use crate::codec::{decode, spec_decode};
use crate::registry::{
    bytes_eq, clamp_to_range, find_index, lemma_find_index_none, spec_clamp, wf_entry,
    wf_registry, JointEntryView, JointRegistry,
};

verus! {

/// One applied joint write, handed onward for the simulation step. Only the
/// first scalar degree of freedom of a joint is addressed.
#[derive(Debug)]
pub struct JointUpdate {
    pub index: usize,
    pub angle_urad: i64,
    pub velocity_urad: i64,
}

/// Mathematical model of one applied write.
#[verifier::ext_equal]
pub struct JointUpdateView {
    pub index: int,
    pub angle: int,
    pub velocity: int,
}

impl View for JointUpdate {
    type V = JointUpdateView;

    open spec fn view(&self) -> JointUpdateView {
        JointUpdateView {
            index: self.index as int,
            angle: self.angle_urad as int,
            velocity: self.velocity_urad as int,
        }
    }
}

/// What became of one received frame.
#[derive(Debug)]
pub enum ReceiveOutcome {
    /// The frame did not decode; it is discarded, nothing changes.
    Malformed,
    /// The topic is not the configured filter; discarded silently.
    WrongTopic,
    /// The snapshot is not newer than the last accepted one; discarded.
    Stale,
    /// The snapshot was accepted; the writes that reached known joints.
    Applied(Vec<JointUpdate>),
}

/// The registry after one reading is applied best-effort: the entry with
/// the reading's name (if any) takes the clamped angle, the rest keep
/// their state.
pub open spec fn apply_reading(
    entries: Seq<JointEntryView>,
    j: JointView,
) -> Seq<JointEntryView> {
    entries.map_values(
        |e: JointEntryView|
            if e.name == j.name {
                e.with_current(spec_clamp(j.angle, e.min, e.max))
            } else {
                e
            },
    )
}

/// The registry after the first `k` readings of a snapshot.
pub open spec fn apply_upto(
    entries: Seq<JointEntryView>,
    js: Seq<JointView>,
    k: int,
) -> Seq<JointEntryView>
    decreases k,
{
    if k <= 0 {
        entries
    } else {
        apply_reading(apply_upto(entries, js, k - 1), js[k - 1])
    }
}

/// The registry after a whole snapshot.
pub open spec fn apply_snapshot(
    entries: Seq<JointEntryView>,
    js: Seq<JointView>,
) -> Seq<JointEntryView> {
    apply_upto(entries, js, js.len() as int)
}

/// The writes produced by the first `k` readings: one per known name,
/// none for unknown names. Bounds are the entries' own, which no apply
/// changes.
pub open spec fn updates_upto(
    entries: Seq<JointEntryView>,
    js: Seq<JointView>,
    k: int,
) -> Seq<JointUpdateView>
    decreases k,
{
    if k <= 0 {
        Seq::empty()
    } else {
        let prev = updates_upto(entries, js, k - 1);
        match find_index(entries, js[k - 1].name) {
            Some(i) => prev.push(
                JointUpdateView {
                    index: i,
                    angle: spec_clamp(js[k - 1].angle, entries[i].min, entries[i].max),
                    velocity: js[k - 1].velocity,
                },
            ),
            None => prev,
        }
    }
}

/// The writes produced by a whole snapshot.
pub open spec fn snapshot_updates(
    entries: Seq<JointEntryView>,
    js: Seq<JointView>,
) -> Seq<JointUpdateView> {
    updates_upto(entries, js, js.len() as int)
}

/// A found index points at the first entry with that name.
proof fn lemma_find_index_props(entries: Seq<JointEntryView>, name: Seq<u8>, i: int)
    requires
        find_index(entries, name) == Some(i),
    ensures
        0 <= i < entries.len(),
        entries[i].name == name,
    decreases entries.len(),
{
    if entries.len() > 0 && entries[0].name != name {
        lemma_find_index_props(entries.drop_first(), name, i - 1);
    }
}

/// Lookup depends on the names alone.
proof fn lemma_find_index_names(
    e1: Seq<JointEntryView>,
    e2: Seq<JointEntryView>,
    name: Seq<u8>,
)
    requires
        e1.len() == e2.len(),
        forall|i: int| 0 <= i < e1.len() ==> (#[trigger] e1[i]).name == (#[trigger] e2[i]).name,
    ensures
        find_index(e1, name) == find_index(e2, name),
    decreases e1.len(),
{
    if e1.len() > 0 {
        assert(e1[0].name == e2[0].name);
        let r1 = e1.drop_first();
        let r2 = e2.drop_first();
        assert(forall|i: int|
            0 <= i < r1.len() ==> (#[trigger] r1[i]).name == (#[trigger] r2[i]).name) by {
            assert(forall|i: int| 0 <= i < r1.len() ==> r1[i] == e1[i + 1] && r2[i] == e2[i + 1]);
        }
        lemma_find_index_names(r1, r2, name);
    }
}

/// The consumer's receive-side state: the exact topic it accepts and the
/// newest timestamp it has taken up.
#[derive(Debug)]
pub struct Subscriber {
    pub topic_filter: Vec<u8>,
    pub last_accepted: u64,
}

impl Subscriber {
    /// A subscriber that accepts frames on `topic_filter` and has seen
    /// nothing yet.
    pub fn new(topic_filter: Vec<u8>) -> (r: Subscriber)
        ensures
            r.topic_filter@ == topic_filter@,
            r.last_accepted == 0,
    {
        Subscriber { topic_filter, last_accepted: 0 }
    }

    /// Handles one received frame: decode it, require the exact configured
    /// topic, require a strictly newer timestamp, then apply each reading
    /// to the registry entry of the same name — clamped — skipping unknown
    /// names without error. Exactly the accepted snapshot's writes come
    /// back, in reading order.
    pub fn handle_frame(&mut self, frame: &Vec<u8>, reg: &mut JointRegistry) -> (r:
        ReceiveOutcome)
        requires
            wf_registry(old(reg)@),
        ensures
            wf_registry(final(reg)@),
            final(self).topic_filter@ == old(self).topic_filter@,
            old(self).last_accepted <= final(self).last_accepted,
            match spec_decode(frame@) {
                None => {
                    &&& r is Malformed
                    &&& final(self).last_accepted == old(self).last_accepted
                    &&& final(reg)@ =~= old(reg)@
                },
                Some(p) => {
                    if p.0 != old(self).topic_filter@ {
                        &&& r is WrongTopic
                        &&& final(self).last_accepted == old(self).last_accepted
                        &&& final(reg)@ =~= old(reg)@
                    } else if p.1.timestamp <= old(self).last_accepted {
                        &&& r is Stale
                        &&& final(self).last_accepted == old(self).last_accepted
                        &&& final(reg)@ =~= old(reg)@
                    } else {
                        &&& final(self).last_accepted == p.1.timestamp
                        &&& final(reg)@ =~= apply_snapshot(old(reg)@, p.1.joints)
                        &&& r matches ReceiveOutcome::Applied(us) && us@.map_values(
                            |u: JointUpdate| u@,
                        ) =~= snapshot_updates(old(reg)@, p.1.joints)
                    }
                },
            },
    {
        let decoded = match decode(frame) {
            Err(_) => {
                return ReceiveOutcome::Malformed;
            },
            Ok(d) => d,
        };
        let (topic, st) = decoded;
        if !bytes_eq(&topic, &self.topic_filter) {
            return ReceiveOutcome::WrongTopic;
        }
        if st.timestamp <= self.last_accepted {
            return ReceiveOutcome::Stale;
        }
        self.last_accepted = st.timestamp;
        let ghost jsv = st@.joints;
        let ghost orig = reg@;
        let mut updates: Vec<JointUpdate> = Vec::new();
        let n: usize = st.joints.len();
        let mut k: usize = 0;
        while k < n
            invariant
                0 <= k <= n,
                n == st.joints@.len(),
                jsv == st@.joints,
                jsv.len() == n,
                wf_registry(orig),
                wf_registry(reg@),
                reg@.len() == orig.len(),
                forall|i: int|
                    0 <= i < orig.len() ==> (#[trigger] reg@[i]).name == orig[i].name
                        && reg@[i].min == orig[i].min && reg@[i].max == orig[i].max,
                reg@ =~= apply_upto(orig, jsv, k as int),
                updates@.map_values(|u: JointUpdate| u@) =~= updates_upto(orig, jsv, k as int),
            decreases n - k,
        {
            let ghost before = reg@;
            let ghost jv = st.joints@[k as int]@;
            assert(jsv[k as int] == st.joints@[k as int]@);
            match reg.find(&st.joints[k].joint_name) {
                Some(i) => {
                    proof {
                        lemma_find_index_props(reg@, st.joints@[k as int].joint_name@, i as int);
                        lemma_find_index_names(reg@, orig, st.joints@[k as int].joint_name@);
                        assert(wf_entry(before[i as int]));
                    }
                    let lo = entry_min_bound(reg, i);
                    let hi = entry_max_bound(reg, i);
                    let v = clamp_to_range(st.joints[k].angle_urad, lo, hi);
                    reg.entries[i].current_value = v;
                    updates.push(
                        JointUpdate {
                            index: i,
                            angle_urad: v,
                            velocity_urad: st.joints[k].velocity_urad,
                        },
                    );
                    proof {
                        assert(reg@[i as int] =~= before[i as int].with_current(v as int));
                        assert(forall|m: int|
                            0 <= m < before.len() && m != i ==> #[trigger] reg@[m] == before[m]);
                        assert forall|m: int|
                            0 <= m < before.len() implies #[trigger] apply_reading(before, jv)[m]
                            == reg@[m] by {
                            if m != i {
                                assert(before[m].name != before[i as int].name);
                            }
                        }
                        assert(reg@ =~= apply_reading(before, jv));
                        assert(updates@.map_values(|u: JointUpdate| u@) =~= updates_upto(
                            orig,
                            jsv,
                            k as int + 1,
                        ));
                    }
                },
                None => {
                    proof {
                        lemma_find_index_none(reg@, st.joints@[k as int].joint_name@);
                        lemma_find_index_names(reg@, orig, st.joints@[k as int].joint_name@);
                        assert forall|m: int|
                            0 <= m < before.len() implies #[trigger] apply_reading(before, jv)[m]
                            == reg@[m] by {
                            assert(before[m].name != jv.name);
                        }
                        assert(reg@ =~= apply_reading(before, jv));
                    }
                },
            }
            k = k + 1;
        }
        proof {
            assert(reg@ =~= apply_snapshot(orig, jsv));
            assert(updates@.map_values(|u: JointUpdate| u@) =~= snapshot_updates(orig, jsv));
        }
        ReceiveOutcome::Applied(updates)
    }
}

/// The lower bound of entry `i`.
fn entry_min_bound(reg: &JointRegistry, i: usize) -> (r: i64)
    requires
        i < reg@.len(),
    ensures
        r as int == reg@[i as int].min,
{
    reg.entries[i].min_bound
}

/// The upper bound of entry `i`.
fn entry_max_bound(reg: &JointRegistry, i: usize) -> (r: i64)
    requires
        i < reg@.len(),
    ensures
        r as int == reg@[i as int].max,
{
    reg.entries[i].max_bound
}

} // verus!
