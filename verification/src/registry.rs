//! The joint registry: a name-indexed table of controllable joints with
//! bounds, used by both a manual-control producer and the consumer-side
//! apply step.
//!
//! Values and bounds are fixed-point millionths of a radian. Every write
//! through the registry clamps into the entry's `[min_bound, max_bound]`.

use vstd::prelude::*;
use vstd::pervasive::VecAdditionalExecFns;
use crate::state::{plain_name, plain_text};

verus! {

/// Largest magnitude a joint bound may have, in millionths of a radian.
/// Generous for physical joints, and small enough that range arithmetic
/// never overflows a 64-bit value.
pub const BOUND_LIMIT: i64 = 1_000_000_000_000;

/// Fallback bound used for joints whose model declares no usable range:
/// one and a half radians either way.
pub const DEFAULT_BOUND: i64 = 1_500_000;

/// A fraction of a range is carried in millionths: this is the whole range.
pub const FRACTION_ONE: u64 = 1_000_000;

/// Clamping into a closed interval, the registry's single write rule.
pub open spec fn spec_clamp(v: int, lo: int, hi: int) -> int {
    if v < lo {
        lo
    } else if v > hi {
        hi
    } else {
        v
    }
}

/// Mathematical model of one registry entry.
#[verifier::ext_equal]
pub struct JointEntryView {
    pub name: Seq<u8>,
    pub current: int,
    pub min: int,
    pub max: int,
    pub last_applied: int,
}

impl JointEntryView {
    /// The entry after a manual write of `v`: the current value and the
    /// last-applied value both move, so the next published velocity is zero.
    pub open spec fn with_value(self, v: int) -> JointEntryView {
        JointEntryView { current: v, last_applied: v, ..self }
    }

    /// The entry after a consumer-side apply of `v`: only the current value
    /// moves.
    pub open spec fn with_current(self, v: int) -> JointEntryView {
        JointEntryView { current: v, ..self }
    }

    /// The entry with the last-applied value caught up to the current one,
    /// as a published snapshot leaves it.
    pub open spec fn synced(self) -> JointEntryView {
        JointEntryView { last_applied: self.current, ..self }
    }
}

/// Entry invariant: a nonempty plain name, ordered bounds within the
/// representable band, and both values clamped into the bounds.
pub open spec fn wf_entry(e: JointEntryView) -> bool {
    &&& e.name.len() > 0
    &&& plain_text(e.name)
    &&& -BOUND_LIMIT <= e.min <= e.max <= BOUND_LIMIT
    &&& e.min <= e.current <= e.max
    &&& e.min <= e.last_applied <= e.max
}

/// One controllable joint: its name, bounds, current value, and the value
/// last taken up by a published snapshot (used for velocity estimation).
#[derive(Debug)]
pub struct JointRegistryEntry {
    pub name: Vec<u8>,
    pub current_value: i64,
    pub min_bound: i64,
    pub max_bound: i64,
    pub last_applied_value: i64,
}

impl View for JointRegistryEntry {
    type V = JointEntryView;

    open spec fn view(&self) -> JointEntryView {
        JointEntryView {
            name: self.name@,
            current: self.current_value as int,
            min: self.min_bound as int,
            max: self.max_bound as int,
            last_applied: self.last_applied_value as int,
        }
    }
}

/// The registry: entries with unique names, owned by one process.
#[derive(Debug)]
pub struct JointRegistry {
    pub entries: Vec<JointRegistryEntry>,
}

impl View for JointRegistry {
    type V = Seq<JointEntryView>;

    open spec fn view(&self) -> Seq<JointEntryView> {
        self.entries@.map_values(|e: JointRegistryEntry| e@)
    }
}

/// Registry invariant: every entry well-formed, names unique.
pub open spec fn wf_registry(entries: Seq<JointEntryView>) -> bool {
    &&& forall|i: int| 0 <= i < entries.len() ==> wf_entry(#[trigger] entries[i])
    &&& forall|i: int, k: int|
        0 <= i < k < entries.len() ==> (#[trigger] entries[i]).name != (
        #[trigger] entries[k]).name
}

/// Index of the entry carrying `name`, if any.
pub open spec fn find_index(entries: Seq<JointEntryView>, name: Seq<u8>) -> Option<int>
    decreases entries.len(),
{
    if entries.len() == 0 {
        None
    } else if entries[0].name == name {
        Some(0int)
    } else {
        match find_index(entries.drop_first(), name) {
            None => None,
            Some(i) => Some(i + 1),
        }
    }
}

/// `find_index` returns the first position whose name matches.
pub proof fn lemma_find_index_char(entries: Seq<JointEntryView>, name: Seq<u8>, m: int)
    requires
        0 <= m <= entries.len(),
        forall|k: int| 0 <= k < m ==> (#[trigger] entries[k]).name != name,
        m == entries.len() || entries[m].name == name,
    ensures
        find_index(entries, name) == if m == entries.len() {
            None::<int>
        } else {
            Some(m)
        },
    decreases entries.len(),
{
    if entries.len() > 0 {
        if m == 0 {
        } else {
            assert(entries[0].name != name);
            let rest = entries.drop_first();
            assert(forall|k: int| 0 <= k < m - 1 ==> (#[trigger] rest[k]).name != name);
            lemma_find_index_char(rest, name, m - 1);
        }
    }
}

/// A missing name is in no entry.
pub proof fn lemma_find_index_none(entries: Seq<JointEntryView>, name: Seq<u8>)
    requires
        find_index(entries, name) is None,
    ensures
        forall|i: int| 0 <= i < entries.len() ==> (#[trigger] entries[i]).name != name,
    decreases entries.len(),
{
    if entries.len() > 0 {
        if entries[0].name == name {
        } else {
            lemma_find_index_none(entries.drop_first(), name);
            assert(forall|i: int|
                1 <= i < entries.len() ==> #[trigger] entries[i] == entries.drop_first()[i - 1]);
        }
    }
}

/// Byte-string equality.
pub fn bytes_eq(a: &Vec<u8>, b: &Vec<u8>) -> (r: bool)
    ensures
        r == (a@ == b@),
{
    if a.len() != b.len() {
        assert(a@ != b@);
        return false;
    }
    let n: usize = a.len();
    let mut k: usize = 0;
    while k < n
        invariant
            0 <= k <= n,
            n == a@.len() && n == b@.len(),
            forall|m: int| 0 <= m < k ==> #[trigger] a@[m] == b@[m],
        decreases n - k,
    {
        if a[k] != b[k] {
            return false;
        }
        k = k + 1;
    }
    assert(a@ =~= b@);
    true
}

/// Clamps `value` into `[min, max]` — linear, no interpolation.
pub fn clamp_to_range(value: i64, min: i64, max: i64) -> (r: i64)
    requires
        min <= max,
    ensures
        r == spec_clamp(value as int, min as int, max as int),
        min <= r <= max,
{
    if value < min {
        min
    } else if value > max {
        max
    } else {
        value
    }
}

/// The registry after writing `target`, clamped, to the entry named `name`
/// (both values follow the write); other entries keep their state.
pub open spec fn set_value_effect(
    entries: Seq<JointEntryView>,
    name: Seq<u8>,
    target: int,
) -> Seq<JointEntryView> {
    entries.map_values(
        |e: JointEntryView|
            if e.name == name {
                e.with_value(spec_clamp(target, e.min, e.max))
            } else {
                e
            },
    )
}

impl JointRegistry {
    /// An empty registry.
    pub fn new() -> (r: JointRegistry)
        ensures
            r@ =~= Seq::<JointEntryView>::empty(),
            wf_registry(r@),
    {
        let r = JointRegistry { entries: Vec::new() };
        proof {
            assert(r@ =~= Seq::<JointEntryView>::empty());
        }
        r
    }

    /// The number of known joints.
    pub fn len(&self) -> (r: usize)
        ensures
            r == self@.len(),
    {
        self.entries.len()
    }

    /// A read of one entry, for rendering or publishing.
    pub fn entry(&self, i: usize) -> (r: &JointRegistryEntry)
        requires
            i < self@.len(),
        ensures
            r@ == self@[i as int],
    {
        &self.entries[i]
    }

    /// Position of the entry named `name`, if the registry knows it.
    pub fn find(&self, name: &Vec<u8>) -> (r: Option<usize>)
        ensures
            match r {
                Some(i) => i < self@.len() && find_index(self@, name@) == Some(i as int),
                None => find_index(self@, name@) is None,
            },
    {
        let n: usize = self.entries.len();
        let mut k: usize = 0;
        while k < n
            invariant
                0 <= k <= n,
                n == self.entries@.len(),
                forall|m: int| 0 <= m < k ==> (#[trigger] self@[m]).name != name@,
            decreases n - k,
        {
            if bytes_eq(&self.entries[k].name, name) {
                proof {
                    lemma_find_index_char(self@, name@, k as int);
                }
                return Some(k);
            }
            k = k + 1;
        }
        proof {
            lemma_find_index_char(self@, name@, n as int);
        }
        None
    }

    /// Registers a joint under `name` with the given bounds; the initial
    /// value is zero clamped into the bounds. Returns false — and leaves the
    /// registry unchanged — when the name is empty, not plain text, already
    /// registered, or the bounds are unordered or out of band.
    pub fn add_joint(&mut self, name: Vec<u8>, min_bound: i64, max_bound: i64) -> (r: bool)
        requires
            wf_registry(old(self)@),
        ensures
            wf_registry(final(self)@),
            r == (name@.len() > 0 && plain_text(name@) && -BOUND_LIMIT <= min_bound <= max_bound
                <= BOUND_LIMIT && find_index(old(self)@, name@) is None),
            r ==> final(self)@ =~= old(self)@.push(
                JointEntryView {
                    name: name@,
                    current: spec_clamp(0, min_bound as int, max_bound as int),
                    min: min_bound as int,
                    max: max_bound as int,
                    last_applied: spec_clamp(0, min_bound as int, max_bound as int),
                },
            ),
            !r ==> final(self)@ =~= old(self)@,
    {
        if !(min_bound <= max_bound && -BOUND_LIMIT <= min_bound && max_bound <= BOUND_LIMIT) {
            return false;
        }
        if !plain_name(&name) {
            return false;
        }
        if self.find(&name).is_some() {
            return false;
        }
        proof {
            lemma_find_index_none(self@, name@);
        }
        let v = clamp_to_range(0, min_bound, max_bound);
        let entry = JointRegistryEntry {
            name: name,
            current_value: v,
            min_bound: min_bound,
            max_bound: max_bound,
            last_applied_value: v,
        };
        self.entries.push(entry);
        proof {
            assert(self@ =~= old(self)@.push(entry@));
            assert(wf_entry(entry@));
            assert forall|i: int| 0 <= i < self@.len() implies wf_entry(#[trigger] self@[i]) by {
                if i < old(self)@.len() {
                    assert(self@[i] == old(self)@[i]);
                    assert(wf_entry(old(self)@[i]));
                } else {
                    assert(self@[i] == entry@);
                }
            }
            assert forall|i: int, k2: int| 0 <= i < k2 < self@.len() implies (
            #[trigger] self@[i]).name != (#[trigger] self@[k2]).name by {
                if k2 == self@.len() - 1 {
                    assert(self@[i] == old(self)@[i]);
                    assert(old(self)@[i].name != name@);
                } else {
                    assert(self@[i] == old(self)@[i]);
                    assert(self@[k2] == old(self)@[k2]);
                    assert(old(self)@[i].name != old(self)@[k2].name);
                }
            }
        }
        true
    }

    /// Clamps `target` into the bounds of the entry named `name` and writes
    /// it; a silent no-op when the name is unknown. The last-applied value
    /// follows the write, so the next published velocity estimate is zero.
    pub fn set_value(&mut self, name: &Vec<u8>, target: i64)
        requires
            wf_registry(old(self)@),
        ensures
            wf_registry(final(self)@),
            final(self)@ =~= set_value_effect(old(self)@, name@, target as int),
    {
        let n: usize = self.entries.len();
        let mut k: usize = 0;
        while k < n
            invariant
                0 <= k <= n,
                n == self.entries@.len(),
                self@.len() == n,
                old(self)@.len() == n,
                wf_registry(old(self)@),
                forall|i: int| k <= i < n ==> #[trigger] self@[i] == old(self)@[i],
                forall|i: int|
                    0 <= i < k ==> #[trigger] self@[i] == (if old(self)@[i].name == name@ {
                        old(self)@[i].with_value(
                            spec_clamp(target as int, old(self)@[i].min, old(self)@[i].max),
                        )
                    } else {
                        old(self)@[i]
                    }),
            decreases n - k,
        {
            if bytes_eq(&self.entries[k].name, name) {
                proof {
                    assert(self@[k as int] == old(self)@[k as int]);
                    assert(wf_entry(old(self)@[k as int]));
                }
                let lo = self.entries[k].min_bound;
                let hi = self.entries[k].max_bound;
                let v = clamp_to_range(target, lo, hi);
                let ghost before = self@;
                self.entries[k].current_value = v;
                self.entries[k].last_applied_value = v;
                proof {
                    assert(self@[k as int] =~= old(self)@[k as int].with_value(
                        spec_clamp(target as int, old(self)@[k as int].min, old(
                            self,
                        )@[k as int].max),
                    ));
                    assert(forall|i: int|
                        0 <= i < n && i != k ==> #[trigger] self@[i] == before[i]);
                }
            }
            k = k + 1;
        }
        proof {
            assert(self@ =~= set_value_effect(old(self)@, name@, target as int));
            assert forall|i: int| 0 <= i < self@.len() implies wf_entry(#[trigger] self@[i]) by {
                assert(wf_entry(old(self)@[i]));
            }
            assert forall|i: int, k2: int| 0 <= i < k2 < self@.len() implies (
            #[trigger] self@[i]).name != (#[trigger] self@[k2]).name by {
                assert(self@[i].name == old(self)@[i].name);
                assert(self@[k2].name == old(self)@[k2].name);
                assert(old(self)@[i].name != old(self)@[k2].name);
            }
        }
    }
}

/// Whether a model joint passes the name filter: an empty filter admits
/// every joint; otherwise some nonempty prefix must begin the name.
pub open spec fn passes_filter(name: Seq<u8>, prefixes: Seq<Seq<u8>>) -> bool {
    ||| prefixes.len() == 0
    ||| exists|i: int|
        0 <= i < prefixes.len() && (#[trigger] prefixes[i]).len() > 0 && prefixes[i]
            .is_prefix_of(name)
}

/// Decides the name filter for one model joint.
pub fn name_passes_filter(name: &Vec<u8>, prefixes: &Vec<Vec<u8>>) -> (r: bool)
    ensures
        r == passes_filter(name@, prefixes@.map_values(|p: Vec<u8>| p@)),
{
    let ghost pv = prefixes@.map_values(|p: Vec<u8>| p@);
    let np: usize = prefixes.len();
    if np == 0 {
        return true;
    }
    let mut i: usize = 0;
    while i < np
        invariant
            0 <= i <= np,
            np == prefixes@.len(),
            np > 0,
            pv == prefixes@.map_values(|p: Vec<u8>| p@),
            forall|m: int|
                0 <= m < i ==> !((#[trigger] pv[m]).len() > 0 && pv[m].is_prefix_of(name@)),
        decreases np - i,
    {
        if prefixes[i].len() > 0 && is_prefix(&prefixes[i], name) {
            proof {
                assert(pv[i as int].len() > 0 && pv[i as int].is_prefix_of(name@));
            }
            return true;
        }
        i = i + 1;
    }
    false
}

/// Whether `p` begins `s`.
fn is_prefix(p: &Vec<u8>, s: &Vec<u8>) -> (r: bool)
    ensures
        r == p@.is_prefix_of(s@),
{
    if p.len() > s.len() {
        assert(!p@.is_prefix_of(s@));
        return false;
    }
    let n: usize = p.len();
    let mut k: usize = 0;
    while k < n
        invariant
            0 <= k <= n,
            n == p@.len(),
            n <= s@.len(),
            forall|m: int| 0 <= m < k ==> #[trigger] p@[m] == s@[m],
        decreases n - k,
    {
        if p[k] != s[k] {
            proof {
                assert(s@.subrange(0, n as int)[k as int] == s@[k as int]);
                assert(p@ != s@.subrange(0, n as int));
            }
            return false;
        }
        k = k + 1;
    }
    proof {
        assert(p@ =~= s@.subrange(0, n as int));
    }
    true
}

/// The usable bounds for a model joint: its own range when it is declared
/// limited, ordered, and within the representable band; the conservative
/// fallback range otherwise.
pub open spec fn spec_resolve_bounds(limited: bool, min: int, max: int) -> (int, int) {
    if limited && -BOUND_LIMIT <= min < max <= BOUND_LIMIT {
        (min, max)
    } else {
        (-DEFAULT_BOUND as int, DEFAULT_BOUND as int)
    }
}

/// Picks the bounds under which a model joint is registered.
pub fn resolve_bounds(limited: bool, min_urad: i64, max_urad: i64) -> (r: (i64, i64))
    ensures
        (r.0 as int, r.1 as int) == spec_resolve_bounds(limited, min_urad as int, max_urad as int),
        -BOUND_LIMIT <= r.0 < r.1 <= BOUND_LIMIT,
{
    if limited && -BOUND_LIMIT <= min_urad && min_urad < max_urad && max_urad <= BOUND_LIMIT {
        (min_urad, max_urad)
    } else {
        (-DEFAULT_BOUND, DEFAULT_BOUND)
    }
}

} // verus!
