//! The frequency histogram a sample set is folded into.
//!
//! Occurrence counts live in a hash map under rustc-hash's Fx hasher — a
//! fast non-cryptographic hasher, fitting for counting under a benchmark —
//! reached through the trusted wrappers below. Since a hash map hands its
//! entries out in no usable order, and percentile computation must walk
//! values ascending, the histogram also keeps its key set as a sorted
//! vector, maintained on every insertion.

use vstd::prelude::*;
use rustc_hash::FxBuildHasher;
use std::collections::HashMap;
use crate::dist::{key_in_prefix, strictly_sorted};

verus! {

/// Declares `rustc_hash::FxBuildHasher`, the hasher family under every map
/// in this crate. It is a unit struct whose hashers all start from the same
/// state, so maps built over it behave as ordinary maps.
#[verifier::external_type_specification]
#[verifier::external_body]
pub struct ExFxBuildHasher(FxBuildHasher);

/// Relies on `HashMap::get` with the Fx hasher: `FxBuildHasher` builds
/// identical deterministic hashers, so lookup follows the map view exactly.
#[verifier::external_body]
fn fx_get(m: &HashMap<u64, u64, FxBuildHasher>, k: u64) -> (r: Option<u64>)
    ensures
        r == if m@.contains_key(k) {
            Some(m@[k])
        } else {
            None::<u64>
        },
{
    m.get(&k).copied()
}

/// Relies on `HashMap::insert` with the Fx hasher, as `fx_get` does.
#[verifier::external_body]
fn fx_insert(m: &mut HashMap<u64, u64, FxBuildHasher>, k: u64, v: u64)
    ensures
        final(m)@ == old(m)@.insert(k, v),
{
    m.insert(k, v);
}

/// The count the histogram holds for `v` after one more occurrence of `v`.
pub open spec fn spec_record(m: Map<u64, u64>, v: u64) -> Map<u64, u64> {
    if m.contains_key(v) {
        m.insert(v, (m[v] + 1) as u64)
    } else {
        m.insert(v, 1u64)
    }
}

/// A mapping from duration value to occurrence count, with its key set held
/// ascending for the percentile walk.
pub struct Histogram {
    counts: HashMap<u64, u64, FxBuildHasher>,
    keys: Vec<u64>,
}

impl View for Histogram {
    type V = Map<u64, u64>;

    closed spec fn view(&self) -> Map<u64, u64> {
        self.counts@
    }
}

impl Histogram {
    /// The sorted key vector mirrors the map's domain, and every held count
    /// is at least one.
    pub closed spec fn wf(self) -> bool {
        &&& strictly_sorted(self.keys@)
        &&& forall|i: int|
            0 <= i < self.keys@.len() ==> self.counts@.contains_key(#[trigger] self.keys@[i])
        &&& forall|k: u64|
            self.counts@.contains_key(k) ==> key_in_prefix(
                self.keys@,
                self.keys@.len() as int,
                k,
            )
        &&& forall|k: u64| self.counts@.contains_key(k) ==> #[trigger] self.counts@[k] >= 1
    }

    /// The distinct values held, ascending.
    pub closed spec fn spec_keys(self) -> Seq<u64> {
        self.keys@
    }

    /// An empty histogram.
    pub fn new() -> (h: Histogram)
        ensures
            h.wf(),
            h@ == Map::<u64, u64>::empty(),
            h.spec_keys() == Seq::<u64>::empty(),
    {
        Histogram { counts: rustc_hash::FxHashMap::default(), keys: Vec::new() }
    }

    /// Folds one more sample into the histogram: its value's count rises by
    /// one, every other entry stays.
    pub fn record(&mut self, v: u64)
        requires
            old(self).wf(),
            old(self)@.contains_key(v) ==> old(self)@[v] < u64::MAX,
        ensures
            final(self).wf(),
            final(self)@ == spec_record(old(self)@, v),
            old(self)@.contains_key(v) ==> final(self).spec_keys() == old(self).spec_keys(),
    {
        let ghost old_self = *self;
        match fx_get(&self.counts, v) {
            Some(c) => {
                fx_insert(&mut self.counts, v, c + 1);
                proof {
                    assert(key_in_prefix(self.keys@, self.keys@.len() as int, v));
                    assert forall|k: u64| self.counts@.contains_key(k) implies key_in_prefix(
                        self.keys@,
                        self.keys@.len() as int,
                        k,
                    ) by {
                        if k != v {
                            assert(old_self.counts@.contains_key(k));
                        }
                    }
                }
            },
            None => {
                proof {
                    assert forall|i: int| 0 <= i < self.keys@.len() implies self.keys@[i] != v by {
                        assert(self.counts@.contains_key(self.keys@[i]));
                    }
                }
                fx_insert(&mut self.counts, v, 1);
                insert_sorted(&mut self.keys, v);
                proof {
                    assert forall|i: int| 0 <= i < self.keys@.len() implies self.counts@.contains_key(
                        #[trigger] self.keys@[i],
                    ) by {
                        assert(key_in_prefix(self.keys@, self.keys@.len() as int, self.keys@[i]));
                        if self.keys@[i] != v {
                            let j = crate::dist::key_index(
                                old_self.keys@,
                                old_self.keys@.len() as int,
                                self.keys@[i],
                            );
                            assert(old_self.counts@.contains_key(old_self.keys@[j]));
                        }
                    }
                    assert forall|k: u64| self.counts@.contains_key(k) implies key_in_prefix(
                        self.keys@,
                        self.keys@.len() as int,
                        k,
                    ) by {
                        if k != v {
                            assert(old_self.counts@.contains_key(k));
                        }
                    }
                }
            },
        }
    }

    /// The distinct values held, ascending; each is a key of the map view.
    pub fn sorted_keys(&self) -> (r: &Vec<u64>)
        ensures
            r@ == self.spec_keys(),
    {
        &self.keys
    }

    /// The count held for one value.
    pub fn count_of(&self, v: u64) -> (r: u64)
        requires
            self.wf(),
        ensures
            r == if self@.contains_key(v) {
                self@[v]
            } else {
                0u64
            },
    {
        match fx_get(&self.counts, v) {
            Some(c) => c,
            None => 0,
        }
    }
}

/// What well-formedness guarantees, stated for callers outside this module:
/// the key vector is ascending and holds exactly the map's keys, and every
/// held count is at least one.
pub proof fn lemma_wf_facts(h: &Histogram)
    requires
        h.wf(),
    ensures
        strictly_sorted(h.spec_keys()),
        forall|k: u64| #[trigger] h@.contains_key(k) ==> h@[k] >= 1,
        forall|k: u64|
            #[trigger] h@.contains_key(k) <==> key_in_prefix(
                h.spec_keys(),
                h.spec_keys().len() as int,
                k,
            ),
{
    assert forall|k: u64|
        #[trigger] h@.contains_key(k) <==> key_in_prefix(
            h.spec_keys(),
            h.spec_keys().len() as int,
            k,
        ) by {
        if key_in_prefix(h.spec_keys(), h.spec_keys().len() as int, k) {
            let i = crate::dist::key_index(h.spec_keys(), h.spec_keys().len() as int, k);
            assert(h.counts@.contains_key(h.keys@[i]));
        }
    }
}

/// Puts `v` into its place in a strictly ascending vector it is not yet in.
fn insert_sorted(keys: &mut Vec<u64>, v: u64)
    requires
        strictly_sorted(old(keys)@),
        forall|i: int| 0 <= i < old(keys)@.len() ==> old(keys)@[i] != v,
    ensures
        strictly_sorted(final(keys)@),
        final(keys)@.len() == old(keys)@.len() + 1,
        forall|x: u64|
            key_in_prefix(final(keys)@, final(keys)@.len() as int, x) <==> (key_in_prefix(
                old(keys)@,
                old(keys)@.len() as int,
                x,
            ) || x == v),
{
    let ghost old_seq = keys@;
    let mut idx: usize = 0;
    while idx < keys.len() && keys[idx] < v
        invariant
            0 <= idx <= keys@.len(),
            keys@ == old_seq,
            forall|i: int| 0 <= i < idx ==> keys@[i] < v,
        decreases keys@.len() - idx,
    {
        idx = idx + 1;
    }
    proof {
        old_seq.insert_ensures(idx as int, v);
    }
    keys.insert(idx, v);
    assert forall|x: u64|
        key_in_prefix(keys@, keys@.len() as int, x) <==> (key_in_prefix(
            old_seq,
            old_seq.len() as int,
            x,
        ) || x == v) by {
        if key_in_prefix(keys@, keys@.len() as int, x) {
            let i = crate::dist::key_index(keys@, keys@.len() as int, x);
            if i < idx {
                assert(old_seq[i] == x);
            } else if i > idx {
                assert(old_seq[i - 1] == x);
            }
        }
        if key_in_prefix(old_seq, old_seq.len() as int, x) {
            let i = crate::dist::key_index(old_seq, old_seq.len() as int, x);
            if i < idx {
                assert(keys@[i] == x);
            } else {
                assert(keys@[i + 1] == x);
            }
        }
        if x == v {
            assert(keys@[idx as int] == x);
        }
    }
    assert forall|i: int, j: int| 0 <= i < j < keys@.len() implies keys@[i] < keys@[j] by {
        if i < idx {
            assert(keys@[i] == old_seq[i]);
        } else if i == idx {
            assert(keys@[i] == v);
        } else {
            assert(keys@[i] == old_seq[i - 1]);
        }
        if j < idx {
            assert(keys@[j] == old_seq[j]);
        } else if j == idx {
            assert(keys@[j] == v);
        } else {
            assert(keys@[j] == old_seq[j - 1]);
        }
        if idx < old_seq.len() {
            assert(old_seq[idx as int] != v);
        }
    }
}

} // verus!
