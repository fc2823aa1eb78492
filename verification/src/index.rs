use vstd::prelude::*;

use crate::attribute_cache::{Rid, RID_SENTINEL};

verus! {

broadcast use Rid::lemma_spec_from_u32;

/// The concurrent hash map of flurry.
#[verifier::external_type_specification]
#[verifier::external_body]
#[verifier::reject_recursive_types(K)]
#[verifier::reject_recursive_types(V)]
#[verifier::reject_recursive_types(S)]
pub struct ExFlurryHashMap<K, V, S>(flurry::HashMap<K, V, S>);

/// The hasher that flurry's maps use by default.
#[verifier::external_type_specification]
#[verifier::external_body]
pub struct ExFlurryHasher(flurry::DefaultHashBuilder);

/// The adaptive radix tree of congee, from keys to values; Verus refuses a declaration of
/// congee's tree type (its allocator bound), so the tree is held here.
#[verifier::external_body]
pub struct ArtTree {
    tree: congee::Congee<usize, usize>,
}

/// An epoch guard of congee.
#[verifier::external_type_specification]
#[verifier::external_body]
pub struct ExEpochGuard(congee::epoch::Guard);

/// What a flurry map from keys to record ids holds.
pub uninterp spec fn flurry_entries(m: flurry::HashMap<usize, Rid>) -> Map<usize, Rid>;

/// What a congee tree from keys to values holds.
pub uninterp spec fn congee_entries(t: ArtTree) -> Map<usize, usize>;

/// An empty map (flurry's `HashMap::new`).
#[verifier::external_body]
fn flurry_new() -> (r: flurry::HashMap<usize, Rid>)
    ensures
        flurry_entries(r).is_empty(),
{
    flurry::HashMap::new()
}

/// An empty map with room for `cap` entries (flurry's `HashMap::with_capacity`).
#[verifier::external_body]
fn flurry_with_capacity(cap: usize) -> (r: flurry::HashMap<usize, Rid>)
    ensures
        flurry_entries(r).is_empty(),
{
    flurry::HashMap::with_capacity(cap)
}

/// The record id of `key`, if the map has one (flurry's `get`, under a guard of the map).
#[verifier::external_body]
fn flurry_get(m: &flurry::HashMap<usize, Rid>, key: usize) -> (r: Option<Rid>)
    ensures
        r == flurry_entries(*m).get(key),
{
    m.pin().get(&key).copied()
}

/// Maps `key` to `value`, replacing what it was mapped to (flurry's `insert`, under a guard
/// of the map).
#[verifier::external_body]
fn flurry_insert(m: &mut flurry::HashMap<usize, Rid>, key: usize, value: Rid)
    ensures
        flurry_entries(*final(m)) == flurry_entries(*old(m)).insert(key, value),
{
    m.pin().insert(key, value);
}

/// An empty tree (congee's `Congee::default`).
#[verifier::external_body]
fn congee_new() -> (r: ArtTree)
    ensures
        congee_entries(r).is_empty(),
{
    ArtTree { tree: congee::Congee::default() }
}

/// Enters an epoch (congee's `pin`).
#[verifier::external_body]
fn congee_pin() -> (r: congee::epoch::Guard) {
    congee::epoch::pin()
}

/// The value of `key`, if the tree has one (congee's `get`).
#[verifier::external_body]
fn congee_get(t: &ArtTree, key: usize, guard: &congee::epoch::Guard) -> (r: Option<usize>)
    ensures
        r == congee_entries(*t).get(key),
{
    t.tree.get(&key, guard)
}

/// Maps `key` to `value`, replacing what it was mapped to (congee's `insert`); with the
/// default allocator the insertion does not fail.
#[verifier::external_body]
fn congee_insert(
    t: &mut ArtTree,
    key: usize,
    value: usize,
    guard: &congee::epoch::Guard,
) -> (r: Option<usize>)
    ensures
        congee_entries(*final(t)) == congee_entries(*old(t)).insert(key, value),
        r == congee_entries(*old(t)).get(key),
{
    t.tree.insert(key, value, guard).unwrap()
}

/// Removes `key` and gives back its value, if the tree had one (congee's `remove`).
#[verifier::external_body]
fn congee_remove(t: &mut ArtTree, key: usize, guard: &congee::epoch::Guard) -> (r: Option<usize>)
    ensures
        congee_entries(*final(t)) == congee_entries(*old(t)).remove(key),
        r == congee_entries(*old(t)).get(key),
{
    t.tree.remove(&key, guard)
}

/// The keys of `m` from `low` up to, and not including, `high`.
pub open spec fn keys_in_range(m: Map<usize, usize>, low: usize, high: usize) -> Set<usize> {
    m.dom().filter(|k: usize| low <= k < high)
}

/// The first `n` entries of `out` are the entries of `m` with the `n` smallest keys of
/// `low..high`, in increasing key order, and `n` is the number of such keys or the length of
/// `out`, whichever is smaller: a key of the range left out means that `out` is full, and
/// lies above every key scanned.
pub open spec fn range_scanned(
    m: Map<usize, usize>,
    low: usize,
    high: usize,
    out: Seq<(usize, usize)>,
    n: usize,
) -> bool {
    &&& n <= out.len()
    &&& n == out.len() || n == keys_in_range(m, low, high).len()
    &&& forall|i: int|
        0 <= i < n ==> {
            &&& low <= (#[trigger] out[i]).0 < high
            &&& m.contains_key(out[i].0)
            &&& m[out[i].0] == out[i].1
        }
    &&& forall|i: int, j: int| 0 <= i < j < n ==> (#[trigger] out[i]).0 < (#[trigger] out[j]).0
    &&& forall|k: usize|
        #[trigger] keys_in_range(m, low, high).contains(k) && (forall|i: int|
            0 <= i < n ==> (#[trigger] out[i]).0 != k) ==> n == out.len() && (n > 0 ==> out[n
            - 1].0 < k)
}

/// Scans the keys from `low` up to, and not including, `high` into `out` (congee's
/// `range`): the scan stops when `out` is full, and gives the number of entries written.
#[verifier::external_body]
fn congee_range(
    t: &ArtTree,
    low: usize,
    high: usize,
    out: &mut [(usize, usize)],
    guard: &congee::epoch::Guard,
) -> (r: usize)
    ensures
        final(out)@.len() == old(out)@.len(),
        forall|i: int| r <= i < old(out)@.len() ==> final(out)@[i] == old(out)@[i],
        range_scanned(congee_entries(*t), low, high, final(out)@, r),
{
    t.tree.range(&low, &high, out, guard)
}

/// A guard that keeps what a lookup reads alive while it is used.
pub struct IndexGuard {
    _pinned: (),
}

/// An adaptive radix tree from keys to plain values, such as an index whose keys carry
/// everything a lookup needs.
pub struct RawArt {
    tree: ArtTree,
}

impl RawArt {
    /// The key-to-value entries of the tree.
    pub closed spec fn entries(&self) -> Map<usize, usize> {
        congee_entries(self.tree)
    }

    pub fn new() -> (r: Self)
        ensures
            r.entries().is_empty(),
    {
        RawArt { tree: congee_new() }
    }

    pub fn pin(&self) -> congee::epoch::Guard {
        congee_pin()
    }

    /// Maps `key` to `value`, replacing what it was mapped to; gives back the old value.
    pub fn insert(&mut self, key: usize, value: usize, guard: &congee::epoch::Guard) -> (r: Option<usize>)
        ensures
            final(self).entries() == old(self).entries().insert(key, value),
            r == old(self).entries().get(key),
    {
        congee_insert(&mut self.tree, key, value, guard)
    }

    /// Removes `key`; gives back its value, if it had one.
    pub fn remove(&mut self, key: usize, guard: &congee::epoch::Guard) -> (r: Option<usize>)
        ensures
            final(self).entries() == old(self).entries().remove(key),
            r == old(self).entries().get(key),
    {
        congee_remove(&mut self.tree, key, guard)
    }

    /// Scans the keys from `low` up to, and not including, `high` into `out`; see
    /// `range_scanned`.
    pub fn range(
        &self,
        low: usize,
        high: usize,
        out: &mut [(usize, usize)],
        guard: &congee::epoch::Guard,
    ) -> (r: usize)
        ensures
            final(out)@.len() == old(out)@.len(),
            forall|i: int| r <= i < old(out)@.len() ==> final(out)@[i] == old(out)@[i],
            range_scanned(self.entries(), low, high, final(out)@, r),
    {
        congee_range(&self.tree, low, high, out, guard)
    }
}

/// An index from primary keys to record ids.
pub trait DbIndex: Sized {
    type Guard;

    /// The key-to-record-id entries of the index.
    spec fn entries(&self) -> Map<usize, Rid>;

    fn pin(&self) -> Self::Guard;

    fn get(&self, key: &usize, guard: &Self::Guard) -> (r: Option<Rid>)
        ensures
            r == self.entries().get(*key),
    ;

    fn insert(&mut self, key: usize, value: Rid, guard: &Self::Guard)
        ensures
            final(self).entries() == old(self).entries().insert(key, value),
    ;

    fn new() -> (r: Self)
        ensures
            r.entries() == Map::<usize, Rid>::empty(),
    ;

    fn with_capacity(cap: usize) -> (r: Self)
        ensures
            r.entries() == Map::<usize, Rid>::empty(),
    ;
}

/// An index on an adaptive radix tree, which also scans key ranges.
pub struct Art {
    tree: ArtTree,
}

impl Art {
    /// Every value of the tree is the id of a record.
    #[verifier::type_invariant]
    spec fn values_are_ids(&self) -> bool {
        forall|k: usize| #[trigger]
            congee_entries(self.tree).contains_key(k) ==> congee_entries(self.tree)[k]
                < RID_SENTINEL
    }

    /// The key-to-record-id-offset entries of the tree.
    pub closed spec fn raw_entries(&self) -> Map<usize, usize> {
        congee_entries(self.tree)
    }

    /// The record-id entries are the raw entries, each value read as a record id.
    pub proof fn lemma_raw_entries(&self)
        ensures
            forall|k: usize| #[trigger]
                self.raw_entries().contains_key(k) <==> self.entries().contains_key(k),
            forall|k: usize| #[trigger]
                self.raw_entries().contains_key(k) ==> self.entries()[k] == Rid::spec_from_u32(
                    self.raw_entries()[k] as u32,
                ),
    {
    }

    /// Scans the keys from `low` up to, and not including, `high` into `out`; see
    /// `range_scanned`.
    pub fn range(
        &self,
        low: usize,
        high: usize,
        out_buffer: &mut [(usize, usize)],
        guard: &congee::epoch::Guard,
    ) -> (r: usize)
        ensures
            final(out_buffer)@.len() == old(out_buffer)@.len(),
            forall|i: int|
                r <= i < old(out_buffer)@.len() ==> final(out_buffer)@[i] == old(out_buffer)@[i],
            range_scanned(self.raw_entries(), low, high, final(out_buffer)@, r),
            forall|i: int| 0 <= i < r ==> (#[trigger] final(out_buffer)@[i]).1 < RID_SENTINEL,
    {
        proof {
            use_type_invariant(self);
        }
        let r = congee_range(&self.tree, low, high, out_buffer, guard);
        proof {
            assert forall|i: int| 0 <= i < r implies (#[trigger] out_buffer@[i]).1 < RID_SENTINEL by {
                assert(congee_entries(self.tree).contains_key(out_buffer@[i].0));
            }
        }
        r
    }
}

impl DbIndex for Art {
    type Guard = congee::epoch::Guard;

    /// Each value of the tree read as a record id.
    closed spec fn entries(&self) -> Map<usize, Rid> {
        congee_entries(self.tree).map_values(|v: usize| Rid::spec_from_u32(v as u32))
    }

    fn pin(&self) -> (r: congee::epoch::Guard) {
        congee_pin()
    }

    fn get(&self, key: &usize, guard: &congee::epoch::Guard) -> (r: Option<Rid>) {
        proof {
            use_type_invariant(self);
        }
        match congee_get(&self.tree, *key, guard) {
            Some(v) => {
                proof {
                    assert(congee_entries(self.tree).contains_key(*key));
                }
                let r = Rid::from_usize(v);
                proof {
                    assert(self.entries().contains_key(*key));
                    assert(self.entries()[*key] == Rid::spec_from_u32(v as u32));
                }
                Some(r)
            },
            None => {
                proof {
                    assert(!self.entries().contains_key(*key));
                }
                None
            },
        }
    }

    fn insert(&mut self, key: usize, value: Rid, guard: &congee::epoch::Guard) {
        proof {
            use_type_invariant(&*self);
            use_type_invariant(&value);
        }
        let ghost before = congee_entries(self.tree);
        let mut tree = congee_new();
        std::mem::swap(&mut tree, &mut self.tree);
        let v = value.to_usize();
        congee_insert(&mut tree, key, v, guard);
        proof {
            assert forall|k: usize| #[trigger] congee_entries(tree).contains_key(k) implies congee_entries(tree)[k]
                < RID_SENTINEL by {
                if k != key {
                    assert(before.contains_key(k));
                }
            }
        }
        self.tree = tree;
        proof {
            assert(self.entries() =~= old(self).entries().insert(key, value)) by {
                assert(Rid::spec_from_u32(v as u32).id() == value.id());
                broadcast use Rid::lemma_id_determines;
            }
        }
    }

    fn new() -> (r: Self) {
        let r = Art { tree: congee_new() };
        proof {
            assert(congee_entries(r.tree) =~= Map::<usize, usize>::empty());
            assert(r.entries() =~= Map::<usize, Rid>::empty());
        }
        r
    }

    fn with_capacity(_cap: usize) -> (r: Self) {
        Self::new()
    }
}

/// An index on a concurrent hash map.
pub struct FlurryMap {
    map: flurry::HashMap<usize, Rid>,
}

impl DbIndex for FlurryMap {
    type Guard = IndexGuard;

    closed spec fn entries(&self) -> Map<usize, Rid> {
        flurry_entries(self.map)
    }

    /// The map takes a guard of its own inside each call.
    fn pin(&self) -> (r: IndexGuard) {
        IndexGuard { _pinned: () }
    }

    fn get(&self, key: &usize, guard: &IndexGuard) -> (r: Option<Rid>) {
        flurry_get(&self.map, *key)
    }

    fn insert(&mut self, key: usize, value: Rid, guard: &IndexGuard) {
        flurry_insert(&mut self.map, key, value);
    }

    fn new() -> (r: Self) {
        let r = FlurryMap { map: flurry_new() };
        proof {
            assert(r.entries() =~= Map::<usize, Rid>::empty());
        }
        r
    }

    fn with_capacity(cap: usize) -> (r: Self) {
        let r = FlurryMap { map: flurry_with_capacity(cap) };
        proof {
            assert(r.entries() =~= Map::<usize, Rid>::empty());
        }
        r
    }
}

} // verus!
