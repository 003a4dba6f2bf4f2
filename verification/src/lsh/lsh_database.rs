//! The index: replica tables over a canonical set of content-addressed
//! items.

use crate::lsh::stable_hash::{StableHashFunction, MAX_BITS};
use crate::lsh::vector::Vector;
use crate::net::{Database, DatabaseError};
use std::collections::HashMap;
use std::collections::HashSet;
use vstd::prelude::*;
use vstd::std_specs::cmp::PartialEqSpecImpl;

verus! {

/// A value with a stable 128-bit content identifier.
pub trait Cacheable {
    spec fn cache_id_spec(&self) -> u128;

    fn cache_id(&self) -> (id: u128)
        ensures
            id == self.cache_id_spec(),
    ;
}

/// A value together with its content identifier.  Two items are the same
/// item when their identifiers are equal; the values are not looked at.
#[derive(Debug)]
pub struct CacheItem<T: Cacheable> {
    value: T,
    hash: u128,
}

impl<T: Cacheable> CacheItem<T> {
    #[verifier::type_invariant]
    spec fn inv(&self) -> bool {
        self.hash == self.value.cache_id_spec()
    }

    pub closed spec fn value_spec(&self) -> T {
        self.value
    }

    pub closed spec fn id_spec(&self) -> u128 {
        self.hash
    }

    /// Wraps `item`, computing its content identifier.
    pub fn new(item: T) -> (r: Self)
        ensures
            r.value_spec() == item,
            r.id_spec() == item.cache_id_spec(),
    {
        let hashcode: u128 = item.cache_id();
        CacheItem { value: item, hash: hashcode }
    }

    pub fn id(&self) -> (id: u128)
        ensures
            id == self.id_spec(),
            id == self.value_spec().cache_id_spec(),
    {
        proof {
            use_type_invariant(self);
        }
        self.hash
    }

    pub fn value(&self) -> (v: &T)
        ensures
            *v == self.value_spec(),
    {
        &self.value
    }

    /// Equality of items: equality of their identifiers.
    pub fn same_item(&self, other: &Self) -> (b: bool)
        ensures
            b <==> self.id_spec() == other.id_spec(),
    {
        self.hash == other.hash
    }
}

impl<T: Cacheable> PartialEq for CacheItem<T> {
    /// Equality of items: equality of their identifiers.
    fn eq(&self, other: &Self) -> (b: bool) {
        self.same_item(other)
    }
}

impl<T: Cacheable> PartialEqSpecImpl for CacheItem<T> {
    open spec fn obeys_eq_spec() -> bool {
        true
    }

    open spec fn eq_spec(&self, other: &Self) -> bool {
        self.id_spec() == other.id_spec()
    }
}

/// The buckets after the identifier `id` has been put into the bucket of
/// `key`: nothing changes when it is there already.
pub open spec fn bucket_insert(buckets: Map<u64, Seq<u128>>, key: u64, id: u128) -> Map<
    u64,
    Seq<u128>,
> {
    if buckets.dom().contains(key) {
        if buckets[key].contains(id) {
            buckets
        } else {
            buckets.insert(key, buckets[key].push(id))
        }
    } else {
        buckets.insert(key, seq![id])
    }
}

/// One replica: a hash function of its own, and the buckets that it has
/// sorted identifiers into.
pub struct LocalitySensitiveHashTable<T: Vector + Cacheable> {
    table: HashMap<u64, Vec<u128>>,
    hashfn: StableHashFunction<T>,
}

impl<T: Vector + Cacheable> LocalitySensitiveHashTable<T> {
    /// Every occupied bucket is non-empty and holds no identifier twice.
    pub closed spec fn wf(&self) -> bool {
        forall|key: u64| #[trigger]
            self.table@.dom().contains(key) ==> self.table@[key]@.len() > 0
                && self.table@[key]@.no_duplicates()
    }

    /// The identifiers of every occupied bucket, in the order in which they
    /// were inserted.
    pub closed spec fn buckets(&self) -> Map<u64, Seq<u128>> {
        self.table@.map_values(|v: Vec<u128>| v@)
    }

    /// The projection vectors of the replica's hash function.
    pub closed spec fn directions(&self) -> Seq<Seq<u32>> {
        self.hashfn.directions()
    }

    /// The key of the bucket that a vector with the elements `v` falls into.
    pub open spec fn key_of(&self, v: Seq<u32>) -> u64 {
        crate::lsh::stable_hash::hash_spec::<T>(self.directions(), v)
    }

    /// Whether the bucket of `key` holds `id`.
    pub open spec fn holds(&self, key: u64, id: u128) -> bool {
        self.buckets().dom().contains(key) && self.buckets()[key].contains(id)
    }

    /// The bucket that a vector with the elements `v` falls into; empty
    /// when there is none.
    pub open spec fn bucket_of(&self, v: Seq<u32>) -> Seq<u128> {
        if self.buckets().dom().contains(self.key_of(v)) {
            self.buckets()[self.key_of(v)]
        } else {
            Seq::empty()
        }
    }

    /// An empty table with a freshly sampled hash function of 64
    /// projections.
    pub fn new(dimension: usize) -> (r: Self)
        ensures
            r.wf(),
            r.buckets() == Map::<u64, Seq<u128>>::empty(),
            r.directions().len() == MAX_BITS,
            forall|i: int|
                0 <= i < MAX_BITS ==> crate::lsh::random_projection::is_sampled::<T>(
                    #[trigger] r.directions()[i],
                    dimension as nat,
                ),
    {
        Self::with_bits(MAX_BITS, dimension)
    }

    /// An empty table with a freshly sampled hash function of `bits`
    /// projections, at most 64.
    pub fn with_bits(bits: usize, dimension: usize) -> (r: Self)
        requires
            bits <= MAX_BITS,
        ensures
            r.wf(),
            r.buckets() == Map::<u64, Seq<u128>>::empty(),
            r.directions().len() == bits,
            forall|i: int|
                0 <= i < bits ==> crate::lsh::random_projection::is_sampled::<T>(
                    #[trigger] r.directions()[i],
                    dimension as nat,
                ),
    {
        let r = LocalitySensitiveHashTable {
            table: HashMap::<u64, Vec<u128>>::new(),
            hashfn: StableHashFunction::<T>::new(bits, dimension),
        };
        assert(r.buckets() =~= Map::<u64, Seq<u128>>::empty());
        r
    }

    /// Puts the item into the bucket that its value falls into; nothing
    /// changes when an item of the same identifier is there already.
    pub fn insert(&mut self, item: &CacheItem<T>)
        requires
            old(self).wf(),
        ensures
            final(self).wf(),
            final(self).directions() == old(self).directions(),
            final(self).buckets() == bucket_insert(
                old(self).buckets(),
                old(self).key_of(item.value_spec().elements()),
                item.id_spec(),
            ),
            forall|key: u64, id: u128|
                #![trigger final(self).holds(key, id)]
                final(self).holds(key, id) <==>
                    old(self).holds(key, id) ||
                        (key == old(self).key_of(item.value_spec().elements()) &&
                            id == item.id_spec()),
    {
        broadcast use vstd::std_specs::hash::group_hash_axioms;

        let id: u128 = item.id();
        let lsh_key: u64 = self.hashfn.hash(item.value());
        let ghost before = self.buckets();
        let existing = self.table.remove(&lsh_key);
        let mut container: Vec<u128> = match existing {
            Some(b) => b,
            None => Vec::new(),
        };
        let ghost bucket_before = container@;
        let present: bool = contains_id(&container, id);
        if !present {
            container.push(id);
        }
        assert(container@.no_duplicates()) by {
            if !present {
                assert forall|i: int, j: int|
                    0 <= i < container@.len() && 0 <= j < container@.len() && i
                        != j implies container@[i] != container@[j] by {
                    if i < bucket_before.len() && j < bucket_before.len() {
                    } else if i < bucket_before.len() {
                        assert(bucket_before.contains(bucket_before[i]));
                    } else {
                        assert(bucket_before.contains(bucket_before[j]));
                    }
                }
            }
        }
        self.table.insert(lsh_key, container);
        proof {
            let target = bucket_insert(before, lsh_key, id);
            assert(self.buckets() =~= target);
            assert forall|key: u64, x: u128|
                #![trigger self.holds(key, x)]
                self.holds(key, x) <==> before.dom().contains(key) && before[key].contains(x) || (
                key == lsh_key && x == id) by {
                if key == lsh_key {
                    if before.dom().contains(key) {
                        if !before[key].contains(id) {
                            vstd::seq_lib::lemma_seq_contains_after_push(before[key], id, x);
                        }
                    } else {
                        assert(seq![id][0] == id);
                    }
                }
            }
        }
    }

    /// The bucket that `item` falls into, if it is occupied.
    pub fn query_set<'a>(&'a self, item: &T) -> (r: Option<&'a Vec<u128>>)
        requires
            self.wf(),
        ensures
            match r {
                Some(bucket) => {
                    &&& self.buckets().dom().contains(self.key_of(item.elements()))
                    &&& bucket@ == self.bucket_of(item.elements())
                    &&& bucket@.len() > 0
                    &&& bucket@.no_duplicates()
                },
                None => {
                    &&& !self.buckets().dom().contains(self.key_of(item.elements()))
                    &&& self.bucket_of(item.elements()) == Seq::<u128>::empty()
                },
            },
    {
        broadcast use vstd::std_specs::hash::group_hash_axioms;

        let key: u64 = self.hashfn.hash(item);
        self.table.get(&key)
    }

    /// The number of occupied buckets.
    pub fn bucket_count(&self) -> (n: usize)
        ensures
            n == self.buckets().dom().len(),
    {
        broadcast use vstd::std_specs::hash::group_hash_axioms;

        assert(self.buckets().dom() =~= self.table@.dom());
        self.table.len()
    }
}

/// The identifiers in the buckets that a vector with the elements `v` falls
/// into, for the first `n` replicas, replica by replica.
pub open spec fn probed<T: Vector + Cacheable>(
    replicas: Seq<LocalitySensitiveHashTable<T>>,
    v: Seq<u32>,
    n: nat,
) -> Seq<u128>
    decreases n,
{
    if n == 0 {
        Seq::empty()
    } else {
        probed(replicas, v, (n - 1) as nat) + replicas[n - 1].bucket_of(v)
    }
}

/// `s` without the repetitions: each identifier where it first occurs.
pub open spec fn first_occurrences(s: Seq<u128>) -> Seq<u128>
    decreases s.len(),
{
    if s.len() == 0 {
        Seq::empty()
    } else {
        let before = first_occurrences(s.drop_last());
        if before.contains(s.last()) {
            before
        } else {
            before.push(s.last())
        }
    }
}

/// The index of the smallest of `dists` as a left-to-right reduction finds
/// it: a later distance wins only when it is less than the best so far, so
/// of equal distances the first wins, and nothing wins against a NaN that
/// came first.
pub open spec fn nearest(dists: Seq<u32>) -> Option<int>
    decreases dists.len(),
{
    if dists.len() == 0 {
        None
    } else {
        match nearest(dists.drop_last()) {
            None => Some(dists.len() - 1),
            Some(best) => if crate::simd::single::less_than_spec(dists.last(), dists[best]) {
                Some(dists.len() - 1)
            } else {
                Some(best)
            },
        }
    }
}

/// The nearest of some distances is one of them, and there is none only
/// when there are no distances.
pub proof fn lemma_nearest_bound(dists: Seq<u32>)
    ensures
        match nearest(dists) {
            Some(b) => 0 <= b < dists.len(),
            None => dists.len() == 0,
        },
    decreases dists.len(),
{
    if dists.len() > 0 {
        lemma_nearest_bound(dists.drop_last());
    }
}

/// The identifiers of an index after an item with the identifier `id` has
/// been inserted.
pub open spec fn insert_id(ids: Seq<u128>, id: u128) -> Seq<u128> {
    if ids.contains(id) {
        ids
    } else {
        ids.push(id)
    }
}

/// The identifiers of an index after items with the identifiers `inserted`
/// have been inserted, one after the other.
pub open spec fn insert_ids(ids: Seq<u128>, inserted: Seq<u128>) -> Seq<u128>
    decreases inserted.len(),
{
    if inserted.len() == 0 {
        ids
    } else {
        insert_id(insert_ids(ids, inserted.drop_last()), inserted.last())
    }
}

/// Dropping repetitions keeps every identifier once.
pub proof fn lemma_first_occurrences(s: Seq<u128>)
    ensures
        first_occurrences(s).no_duplicates(),
        forall|x: u128| first_occurrences(s).contains(x) <==> s.contains(x),
        first_occurrences(s).len() == s.to_set().len(),
        first_occurrences(s).len() == 0 <==> s.len() == 0,
    decreases s.len(),
{
    broadcast use vstd::seq_lib::group_seq_properties;

    if s.len() == 0 {
        assert(s.to_set() =~= Set::<u128>::empty());
    } else {
        let before = first_occurrences(s.drop_last());
        lemma_first_occurrences(s.drop_last());
        assert(s =~= s.drop_last().push(s.last()));
        assert forall|x: u128| first_occurrences(s).contains(x) <==> s.contains(x) by {
            vstd::seq_lib::lemma_seq_contains_after_push(s.drop_last(), s.last(), x);
            vstd::seq_lib::lemma_seq_contains_after_push(before, s.last(), x);
        }
        assert(first_occurrences(s).to_set() =~= s.to_set());
        first_occurrences(s).unique_seq_to_set();
    }
}

/// The number of items of an index that started empty is the number of
/// distinct identifiers inserted, whatever the order and however often each
/// was inserted.
pub proof fn lemma_len_counts_distinct(inserted: Seq<u128>)
    ensures
        insert_ids(Seq::empty(), inserted) == first_occurrences(inserted),
        insert_ids(Seq::empty(), inserted).len() == inserted.to_set().len(),
        inserted.no_duplicates() ==> insert_ids(Seq::empty(), inserted).len() == inserted.len(),
    decreases inserted.len(),
{
    if inserted.len() > 0 {
        lemma_len_counts_distinct(inserted.drop_last());
    }
    lemma_first_occurrences(inserted);
    if inserted.no_duplicates() {
        inserted.unique_seq_to_set();
    }
}

/// No bucket is probed exactly when every replica misses.
pub proof fn lemma_probed_empty<T: Vector + Cacheable>(
    replicas: Seq<LocalitySensitiveHashTable<T>>,
    v: Seq<u32>,
    n: nat,
)
    ensures
        probed(replicas, v, n).len() == 0 <==> forall|k: int|
            0 <= k < n ==> (#[trigger] replicas[k]).bucket_of(v).len() == 0,
    decreases n,
{
    if n > 0 {
        lemma_probed_empty(replicas, v, (n - 1) as nat);
    }
}

/// Where no distance is a NaN, the nearest is the first of the smallest:
/// no distance is less than it, and it is less than every distance before
/// it.
pub proof fn lemma_nearest_minimal(dists: Seq<u32>)
    requires
        dists.len() > 0,
        forall|i: int| 0 <= i < dists.len() ==> !crate::simd::single::is_nan_spec(#[trigger] dists[i]),
    ensures
        nearest(dists) is Some,
        0 <= nearest(dists).unwrap() < dists.len(),
        forall|i: int|
            0 <= i < dists.len() ==> !crate::simd::single::less_than_spec(
                #[trigger] dists[i],
                dists[nearest(dists).unwrap()],
            ),
        forall|i: int|
            0 <= i < nearest(dists).unwrap() ==> crate::simd::single::less_than_spec(
                dists[nearest(dists).unwrap()],
                #[trigger] dists[i],
            ),
    decreases dists.len(),
{
    if dists.len() > 1 {
        let before = dists.drop_last();
        assert forall|i: int| 0 <= i < before.len() implies !crate::simd::single::is_nan_spec(
            #[trigger] before[i],
        ) by {
            assert(before[i] == dists[i]);
        }
        lemma_nearest_minimal(before);
        let b = nearest(before).unwrap();
        let n = nearest(dists).unwrap();
        assert forall|i: int| 0 <= i < dists.len() implies !crate::simd::single::less_than_spec(
            #[trigger] dists[i],
            dists[n],
        ) by {
            if i < before.len() {
                assert(before[i] == dists[i]);
            }
        }
        assert forall|i: int| 0 <= i < n implies crate::simd::single::less_than_spec(
            dists[n],
            #[trigger] dists[i],
        ) by {
            assert(before[i] == dists[i]);
            assert(!crate::simd::single::less_than_spec(before[i], before[b]));
        }
    } else {
        lemma_nearest_bound(dists.drop_last());
    }
}

/// What is probed in the first `n` replicas is what some one of them holds
/// in the bucket of `v`.
pub proof fn lemma_probed_contains<T: Vector + Cacheable>(
    replicas: Seq<LocalitySensitiveHashTable<T>>,
    v: Seq<u32>,
    n: nat,
    id: u128,
)
    ensures
        probed(replicas, v, n).contains(id) <==> exists|k: int|
            0 <= k < n && (#[trigger] replicas[k]).holds(replicas[k].key_of(v), id),
    decreases n,
{
    if n > 0 {
        lemma_probed_contains(replicas, v, (n - 1) as nat, id);
        let before = probed(replicas, v, (n - 1) as nat);
        let bucket = replicas[n - 1].bucket_of(v);
        if before.contains(id) {
            let i = choose|i: int| 0 <= i < before.len() && before[i] == id;
            assert((before + bucket)[i] == id);
        }
        if bucket.contains(id) {
            let i = choose|i: int| 0 <= i < bucket.len() && bucket[i] == id;
            assert((before + bucket)[before.len() + i] == id);
            assert(replicas[n - 1].holds(replicas[n - 1].key_of(v), id));
        }
        if (before + bucket).contains(id) {
            let i = choose|i: int| 0 <= i < (before + bucket).len() && (before + bucket)[i] == id;
            if i < before.len() {
                assert(before[i] == id);
            } else {
                assert(bucket[i - before.len()] == id);
            }
        }
        if replicas[n - 1].holds(replicas[n - 1].key_of(v), id) {
            assert(bucket.contains(id));
        }
    }
}

/// The index: `L` replica tables and the canonical sequence of all items,
/// each stored once under its content identifier.
pub struct LocalitySensitiveHashDatabase<T: Vector + Cacheable> {
    items: Vec<CacheItem<T>>,
    index: HashMap<u128, usize>,
    tables: Vec<LocalitySensitiveHashTable<T>>,
}

impl<T: Vector + Cacheable> LocalitySensitiveHashDatabase<T> {
    /// The items in the order in which they were inserted.
    pub closed spec fn entries(&self) -> Seq<CacheItem<T>> {
        self.items@
    }

    /// The replica tables.
    pub closed spec fn replicas(&self) -> Seq<LocalitySensitiveHashTable<T>> {
        self.tables@
    }

    /// Where the item with the identifier `id` stands among the entries.
    pub closed spec fn position_of(&self, id: u128) -> int {
        self.index@[id] as int
    }

    /// Whether an item with the identifier `id` has been inserted.
    pub closed spec fn has_id(&self, id: u128) -> bool {
        self.index@.contains_key(id)
    }

    /// The identifiers of the items, in the order of insertion.
    pub open spec fn ids(&self) -> Seq<u128> {
        Seq::new(self.entries().len(), |i: int| self.entries()[i].id_spec())
    }

    /// Whether what replica `r` holds under `key` is an item of the index
    /// whose value falls into that bucket.
    pub open spec fn member_ok(&self, r: int, key: u64, id: u128) -> bool {
        self.replicas()[r].holds(key, id) ==> {
            &&& self.has_id(id)
            &&& key == self.replicas()[r].key_of(
                self.entries()[self.position_of(id)].value_spec().elements(),
            )
        }
    }

    /// Whether replica `r` holds entry `pos` in the bucket that its value
    /// falls into.
    pub open spec fn placed(&self, r: int, pos: int) -> bool {
        self.replicas()[r].holds(
            self.replicas()[r].key_of(self.entries()[pos].value_spec().elements()),
            self.entries()[pos].id_spec(),
        )
    }

    /// The invariant of the index: no two entries share an identifier, and
    /// in every replica every entry lies in exactly one bucket, the one that
    /// its value falls into, while the buckets hold nothing else.
    pub closed spec fn wf(&self) -> bool {
        &&& forall|r: int| 0 <= r < self.tables@.len() ==> (#[trigger] self.tables@[r]).wf()
        &&& forall|pos: int|
            0 <= pos < self.items@.len() ==> {
                &&& self.index@.contains_key((#[trigger] self.items@[pos]).id_spec())
                &&& self.index@[self.items@[pos].id_spec()] == pos
            }
        &&& forall|id: u128| #[trigger]
            self.index@.contains_key(id) ==> {
                &&& self.index@[id] < self.items@.len()
                &&& self.items@[self.index@[id] as int].id_spec() == id
            }
        &&& forall|r: int, key: u64, id: u128|
            0 <= r < self.tables@.len() ==> #[trigger] self.member_ok(r, key, id)
        &&& forall|r: int, pos: int|
            0 <= r < self.tables@.len() && 0 <= pos < self.items@.len() ==> #[trigger] self.placed(
                r,
                pos,
            )
    }

    /// What the invariant says, spelled out over the public view.
    pub proof fn lemma_wf(&self)
        requires
            self.wf(),
        ensures
            self.ids().no_duplicates(),
            self.ids().to_set().len() == self.entries().len(),
            forall|id: u128| self.has_id(id) <==> self.ids().contains(id),
            forall|pos: int|
                0 <= pos < self.entries().len() ==> self.has_id(
                    (#[trigger] self.entries()[pos]).id_spec(),
                ) && self.position_of(self.entries()[pos].id_spec()) == pos,
            forall|id: u128| #[trigger]
                self.has_id(id) ==> 0 <= self.position_of(id) < self.entries().len()
                    && self.entries()[self.position_of(id)].id_spec() == id,
            forall|r: int| 0 <= r < self.replicas().len() ==> (#[trigger] self.replicas()[r]).wf(),
            forall|r: int, key: u64, id: u128|
                0 <= r < self.replicas().len() ==> #[trigger] self.member_ok(r, key, id),
            forall|r: int, pos: int|
                0 <= r < self.replicas().len() && 0 <= pos < self.entries().len()
                    ==> #[trigger] self.placed(r, pos),
    {
        assert forall|i: int, j: int|
            0 <= i < self.ids().len() && 0 <= j < self.ids().len() && i != j implies self.ids()[i]
            != self.ids()[j] by {
            assert(self.index@[self.items@[i].id_spec()] == i);
            assert(self.index@[self.items@[j].id_spec()] == j);
        }
        self.ids().unique_seq_to_set();
        assert forall|id: u128| self.has_id(id) <==> self.ids().contains(id) by {
            if self.has_id(id) {
                assert(self.ids()[self.index@[id] as int] == id);
            }
            if self.ids().contains(id) {
                let i = choose|i: int| 0 <= i < self.ids().len() && self.ids()[i] == id;
                assert(self.index@.contains_key(self.items@[i].id_spec()));
            }
        }
    }

    /// In every replica an entry lies in exactly one bucket: the one that
    /// its value falls into.
    pub proof fn lemma_one_bucket(&self, r: int, pos: int, key: u64)
        requires
            self.wf(),
            0 <= r < self.replicas().len(),
            0 <= pos < self.entries().len(),
        ensures
            self.replicas()[r].holds(key, self.entries()[pos].id_spec()) <==> key
                == self.replicas()[r].key_of(self.entries()[pos].value_spec().elements()),
    {
        self.lemma_wf();
        assert(self.placed(r, pos));
        assert(self.member_ok(r, key, self.entries()[pos].id_spec()));
    }

    /// The candidates of a query are the stored items that share a bucket
    /// with the query vector in some replica, each once: those whose value has
    /// the key of the query vector under the hash function of that replica.
    pub proof fn lemma_candidates(&self, v: Seq<u32>, id: u128)
        requires
            self.wf(),
        ensures
            self.candidates(v).no_duplicates(),
            self.candidates(v).contains(id) <==> self.has_id(id) && exists|r: int|
                0 <= r < self.replicas().len() && (#[trigger] self.replicas()[r]).key_of(
                    self.value_of(id).elements(),
                ) == self.replicas()[r].key_of(v),
    {
        self.lemma_wf();
        let replicas = self.replicas();
        lemma_first_occurrences(probed(replicas, v, replicas.len()));
        lemma_probed_contains(replicas, v, replicas.len(), id);
        if self.candidates(v).contains(id) {
            let k = choose|k: int|
                0 <= k < replicas.len() && (#[trigger] replicas[k]).holds(replicas[k].key_of(v), id);
            assert(self.member_ok(k, replicas[k].key_of(v), id));
        }
        if self.has_id(id) && exists|r: int|
            0 <= r < replicas.len() && (#[trigger] replicas[r]).key_of(
                self.value_of(id).elements(),
            ) == replicas[r].key_of(v) {
            let r = choose|r: int|
                0 <= r < replicas.len() && (#[trigger] replicas[r]).key_of(
                    self.value_of(id).elements(),
                ) == replicas[r].key_of(v);
            assert(self.placed(r, self.position_of(id)));
        }
    }

    /// The number of items: the number of distinct identifiers inserted.
    pub fn len(&self) -> (n: usize)
        ensures
            n == self.entries().len(),
    {
        self.items.len()
    }

    /// An empty index of `replicas` tables, each with a hash function of its
    /// own of 64 projections over `dimension` coordinates.
    pub fn new(replicas: usize, dimension: usize) -> (r: Self)
        ensures
            r.wf(),
            r.entries().len() == 0,
            r.replicas().len() == replicas,
            forall|k: int|
                0 <= k < replicas ==> (#[trigger] r.replicas()[k]).buckets() == Map::<
                    u64,
                    Seq<u128>,
                >::empty() && r.replicas()[k].directions().len() == MAX_BITS,
    {
        Self::with_bits(replicas, MAX_BITS, dimension)
    }

    /// An empty index of `replicas` tables, each with a hash function of its
    /// own of `bits` projections, at most 64, over `dimension` coordinates.
    pub fn with_bits(replicas: usize, bits: usize, dimension: usize) -> (r: Self)
        requires
            bits <= MAX_BITS,
        ensures
            r.wf(),
            r.entries().len() == 0,
            r.replicas().len() == replicas,
            forall|k: int|
                0 <= k < replicas ==> (#[trigger] r.replicas()[k]).buckets() == Map::<
                    u64,
                    Seq<u128>,
                >::empty() && r.replicas()[k].directions().len() == bits,
    {
        broadcast use vstd::std_specs::hash::group_hash_axioms;

        let mut tables: Vec<LocalitySensitiveHashTable<T>> = Vec::new();
        let mut i: usize = 0;
        while i < replicas
            invariant
                i <= replicas,
                bits <= MAX_BITS,
                tables@.len() == i,
                forall|k: int| 0 <= k < i ==> (#[trigger] tables@[k]).wf(),
                forall|k: int|
                    0 <= k < i ==> (#[trigger] tables@[k]).buckets() == Map::<
                        u64,
                        Seq<u128>,
                    >::empty() && tables@[k].directions().len() == bits,
            decreases replicas - i,
        {
            tables.push(LocalitySensitiveHashTable::<T>::with_bits(bits, dimension));
            i += 1;
        }
        let r = LocalitySensitiveHashDatabase {
            items: Vec::new(),
            index: HashMap::<u128, usize>::new(),
            tables,
        };
        assert(r.wf()) by {
            assert forall|k: int, key: u64, id: u128|
                0 <= k < r.tables@.len() implies #[trigger] r.member_ok(k, key, id) by {
                assert(r.tables@[k].buckets() == Map::<u64, Seq<u128>>::empty());
            }
        }
        r
    }

    /// Whether `after` is what inserting `item` makes of `before`: the hash
    /// functions stay; where the identifier of `item` is known already
    /// nothing changes at all; otherwise `item` becomes the last entry and
    /// its identifier enters, in every replica, the bucket that `item` falls
    /// into.
    pub open spec fn is_insertion(before: &Self, item: &T, after: &Self) -> bool {
        let id = item.cache_id_spec();
        &&& after.replicas().len() == before.replicas().len()
        &&& forall|r: int|
            0 <= r < before.replicas().len() ==> (#[trigger] after.replicas()[r]).directions()
                == before.replicas()[r].directions()
        &&& before.has_id(id) ==> {
            &&& after.entries() == before.entries()
            &&& after.replicas() == before.replicas()
        }
        &&& !before.has_id(id) ==> {
            &&& after.entries().len() == before.entries().len() + 1
            &&& after.entries().drop_last() == before.entries()
            &&& after.entries().last().value_spec() == *item
            &&& after.entries().last().id_spec() == id
            &&& forall|r: int|
                0 <= r < before.replicas().len() ==> (#[trigger] after.replicas()[r]).buckets()
                    == bucket_insert(
                    before.replicas()[r].buckets(),
                    before.replicas()[r].key_of(item.elements()),
                    id,
                )
        }
        &&& forall|x: u128| after.has_id(x) <==> before.has_id(x) || x == id
        &&& after.ids() == insert_id(before.ids(), id)
    }

    /// Inserts `item` under its content identifier into the canonical
    /// entries and into every replica.  Nothing changes when an item with
    /// that identifier is there already.
    pub fn insert(&mut self, item: T)
        requires
            old(self).wf(),
        ensures
            final(self).wf(),
            Self::is_insertion(old(self), &item, final(self)),
    {
        broadcast use vstd::std_specs::hash::group_hash_axioms;

        let id: u128 = item.cache_id();
        proof {
            self.lemma_wf();
        }
        if self.index.contains_key(&id) {
            return ;
        }
        let ghost elements = item.elements();
        let entry = CacheItem::new(item);
        let pos: usize = self.items.len();
        let mut r: usize = 0;
        while r < self.tables.len()
            invariant
                r <= self.tables@.len(),
                self.items@ == old(self).items@,
                self.index@ == old(self).index@,
                self.tables@.len() == old(self).tables@.len(),
                entry.value_spec().elements() == elements,
                entry.id_spec() == id,
                forall|k: int| 0 <= k < self.tables@.len() ==> (#[trigger] self.tables@[k]).wf(),
                forall|k: int|
                    0 <= k < self.tables@.len() ==> (#[trigger] self.tables@[k]).directions()
                        == old(self).tables@[k].directions(),
                forall|k: int|
                    0 <= k < r ==> (#[trigger] self.tables@[k]).buckets() == bucket_insert(
                        old(self).tables@[k].buckets(),
                        old(self).tables@[k].key_of(elements),
                        id,
                    ),
                forall|k: int, key: u64, x: u128|
                    0 <= k < r ==> (#[trigger] self.tables@[k].holds(key, x) <==>
                        old(self).tables@[k].holds(key, x) ||
                            (key == old(self).tables@[k].key_of(elements)
                        && x == id)),
                forall|k: int| r <= k < self.tables@.len() ==>
                    self.tables@[k] == old(self).tables@[k],
            decreases self.tables@.len() - r,
        {
            self.tables[r].insert(&entry);
            r += 1;
        }
        self.items.push(entry);
        self.index.insert(id, pos);
        proof {
            assert forall|k: int, key: u64, x: u128|
                0 <= k < self.tables@.len() implies #[trigger] self.member_ok(k, key, x) by {
                if self.tables@[k].holds(key, x) {
                    if old(self).tables@[k].holds(key, x) {
                        assert(old(self).member_ok(k, key, x));
                        assert(x != id);
                        assert(self.items@[old(self).position_of(x)] ==
                            old(self).items@[old(self).position_of(x)]);
                    } else {
                        assert(self.items@[pos as int].value_spec().elements() == elements);
                    }
                }
            }
            assert forall|k: int, p: int|
                0 <= k < self.tables@.len() && 0 <= p < self.items@.len()
                    implies #[trigger] self.placed(
                k,
                p,
            ) by {
                if p < pos {
                    assert(old(self).placed(k, p));
                    assert(self.items@[p] == old(self).items@[p]);
                }
            }
            assert(self.entries().drop_last() =~= old(self).entries());
            assert(self.ids() =~= old(self).ids().push(id));
        }
    }
    /// The identifiers that a query for `v` weighs: what the buckets of `v`
    /// hold, replica by replica, each identifier once.
    pub open spec fn candidates(&self, v: Seq<u32>) -> Seq<u128> {
        first_occurrences(probed(self.replicas(), v, self.replicas().len()))
    }

    /// The value stored under the identifier `id`.
    pub open spec fn value_of(&self, id: u128) -> T {
        self.entries()[self.position_of(id)].value_spec()
    }

    /// The distances from `v` to the values of `cands`.
    pub open spec fn distances(&self, v: Seq<u32>, cands: Seq<u128>) -> Seq<u32> {
        Seq::new(
            cands.len(),
            |k: int| T::distance_spec(v, self.value_of(cands[k]).elements()),
        )
    }

    /// The stored vector nearest to `item` among the candidates: those that
    /// share a bucket with `item` in some replica.  `None` when there is no
    /// candidate.
    pub fn query<'a>(&'a self, item: &T) -> (r: Option<&'a T>)
        requires
            self.wf(),
        ensures
            match nearest(self.distances(item.elements(), self.candidates(item.elements()))) {
                None => r is None,
                Some(b) => r == Some(&self.value_of(self.candidates(item.elements())[b])),
            },
            r is None <==> forall|k: int|
                0 <= k < self.replicas().len() ==> (#[trigger] self.replicas()[k]).bucket_of(
                    item.elements(),
                ).len() == 0,
    {
        broadcast use vstd::std_specs::hash::group_hash_axioms;

        let ghost v = item.elements();
        let ghost mut done: Seq<u128> = Seq::empty();
        let ghost mut cands: Seq<u128> = Seq::empty();
        let ghost mut dists: Seq<u32> = Seq::empty();
        let mut seen: HashSet<u128> = HashSet::new();
        let mut best: Option<(u32, usize)> = None;
        let mut r: usize = 0;
        assert(dists =~= self.distances(v, cands));
        while r < self.tables.len()
            invariant
                self.wf(),
                v == item.elements(),
                r <= self.tables@.len(),
                done == probed(self.replicas(), v, r as nat),
                cands == first_occurrences(done),
                dists == self.distances(v, cands),
                forall|x: u128| seen@.contains(x) <==> cands.contains(x),
                match best {
                    None => nearest(dists) is None,
                    Some((d, pos)) => {
                        &&& nearest(dists) is Some
                        &&& d == dists[nearest(dists).unwrap()]
                        &&& pos == self.position_of(cands[nearest(dists).unwrap()])
                        &&& pos < self.items@.len()
                    },
                },
            decreases self.tables@.len() - r,
        {
            let ghost probed_before = done;
            match self.tables[r].query_set(item) {
                None => {
                    assert(done + Seq::<u128>::empty() =~= done);
                },
                Some(bucket) => {
                    let mut j: usize = 0;
                    assert(bucket@.take(0) =~= Seq::<u128>::empty());
                    assert(done + Seq::<u128>::empty() =~= done);
                    while j < bucket.len()
                        invariant
                            self.wf(),
                            v == item.elements(),
                            r < self.tables@.len(),
                            j <= bucket@.len(),
                            bucket@ == self.tables@[r as int].bucket_of(v),
                            self.tables@[r as int].buckets().dom().contains(
                                self.tables@[r as int].key_of(v),
                            ),
                            probed_before == probed(self.replicas(), v, r as nat),
                            done == probed_before + bucket@.take(j as int),
                            cands == first_occurrences(done),
                            dists == self.distances(v, cands),
                            forall|x: u128| seen@.contains(x) <==> cands.contains(x),
                            match best {
                                None => nearest(dists) is None,
                                Some((d, pos)) => {
                                    &&& nearest(dists) is Some
                                    &&& d == dists[nearest(dists).unwrap()]
                                    &&& pos == self.position_of(cands[nearest(dists).unwrap()])
                                    &&& pos < self.items@.len()
                                },
                            },
                        decreases bucket@.len() - j,
                    {
                        let id: u128 = bucket[j];
                        proof {
                            assert(bucket@.take(j + 1) =~= bucket@.take(j as int).push(id));
                            assert(probed_before + bucket@.take(j + 1) =~= done.push(id));
                            assert(done.push(id).drop_last() =~= done);
                            assert(bucket@.contains(id));
                            assert(self.member_ok(r as int, self.tables@[r as int].key_of(v), id));
                            done = done.push(id);
                        }
                        if seen.insert(id) {
                            let ghost cands_before = cands;
                            let ghost dists_before = dists;
                            match self.index.get(&id) {
                                Some(p) => {
                                    let pos: usize = *p;
                                    let d: u32 = item.distance(self.items[pos].value());
                                    proof {
                                        cands = cands.push(id);
                                        dists = dists.push(d);
                                        assert(dists =~= self.distances(v, cands));
                                        assert(dists.drop_last() =~= dists_before);
                                        lemma_nearest_bound(dists_before);
                                        lemma_nearest_bound(dists);
                                    }
                                    best =
                                    match best {
                                        None => Some((d, pos)),
                                        Some((min, w)) => {
                                            if crate::simd::single::less_than(d, min) {
                                                Some((d, pos))
                                            } else {
                                                Some((min, w))
                                            }
                                        },
                                    };
                                    proof {
                                        assert forall|x: u128| seen@.contains(x) <==>
                                            cands.contains(
                                            x,
                                        ) by {
                                            vstd::seq_lib::lemma_seq_contains_after_push(cands_before, id, x);
                                        }
                                    }
                                },
                                None => {
                                    assert(false);
                                },
                            }
                        }
                        j += 1;
                    }
                    assert(bucket@.take(bucket@.len() as int) =~= bucket@);
                },
            }
            r += 1;
        }
        proof {
            lemma_nearest_bound(dists);
            lemma_first_occurrences(done);
            lemma_probed_empty(self.replicas(), v, self.replicas().len());
        }
        match best {
            Some((_, pos)) => Some(self.items[pos].value()),
            None => None,
        }
    }
}

impl<T: Vector + Cacheable> Database for LocalitySensitiveHashDatabase<T> {
    type Item = T;

    open spec fn valid(&self) -> bool {
        self.wf()
    }

    open spec fn len_spec(&self) -> nat {
        self.entries().len()
    }

    open spec fn query_spec(&self, item: &T) -> Option<T> {
        match nearest(self.distances(item.elements(), self.candidates(item.elements()))) {
            None => None,
            Some(b) => Some(self.value_of(self.candidates(item.elements())[b])),
        }
    }

    /// The index takes every item.
    open spec fn accepts(&self, item: &T) -> bool {
        true
    }

    open spec fn inserted(before: &Self, item: &T, after: &Self) -> bool {
        Self::is_insertion(before, item, after)
    }

    fn len(&self) -> (n: usize) {
        LocalitySensitiveHashDatabase::len(self)
    }

    fn insert(&mut self, item: T) -> (r: Result<(), DatabaseError>) {
        LocalitySensitiveHashDatabase::insert(self, item);
        Ok(())
    }

    fn query<'a>(&'a self, item: &T) -> (r: Option<&'a T>) {
        LocalitySensitiveHashDatabase::query(self, item)
    }
}

/// Whether `bucket` holds `id`.
fn contains_id(bucket: &Vec<u128>, id: u128) -> (b: bool)
    ensures
        b == bucket@.contains(id),
{
    let mut i: usize = 0;
    while i < bucket.len()
        invariant
            i <= bucket.len(),
            forall|k: int| 0 <= k < i ==> bucket@[k] != id,
        decreases bucket.len() - i,
    {
        if bucket[i] == id {
            return true;
        }
        i += 1;
    }
    false
}

} // verus!
