//! A map with separate chaining: each bucket is a linked list of pairs, and a
//! key lives in the bucket its hash selects.
use vstd::prelude::*;

use crate::hash::JacobHash;
use crate::linked_list::{texts_view, LinkedList};
use crate::pair::Pair;
use crate::text::push_str;

verus! {

/// A key of the map: it hashes, compares by view, and copies its view.
pub trait KeyTrait: JacobHash + Sized {
    /// Whether the two keys have equal views.
    fn key_eq(&self, other: &Self) -> (b: bool)
        ensures
            b == (self@ == other@),
    ;

    /// A copy of this key.
    fn key_clone(&self) -> (k: Self)
        ensures
            k@ == self@,
    ;
}

/// A value of the map: it can be copied.
pub trait ValueTrait: Sized {
    /// A copy of this value.
    fn value_clone(&self) -> (v: Self)
        ensures
            v == *self,
    ;
}

impl<'a> KeyTrait for &'a str {
    fn key_eq(&self, other: &Self) -> (b: bool) {
        crate::text::str_eq(*self, *other)
    }

    fn key_clone(&self) -> (k: Self) {
        *self
    }
}

impl KeyTrait for String {
    fn key_eq(&self, other: &Self) -> (b: bool) {
        crate::text::str_eq(self.as_str(), other.as_str())
    }

    fn key_clone(&self) -> (k: Self) {
        self.clone()
    }
}

impl KeyTrait for i32 {
    fn key_eq(&self, other: &Self) -> (b: bool) {
        *self == *other
    }

    fn key_clone(&self) -> (k: Self) {
        *self
    }
}

impl ValueTrait for String {
    fn value_clone(&self) -> (v: Self) {
        self.clone()
    }
}

impl<'a> ValueTrait for &'a str {
    fn value_clone(&self) -> (v: Self) {
        *self
    }
}

impl ValueTrait for i32 {
    fn value_clone(&self) -> (v: Self) {
        *self
    }
}

impl ValueTrait for usize {
    fn value_clone(&self) -> (v: Self) {
        *self
    }
}

impl ValueTrait for bool {
    fn value_clone(&self) -> (v: Self) {
        *self
    }
}

/// The bucket that a key with view `k` belongs to, among `cap` buckets.
pub open spec fn bucket_index<K: KeyTrait>(k: K::V, cap: nat) -> int {
    (K::hash_of(k) as nat % cap) as int
}

/// A map from keys to values: chaining for collisions, and a custom hash
/// function. Its view is the map from key views to values.
pub struct HashMap<K: KeyTrait, V: ValueTrait> {
    buckets: Vec<Option<LinkedList<Pair<K, V>>>>,
    capacity: usize,
    total_pairs: usize,
    contents: Ghost<Map<K::V, V>>,
}

impl<K: KeyTrait, V: ValueTrait> View for HashMap<K, V> {
    type V = Map<K::V, V>;

    closed spec fn view(&self) -> Map<K::V, V> {
        self.contents@
    }
}

/// The pairs of a bucket, front first.
pub open spec fn bucket_pairs<K, V>(b: Option<LinkedList<Pair<K, V>>>) -> Seq<Pair<K, V>> {
    match b {
        Some(l) => l@,
        None => Seq::empty(),
    }
}

impl<K: KeyTrait, V: ValueTrait> HashMap<K, V> {
    /// The number of buckets.
    pub closed spec fn spec_capacity(&self) -> nat {
        self.capacity as nat
    }

    /// The pairs of bucket `i`.
    spec fn bucket(&self, i: int) -> Seq<Pair<K, V>> {
        bucket_pairs(self.buckets@[i])
    }

    /// How many pairs bucket `i` holds.
    pub closed spec fn bucket_len(&self, i: int) -> nat {
        self.bucket(i).len()
    }

    /// Storing a value under a key with view `k` makes the map grow: the key
    /// is new, and then the load (pairs per bucket) would exceed 3/4, or the
    /// key's bucket would hold more than 8 pairs.
    pub open spec fn grows_on_insert(&self, k: K::V) -> bool {
        &&& !self@.contains_key(k)
        &&& ((self@.len() + 1) * 4 > self.spec_capacity() * 3 || self.bucket_len(
            bucket_index::<K>(k, self.spec_capacity()),
        ) + 1 > 8)
    }

    /// The map is well formed: every pair sits in the bucket of its key, no
    /// key occurs twice, and the buckets hold exactly the pairs of the view.
    pub closed spec fn wf(&self) -> bool {
        &&& self.buckets@.len() == self.capacity
        &&& self.contents@.dom().finite()
        &&& self.total_pairs == self.contents@.len()
        &&& forall|i: int, j: int|
            0 <= i < self.capacity && 0 <= j < self.bucket(i).len() ==> bucket_index::<K>(
                (#[trigger] self.bucket(i)[j]).key@,
                self.capacity as nat,
            ) == i
        &&& forall|i: int, j1: int, j2: int|
            0 <= i < self.capacity && 0 <= j1 < self.bucket(i).len() && 0 <= j2 < self.bucket(i).len()
                && j1 != j2 ==> (#[trigger] self.bucket(i)[j1]).key@ != (#[trigger] self.bucket(i)[j2]).key@
        &&& forall|i: int, j: int|
            0 <= i < self.capacity && 0 <= j < self.bucket(i).len() ==> {
                let p = #[trigger] self.bucket(i)[j];
                &&& self.contents@.contains_key(p.key@)
                &&& self.contents@[p.key@] == p.value
            }
        &&& forall|k: K::V|
            #[trigger] self.contents@.contains_key(k) ==> self.capacity > 0 && exists|j: int|
                0 <= j < self.bucket(bucket_index::<K>(k, self.capacity as nat)).len() && (#[trigger] self.bucket(
                    bucket_index::<K>(k, self.capacity as nat),
                )[j]).key@ == k
    }

    const DEFAULT_CAPACITY: usize = 13;

    /// An empty map with the default number of buckets (13).
    pub fn new() -> (m: Self)
        ensures
            m.wf(),
            m@ == Map::<K::V, V>::empty(),
            m.spec_capacity() == 13,
    {
        Self::with_capacity(Self::DEFAULT_CAPACITY)
    }

    /// An empty map with `capacity` buckets.
    pub fn with_capacity(capacity: usize) -> (m: Self)
        ensures
            m.wf(),
            m@ == Map::<K::V, V>::empty(),
            m.spec_capacity() == capacity,
    {
        let mut buckets: Vec<Option<LinkedList<Pair<K, V>>>> = Vec::new();
        let mut i: usize = 0;
        while i < capacity
            invariant
                i <= capacity,
                buckets@.len() == i,
                forall|j: int| 0 <= j < i ==> buckets@[j] is None,
            decreases capacity - i,
        {
            buckets.push(None);
            i += 1;
        }
        let m = HashMap { buckets, capacity, total_pairs: 0, contents: Ghost(Map::empty()) };
        assert(forall|i: int| 0 <= i < capacity ==> m.bucket(i) =~= Seq::<Pair<K, V>>::empty());
        m
    }

    /// The position in `l` of the pair whose key has the view of `key`, if any.
    fn position(l: &LinkedList<Pair<K, V>>, key: &K) -> (r: Option<usize>)
        ensures
            match r {
                Some(j) => j < l@.len() && l@[j as int].key@ == key@,
                None => forall|j: int| 0 <= j < l@.len() ==> (#[trigger] l@[j]).key@ != key@,
            },
    {
        let mut it = l.iter();
        let n = l.len();
        let mut i: usize = 0;
        while i < n
            invariant
                n == l@.len(),
                i <= n,
                it@ == l@.skip(i as int),
                forall|j: int| 0 <= j < i ==> (#[trigger] l@[j]).key@ != key@,
            decreases n - i,
        {
            let next = it.next();
            assert(l@.skip(i as int).drop_first() =~= l@.skip(i + 1));
            match next {
                Some(pair) => {
                    if pair.key.key_eq(key) {
                        return Some(i);
                    }
                },
                None => {},
            }
            i += 1;
        }
        None
    }

    /// The value stored under `key`, if any.
    pub fn get(&self, key: &K) -> (r: Option<&V>)
        requires
            self.wf(),
            self.spec_capacity() > 0,
        ensures
            r == (if self@.contains_key(key@) {
                Some(&self@[key@])
            } else {
                None
            }),
    {
        let index = key.jacob_hash() % self.capacity;
        assert(index == bucket_index::<K>(key@, self.capacity as nat));
        match &self.buckets[index] {
            Some(ll) => {
                assert(ll@ == self.bucket(index as int));
                match Self::position(ll, key) {
                    Some(j) => {
                        let mut it = ll.iter();
                        let mut t: usize = 0;
                        while t < j
                            invariant
                                t <= j < ll@.len(),
                                it@ == ll@.skip(t as int),
                            decreases j - t,
                        {
                            it.next();
                            assert(ll@.skip(t as int).drop_first() =~= ll@.skip(t + 1));
                            t += 1;
                        }
                        let pair = it.next().unwrap();
                        assert(self.bucket(index as int)[j as int] == *pair);
                        Some(&pair.value)
                    },
                    None => {
                        proof {
                            if self@.contains_key(key@) {
                                let jj = choose|jj: int|
                                    0 <= jj < self.bucket(index as int).len() && (#[trigger] self.bucket(
                                        index as int,
                                    )[jj]).key@ == key@;
                                assert(ll@[jj].key@ == key@);
                            }
                        }
                        None
                    },
                }
            },
            None => {
                assert(self.bucket(index as int).len() == 0);
                None
            },
        }
    }

    /// The number of pairs.
    pub fn len(&self) -> (n: usize)
        requires
            self.wf(),
        ensures
            n == self@.len(),
            self@.dom().finite(),
    {
        self.total_pairs
    }

    /// Whether the map holds a pair for `key`.
    pub fn contains_key(&self, key: &K) -> (b: bool)
        requires
            self.wf(),
            self.spec_capacity() > 0,
        ensures
            b == self@.contains_key(key@),
    {
        self.get(key).is_some()
    }

    /// Whether the map holds no pair.
    pub fn is_empty(&self) -> (b: bool)
        requires
            self.wf(),
        ensures
            b == (self@.len() == 0),
    {
        self.total_pairs == 0
    }

    /// A bucket holds no more pairs than the map.
    proof fn lemma_bucket_len(&self, i: int)
        requires
            self.wf(),
            0 <= i < self.capacity,
        ensures
            self.bucket(i).len() <= self@.len(),
    {
        let b = self.bucket(i);
        let ks = b.map_values(|p: Pair<K, V>| p.key@);
        assert forall|a: int, c: int| 0 <= a < ks.len() && 0 <= c < ks.len() && a != c implies ks[a] != ks[c] by {
            assert(ks[a] == self.bucket(i)[a].key@);
            assert(ks[c] == self.bucket(i)[c].key@);
        }
        assert(ks.no_duplicates());
        ks.unique_seq_to_set();
        assert forall|k: K::V| ks.to_set().contains(k) implies self.contents@.dom().contains(k) by {
            let a = choose|a: int| 0 <= a < ks.len() && ks[a] == k;
            assert(ks[a] == self.bucket(i)[a].key@);
        }
        vstd::set_lib::lemma_len_subset(ks.to_set(), self.contents@.dom());
    }

    /// Takes bucket `index` out, leaving `None` in its place.
    fn take_bucket(&mut self, index: usize) -> (r: Option<LinkedList<Pair<K, V>>>)
        requires
            index < old(self).buckets@.len(),
        ensures
            r == old(self).buckets@[index as int],
            final(self).buckets@ == old(self).buckets@.update(index as int, None),
            final(self).capacity == old(self).capacity,
            final(self).total_pairs == old(self).total_pairs,
            final(self).contents == old(self).contents,
    {
        let mut slot: Option<LinkedList<Pair<K, V>>> = None;
        std::mem::swap(&mut slot, &mut self.buckets[index]);
        slot
    }

    /// Stores `value` under `key`, without resizing. Returns the bucket of
    /// the key and whether the key was new.
    fn put(&mut self, key: K, value: V) -> (r: (usize, bool))
        requires
            old(self).wf(),
            old(self).spec_capacity() > 0,
            old(self)@.len() < usize::MAX,
        ensures
            final(self).wf(),
            final(self)@ == old(self)@.insert(key@, value),
            final(self).spec_capacity() == old(self).spec_capacity(),
            r.0 == bucket_index::<K>(key@, old(self).spec_capacity()),
            r.1 == !old(self)@.contains_key(key@),
            final(self).bucket_len(r.0 as int) == old(self).bucket_len(r.0 as int) + (if r.1 {
                1nat
            } else {
                0nat
            }),
    {
        let ghost k = key@;
        let ghost cap = self.capacity as nat;
        let index = key.jacob_hash() % self.capacity;
        assert(index == bucket_index::<K>(k, cap));
        proof { self.lemma_bucket_len(index as int); }
        let ghost old_self = *self;
        let slot = self.take_bucket(index);
        let mut ll = match slot {
            Some(l) => l,
            None => LinkedList::new(),
        };
        assert(ll@ == old_self.bucket(index as int));
        let new_data = Pair::new(key, value);
        let found = Self::position(&ll, &new_data.key);
        let is_new = found.is_none();
        match found {
            Some(pos) => {
                ll.replace(pos, new_data);
            },
            None => {
                ll.add(new_data);
                self.total_pairs = self.total_pairs + 1;
            },
        }
        self.buckets.set(index, Some(ll));
        proof {
            let new_map = old_self.contents@.insert(k, value);
            self.contents = Ghost(new_map);
            assert(forall|i: int| 0 <= i < cap && i != index ==> self.bucket(i) == old_self.bucket(i));
            assert(self.bucket(index as int) == ll@);
            if !is_new {
                assert(old_self.contents@.contains_key(k)) by {
                    let pos = found.unwrap() as int;
                    assert(old_self.bucket(index as int)[pos].key@ == k);
                }
                assert(self.contents@.len() == old_self.contents@.len());
            } else {
                assert(!old_self.contents@.contains_key(k)) by {
                    if old_self.contents@.contains_key(k) {
                        let jj = choose|jj: int|
                            0 <= jj < old_self.bucket(index as int).len() && (#[trigger] old_self.bucket(
                                index as int,
                            )[jj]).key@ == k;
                        assert(ll@[jj + 1].key@ == k);
                    }
                }
            }
            assert forall|i: int, j: int|
                0 <= i < self.capacity && 0 <= j < self.bucket(i).len() implies bucket_index::<K>(
                (#[trigger] self.bucket(i)[j]).key@,
                self.capacity as nat,
            ) == i by {
                if i != index {
                    assert(self.bucket(i)[j] == old_self.bucket(i)[j]);
                } else if is_new {
                    if j > 0 {
                        assert(self.bucket(i)[j] == old_self.bucket(i)[j - 1]);
                    }
                } else if j != found.unwrap() {
                    assert(self.bucket(i)[j] == old_self.bucket(i)[j]);
                }
            }
            assert forall|i: int, j1: int, j2: int|
                0 <= i < self.capacity && 0 <= j1 < self.bucket(i).len() && 0 <= j2 < self.bucket(i).len()
                    && j1 != j2 implies (#[trigger] self.bucket(i)[j1]).key@ != (
            #[trigger] self.bucket(i)[j2]).key@ by {
                if i != index {
                    assert(self.bucket(i)[j1] == old_self.bucket(i)[j1]);
                    assert(self.bucket(i)[j2] == old_self.bucket(i)[j2]);
                } else if is_new {
                    if j1 > 0 {
                        assert(self.bucket(i)[j1] == old_self.bucket(i)[j1 - 1]);
                    }
                    if j2 > 0 {
                        assert(self.bucket(i)[j2] == old_self.bucket(i)[j2 - 1]);
                    }
                } else {
                    let pos = found.unwrap() as int;
                    if j1 != pos {
                        assert(self.bucket(i)[j1] == old_self.bucket(i)[j1]);
                    }
                    if j2 != pos {
                        assert(self.bucket(i)[j2] == old_self.bucket(i)[j2]);
                    }
                }
            }
            assert forall|i: int, j: int| 0 <= i < self.capacity && 0 <= j < self.bucket(i).len() implies {
                let p = #[trigger] self.bucket(i)[j];
                &&& self.contents@.contains_key(p.key@)
                &&& self.contents@[p.key@] == p.value
            } by {
                if i != index {
                    let p = self.bucket(i)[j];
                    assert(p == old_self.bucket(i)[j]);
                    assert(bucket_index::<K>(p.key@, cap) == i);
                } else if is_new {
                    if j > 0 {
                        assert(self.bucket(i)[j] == old_self.bucket(i)[j - 1]);
                    }
                } else {
                    let pos = found.unwrap() as int;
                    if j != pos {
                        assert(self.bucket(i)[j] == old_self.bucket(i)[j]);
                        assert(old_self.bucket(i)[pos].key@ == k);
                    }
                }
            }
            assert forall|kk: K::V| #[trigger] self.contents@.contains_key(kk) implies self.capacity > 0
                && exists|j: int|
                0 <= j < self.bucket(bucket_index::<K>(kk, self.capacity as nat)).len() && (
            #[trigger] self.bucket(bucket_index::<K>(kk, self.capacity as nat))[j]).key@ == kk by {
                let bi = bucket_index::<K>(kk, cap);
                if kk == k {
                    if is_new {
                        assert(self.bucket(bi)[0].key@ == kk);
                    } else {
                        assert(self.bucket(bi)[found.unwrap() as int].key@ == kk);
                    }
                } else {
                    let jj = choose|jj: int|
                        0 <= jj < old_self.bucket(bi).len() && (#[trigger] old_self.bucket(bi)[jj]).key@ == kk;
                    if bi != index {
                        assert(self.bucket(bi)[jj] == old_self.bucket(bi)[jj]);
                    } else if is_new {
                        assert(self.bucket(bi)[jj + 1] == old_self.bucket(bi)[jj]);
                    } else {
                        assert(jj != found.unwrap());
                        assert(self.bucket(bi)[jj] == old_self.bucket(bi)[jj]);
                    }
                }
            }
        }
        (index, is_new)
    }

    /// Takes apart a well-formed map into the pairs it holds, bucket by
    /// bucket, each bucket front first.
    fn into_pairs(self) -> (out: Vec<Pair<K, V>>)
        requires
            self.wf(),
        ensures
            forall|j: int|
                0 <= j < out@.len() ==> {
                    let p = #[trigger] out@[j];
                    &&& self@.contains_key(p.key@)
                    &&& self@[p.key@] == p.value
                },
            forall|j1: int, j2: int|
                0 <= j1 < out@.len() && 0 <= j2 < out@.len() && j1 != j2 ==> (#[trigger] out@[j1]).key@
                    != (#[trigger] out@[j2]).key@,
            forall|k: K::V|
                #[trigger] self@.contains_key(k) ==> exists|j: int|
                    0 <= j < out@.len() && (#[trigger] out@[j]).key@ == k,
    {
        let ghost orig = self;
        let ghost cap = self.capacity as nat;
        let HashMap { mut buckets, capacity, total_pairs, contents } = self;
        let mut out: Vec<Pair<K, V>> = Vec::new();
        let mut i: usize = 0;
        while i < capacity
            invariant
                orig.wf(),
                capacity == orig.capacity,
                cap == capacity,
                buckets@.len() == capacity,
                i <= capacity,
                forall|b: int| i <= b < capacity ==> buckets@[b] == orig.buckets@[b],
                forall|j: int|
                    0 <= j < out@.len() ==> {
                        let p = #[trigger] out@[j];
                        &&& orig@.contains_key(p.key@)
                        &&& orig@[p.key@] == p.value
                        &&& bucket_index::<K>(p.key@, cap) < i
                    },
                forall|j1: int, j2: int|
                    0 <= j1 < out@.len() && 0 <= j2 < out@.len() && j1 != j2 ==> (
                    #[trigger] out@[j1]).key@ != (#[trigger] out@[j2]).key@,
                forall|k: K::V|
                    #[trigger] orig@.contains_key(k) && bucket_index::<K>(k, cap) < i ==> exists|j: int|
                        0 <= j < out@.len() && (#[trigger] out@[j]).key@ == k,
            decreases capacity - i,
        {
            let mut slot: Option<LinkedList<Pair<K, V>>> = None;
            std::mem::swap(&mut slot, &mut buckets[i]);
            let ghost bseq = orig.bucket(i as int);
            let ghost out0 = out@;
            let mut ll = match slot {
                Some(l) => l,
                None => LinkedList::new(),
            };
            assert(ll@ == bseq);
            proof { orig.lemma_bucket_len(i as int); }
            let mut t: usize = 0;
            while !ll.is_empty()
                invariant
                    orig.wf(),
                    cap == orig.capacity,
                    i < cap,
                    bseq == orig.bucket(i as int),
                    t <= bseq.len(),
                    bseq.len() <= usize::MAX,
                    ll@ == bseq.skip(t as int),
                    out@ == out0 + bseq.take(t as int),
                    forall|j: int|
                        0 <= j < out0.len() ==> {
                            let p = #[trigger] out0[j];
                            &&& orig@.contains_key(p.key@)
                            &&& orig@[p.key@] == p.value
                            &&& bucket_index::<K>(p.key@, cap) < i
                        },
                    forall|j1: int, j2: int|
                        0 <= j1 < out0.len() && 0 <= j2 < out0.len() && j1 != j2 ==> (
                        #[trigger] out0[j1]).key@ != (#[trigger] out0[j2]).key@,
                decreases bseq.len() - t,
            {
                let p = ll.remove().unwrap();
                assert(p == bseq[t as int]);
                out.push(p);
                assert(bseq.skip(t as int).drop_first() =~= bseq.skip(t + 1));
                assert(out@ =~= out0 + bseq.take(t + 1));
                t += 1;
            }
            assert(t == bseq.len());
            assert(bseq.take(t as int) =~= bseq);
            assert forall|j: int| 0 <= j < out@.len() implies {
                let p = #[trigger] out@[j];
                &&& orig@.contains_key(p.key@)
                &&& orig@[p.key@] == p.value
                &&& bucket_index::<K>(p.key@, cap) < i + 1
            } by {
                if j >= out0.len() {
                    assert(out@[j] == orig.bucket(i as int)[j - out0.len()]);
                } else {
                    assert(out@[j] == out0[j]);
                }
            }
            assert forall|j1: int, j2: int|
                0 <= j1 < out@.len() && 0 <= j2 < out@.len() && j1 != j2 implies (
            #[trigger] out@[j1]).key@ != (#[trigger] out@[j2]).key@ by {
                if j1 >= out0.len() {
                    assert(out@[j1] == orig.bucket(i as int)[j1 - out0.len()]);
                } else {
                    assert(out@[j1] == out0[j1]);
                }
                if j2 >= out0.len() {
                    assert(out@[j2] == orig.bucket(i as int)[j2 - out0.len()]);
                } else {
                    assert(out@[j2] == out0[j2]);
                }
            }
            assert forall|k: K::V|
                #[trigger] orig@.contains_key(k) && bucket_index::<K>(k, cap) < i + 1 implies exists|j: int|
                0 <= j < out@.len() && (#[trigger] out@[j]).key@ == k by {
                if bucket_index::<K>(k, cap) == i {
                    let jj = choose|jj: int|
                        0 <= jj < orig.bucket(i as int).len() && (#[trigger] orig.bucket(i as int)[jj]).key@ == k;
                    assert(out@[out0.len() + jj] == orig.bucket(i as int)[jj]);
                } else {
                    let jj = choose|jj: int| 0 <= jj < out0.len() && (#[trigger] out0[jj]).key@ == k;
                    assert(out@[jj] == out0[jj]);
                }
            }
            i += 1;
        }
        out
    }

    /// Re-hashes every pair into `capacity` buckets.
    fn resize_to(&mut self, capacity: usize)
        requires
            old(self).wf(),
            capacity > 0,
        ensures
            final(self).wf(),
            final(self)@ == old(self)@,
            final(self).spec_capacity() == capacity,
    {
        let ghost contents = self@;
        let mut taken = Self::with_capacity(0);
        std::mem::swap(&mut taken, self);
        let mut pairs = taken.into_pairs();
        let ghost all = pairs@;
        let n = pairs.len();
        // reversed, so that popping yields the pairs in their original order
        let mut rev: Vec<Pair<K, V>> = Vec::new();
        while pairs.len() > 0
            invariant
                n == all.len(),
                pairs@ == all.take(pairs@.len() as int),
                rev@.len() == n - pairs@.len(),
                forall|j: int| 0 <= j < rev@.len() ==> #[trigger] rev@[j] == all[n - 1 - j],
            decreases pairs.len(),
        {
            let p = pairs.pop().unwrap();
            rev.push(p);
            assert(pairs@ =~= all.take(pairs@.len() as int));
        }
        let mut m = Self::with_capacity(capacity);
        let mut t: usize = 0;
        while t < n
            invariant
                n == all.len(),
                t <= n,
                rev@.len() == n - t,
                forall|j: int| 0 <= j < rev@.len() ==> #[trigger] rev@[j] == all[n - 1 - j],
                m.wf(),
                m.spec_capacity() == capacity,
                capacity > 0,
                m@.len() == t,
                m@ == contents.restrict(Set::new(|k: K::V| exists|j: int| 0 <= j < t && all[j].key@ == k)),
                forall|j: int|
                    0 <= j < all.len() ==> {
                        let p = #[trigger] all[j];
                        &&& contents.contains_key(p.key@)
                        &&& contents[p.key@] == p.value
                    },
                forall|j1: int, j2: int|
                    0 <= j1 < all.len() && 0 <= j2 < all.len() && j1 != j2 ==> (#[trigger] all[j1]).key@
                        != (#[trigger] all[j2]).key@,
            decreases n - t,
        {
            let p = rev.pop().unwrap();
            assert(p == all[t as int]);
            let ghost prev = m@;
            proof {
                if prev.contains_key(p.key@) {
                    let jj = choose|jj: int| 0 <= jj < t && all[jj].key@ == p.key@;
                    assert(all[jj].key@ == all[t as int].key@);
                }
            }
            let Pair { key, value } = p;
            m.put(key, value);
            assert(m@ =~= contents.restrict(
                Set::new(|k: K::V| exists|j: int| 0 <= j < t + 1 && all[j].key@ == k),
            )) by {
                assert forall|k: K::V| #[trigger] m@.contains_key(k) == contents.restrict(
                    Set::new(|k: K::V| exists|j: int| 0 <= j < t + 1 && all[j].key@ == k),
                ).contains_key(k) by {
                    if k == all[t as int].key@ {
                    } else if exists|j: int| 0 <= j < t + 1 && all[j].key@ == k {
                        let jj = choose|jj: int| 0 <= jj < t + 1 && all[jj].key@ == k;
                        assert(0 <= jj < t && all[jj].key@ == k);
                    }
                }
            }
            t += 1;
        }
        assert(m@ =~= contents) by {
            assert forall|k: K::V| #[trigger] contents.contains_key(k) implies m@.contains_key(k) by {
                let jj = choose|jj: int| 0 <= jj < all.len() && (#[trigger] all[jj]).key@ == k;
                assert(0 <= jj < n && all[jj].key@ == k);
            }
        }
        *self = m;
    }
}

/// `n` is a prime number.
pub open spec fn is_prime_spec(n: nat) -> bool {
    n > 1 && forall|d: nat| 2 <= d < n ==> #[trigger] (n % d) != 0
}

proof fn lemma_small_factor(n: nat, d: nat, i: nat)
    requires
        2 <= i,
        i * i > n,
        i <= d < n,
        n % d == 0,
    ensures
        2 <= n / d < i,
        n % (n / d) == 0,
{
    let q = n / d;
    assert(n == d * q) by (nonlinear_arith)
        requires
            n % d == 0,
            d > 0,
            q == n / d,
    ;
    assert(q >= 2) by (nonlinear_arith)
        requires
            n == d * q,
            d < n,
            d > 0,
    ;
    assert(q < i) by (nonlinear_arith)
        requires
            n == d * q,
            i <= d,
            i * i > n,
            q >= 0,
    ;
    assert(n % q == 0) by (nonlinear_arith)
        requires
            n == d * q,
            q > 0,
    ;
}

/// Whether `number` is prime, by trial division up to its square root.
pub fn is_prime(number: usize) -> (b: bool)
    ensures
        b == is_prime_spec(number as nat),
{
    if number <= 1 {
        return false;
    }
    let mut i: usize = 2;
    while i <= number / i
        invariant
            2 <= i <= number,
            forall|d: nat| 2 <= d < i ==> #[trigger] ((number as nat) % d) != 0,
        decreases number - i,
    {
        if number % i == 0 {
            assert(i < number) by (nonlinear_arith)
                requires
                    2 <= i,
                    i <= number / i,
                    number > 1,
            ;
            return false;
        }
        assert(i + 1 <= number) by (nonlinear_arith)
            requires
                2 <= i,
                i <= number / i,
                number > 1,
        ;
        i += 1;
    }
    assert(i * i > number) by (nonlinear_arith)
        requires
            i > number / i,
            i >= 2,
    ;
    assert forall|d: nat| 2 <= d < number implies #[trigger] ((number as nat) % d) != 0 by {
        if d >= i && (number as nat) % d == 0 {
            lemma_small_factor(number as nat, d, i as nat);
            let q = (number as nat) / d;
            assert((number as nat) % q != 0);
        }
    }
    true
}

/// `r` is the first prime after `number`: a prime above it with no prime
/// in between; or `usize::MAX` where no prime up to `usize::MAX` follows
/// `number`.
pub open spec fn next_prime_spec(number: nat, r: nat) -> bool {
    ||| (number < r && is_prime_spec(r) && forall|p: nat| number < p < r ==> !#[trigger] is_prime_spec(p))
    ||| (r == usize::MAX && forall|p: nat| number < p <= usize::MAX ==> !#[trigger] is_prime_spec(p))
}

/// The first prime number after `number`: the capacity a map grows to.
pub fn next_prime(number: usize) -> (r: usize)
    ensures
        next_prime_spec(number as nat, r as nat),
        r > number || r == usize::MAX,
{
    if number == usize::MAX {
        return usize::MAX;
    }
    let mut i: usize = number + 1;
    while !is_prime(i)
        invariant
            number < i <= usize::MAX,
            forall|p: nat| number < p < i ==> !#[trigger] is_prime_spec(p),
        decreases usize::MAX - i,
    {
        if i == usize::MAX {
            return usize::MAX;
        }
        i += 1;
    }
    i
}

/// Removes the value at `pos` of `l`, returning the rest and that value.
fn remove_at<T>(l: LinkedList<T>, pos: usize) -> (r: (LinkedList<T>, T))
    requires
        pos < l@.len(),
    ensures
        r.0@ == l@.remove(pos as int),
        r.1 == l@[pos as int],
{
    let ghost orig = l@;
    let mut l = l;
    let n0 = l.len();
    let mut front: Vec<T> = Vec::new();
    let mut i: usize = 0;
    while i < pos
        invariant
            pos < orig.len(),
            i <= pos,
            front@ == orig.take(i as int),
            l@ == orig.skip(i as int),
        decreases pos - i,
    {
        let v = l.remove().unwrap();
        front.push(v);
        assert(orig.skip(i as int).drop_first() =~= orig.skip(i + 1));
        assert(front@ =~= orig.take(i + 1));
        i += 1;
    }
    let target = l.remove().unwrap();
    assert(orig.skip(pos as int).drop_first() =~= orig.skip(pos + 1));
    while front.len() > 0
        invariant
            front@.len() <= pos,
            pos < orig.len(),
            orig.len() == n0,
            front@ == orig.take(front@.len() as int),
            l@ == orig.take(pos as int).skip(front@.len() as int) + orig.skip(pos + 1),
        decreases front.len(),
    {
        let v = front.pop().unwrap();
        assert(l@.len() < orig.len());
        l.add(v);
        assert(front@ =~= orig.take(front@.len() as int));
        assert(l@ =~= orig.take(pos as int).skip(front@.len() as int) + orig.skip(pos + 1));
    }
    assert(l@ =~= orig.remove(pos as int));
    (l, target)
}

/// The largest load (pairs per bucket) before the map grows: 3/4.
const MAX_LOAD_NUMERATOR: usize = 3;

const MAX_LOAD_DENOMINATOR: usize = 4;

/// The longest a bucket may grow before the map grows.
const MAX_BUCKET_LENGTH: usize = 8;

impl<K: KeyTrait, V: ValueTrait> HashMap<K, V> {
    /// Grows the map to the next capacity (see `next_prime`), re-hashing every pair.
    pub fn resize(&mut self)
        requires
            old(self).wf(),
        ensures
            final(self).wf(),
            final(self)@ == old(self)@,
            next_prime_spec(old(self).spec_capacity(), final(self).spec_capacity()),
            final(self).spec_capacity() > old(self).spec_capacity() || final(self).spec_capacity() == usize::MAX,
    {
        let c = next_prime(self.capacity);
        self.resize_to(c)
    }

    /// The map is due to grow: its load (pairs per bucket) exceeds 3/4, or
    /// bucket `index` holds more than 8 pairs.
    spec fn needs_growth(&self, index: int) -> bool {
        ||| self@.len() * 4 > self.spec_capacity() * 3
        ||| self.bucket_len(index) > 8
    }

    /// Grows the map if its load exceeds 3/4 or bucket `index` holds more
    /// than 8 pairs.
    fn manage_load_factor(&mut self, index: usize)
        requires
            old(self).wf(),
            index < old(self).spec_capacity(),
        ensures
            final(self).wf(),
            final(self)@ == old(self)@,
            final(self).spec_capacity() >= old(self).spec_capacity(),
            old(self).needs_growth(index as int) ==> next_prime_spec(
                old(self).spec_capacity(),
                final(self).spec_capacity(),
            ) && (final(self).spec_capacity() > old(self).spec_capacity() || final(self).spec_capacity()
                == usize::MAX),
            !old(self).needs_growth(index as int) ==> *final(self) == *old(self),
    {
        let bucket_is_oversized = match &self.buckets[index] {
            Some(bucket) => bucket.len() > MAX_BUCKET_LENGTH,
            None => false,
        };
        let load_exceeded = (self.total_pairs as u128) * (MAX_LOAD_DENOMINATOR as u128)
            > (self.buckets.len() as u128) * (MAX_LOAD_NUMERATOR as u128);
        if load_exceeded || bucket_is_oversized {
            self.resize();
        }
    }

    /// Stores `value` under `key`, replacing the value stored there before.
    pub fn insert(&mut self, key: K, value: V)
        requires
            old(self).wf(),
            old(self).spec_capacity() > 0,
            old(self)@.len() < usize::MAX,
        ensures
            final(self).wf(),
            final(self)@ == old(self)@.insert(key@, value),
            final(self)@.len() == (if old(self)@.contains_key(key@) {
                old(self)@.len()
            } else {
                old(self)@.len() + 1
            }),
            final(self).spec_capacity() >= old(self).spec_capacity(),
            old(self).grows_on_insert(key@) ==> next_prime_spec(
                old(self).spec_capacity(),
                final(self).spec_capacity(),
            ) && (final(self).spec_capacity() > old(self).spec_capacity() || final(self).spec_capacity()
                == usize::MAX),
            !old(self).grows_on_insert(key@) ==> final(self).spec_capacity() == old(self).spec_capacity(),
    {
        let ghost k = key@;
        let (index, is_new) = self.put(key, value);
        assert(self@.dom() =~= old(self)@.dom().insert(k));
        if is_new {
            self.manage_load_factor(index);
        }
    }

    /// The value stored under `key`, which must be present.
    pub fn get_unchecked(&self, key: &K) -> (v: &V)
        requires
            self.wf(),
            self.spec_capacity() > 0,
            self@.contains_key(key@),
        ensures
            *v == self@[key@],
    {
        self.get(key).unwrap()
    }

    /// Removes every pair; the map goes back to the default capacity.
    pub fn clear(&mut self)
        ensures
            final(self).wf(),
            final(self)@ == Map::<K::V, V>::empty(),
            final(self).spec_capacity() == 13,
    {
        *self = Self::new();
    }

    /// Removes the pair stored under `key`, returning its value if there was one.
    pub fn remove(&mut self, key: &K) -> (r: Option<V>)
        requires
            old(self).wf(),
            old(self).spec_capacity() > 0,
        ensures
            final(self).wf(),
            final(self)@ == old(self)@.remove(key@),
            final(self)@.len() + (if old(self)@.contains_key(key@) { 1nat } else { 0nat }) == old(self)@.len(),
            final(self).spec_capacity() == old(self).spec_capacity(),
            r == (if old(self)@.contains_key(key@) {
                Some(old(self)@[key@])
            } else {
                None::<V>
            }),
    {
        let ghost k = key@;
        let ghost cap = self.capacity as nat;
        let index = key.jacob_hash() % self.capacity;
        assert(index == bucket_index::<K>(k, cap));
        let ghost old_self = *self;
        let found = match &self.buckets[index] {
            Some(ll) => {
                assert(ll@ == old_self.bucket(index as int));
                Self::position(ll, key)
            },
            None => None,
        };
        match found {
            None => {
                proof {
                    if old_self.contents@.contains_key(k) {
                        let jj = choose|jj: int|
                            0 <= jj < old_self.bucket(index as int).len() && (#[trigger] old_self.bucket(
                                index as int,
                            )[jj]).key@ == k;
                        assert(old_self.bucket(index as int)[jj].key@ == k);
                    }
                    assert(old_self.contents@.remove(k) =~= old_self.contents@);
                }
                None
            },
            Some(pos) => {
                let slot = self.take_bucket(index);
                let ll = slot.unwrap();
                {
                    {
                        let (rest, pair) = remove_at(ll, pos);
                        let ghost b0 = old_self.bucket(index as int);
                        assert(b0[pos as int].key@ == k);
                        assert(old_self.contents@.contains_key(k));
                        self.buckets.set(index, Some(rest));
                        self.total_pairs = self.total_pairs - 1;
                        proof {
                            self.contents = Ghost(old_self.contents@.remove(k));
                            assert(forall|i: int| 0 <= i < cap && i != index ==> self.bucket(i) == old_self.bucket(i));
                            assert(self.bucket(index as int) == b0.remove(pos as int));
                            assert forall|i: int, j: int|
                                0 <= i < self.capacity && 0 <= j < self.bucket(i).len() implies bucket_index::<K>(
                                (#[trigger] self.bucket(i)[j]).key@,
                                self.capacity as nat,
                            ) == i by {
                                if i != index {
                                    assert(self.bucket(i)[j] == old_self.bucket(i)[j]);
                                } else if j < pos {
                                    assert(self.bucket(i)[j] == b0[j]);
                                } else {
                                    assert(self.bucket(i)[j] == b0[j + 1]);
                                }
                            }
                            assert forall|i: int, j1: int, j2: int|
                                0 <= i < self.capacity && 0 <= j1 < self.bucket(i).len() && 0 <= j2
                                    < self.bucket(i).len() && j1 != j2 implies (
                            #[trigger] self.bucket(i)[j1]).key@ != (#[trigger] self.bucket(i)[j2]).key@ by {
                                if i != index {
                                    assert(self.bucket(i)[j1] == old_self.bucket(i)[j1]);
                                    assert(self.bucket(i)[j2] == old_self.bucket(i)[j2]);
                                } else {
                                    let o1 = if j1 < pos { j1 } else { j1 + 1 };
                                    let o2 = if j2 < pos { j2 } else { j2 + 1 };
                                    assert(self.bucket(i)[j1] == b0[o1]);
                                    assert(self.bucket(i)[j2] == b0[o2]);
                                    assert(old_self.bucket(i)[o1] == b0[o1]);
                                    assert(old_self.bucket(i)[o2] == b0[o2]);
                                }
                            }
                            assert forall|i: int, j: int|
                                0 <= i < self.capacity && 0 <= j < self.bucket(i).len() implies {
                                let p = #[trigger] self.bucket(i)[j];
                                &&& self.contents@.contains_key(p.key@)
                                &&& self.contents@[p.key@] == p.value
                            } by {
                                if i != index {
                                    let p = self.bucket(i)[j];
                                    assert(p == old_self.bucket(i)[j]);
                                    assert(bucket_index::<K>(p.key@, cap) == i);
                                } else {
                                    let o = if j < pos { j } else { j + 1 };
                                    assert(self.bucket(i)[j] == b0[o]);
                                    assert(old_self.bucket(i)[o] == b0[o]);
                                    assert(old_self.bucket(i)[pos as int] == b0[pos as int]);
                                }
                            }
                            assert forall|kk: K::V| #[trigger] self.contents@.contains_key(kk) implies self.capacity
                                > 0 && exists|j: int|
                                0 <= j < self.bucket(bucket_index::<K>(kk, self.capacity as nat)).len() && (
                            #[trigger] self.bucket(bucket_index::<K>(kk, self.capacity as nat))[j]).key@ == kk by {
                                let bi = bucket_index::<K>(kk, cap);
                                let jj = choose|jj: int|
                                    0 <= jj < old_self.bucket(bi).len() && (#[trigger] old_self.bucket(bi)[jj]).key@ == kk;
                                if bi != index {
                                    assert(self.bucket(bi)[jj] == old_self.bucket(bi)[jj]);
                                } else if jj < pos {
                                    assert(self.bucket(bi)[jj] == b0[jj]);
                                } else {
                                    assert(jj != pos);
                                    assert(self.bucket(bi)[jj - 1] == b0[jj]);
                                }
                            }
                        }
                        Some(pair.value)
                    }
                }
            },
        }
    }
}

/// The pairs of `s` describe exactly the map `m`: every pair is an entry of
/// `m`, no key occurs twice, and every key of `m` occurs.
pub open spec fn lists_map<K: View, V>(s: Seq<Pair<K, V>>, m: Map<K::V, V>) -> bool {
    &&& forall|j: int|
        0 <= j < s.len() ==> {
            let p = #[trigger] s[j];
            &&& m.contains_key(p.key@)
            &&& m[p.key@] == p.value
        }
    &&& forall|j1: int, j2: int|
        0 <= j1 < s.len() && 0 <= j2 < s.len() && j1 != j2 ==> (#[trigger] s[j1]).key@ != (
        #[trigger] s[j2]).key@
    &&& forall|k: K::V| #[trigger] m.contains_key(k) ==> exists|j: int| 0 <= j < s.len() && (#[trigger] s[j]).key@ == k
}

/// The key views and values of the pairs `s`, in order.
pub open spec fn pair_views<K: View, V>(s: Seq<Pair<K, V>>) -> Seq<(K::V, V)> {
    s.map_values(|p: Pair<K, V>| (p.key@, p.value))
}

impl<K: KeyTrait, V: ValueTrait> HashMap<K, V> {
    /// The pairs of the first `n` buckets, bucket by bucket, each front first.
    spec fn flat(&self, n: int) -> Seq<(K::V, V)>
        decreases n,
    {
        if n <= 0 {
            Seq::empty()
        } else {
            self.flat(n - 1) + pair_views(self.bucket(n - 1))
        }
    }

    /// The pairs of the map in the order its iterators yield them: bucket by
    /// bucket, each bucket front first.
    pub closed spec fn spec_pairs(&self) -> Seq<(K::V, V)> {
        self.flat(self.capacity as int)
    }

    /// Copies of the pairs of the map, bucket by bucket, each bucket front first.
    fn snapshot(&self) -> (out: Vec<Pair<K, V>>)
        requires
            self.wf(),
        ensures
            lists_map(out@, self@),
            pair_views(out@) == self.spec_pairs(),
    {
        let mut out: Vec<Pair<K, V>> = Vec::new();
        let cap = self.capacity;
        let mut i: usize = 0;
        while i < cap
            invariant
                self.wf(),
                cap == self.capacity,
                i <= cap,
                forall|j: int|
                    0 <= j < out@.len() ==> {
                        let p = #[trigger] out@[j];
                        &&& self@.contains_key(p.key@)
                        &&& self@[p.key@] == p.value
                        &&& bucket_index::<K>(p.key@, cap as nat) < i
                    },
                forall|j1: int, j2: int|
                    0 <= j1 < out@.len() && 0 <= j2 < out@.len() && j1 != j2 ==> (
                    #[trigger] out@[j1]).key@ != (#[trigger] out@[j2]).key@,
                forall|k: K::V|
                    #[trigger] self@.contains_key(k) && bucket_index::<K>(k, cap as nat) < i ==> exists|j: int|
                        0 <= j < out@.len() && (#[trigger] out@[j]).key@ == k,
                pair_views(out@) == self.flat(i as int),
            decreases cap - i,
        {
            let ghost bseq = self.bucket(i as int);
            let ghost out0 = out@;
            proof { self.lemma_bucket_len(i as int); }
            if let Some(ll) = &self.buckets[i] {
                assert(ll@ == bseq);
                let mut it = ll.iter();
                let n = ll.len();
                let mut t: usize = 0;
                while t < n
                    invariant
                        self.wf(),
                        cap == self.capacity,
                        i < cap,
                        bseq == self.bucket(i as int),
                        n == bseq.len(),
                        t <= n,
                        it@ == bseq.skip(t as int),
                        out@.len() == out0.len() + t,
                        forall|j: int| 0 <= j < out0.len() ==> out@[j] == out0[j],
                        forall|j: int|
                            0 <= j < t ==> (#[trigger] out@[out0.len() + j]).key@ == bseq[j].key@
                                && out@[out0.len() + j].value == bseq[j].value,
                        pair_views(out@) == self.flat(i as int) + pair_views(bseq.take(t as int)),
                    decreases n - t,
                {
                    let p = it.next().unwrap();
                    assert(bseq.skip(t as int).drop_first() =~= bseq.skip(t + 1));
                    let q = Pair::new(p.key.key_clone(), p.value.value_clone());
                    let ghost before = out@;
                    out.push(q);
                    assert(pair_views(out@) =~= pair_views(before).push((q.key@, q.value)));
                    assert(pair_views(bseq.take(t + 1)) =~= pair_views(bseq.take(t as int)).push(
                        (bseq[t as int].key@, bseq[t as int].value),
                    ));
                    t += 1;
                }
                assert(bseq.take(n as int) =~= bseq);
            } else {
                assert(pair_views(bseq) =~= Seq::<(K::V, V)>::empty());
            }
            assert(self.flat(i + 1) == self.flat(i as int) + pair_views(bseq));
            assert forall|j: int| 0 <= j < out@.len() implies {
                let p = #[trigger] out@[j];
                &&& self@.contains_key(p.key@)
                &&& self@[p.key@] == p.value
                &&& bucket_index::<K>(p.key@, cap as nat) < i + 1
            } by {
                if j >= out0.len() {
                    let q = self.bucket(i as int)[j - out0.len()];
                    assert(out@[out0.len() + (j - out0.len())] == out@[j]);
                } else {
                    assert(out@[j] == out0[j]);
                }
            }
            assert forall|j1: int, j2: int|
                0 <= j1 < out@.len() && 0 <= j2 < out@.len() && j1 != j2 implies (
            #[trigger] out@[j1]).key@ != (#[trigger] out@[j2]).key@ by {
                if j1 >= out0.len() {
                    assert(out@[out0.len() + (j1 - out0.len())] == out@[j1]);
                    let q = self.bucket(i as int)[j1 - out0.len()];
                } else {
                    assert(out@[j1] == out0[j1]);
                }
                if j2 >= out0.len() {
                    assert(out@[out0.len() + (j2 - out0.len())] == out@[j2]);
                    let q = self.bucket(i as int)[j2 - out0.len()];
                } else {
                    assert(out@[j2] == out0[j2]);
                }
            }
            assert forall|k: K::V|
                #[trigger] self@.contains_key(k) && bucket_index::<K>(k, cap as nat) < i + 1 implies exists|j: int|
                0 <= j < out@.len() && (#[trigger] out@[j]).key@ == k by {
                if bucket_index::<K>(k, cap as nat) == i {
                    let jj = choose|jj: int|
                        0 <= jj < self.bucket(i as int).len() && (#[trigger] self.bucket(i as int)[jj]).key@ == k;
                    assert(out@[out0.len() + jj].key@ == bseq[jj].key@);
                } else {
                    let jj = choose|jj: int| 0 <= jj < out0.len() && (#[trigger] out0[jj]).key@ == k;
                    assert(out@[jj] == out0[jj]);
                }
            }
            i += 1;
        }
        out
    }

    /// An iterator over copies of the pairs.
    pub fn iter(&self) -> (it: Iter<K, V>)
        requires
            self.wf(),
        ensures
            lists_map(it@, self@),
            pair_views(it@) == self.spec_pairs(),
    {
        let pairs = self.snapshot();
        Iter::from_pairs(pairs)
    }

    /// An iterator over copies of the keys.
    pub fn keys(&self) -> (it: Keys<K, V>)
        requires
            self.wf(),
        ensures
            lists_map(it.iter@, self@),
            pair_views(it.iter@) == self.spec_pairs(),
    {
        let iter = self.iter();
        Keys { iter }
    }

    /// An iterator over copies of the values.
    pub fn values(&self) -> (it: Values<K, V>)
        requires
            self.wf(),
        ensures
            lists_map(it.iter@, self@),
            pair_views(it.iter@) == self.spec_pairs(),
    {
        let iter = self.iter();
        Values { iter }
    }
}

/// An iterator over a map's pairs; it holds copies of them.
pub struct Iter<K, V> {
    rev_pairs: Vec<Pair<K, V>>,
}

impl<K, V> View for Iter<K, V> {
    type V = Seq<Pair<K, V>>;

    /// The pairs not yet returned, in the order they will come.
    closed spec fn view(&self) -> Seq<Pair<K, V>> {
        self.rev_pairs@.reverse()
    }
}

impl<K, V> Iter<K, V> {
    /// An iterator yielding `pairs` in order.
    fn from_pairs(pairs: Vec<Pair<K, V>>) -> (it: Self)
        ensures
            it@ == pairs@,
    {
        let ghost all = pairs@;
        let mut pairs = pairs;
        let n = pairs.len();
        let mut rev: Vec<Pair<K, V>> = Vec::new();
        assert(all.take(n as int) =~= all);
        assert(all.skip(n as int).reverse() =~= rev@);
        while pairs.len() > 0
            invariant
                n == all.len(),
                pairs@.len() <= n,
                pairs@ == all.take(pairs@.len() as int),
                rev@ == all.skip(pairs@.len() as int).reverse(),
            decreases pairs.len(),
        {
            let ghost before = pairs@.len() as int;
            let ghost rev0 = rev@;
            let p = pairs.pop().unwrap();
            assert(p == all[before - 1]);
            rev.push(p);
            assert(pairs@ =~= all.take(before - 1));
            assert(rev@ =~= all.skip(before - 1).reverse()) by {
                assert forall|j: int| 0 <= j < rev@.len() implies rev@[j] == all.skip(before - 1).reverse()[j] by {
                    if j < rev0.len() {
                        assert(rev@[j] == rev0[j]);
                    }
                }
            }
        }
        assert(all.skip(0) =~= all);
        assert(rev@.reverse() =~= all);
        Iter { rev_pairs: rev }
    }

    /// The next pair, if any.
    pub fn next(&mut self) -> (r: Option<Pair<K, V>>)
        ensures
            old(self)@.len() > 0 ==> r == Some(old(self)@[0]) && final(self)@ == old(self)@.drop_first(),
            old(self)@.len() == 0 ==> r is None && final(self)@ == old(self)@,
    {
        let r = self.rev_pairs.pop();
        proof {
            if old(self)@.len() > 0 {
                assert(self@ =~= old(self)@.drop_first());
            }
        }
        r
    }
}

/// An iterator over a map's keys.
pub struct Keys<K, V> {
    pub iter: Iter<K, V>,
}

impl<K, V> Keys<K, V> {
    /// The next key, if any.
    pub fn next(&mut self) -> (r: Option<K>)
        ensures
            old(self).iter@.len() > 0 ==> r == Some(old(self).iter@[0].key) && final(self).iter@ == old(
                self,
            ).iter@.drop_first(),
            old(self).iter@.len() == 0 ==> r is None && final(self).iter@ == old(self).iter@,
    {
        match self.iter.next() {
            Some(p) => Some(p.key),
            None => None,
        }
    }
}

/// An iterator over a map's values.
pub struct Values<K, V> {
    pub iter: Iter<K, V>,
}

impl<K, V> Values<K, V> {
    /// The next value, if any.
    pub fn next(&mut self) -> (r: Option<V>)
        ensures
            old(self).iter@.len() > 0 ==> r == Some(old(self).iter@[0].value) && final(self).iter@ == old(
                self,
            ).iter@.drop_first(),
            old(self).iter@.len() == 0 ==> r is None && final(self).iter@ == old(self).iter@,
    {
        match self.iter.next() {
            Some(p) => Some(p.value),
            None => None,
        }
    }
}

} // verus!

verus! {

// ---------------------------------------------------------------------------
// Laws of the map, stated over its view
// ---------------------------------------------------------------------------

/// Looking a key up right after `insert` stored a value under it finds that
/// value, and every other key keeps what it had.
pub proof fn law_get_after_insert<K, V>(m: Map<K, V>, key: K, value: V, other: K)
    ensures
        m.insert(key, value).contains_key(key),
        m.insert(key, value)[key] == value,
        other != key ==> m.insert(key, value).contains_key(other) == m.contains_key(other),
        other != key && m.contains_key(other) ==> m.insert(key, value)[other] == m[other],
{
}

/// `remove` undoes an `insert` of a key that was not there: the map is as
/// it was before.
pub proof fn law_remove_after_insert<K, V>(m: Map<K, V>, key: K, value: V)
    requires
        !m.contains_key(key),
    ensures
        m.insert(key, value).remove(key) == m,
{
    assert(m.insert(key, value).remove(key) =~= m);
}

/// Inserting twice under one key keeps only the second value.
pub proof fn law_insert_replaces<K, V>(m: Map<K, V>, key: K, first: V, second: V)
    ensures
        m.insert(key, first).insert(key, second) == m.insert(key, second),
{
    assert(m.insert(key, first).insert(key, second) =~= m.insert(key, second));
}

/// Iterating over a map (`iter`, `keys`, `values`) yields exactly as many
/// items as the map holds pairs (`len`).
pub proof fn law_iter_len<K: View, V>(s: Seq<Pair<K, V>>, m: Map<K::V, V>)
    requires
        lists_map(s, m),
        m.dom().finite(),
    ensures
        s.len() == m.len(),
{
    let ks = s.map_values(|p: Pair<K, V>| p.key@);
    assert forall|a: int, c: int| 0 <= a < ks.len() && 0 <= c < ks.len() && a != c implies ks[a] != ks[c] by {
        assert(ks[a] == s[a].key@);
        assert(ks[c] == s[c].key@);
    }
    assert(ks.no_duplicates());
    ks.unique_seq_to_set();
    assert forall|k: K::V| ks.to_set().contains(k) <==> m.dom().contains(k) by {
        if ks.to_set().contains(k) {
            let a = choose|a: int| 0 <= a < ks.len() && ks[a] == k;
            assert(ks[a] == s[a].key@);
        }
        if m.dom().contains(k) {
            assert(m.contains_key(k));
            let j = choose|j: int| 0 <= j < s.len() && (#[trigger] s[j]).key@ == k;
            assert(ks[j] == k);
            assert(ks.contains(k));
        }
    }
    assert(ks.to_set() =~= m.dom());
}

} // verus!

verus! {

/// Each of `texts` after `pre`, all joined.
pub open spec fn prefixed_concat(texts: Seq<Seq<char>>, pre: Seq<char>) -> Seq<char>
    decreases texts.len(),
{
    if texts.len() == 0 {
        Seq::empty()
    } else {
        prefixed_concat(texts.drop_last(), pre) + pre + texts.last()
    }
}

impl<K: KeyTrait, V: ValueTrait> HashMap<K, V> {
    /// The map written as `{`, then each pair on a line of its own indented by
    /// four spaces, then `}` on a line of its own; `texts` are the pairs
    /// written out (as `key: value`), in the order the iterator yields them.
    pub fn build_string(texts: &Vec<String>) -> (s: String)
        ensures
            s@ == "{"@ + prefixed_concat(texts_view(texts@), "\n    "@) + "\n}"@,
    {
        let ghost ts = texts_view(texts@);
        let mut output = "{".to_owned();
        let ghost start = output@;
        let mut i: usize = 0;
        while i < texts.len()
            invariant
                i <= texts@.len(),
                ts == texts_view(texts@),
                start == "{"@,
                output@ == start + prefixed_concat(ts.take(i as int), "\n    "@),
            decreases texts.len() - i,
        {
            assert(ts.take(i + 1).drop_last() =~= ts.take(i as int));
            assert(ts.take(i + 1).last() == texts@[i as int]@);
            push_str(&mut output, "\n    ");
            push_str(&mut output, texts[i].as_str());
            assert(output@ =~= start + prefixed_concat(ts.take(i + 1), "\n    "@));
            i += 1;
        }
        assert(ts.take(texts.len() as int) =~= ts);
        push_str(&mut output, "\n}");
        output
    }
}

} // verus!
