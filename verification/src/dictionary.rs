//! The storage of `NSDictionary` and `CFDictionary` objects.
//!
//! Keys are hashed and compared by the objects themselves (`hash`,
//! `isEqual:`) or by a CFDictionary's callbacks, which run guest code. The
//! storage therefore takes the hash of a key from its caller and asks a
//! caller-supplied test whether a stored key is the one looked for; pairs
//! with the same hash are kept in order in one bucket. A dictionary without
//! callbacks uses a key's address as its hash and address equality.
use vstd::prelude::*;
use crate::assoc::{assoc, assoc_find, lemma_assoc_push, lemma_assoc_update};
use crate::objc::{Id, NIL};

verus! {

/// The pair at `i` is the first in `pairs` whose key passed the test.
pub open spec fn first_match<F: Fn(Id) -> bool>(f: F, pairs: Seq<(Id, Id)>, i: int) -> bool {
    &&& 0 <= i < pairs.len()
    &&& f.ensures((pairs[i].0,), true)
    &&& forall|j: int| 0 <= j < i ==> f.ensures((pairs[j].0,), false)
}

/// No key in `pairs` passed the test.
pub open spec fn no_match<F: Fn(Id) -> bool>(f: F, pairs: Seq<(Id, Id)>) -> bool {
    forall|j: int| 0 <= j < pairs.len() ==> f.ensures((pairs[j].0,), false)
}

/// The pairs of the bucket for `hash`.
pub open spec fn bucket_of(buckets: Seq<(u32, Vec<(Id, Id)>)>, hash: u32) -> Seq<(Id, Id)> {
    match assoc(buckets, hash) {
        Some(v) => v@,
        None => Seq::empty(),
    }
}

/// The number of pairs in the first `n` buckets.
pub open spec fn total_pairs(buckets: Seq<(u32, Vec<(Id, Id)>)>, n: int) -> int
    decreases n,
{
    if n <= 0 {
        0
    } else {
        total_pairs(buckets, n - 1) + buckets[n - 1].1@.len()
    }
}

proof fn lemma_total_update(buckets: Seq<(u32, Vec<(Id, Id)>)>, i: int, x: (u32, Vec<(Id, Id)>), n: int)
    requires
        0 <= i < buckets.len(),
        0 <= n <= buckets.len(),
    ensures
        total_pairs(buckets.update(i, x), n) == total_pairs(buckets, n) + if i < n { x.1@.len() - buckets[i].1@.len() } else { 0 },
    decreases n,
{
    if n > 0 {
        lemma_total_update(buckets, i, x, n - 1);
    }
}

proof fn lemma_total_push(buckets: Seq<(u32, Vec<(Id, Id)>)>, x: (u32, Vec<(Id, Id)>), n: int)
    requires
        0 <= n <= buckets.len(),
    ensures
        total_pairs(buckets.push(x), n) == total_pairs(buckets, n),
    decreases n,
{
    if n > 0 {
        lemma_total_push(buckets, x, n - 1);
    }
}

proof fn lemma_total_nonneg(buckets: Seq<(u32, Vec<(Id, Id)>)>, i: int, n: int)
    requires
        0 <= i < n <= buckets.len(),
    ensures
        total_pairs(buckets, n) >= buckets[i].1@.len(),
    decreases n,
{
    if n - 1 > i {
        lemma_total_nonneg(buckets, i, n - 1);
    }
    lemma_total_nonneg_all(buckets, n - 1);
}

proof fn lemma_total_nonneg_all(buckets: Seq<(u32, Vec<(Id, Id)>)>, n: int)
    ensures
        total_pairs(buckets, n) >= 0,
    decreases n,
{
    if n > 0 {
        lemma_total_nonneg_all(buckets, n - 1);
    }
}

/// The keys and values of a dictionary, bucket by bucket.
pub struct DictionaryHostObject {
    map: Vec<(u32, Vec<(Id, Id)>)>,
    count: u32,
}

/// The index of the first pair whose key passes `is_key`.
fn find_pair<F: Fn(Id) -> bool>(pairs: &Vec<(Id, Id)>, is_key: &F) -> (r: Option<usize>)
    requires
        forall|c: Id| is_key.requires((c,)),
    ensures
        r matches Some(i) ==> first_match(*is_key, pairs@, i as int),
        r is None ==> no_match(*is_key, pairs@),
{
    let mut i: usize = 0;
    while i < pairs.len()
        invariant
            i <= pairs@.len(),
            forall|c: Id| is_key.requires((c,)),
            forall|j: int| 0 <= j < i ==> is_key.ensures((pairs@[j].0,), false),
        decreases pairs@.len() - i,
    {
        let b = is_key(pairs[i].0);
        if b {
            return Some(i);
        }
        i = i + 1;
    }
    None
}

impl DictionaryHostObject {
    /// The pairs with hash `hash`, in the order they were added.
    pub closed spec fn bucket(&self, hash: u32) -> Seq<(Id, Id)> {
        bucket_of(self.map@, hash)
    }

    /// The number of pairs.
    pub closed spec fn count_spec(&self) -> u32 {
        self.count
    }

    /// The count is the number of pairs stored.
    pub closed spec fn wf(&self) -> bool {
        self.count == total_pairs(self.map@, self.map@.len() as int)
    }

    /// No pairs.
    pub fn new() -> (d: DictionaryHostObject)
        ensures
            d.wf(),
            forall|h: u32| #[trigger] d.bucket(h).len() == 0,
            d.count_spec() == 0,
    {
        DictionaryHostObject { map: Vec::new(), count: 0 }
    }

    /// The number of pairs.
    pub fn count(&self) -> (r: u32)
        ensures
            r == self.count_spec(),
    {
        self.count
    }

    /// The value of the first pair with hash `hash` whose key passes
    /// `is_key`; nil if none does.
    pub fn lookup<F: Fn(Id) -> bool>(&self, hash: u32, is_key: F) -> (r: Id)
        requires
            forall|c: Id| is_key.requires((c,)),
        ensures
            (exists|i: int| first_match(is_key, self.bucket(hash), i) && r == self.bucket(hash)[i].1)
                || (no_match(is_key, self.bucket(hash)) && r == NIL),
    {
        match assoc_find(&self.map, hash) {
            Some(b) => {
                let pairs = &self.map[b].1;
                match find_pair(pairs, &is_key) {
                    Some(i) => pairs[i].1,
                    None => NIL,
                }
            },
            None => NIL,
        }
    }

    /// Put the pair `(key, value)` under `hash`: it replaces the value of
    /// the first pair whose key passes `is_key` (the value replaced is
    /// returned, for the caller to release), or else is added after the
    /// bucket's other pairs.
    pub fn insert<F: Fn(Id) -> bool>(&mut self, hash: u32, key: Id, value: Id, is_key: F) -> (r: Option<Id>)
        requires
            old(self).wf(),
            forall|c: Id| is_key.requires((c,)),
            old(self).count_spec() < u32::MAX,
        ensures
            final(self).wf(),
            forall|h: u32| h != hash ==> #[trigger] final(self).bucket(h) == old(self).bucket(h),
            r matches Some(v) ==> exists|i: int| first_match(is_key, old(self).bucket(hash), i)
                && v == old(self).bucket(hash)[i].1
                && final(self).bucket(hash) == old(self).bucket(hash).update(i, (old(self).bucket(hash)[i].0, value))
                && final(self).count_spec() == old(self).count_spec(),
            r is None ==> no_match(is_key, old(self).bucket(hash))
                && final(self).bucket(hash) == old(self).bucket(hash).push((key, value))
                && final(self).count_spec() == old(self).count_spec() + 1,
    {
        let ghost before = self.map@;
        match assoc_find(&self.map, hash) {
            Some(b) => {
                let (h, mut pairs) = self.map.remove(b);
                let ghost old_pairs = pairs@;
                let r = match find_pair(&pairs, &is_key) {
                    Some(i) => {
                        let old_value = pairs[i].1;
                        let k = pairs[i].0;
                        pairs.set(i, (k, value));
                        proof {
                            assert(old_pairs == old(self).bucket(hash));
                            assert(first_match(is_key, old(self).bucket(hash), i as int));
                            assert(pairs@ == old_pairs.update(i as int, (old_pairs[i as int].0, value)));
                        }
                        Some(old_value)
                    },
                    None => {
                        pairs.push((key, value));
                        self.count = self.count + 1;
                        None
                    },
                };
                self.map.insert(b, (h, pairs));
                proof {
                    assert(self.map@ =~= before.update(b as int, (h, pairs)));
                    lemma_total_update(before, b as int, (h, pairs), before.len() as int);
                    assert forall|h2: u32| #[trigger] assoc(self.map@, h2) == if h2 == hash { Some(pairs) } else { assoc(before, h2) } by {
                        lemma_assoc_update(before, b as int, hash, pairs, h2);
                    }
                }
                r
            },
            None => {
                let mut pairs: Vec<(Id, Id)> = Vec::new();
                pairs.push((key, value));
                self.map.push((hash, pairs));
                self.count = self.count + 1;
                proof {
                    lemma_total_push(before, (hash, pairs), before.len() as int);
                    assert forall|h2: u32| #[trigger] assoc(self.map@, h2) == if h2 == hash { Some(pairs) } else { assoc(before, h2) } by {
                        lemma_assoc_push(before, hash, pairs, h2);
                    }
                    assert(old(self).bucket(hash) =~= Seq::<(Id, Id)>::empty());
                    assert(pairs@ =~= old(self).bucket(hash).push((key, value)));
                }
                None
            },
        }
    }

    /// Take out the first pair with hash `hash` whose key passes `is_key`;
    /// the pair is returned for the caller to release.
    pub fn remove<F: Fn(Id) -> bool>(&mut self, hash: u32, is_key: F) -> (r: Option<(Id, Id)>)
        requires
            old(self).wf(),
            forall|c: Id| is_key.requires((c,)),
        ensures
            final(self).wf(),
            forall|h: u32| h != hash ==> #[trigger] final(self).bucket(h) == old(self).bucket(h),
            r matches Some(p) ==> exists|i: int| first_match(is_key, old(self).bucket(hash), i)
                && p == old(self).bucket(hash)[i]
                && final(self).bucket(hash) == old(self).bucket(hash).remove(i)
                && final(self).count_spec() == old(self).count_spec() - 1,
            r is None ==> no_match(is_key, old(self).bucket(hash)) && *final(self) == *old(self),
    {
        let ghost before = self.map@;
        match assoc_find(&self.map, hash) {
            Some(b) => {
                match find_pair(&self.map[b].1, &is_key) {
                    Some(i) => {
                        let (h, mut pairs) = self.map.remove(b);
                        let ghost old_pairs = pairs@;
                        let p = pairs.remove(i);
                        proof {
                            assert(old_pairs == old(self).bucket(hash));
                            assert(first_match(is_key, old(self).bucket(hash), i as int));
                            assert(p == old_pairs[i as int]);
                        }
                        self.map.insert(b, (h, pairs));
                        proof {
                            assert(self.map@ =~= before.update(b as int, (h, pairs)));
                            lemma_total_update(before, b as int, (h, pairs), before.len() as int);
                            lemma_total_nonneg(before, b as int, before.len() as int);
                            assert forall|h2: u32| #[trigger] assoc(self.map@, h2) == if h2 == hash { Some(pairs) } else { assoc(before, h2) } by {
                                lemma_assoc_update(before, b as int, hash, pairs, h2);
                            }
                        }
                        self.count = self.count - 1;
                        Some(p)
                    },
                    None => None,
                }
            },
            None => {
                assert(old(self).bucket(hash) =~= Seq::<(Id, Id)>::empty());
                None
            },
        }
    }
}

impl DictionaryHostObject {
    /// The hashes of the buckets, in the order the buckets were made.
    pub closed spec fn hashes(&self) -> Seq<u32> {
        self.map@.map_values(|e: (u32, Vec<(Id, Id)>)| e.0)
    }

    /// All pairs, bucket by bucket (the first bucket of each hash).
    pub closed spec fn all_pairs(&self) -> Seq<(Id, Id)> {
        pairs_of(self.map@, self.map@.len() as int)
    }

    /// All keys, bucket by bucket.
    pub fn keys(&self) -> (r: Vec<Id>)
        ensures
            r@ == self.all_pairs().map_values(|p: (Id, Id)| p.0),
    {
        let pairs = self.pairs();
        let mut r: Vec<Id> = Vec::new();
        let mut i: usize = 0;
        while i < pairs.len()
            invariant
                i <= pairs@.len(),
                pairs@ == self.all_pairs(),
                r@ == pairs@.subrange(0, i as int).map_values(|p: (Id, Id)| p.0),
            decreases pairs@.len() - i,
        {
            r.push(pairs[i].0);
            proof {
                assert(pairs@.subrange(0, i + 1).map_values(|p: (Id, Id)| p.0) =~= pairs@.subrange(0, i as int).map_values(
                    |p: (Id, Id)| p.0,
                ).push(pairs@[i as int].0));
            }
            i = i + 1;
        }
        proof {
            assert(pairs@.subrange(0, pairs@.len() as int) =~= pairs@);
        }
        r
    }

    /// All pairs, bucket by bucket: what releasing the dictionary releases.
    pub fn pairs(&self) -> (r: Vec<(Id, Id)>)
        ensures
            r@ == self.all_pairs(),
    {
        let mut r: Vec<(Id, Id)> = Vec::new();
        let mut b: usize = 0;
        while b < self.map.len()
            invariant
                b <= self.map@.len(),
                r@ == pairs_of(self.map@, b as int),
            decreases self.map@.len() - b,
        {
            let bucket = &self.map[b].1;
            let ghost start = r@;
            let mut i: usize = 0;
            while i < bucket.len()
                invariant
                    i <= bucket@.len(),
                    r@ == start + bucket@.subrange(0, i as int),
                decreases bucket@.len() - i,
            {
                r.push(bucket[i]);
                proof {
                    assert(r@ =~= start + bucket@.subrange(0, i + 1));
                }
                i = i + 1;
            }
            proof {
                assert(bucket@.subrange(0, bucket@.len() as int) =~= bucket@);
            }
            b = b + 1;
        }
        r
    }
}

/// The pairs of the first `n` buckets, bucket by bucket.
pub open spec fn pairs_of(buckets: Seq<(u32, Vec<(Id, Id)>)>, n: int) -> Seq<(Id, Id)>
    decreases n,
{
    if n <= 0 {
        Seq::empty()
    } else {
        pairs_of(buckets, n - 1) + buckets[n - 1].1@
    }
}

/// The value of the first pair with key `k` in a bucket.
pub open spec fn value_for(pairs: Seq<(Id, Id)>, k: Id) -> Option<Id> {
    assoc(pairs, k)
}

/// What is read back after a write: when keys are compared by address, a
/// bucket that took `(k, v)` (in place of the value of the first pair with
/// key `k`, or at its end if there was none) gives `v` for `k`, and the
/// other keys what they gave before.
pub proof fn lemma_lookup_after_insert(before: Seq<(Id, Id)>, after: Seq<(Id, Id)>, k: Id, v: Id, k2: Id)
    requires
        (forall|j: int| 0 <= j < before.len() ==> before[j].0 != k) && after == before.push((k, v))
        || exists|i: int| 0 <= i < before.len() && before[i].0 == k
            && (forall|j: int| 0 <= j < i ==> before[j].0 != k) && after == before.update(i, (k, v)),
    ensures
        value_for(after, k2) == if k2 == k { Some(v) } else { value_for(before, k2) },
{
    if exists|i: int| 0 <= i < before.len() && before[i].0 == k
        && (forall|j: int| 0 <= j < i ==> before[j].0 != k) && after == before.update(i, (k, v)) {
        let i = choose|i: int| 0 <= i < before.len() && before[i].0 == k
            && (forall|j: int| 0 <= j < i ==> before[j].0 != k) && after == before.update(i, (k, v));
        crate::assoc::lemma_assoc_update(before, i, k, v, k2);
    } else {
        crate::assoc::lemma_assoc_none(before, k);
        lemma_assoc_push(before, k, v, k2);
    }
}

/// What is read back after a removal: when keys are compared by address and
/// a bucket holds each key once, taking out the pair with key `k` leaves
/// nothing for `k` and the other keys as they were.
pub proof fn lemma_lookup_after_remove(before: Seq<(Id, Id)>, i: int, k: Id, k2: Id)
    requires
        0 <= i < before.len(),
        before[i].0 == k,
        crate::assoc::keys_unique(before),
    ensures
        value_for(before.remove(i), k2) == if k2 == k { None } else { value_for(before, k2) },
        crate::assoc::keys_unique(before.remove(i)),
{
    crate::assoc::lemma_assoc_remove(before, i, k2);
}

/// What reading the next variadic argument of `initWithObjectsAndKeys:`
/// leads to.
#[derive(Clone, Copy, PartialEq, Eq, Structural, Debug)]
pub enum ObjectsAndKeysStep {
    /// An object was read; its key comes next.
    ReadKey(Id),
    /// A key was read: put the pair into the dictionary.
    Insert(Id, Id),
    /// A nil object or key ends the list.
    Stop,
}

/// `initWithObjectsAndKeys:`, one argument at a time: the list alternates
/// objects and keys and ends at the first nil, whether in place of an
/// object or of a key. `object` is the object waiting for its key (the
/// first object comes as a fixed argument).
pub fn init_with_objects_and_keys(object: Option<Id>, arg: Id) -> (r: ObjectsAndKeysStep)
    ensures
        arg == NIL ==> r == ObjectsAndKeysStep::Stop,
        arg != NIL ==> r == match object {
            None => ObjectsAndKeysStep::ReadKey(arg),
            Some(o) => ObjectsAndKeysStep::Insert(arg, o),
        },
{
    if arg == NIL {
        return ObjectsAndKeysStep::Stop;
    }
    match object {
        None => ObjectsAndKeysStep::ReadKey(arg),
        Some(o) => ObjectsAndKeysStep::Insert(arg, o),
    }
}

/// Some pair among the first `n` inputs has hash `h` and key `k`.
pub open spec fn key_from(inputs: Seq<(Id, Id, u32)>, n: int, h: u32, k: Id) -> bool {
    exists|x: int| 0 <= x < n && #[trigger] inputs[x].2 == h && inputs[x].0 == k
}

/// Some pair among the first `n` inputs has hash `h` and value `v`.
pub open spec fn value_from(inputs: Seq<(Id, Id, u32)>, n: int, h: u32, v: Id) -> bool {
    exists|x: int| 0 <= x < n && #[trigger] inputs[x].2 == h && inputs[x].1 == v
}

/// Some pair among the first `n` inputs has value `v`.
pub open spec fn given_value(inputs: Seq<(Id, Id, u32)>, n: int, v: Id) -> bool {
    exists|x: int| 0 <= x < n && #[trigger] inputs[x].1 == v
}

/// Every pair of the bucket for `h` is made of a key and a value given
/// with hash `h` among the first `n` inputs; a hash given with none of them
/// has an empty bucket.
pub open spec fn bucket_from(inputs: Seq<(Id, Id, u32)>, n: int, h: u32, bucket: Seq<(Id, Id)>) -> bool {
    &&& forall|j: int| 0 <= j < bucket.len() ==> key_from(inputs, n, h, #[trigger] bucket[j].0)
    &&& forall|j: int| 0 <= j < bucket.len() ==> value_from(inputs, n, h, #[trigger] bucket[j].1)
    &&& (forall|x: int| 0 <= x < n ==> inputs[x].2 != h) ==> bucket.len() == 0
}

proof fn lemma_bucket_from_grow(inputs: Seq<(Id, Id, u32)>, n: int, h: u32, bucket: Seq<(Id, Id)>)
    requires
        0 <= n < inputs.len(),
        inputs[n].2 != h,
        bucket_from(inputs, n, h, bucket),
    ensures
        bucket_from(inputs, n + 1, h, bucket),
{
    assert forall|j: int| 0 <= j < bucket.len() implies key_from(inputs, n + 1, h, #[trigger] bucket[j].0) by {
        let x = choose|x: int| 0 <= x < n && #[trigger] inputs[x].2 == h && inputs[x].0 == bucket[j].0;
        assert(0 <= x < n + 1 && inputs[x].2 == h && inputs[x].0 == bucket[j].0);
    }
    assert forall|j: int| 0 <= j < bucket.len() implies value_from(inputs, n + 1, h, #[trigger] bucket[j].1) by {
        let x = choose|x: int| 0 <= x < n && #[trigger] inputs[x].2 == h && inputs[x].1 == bucket[j].1;
        assert(0 <= x < n + 1 && inputs[x].2 == h && inputs[x].1 == bucket[j].1);
    }
}

/// No two keys of a bucket are the same object, and the caller's test
/// answered that each key is not equal to any key stored before it.
pub open spec fn keys_distinct<E: Fn(Id, Id) -> bool>(is_equal: E, bucket: Seq<(Id, Id)>) -> bool {
    forall|i: int, j: int| 0 <= i < j < bucket.len() ==> #[trigger] bucket[i].0 != #[trigger] bucket[j].0
        && is_equal.ensures((bucket[i].0, bucket[j].0), false)
}

/// `land[x]` is the pair of its bucket that the `x`th input went to: its key
/// is that input's key or one that the caller's test found equal to it, and
/// the pair holds the value of the last input that went to it.
pub open spec fn landed<E: Fn(Id, Id) -> bool>(is_equal: E, inputs: Seq<(Id, Id, u32)>, n: int, d: DictionaryHostObject, land: Seq<int>) -> bool {
    &&& land.len() == n
    &&& forall|x: int| 0 <= x < n ==> {
        let b = d.bucket(inputs[x].2);
        &&& 0 <= #[trigger] land[x] < b.len()
        &&& (b[land[x]].0 == inputs[x].0 || is_equal.ensures((b[land[x]].0, inputs[x].0), true))
        &&& (forall|y: int| x < y < n ==> !(inputs[y].2 == inputs[x].2 && #[trigger] land[y] == land[x]))
            ==> b[land[x]].1 == inputs[x].1
    }
}

/// The dictionary holding the given pairs, added in order: each key (already
/// copied by the caller, with its hash) replaces the value of an equal key
/// added before. Returns the dictionary and the values replaced, for the
/// caller to release. Every given hash has a bucket, and a bucket holds
/// only keys and values given with its hash; no two keys of a bucket are the
/// same or were found equal by `is_equal`; and each pair given went to the
/// pair of its bucket whose key is its key or equal to it, which holds the
/// value of the last pair given that went there.
pub fn dict_from_keys_and_objects<E: Fn(Id, Id) -> bool>(keys_and_objects: &[(Id, Id, u32)], is_equal: E) -> (r: (DictionaryHostObject, Vec<Id>))
    requires
        keys_and_objects@.len() < u32::MAX,
        forall|a: Id, b: Id| is_equal.requires((a, b)),
    ensures
        r.0.wf(),
        r.0.count_spec() + r.1@.len() == keys_and_objects@.len(),
        forall|h: u32| bucket_from(keys_and_objects@, keys_and_objects@.len() as int, h, #[trigger] r.0.bucket(h)),
        forall|x: int| 0 <= x < keys_and_objects@.len() ==> #[trigger] r.0.bucket(keys_and_objects@[x].2).len() > 0,
        forall|j: int| 0 <= j < r.1@.len() ==> given_value(keys_and_objects@, keys_and_objects@.len() as int, #[trigger] r.1@[j]),
        forall|h: u32| keys_distinct(is_equal, #[trigger] r.0.bucket(h)),
        exists|land: Seq<int>| landed(is_equal, keys_and_objects@, keys_and_objects@.len() as int, r.0, land),
{
    let ghost inputs = keys_and_objects@;
    let ghost mut land: Seq<int> = Seq::empty();
    let mut d = DictionaryHostObject::new();
    let mut replaced: Vec<Id> = Vec::new();
    let mut i: usize = 0;
    while i < keys_and_objects.len()
        invariant
            inputs == keys_and_objects@,
            i <= inputs.len(),
            inputs.len() < u32::MAX,
            d.wf(),
            d.count_spec() + replaced@.len() == i,
            forall|a: Id, b: Id| is_equal.requires((a, b)),
            forall|h: u32| bucket_from(inputs, i as int, h, #[trigger] d.bucket(h)),
            forall|x: int| 0 <= x < i ==> #[trigger] d.bucket(inputs[x].2).len() > 0,
            forall|j: int| 0 <= j < replaced@.len() ==> given_value(inputs, i as int, #[trigger] replaced@[j]),
            forall|h: u32| keys_distinct(is_equal, #[trigger] d.bucket(h)),
            landed(is_equal, inputs, i as int, d, land),
        decreases inputs.len() - i,
    {
        let (key, object, hash) = keys_and_objects[i];
        let eq = &is_equal;
        let is_key = |c: Id| -> (r: bool)
            requires
                eq.requires((c, key)),
            ensures
                r ==> (c == key || (*eq).ensures((c, key), true)),
                !r ==> (c != key && (*eq).ensures((c, key), false)),
        {
            c == key || eq(c, key)
        };
        let ghost before = d;
        let ghost before_replaced = replaced@;
        let res = d.insert(hash, key, object, is_key);
        match res {
            Some(v) => replaced.push(v),
            None => {},
        }
        proof {
            let n = i as int;
            assert(inputs[n] == (key, object, hash));
            assert forall|h: u32| bucket_from(inputs, n + 1, h, #[trigger] d.bucket(h)) by {
                if h != hash {
                    assert(d.bucket(h) == before.bucket(h));
                    lemma_bucket_from_grow(inputs, n, h, before.bucket(h));
                } else {
                    let b0 = before.bucket(hash);
                    let b1 = d.bucket(hash);
                    assert(bucket_from(inputs, n, hash, b0));
                    assert forall|j: int| 0 <= j < b1.len() implies key_from(inputs, n + 1, hash, #[trigger] b1[j].0)
                        && value_from(inputs, n + 1, hash, b1[j].1) by {
                        if j < b0.len() && b1[j].0 == b0[j].0 {
                            let x = choose|x: int| 0 <= x < n && #[trigger] inputs[x].2 == hash && inputs[x].0 == b0[j].0;
                            assert(0 <= x < n + 1 && inputs[x].2 == hash && inputs[x].0 == b1[j].0);
                        } else {
                            assert(inputs[n].2 == hash && inputs[n].0 == b1[j].0);
                        }
                        if j < b0.len() && b1[j].1 == b0[j].1 {
                            let x = choose|x: int| 0 <= x < n && #[trigger] inputs[x].2 == hash && inputs[x].1 == b0[j].1;
                            assert(0 <= x < n + 1 && inputs[x].2 == hash && inputs[x].1 == b1[j].1);
                        } else {
                            assert(inputs[n].2 == hash && inputs[n].1 == b1[j].1);
                        }
                    }
                    assert(inputs[n].2 == hash);
                }
            }
            assert forall|x: int| 0 <= x < n + 1 implies #[trigger] d.bucket(inputs[x].2).len() > 0 by {
                if inputs[x].2 != hash {
                    assert(d.bucket(inputs[x].2) == before.bucket(inputs[x].2));
                }
            }
            assert forall|j: int| 0 <= j < replaced@.len() implies given_value(inputs, n + 1, #[trigger] replaced@[j]) by {
                if j < before_replaced.len() {
                    assert(replaced@[j] == before_replaced[j]);
                    let x = choose|x: int| 0 <= x < n && #[trigger] inputs[x].1 == before_replaced[j];
                    assert(0 <= x < n + 1 && inputs[x].1 == replaced@[j]);
                } else {
                    let v = res->0;
                    let k = choose|k: int| first_match(is_key, before.bucket(hash), k) && v == before.bucket(hash)[k].1
                        && d.bucket(hash) == before.bucket(hash).update(k, (before.bucket(hash)[k].0, object))
                        && d.count_spec() == before.count_spec();
                    assert(bucket_from(inputs, n, hash, before.bucket(hash)));
                    assert(value_from(inputs, n, hash, before.bucket(hash)[k].1));
                    let x = choose|x: int| 0 <= x < n && #[trigger] inputs[x].2 == hash && inputs[x].1 == before.bucket(hash)[k].1;
                    assert(0 <= x < n + 1 && inputs[x].1 == replaced@[j]);
                }
            }
        }
        proof {
            let n = i as int;
            let b0 = before.bucket(hash);
            let b1 = d.bucket(hash);
            let idx: int = if res is Some {
                choose|k: int| first_match(is_key, b0, k) && res->0 == b0[k].1
                    && b1 == b0.update(k, (b0[k].0, object))
                    && d.count_spec() == before.count_spec()
            } else {
                b0.len() as int
            };
            assert(0 <= idx <= b0.len());
            assert(idx < b1.len());
            assert(b1[idx].0 == key || is_equal.ensures((b1[idx].0, key), true)) by {
                if res is Some {
                    assert(is_key.ensures((b0[idx].0,), true));
                } else {
                    assert(b1[idx] == (key, object));
                }
            }
            assert(b1[idx].1 == object);
            assert(b1.len() >= b0.len());
            assert(forall|j: int| 0 <= j < b0.len() && j != idx ==> #[trigger] b1[j] == b0[j]);
            assert(forall|j: int| 0 <= j < b0.len() ==> #[trigger] b1[j].0 == b0[j].0);
            assert forall|h: u32| keys_distinct(is_equal, #[trigger] d.bucket(h)) by {
                if h != hash {
                    assert(d.bucket(h) == before.bucket(h));
                } else {
                    assert(keys_distinct(is_equal, b0));
                    assert forall|a: int, c: int| 0 <= a < c < b1.len() implies #[trigger] b1[a].0 != #[trigger] b1[c].0
                        && is_equal.ensures((b1[a].0, b1[c].0), false) by {
                        if c < b0.len() {
                            assert(b1[a].0 == b0[a].0 && b1[c].0 == b0[c].0);
                        } else {
                            assert(res is None);
                            assert(no_match(is_key, b0));
                            assert(is_key.ensures((b0[a].0,), false));
                            assert(b1[c].0 == key);
                            assert(b1[a].0 == b0[a].0);
                        }
                    }
                }
            }
            let land0 = land;
            land = land.push(idx);
            assert forall|x: int| 0 <= x < n + 1 implies {
                let b = d.bucket(inputs[x].2);
                &&& 0 <= #[trigger] land[x] < b.len()
                &&& (b[land[x]].0 == inputs[x].0 || is_equal.ensures((b[land[x]].0, inputs[x].0), true))
                &&& (forall|y: int| x < y < n + 1 ==> !(inputs[y].2 == inputs[x].2 && #[trigger] land[y] == land[x]))
                    ==> b[land[x]].1 == inputs[x].1
            } by {
                if x == n {
                    assert(land[x] == idx);
                    assert(inputs[x] == (key, object, hash));
                } else {
                    assert(land[x] == land0[x]);
                    let hx = inputs[x].2;
                    let bb = before.bucket(hx);
                    assert(landed(is_equal, inputs, n, before, land0));
                    assert(0 <= land0[x] < bb.len());
                    assert(bb[land0[x]].0 == inputs[x].0 || is_equal.ensures((bb[land0[x]].0, inputs[x].0), true));
                    assert((forall|y: int| x < y < n ==> !(inputs[y].2 == inputs[x].2 && #[trigger] land0[y] == land0[x]))
                        ==> bb[land0[x]].1 == inputs[x].1);
                    if hx != hash {
                        assert(d.bucket(hx) == bb);
                        if forall|y: int| x < y < n + 1 ==> !(inputs[y].2 == inputs[x].2 && #[trigger] land[y] == land[x]) {
                            assert forall|y: int| x < y < n implies !(inputs[y].2 == inputs[x].2 && #[trigger] land0[y] == land0[x]) by {
                                assert(land[y] == land0[y]);
                            }
                        }
                    } else {
                        assert(b1[land0[x]].0 == b0[land0[x]].0);
                        if land0[x] != idx {
                            assert(b1[land0[x]] == b0[land0[x]]);
                        }
                        if forall|y: int| x < y < n + 1 ==> !(inputs[y].2 == inputs[x].2 && #[trigger] land[y] == land[x]) {
                            assert(!(inputs[n].2 == inputs[x].2 && land[n] == land[x]));
                            assert(land0[x] != idx);
                            assert forall|y: int| x < y < n implies !(inputs[y].2 == inputs[x].2 && #[trigger] land0[y] == land0[x]) by {
                                assert(land[y] == land0[y]);
                            }
                        }
                    }
                }
            }
            assert(landed(is_equal, inputs, n + 1, d, land));
        }
        i = i + 1;
    }
    (d, replaced)
}

/// As [dict_from_keys_and_objects], for a mutable dictionary.
pub fn mutable_dict_from_keys_and_objects<E: Fn(Id, Id) -> bool>(keys_and_objects: &[(Id, Id, u32)], is_equal: E) -> (r: (DictionaryHostObject, Vec<Id>))
    requires
        keys_and_objects@.len() < u32::MAX,
        forall|a: Id, b: Id| is_equal.requires((a, b)),
    ensures
        r.0.wf(),
        r.0.count_spec() + r.1@.len() == keys_and_objects@.len(),
        forall|h: u32| bucket_from(keys_and_objects@, keys_and_objects@.len() as int, h, #[trigger] r.0.bucket(h)),
        forall|x: int| 0 <= x < keys_and_objects@.len() ==> #[trigger] r.0.bucket(keys_and_objects@[x].2).len() > 0,
        forall|j: int| 0 <= j < r.1@.len() ==> given_value(keys_and_objects@, keys_and_objects@.len() as int, #[trigger] r.1@[j]),
        forall|h: u32| keys_distinct(is_equal, #[trigger] r.0.bucket(h)),
        exists|land: Seq<int>| landed(is_equal, keys_and_objects@, keys_and_objects@.len() as int, r.0, land),
{
    dict_from_keys_and_objects(keys_and_objects, is_equal)
}

/// The key callbacks of a CFDictionary: guest functions, NULL for the
/// default behaviour.
#[derive(Clone, Copy, PartialEq, Eq, Structural, Debug)]
pub struct CFDictionaryKeyCallBacks {
    pub version: i32,
    pub retain: u32,
    pub release: u32,
    pub copy_desc: u32,
    pub equal: u32,
    pub hash: u32,
}

/// The value callbacks of a CFDictionary: guest functions, NULL for the
/// default behaviour.
#[derive(Clone, Copy, PartialEq, Eq, Structural, Debug)]
pub struct CFDictionaryValueCallBacks {
    pub version: i32,
    pub retain: u32,
    pub release: u32,
    pub copy_desc: u32,
    pub equal: u32,
}

/// A result, or the guest function that computes it.
#[derive(Debug)]
pub enum Callback<T> {
    Done(T),
    CallGuest(u32),
}

/// A CFDictionary: the storage and the callbacks.
pub struct CFDictionaryHostObject {
    superclass: DictionaryHostObject,
    key_callbacks: CFDictionaryKeyCallBacks,
    value_callbacks: CFDictionaryValueCallBacks,
}

impl Default for CFDictionaryHostObject {
    /// An empty dictionary with no callbacks.
    fn default() -> (d: Self)
        ensures
            d.wf(),
            forall|h: u32| #[trigger] d.bucket(h).len() == 0,
            d.key_cbs() == (CFDictionaryKeyCallBacks { version: 0, retain: 0, release: 0, copy_desc: 0, equal: 0, hash: 0 }),
            d.value_cbs() == (CFDictionaryValueCallBacks { version: 0, retain: 0, release: 0, copy_desc: 0, equal: 0 }),
    {
        CFDictionaryHostObject {
            superclass: DictionaryHostObject::new(),
            key_callbacks: CFDictionaryKeyCallBacks { version: 0, retain: 0, release: 0, copy_desc: 0, equal: 0, hash: 0 },
            value_callbacks: CFDictionaryValueCallBacks { version: 0, retain: 0, release: 0, copy_desc: 0, equal: 0 },
        }
    }
}

impl CFDictionaryHostObject {
    /// The key callbacks.
    pub closed spec fn key_cbs(&self) -> CFDictionaryKeyCallBacks {
        self.key_callbacks
    }

    /// The value callbacks.
    pub closed spec fn value_cbs(&self) -> CFDictionaryValueCallBacks {
        self.value_callbacks
    }

    pub closed spec fn wf(&self) -> bool {
        self.superclass.wf()
    }

    /// The pairs with hash `hash`, in order.
    pub closed spec fn bucket(&self, hash: u32) -> Seq<(Id, Id)> {
        self.superclass.bucket(hash)
    }

    pub closed spec fn count_spec(&self) -> u32 {
        self.superclass.count_spec()
    }

    /// An empty dictionary with the given callbacks.
    pub fn with_callbacks(key_callbacks: CFDictionaryKeyCallBacks, value_callbacks: CFDictionaryValueCallBacks) -> (d: Self)
        ensures
            d.wf(),
            forall|h: u32| #[trigger] d.bucket(h).len() == 0,
            d.count_spec() == 0,
            d.key_cbs() == key_callbacks,
            d.value_cbs() == value_callbacks,
    {
        CFDictionaryHostObject { superclass: DictionaryHostObject::new(), key_callbacks, value_callbacks }
    }

    /// The number of pairs.
    pub fn count(&self) -> (r: u32)
        ensures
            r == self.count_spec(),
    {
        self.superclass.count()
    }

    /// The hash of `key`: its address, or what the hash callback says.
    pub fn hash(&self, key: Id) -> (r: Callback<u32>)
        ensures
            r == if self.key_cbs().hash == 0 { Callback::Done(key) } else { Callback::CallGuest(self.key_cbs().hash) },
    {
        if self.key_callbacks.hash == 0 {
            Callback::Done(key)
        } else {
            Callback::CallGuest(self.key_callbacks.hash)
        }
    }

    /// Whether two keys are equal: the same address, or what the equality
    /// callback says.
    pub fn equal_keys(&self, key1: Id, key2: Id) -> (r: Callback<bool>)
        ensures
            r == if self.key_cbs().equal == 0 {
                Callback::Done(key1 == key2)
            } else {
                Callback::CallGuest(self.key_cbs().equal)
            },
    {
        if self.key_callbacks.equal == 0 {
            Callback::Done(key1 == key2)
        } else {
            Callback::CallGuest(self.key_callbacks.equal)
        }
    }

    /// The key to store: the key itself, or what the retain callback says.
    pub fn retain_key(&self, key: Id) -> (r: Callback<Id>)
        ensures
            r == if self.key_cbs().retain == 0 { Callback::Done(key) } else { Callback::CallGuest(self.key_cbs().retain) },
    {
        if self.key_callbacks.retain == 0 {
            Callback::Done(key)
        } else {
            Callback::CallGuest(self.key_callbacks.retain)
        }
    }

    /// The callback to call when a key is let go of, if any.
    pub fn release_key(&self, _key: Id) -> (r: Option<u32>)
        ensures
            r == if self.key_cbs().release == 0 { None::<u32> } else { Some(self.key_cbs().release) },
    {
        if self.key_callbacks.release == 0 {
            None
        } else {
            Some(self.key_callbacks.release)
        }
    }

    /// The value to store: the value itself, or what the retain callback
    /// says.
    pub fn retain_value(&self, value: Id) -> (r: Callback<Id>)
        ensures
            r == if self.value_cbs().retain == 0 {
                Callback::Done(value)
            } else {
                Callback::CallGuest(self.value_cbs().retain)
            },
    {
        if self.value_callbacks.retain == 0 {
            Callback::Done(value)
        } else {
            Callback::CallGuest(self.value_callbacks.retain)
        }
    }

    /// The callback to call when a value is let go of, if any.
    pub fn release_value(&self, _value: Id) -> (r: Option<u32>)
        ensures
            r == if self.value_cbs().release == 0 { None::<u32> } else { Some(self.value_cbs().release) },
    {
        if self.value_callbacks.release == 0 {
            None
        } else {
            Some(self.value_callbacks.release)
        }
    }

    /// The value of the first pair with hash `hash` whose key is equal to
    /// the key looked for; nil if none is.
    pub fn lookup<F: Fn(Id) -> bool>(&self, hash: u32, is_key: F) -> (r: Id)
        requires
            forall|c: Id| is_key.requires((c,)),
        ensures
            (exists|i: int| first_match(is_key, self.bucket(hash), i) && r == self.bucket(hash)[i].1)
                || (no_match(is_key, self.bucket(hash)) && r == NIL),
    {
        self.superclass.lookup(hash, is_key)
    }

    /// Put `(key, value)` (retained by the caller) under `hash`: a pair
    /// with an equal key is taken out (and returned, for the caller to
    /// release) and the new pair goes to the end of the bucket.
    pub fn insert<F: Fn(Id) -> bool>(&mut self, hash: u32, key: Id, value: Id, is_key: F) -> (r: Option<(Id, Id)>)
        requires
            old(self).wf(),
            forall|c: Id| is_key.requires((c,)),
            old(self).count_spec() < u32::MAX,
        ensures
            final(self).wf(),
            final(self).key_cbs() == old(self).key_cbs(),
            final(self).value_cbs() == old(self).value_cbs(),
            forall|h: u32| h != hash ==> #[trigger] final(self).bucket(h) == old(self).bucket(h),
            r matches Some(p) ==> exists|i: int| first_match(is_key, old(self).bucket(hash), i)
                && p == old(self).bucket(hash)[i]
                && final(self).bucket(hash) == old(self).bucket(hash).remove(i).push((key, value))
                && final(self).count_spec() == old(self).count_spec(),
            r is None ==> no_match(is_key, old(self).bucket(hash))
                && final(self).bucket(hash) == old(self).bucket(hash).push((key, value))
                && final(self).count_spec() == old(self).count_spec() + 1,
    {
        let ghost b0 = self.superclass.bucket(hash);
        let removed = self.superclass.remove(hash, is_key);
        let ghost b1 = self.superclass.bucket(hash);
        let ghost c1 = self.superclass.count_spec();
        let never = |c: Id| -> (r: bool)
            ensures
                !r,
        {
            false
        };
        let added = self.superclass.insert(hash, key, value, never);
        proof {
            if added is Some {
                let i = choose|i: int| first_match(never, b1, i) && added->0 == b1[i].1
                    && self.superclass.bucket(hash) == b1.update(i, (b1[i].0, value)) && self.superclass.count_spec() == c1;
                assert(never.ensures((b1[i].0,), true));
                assert(false);
            }
            if removed is Some {
                let i = choose|i: int| first_match(is_key, b0, i) && removed->0 == b0[i]
                    && b1 == b0.remove(i) && c1 == old(self).count_spec() - 1;
                assert(first_match(is_key, old(self).bucket(hash), i));
            }
        }
        removed
    }

    /// Take out the first pair with hash `hash` whose key is equal to the
    /// key looked for, and return it for the caller to release.
    pub fn remove<F: Fn(Id) -> bool>(&mut self, hash: u32, is_key: F) -> (r: Option<(Id, Id)>)
        requires
            old(self).wf(),
            forall|c: Id| is_key.requires((c,)),
        ensures
            final(self).wf(),
            final(self).key_cbs() == old(self).key_cbs(),
            final(self).value_cbs() == old(self).value_cbs(),
            forall|h: u32| h != hash ==> #[trigger] final(self).bucket(h) == old(self).bucket(h),
            r matches Some(p) ==> exists|i: int| first_match(is_key, old(self).bucket(hash), i)
                && p == old(self).bucket(hash)[i]
                && final(self).bucket(hash) == old(self).bucket(hash).remove(i)
                && final(self).count_spec() == old(self).count_spec() - 1,
            r is None ==> no_match(is_key, old(self).bucket(hash)) && final(self).bucket(hash) == old(self).bucket(hash)
                && final(self).count_spec() == old(self).count_spec(),
    {
        let ghost b0 = self.superclass.bucket(hash);
        let r = self.superclass.remove(hash, is_key);
        proof {
            if r is Some {
                let i = choose|i: int| first_match(is_key, b0, i) && r->0 == b0[i]
                    && self.superclass.bucket(hash) == b0.remove(i) && self.superclass.count_spec() == old(self).count_spec() - 1;
                assert(first_match(is_key, old(self).bucket(hash), i));
            }
        }
        r
    }
}


/// The `count` keys and objects of the id arrays at `keys` and `objects`,
/// pair by pair (`initWithObjects:forKeys:count:`); no key may be nil.
pub fn keys_and_objects_from_memory(mem: &crate::mem::Mem, objects: u32, keys: u32, count: u32) -> (r: Vec<(Id, Id)>)
    requires
        mem.wf(),
        keys + 4 * count <= mem@.len(),
        objects + 4 * count <= mem@.len(),
        forall|i: int| 0 <= i < count ==> #[trigger] crate::mem::read_u32_spec(mem@, keys + 4 * i) != NIL,
    ensures
        r@.len() == count,
        forall|i: int| 0 <= i < count ==> #[trigger] r@[i] == (crate::mem::read_u32_spec(mem@, keys + 4 * i),
            crate::mem::read_u32_spec(mem@, objects + 4 * i)),
{
    proof {
        mem.lemma_wf();
    }
    let mut r: Vec<(Id, Id)> = Vec::new();
    let mut i: u32 = 0;
    while i < count
        invariant
            mem.wf(),
            mem@.len() <= u32::MAX,
            keys + 4 * count <= mem@.len(),
            objects + 4 * count <= mem@.len(),
            i <= count,
            r@.len() == i,
            forall|j: int| 0 <= j < i ==> #[trigger] r@[j] == (crate::mem::read_u32_spec(mem@, keys + 4 * j),
                crate::mem::read_u32_spec(mem@, objects + 4 * j)),
        decreases count - i,
    {
        let key = mem.read_u32(keys + 4 * i);
        let object = mem.read_u32(objects + 4 * i);
        r.push((key, object));
        i = i + 1;
    }
    r
}


/// The text of a dictionary's `description`, from the descriptions of its
/// keys and values, pair by pair: `{`, a line `<tab>key = value;` for each
/// pair, and `}`.
pub open spec fn description_text(pairs: Seq<(Seq<char>, Seq<char>)>) -> Seq<char>
    decreases pairs.len(),
{
    if pairs.len() == 0 {
        seq!['{', '\n', '}']
    } else {
        let p = pairs.last();
        let before = description_text(pairs.drop_last());
        before.subrange(0, before.len() - 1) + seq!['\t'] + p.0 + seq![' ', '=', ' '] + p.1 + seq![';', '\n', '}']
    }
}

/// The views of the pairs of strings.
pub open spec fn pair_views(pairs: Seq<(String, String)>) -> Seq<(Seq<char>, Seq<char>)> {
    Seq::new(pairs.len(), |i: int| (pairs[i].0@, pairs[i].1@))
}

/// `description` of a dictionary (see [description_text]), given the
/// descriptions of its keys and values.
pub fn build_description(pairs: &Vec<(String, String)>) -> (r: String)
    ensures
        r@ == description_text(pair_views(pairs@)),
{
    let mut out: Vec<char> = Vec::new();
    out.push('{');
    out.push('\n');
    let mut i: usize = 0;
    assert(pair_views(pairs@).take(0) =~= Seq::<(Seq<char>, Seq<char>)>::empty());
    while i < pairs.len()
        invariant
            i <= pairs@.len(),
            out@.push('}') == description_text(pair_views(pairs@).take(i as int)),
        decreases pairs@.len() - i,
    {
        let ghost before = out@;
        let key = crate::text::chars_of(pairs[i].0.as_str());
        let value = crate::text::chars_of(pairs[i].1.as_str());
        out.push('\t');
        let mut k: usize = 0;
        while k < key.len()
            invariant
                k <= key@.len(),
                out@ == before + seq!['\t'] + key@.subrange(0, k as int),
            decreases key@.len() - k,
        {
            out.push(key[k]);
            assert(key@.subrange(0, k + 1) =~= key@.subrange(0, k as int).push(key@[k as int]));
            k = k + 1;
        }
        out.push(' ');
        out.push('=');
        out.push(' ');
        let ghost mid = out@;
        let mut k: usize = 0;
        while k < value.len()
            invariant
                k <= value@.len(),
                out@ == mid + value@.subrange(0, k as int),
            decreases value@.len() - k,
        {
            out.push(value[k]);
            assert(value@.subrange(0, k + 1) =~= value@.subrange(0, k as int).push(value@[k as int]));
            k = k + 1;
        }
        out.push(';');
        out.push('\n');
        proof {
            let pv = pair_views(pairs@);
            assert(pv.take(i + 1).drop_last() =~= pv.take(i as int));
            assert(pv.take(i + 1).last() == (key@, value@));
            let prev = description_text(pv.take(i as int));
            assert(prev.subrange(0, prev.len() - 1) =~= before);
            assert(key@.subrange(0, key@.len() as int) =~= key@);
            assert(value@.subrange(0, value@.len() as int) =~= value@);
            assert(out@.push('}') =~= description_text(pv.take(i + 1)));
        }
        i = i + 1;
    }
    out.push('}');
    proof {
        assert(pair_views(pairs@).take(pairs@.len() as int) =~= pair_views(pairs@));
    }
    crate::text::string_from_chars(out.as_slice())
}

} // verus!

verus! {

/// The (key, object) pairs of `initWithObjectsAndKeys:` from argument `i`
/// on, with `object` waiting for its key: the list alternates keys and
/// objects and ends at the first nil (or where the arguments end).
pub open spec fn objects_and_keys_from(args: Seq<Id>, object: Id, i: int) -> Seq<(Id, Id)>
    decreases args.len() - i,
{
    if i < 0 || i >= args.len() || args[i] == NIL {
        Seq::empty()
    } else if i + 1 < args.len() && args[i + 1] != NIL {
        seq![(args[i], object)] + objects_and_keys_from(args, args[i + 1], i + 2)
    } else {
        seq![(args[i], object)]
    }
}

/// The (key, object) pairs that `initWithObjectsAndKeys:` puts into the
/// dictionary, in order, given its first object and the variadic arguments
/// after it (the first key, then object, key, object, ...). They go into
/// the dictionary as [dict_from_keys_and_objects] puts them, so a later
/// equal key replaces the value of an earlier one.
pub fn objects_and_keys_pairs(first_object: Id, args: &[Id]) -> (r: Vec<(Id, Id)>)
    ensures
        r@ == objects_and_keys_from(args@, first_object, 0),
{
    let mut r: Vec<(Id, Id)> = Vec::new();
    let mut object = first_object;
    let mut i: usize = 0;
    while i < args.len() && args[i] != NIL
        invariant
            i <= args@.len(),
            r@ + objects_and_keys_from(args@, object, i as int) == objects_and_keys_from(args@, first_object, 0),
        decreases args@.len() - i,
    {
        let ghost before = r@;
        let ghost prev = object;
        r.push((args[i], object));
        if i + 1 < args.len() && args[i + 1] != NIL {
            object = args[i + 1];
            proof {
                assert(r@ + objects_and_keys_from(args@, object, i + 2) =~= before + objects_and_keys_from(args@, prev, i as int));
            }
            i = i + 2;
        } else {
            proof {
                assert(r@ =~= before + objects_and_keys_from(args@, prev, i as int));
            }
            i = args.len();
            proof {
                assert(r@ + objects_and_keys_from(args@, object, i as int) =~= r@);
            }
        }
    }
    proof {
        assert(objects_and_keys_from(args@, object, i as int) =~= Seq::<(Id, Id)>::empty());
        assert(r@ =~= r@ + Seq::<(Id, Id)>::empty());
    }
    r
}

} // verus!
