//! Association lists: vectors of (key, value) pairs looked up by key, the
//! first pair with the key winning. The emulator's small tables (signal
//! handlers, thread-specific data, memory mappings, handles) are kept this
//! way.
use vstd::prelude::*;

verus! {

/// The value of the first pair with key `k`.
pub open spec fn assoc<K, V>(s: Seq<(K, V)>, k: K) -> Option<V>
    decreases s.len(),
{
    if s.len() == 0 {
        None
    } else if s[0].0 == k {
        Some(s[0].1)
    } else {
        assoc(s.drop_first(), k)
    }
}

/// No key occurs twice.
pub open spec fn keys_unique<K, V>(s: Seq<(K, V)>) -> bool {
    forall|i: int, j: int| 0 <= i < j < s.len() ==> #[trigger] s[i].0 != #[trigger] s[j].0
}

/// The first pair with key `k` gives the value of `k`.
pub proof fn lemma_assoc_first<K, V>(s: Seq<(K, V)>, k: K, i: int)
    requires
        0 <= i < s.len(),
        s[i].0 == k,
        forall|j: int| 0 <= j < i ==> s[j].0 != k,
    ensures
        assoc(s, k) == Some(s[i].1),
    decreases i,
{
    if i > 0 {
        lemma_assoc_first(s.drop_first(), k, i - 1);
    }
}

/// A key that no pair has has no value.
pub proof fn lemma_assoc_none<K, V>(s: Seq<(K, V)>, k: K)
    requires
        forall|j: int| 0 <= j < s.len() ==> s[j].0 != k,
    ensures
        assoc(s, k) is None,
    decreases s.len(),
{
    if s.len() > 0 {
        lemma_assoc_none(s.drop_first(), k);
    }
}

/// The key occurs at some index whenever it has a value.
pub proof fn lemma_assoc_some<K, V>(s: Seq<(K, V)>, k: K)
    requires
        assoc(s, k) is Some,
    ensures
        exists|i: int| 0 <= i < s.len() && s[i].0 == k && s[i].1 == assoc(s, k)->0,
    decreases s.len(),
{
    if s[0].0 != k {
        lemma_assoc_some(s.drop_first(), k);
        let i = choose|i: int| 0 <= i < s.drop_first().len() && s.drop_first()[i].0 == k && s.drop_first()[i].1 == assoc(s, k)->0;
        assert(s[i + 1].0 == k);
    }
}

/// Appending a pair changes only the lookups of its key, and those only if
/// the key was absent.
pub proof fn lemma_assoc_push<K, V>(s: Seq<(K, V)>, k: K, v: V, k2: K)
    ensures
        assoc(s.push((k, v)), k2) == if assoc(s, k2) is Some {
            assoc(s, k2)
        } else if k2 == k {
            Some(v)
        } else {
            None
        },
    decreases s.len(),
{
    if s.len() == 0 {
        assert(s.push((k, v)).drop_first() =~= Seq::<(K, V)>::empty());
    } else {
        assert(s.push((k, v)).drop_first() =~= s.drop_first().push((k, v)));
        lemma_assoc_push(s.drop_first(), k, v, k2);
    }
}

/// Replacing the value of the first pair with key `k` changes only the
/// lookup of `k`.
pub proof fn lemma_assoc_update<K, V>(s: Seq<(K, V)>, i: int, k: K, v: V, k2: K)
    requires
        0 <= i < s.len(),
        s[i].0 == k,
        forall|j: int| 0 <= j < i ==> s[j].0 != k,
    ensures
        assoc(s.update(i, (k, v)), k2) == if k2 == k { Some(v) } else { assoc(s, k2) },
    decreases i,
{
    if i == 0 {
        if k2 != k {
            assert(s.update(i, (k, v)).drop_first() =~= s.drop_first());
        }
    } else {
        assert(s.update(i, (k, v)).drop_first() =~= s.drop_first().update(i - 1, (k, v)));
        lemma_assoc_update(s.drop_first(), i - 1, k, v, k2);
    }
}

/// Removing the only pair with key `k` removes `k` and nothing else.
pub proof fn lemma_assoc_remove<K, V>(s: Seq<(K, V)>, i: int, k2: K)
    requires
        0 <= i < s.len(),
        keys_unique(s),
    ensures
        assoc(s.remove(i), k2) == if k2 == s[i].0 { None } else { assoc(s, k2) },
        keys_unique(s.remove(i)),
    decreases i,
{
    let t = s.remove(i);
    if k2 == s[i].0 {
        lemma_assoc_none(t, k2);
    } else if assoc(s, k2) is Some {
        lemma_assoc_some(s, k2);
        let j = choose|j: int| 0 <= j < s.len() && s[j].0 == k2 && s[j].1 == assoc(s, k2)->0;
        let j2 = if j < i { j } else { j - 1 };
        assert(t[j2] == s[j]);
        assert forall|m: int| 0 <= m < j2 implies t[m].0 != k2 by {
            if m < i {
                assert(t[m] == s[m]);
            } else {
                assert(t[m] == s[m + 1]);
            }
        }
        lemma_assoc_first(s, k2, j);
        lemma_assoc_first(t, k2, j2);
    } else {
        assert forall|m: int| 0 <= m < t.len() implies t[m].0 != k2 by {
            if s[if m < i { m } else { m + 1 }].0 == k2 {
                lemma_assoc_first(s, k2, if m < i { m } else { m + 1 });
            }
        }
        lemma_assoc_none(t, k2);
    }
}

/// The index of the first pair with key `k`.
pub fn assoc_find<V>(v: &Vec<(u32, V)>, k: u32) -> (r: Option<usize>)
    ensures
        r matches Some(i) ==> i < v@.len() && v@[i as int].0 == k && (forall|j: int| 0 <= j < i ==> v@[j].0 != k),
        r is None ==> forall|j: int| 0 <= j < v@.len() ==> v@[j].0 != k,
        r matches Some(i) ==> assoc(v@, k) == Some(v@[i as int].1),
        r is None ==> assoc(v@, k) is None,
{
    let mut i: usize = 0;
    while i < v.len()
        invariant
            i <= v@.len(),
            forall|j: int| 0 <= j < i ==> v@[j].0 != k,
        decreases v@.len() - i,
    {
        if v[i].0 == k {
            proof {
                lemma_assoc_first(v@, k, i as int);
            }
            return Some(i);
        }
        i = i + 1;
    }
    proof {
        lemma_assoc_none(v@, k);
    }
    None
}

/// The index of the first pair with key `k`, for signed keys.
pub fn assoc_find_i32<V>(v: &Vec<(i32, V)>, k: i32) -> (r: Option<usize>)
    ensures
        r matches Some(i) ==> i < v@.len() && v@[i as int].0 == k && (forall|j: int| 0 <= j < i ==> v@[j].0 != k),
        r is None ==> forall|j: int| 0 <= j < v@.len() ==> v@[j].0 != k,
        r matches Some(i) ==> assoc(v@, k) == Some(v@[i as int].1),
        r is None ==> assoc(v@, k) is None,
{
    let mut i: usize = 0;
    while i < v.len()
        invariant
            i <= v@.len(),
            forall|j: int| 0 <= j < i ==> v@[j].0 != k,
        decreases v@.len() - i,
    {
        if v[i].0 == k {
            proof {
                lemma_assoc_first(v@, k, i as int);
            }
            return Some(i);
        }
        i = i + 1;
    }
    proof {
        lemma_assoc_none(v@, k);
    }
    None
}

} // verus!
