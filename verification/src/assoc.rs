//! String-keyed association lists.
//!
//! The wire protocol carries several mappings (per-origin counter
//! contributions, per-key logs, per-client committed offsets). The library
//! holds each as a vector of key/value pairs whose keys are pairwise
//! distinct, and states contracts through [`lookup`], the first-match
//! association of a key with its value.

use vstd::prelude::*;

verus! {

/// The value associated with key k: the value of the first pair whose key
/// reads k, if any.
pub open spec fn lookup<V>(s: Seq<(String, V)>, k: Seq<char>) -> Option<V>
    decreases s.len(),
{
    if s.len() == 0 {
        None
    } else if s[0].0@ == k {
        Some(s[0].1)
    } else {
        lookup(s.drop_first(), k)
    }
}

/// No two pairs of s share a key.
pub open spec fn unique_keys<V>(s: Seq<(String, V)>) -> bool {
    forall|i: int, j: int|
        0 <= i < j < s.len() ==> (#[trigger] s[i]).0@ != (#[trigger] s[j]).0@
}

/// A first match at index i decides the lookup.
pub proof fn lemma_lookup_index<V>(s: Seq<(String, V)>, k: Seq<char>, i: int)
    requires
        0 <= i < s.len(),
        s[i].0@ == k,
        forall|j: int| 0 <= j < i ==> (#[trigger] s[j]).0@ != k,
    ensures
        lookup(s, k) == Some(s[i].1),
    decreases s.len(),
{
    if i > 0 {
        lemma_lookup_index(s.drop_first(), k, i - 1);
    }
}

/// A key no pair carries is not found.
pub proof fn lemma_lookup_none<V>(s: Seq<(String, V)>, k: Seq<char>)
    requires
        forall|j: int| 0 <= j < s.len() ==> (#[trigger] s[j]).0@ != k,
    ensures
        lookup(s, k) == None::<V>,
    decreases s.len(),
{
    if s.len() > 0 {
        lemma_lookup_none(s.drop_first(), k);
    }
}

/// A found key names some first matching pair.
pub proof fn lemma_lookup_some_index<V>(s: Seq<(String, V)>, k: Seq<char>) -> (i: int)
    requires
        lookup(s, k) is Some,
    ensures
        0 <= i < s.len(),
        s[i].0@ == k,
        lookup(s, k) == Some(s[i].1),
        forall|j: int| 0 <= j < i ==> (#[trigger] s[j]).0@ != k,
    decreases s.len(),
{
    if s[0].0@ == k {
        0
    } else {
        let i0 = lemma_lookup_some_index(s.drop_first(), k);
        assert(s[i0 + 1] == s.drop_first()[i0]);
        assert forall|j: int| 0 <= j < i0 + 1 implies (#[trigger] s[j]).0@ != k by {
            if j > 0 {
                assert(s[j] == s.drop_first()[j - 1]);
            }
        }
        i0 + 1
    }
}

/// Replacing the value of the first pair that matches its own key: that key
/// now reads the new value and every other key reads as before.
pub proof fn lemma_lookup_update<V>(s: Seq<(String, V)>, i: int, e: (String, V))
    requires
        0 <= i < s.len(),
        s[i].0@ == e.0@,
        forall|j: int| 0 <= j < i ==> (#[trigger] s[j]).0@ != e.0@,
    ensures
        lookup(s.update(i, e), e.0@) == Some(e.1),
        forall|k: Seq<char>| k != e.0@ ==> lookup(s.update(i, e), k) == #[trigger] lookup(s, k),
{
    let t = s.update(i, e);
    lemma_lookup_index(t, e.0@, i);
    assert forall|k: Seq<char>| k != e.0@ implies lookup(t, k) == #[trigger] lookup(s, k) by {
        lemma_lookup_update_frame_one(s, i, e, k);
    }
}

/// Replacing a pair with one of the same key leaves every other key's lookup
/// as it was.
proof fn lemma_lookup_update_frame_one<V>(s: Seq<(String, V)>, i: int, e: (String, V), k: Seq<char>)
    requires
        0 <= i < s.len(),
        s[i].0@ == e.0@,
        k != e.0@,
    ensures
        lookup(s.update(i, e), k) == lookup(s, k),
    decreases s.len(),
{
    let t = s.update(i, e);
    if i == 0 {
        assert(t[0] == e);
        assert(t.drop_first() =~= s.drop_first());
    } else {
        assert(t[0] == s[0]);
        if s[0].0@ != k {
            assert(t.drop_first() =~= s.drop_first().update(i - 1, e));
            lemma_lookup_update_frame_one(s.drop_first(), i - 1, e, k);
        }
    }
}

/// Appending a pair leaves every found key as it was, and gives the new
/// pair's key its value if that key was absent.
pub proof fn lemma_lookup_push<V>(s: Seq<(String, V)>, e: (String, V), k: Seq<char>)
    ensures
        lookup(s.push(e), k) == (if lookup(s, k) is Some {
            lookup(s, k)
        } else if e.0@ == k {
            Some(e.1)
        } else {
            None
        }),
    decreases s.len(),
{
    if s.len() == 0 {
        assert(s.push(e)[0] == e);
        assert(s.push(e).drop_first() =~= Seq::<(String, V)>::empty());
        assert(lookup(s.push(e).drop_first(), k) == None::<V>);
    } else {
        assert(s.push(e)[0] == s[0]);
        assert(s.push(e).drop_first() =~= s.drop_first().push(e));
        lemma_lookup_push(s.drop_first(), e, k);
    }
}

/// Removing a pair whose key is not k leaves k's lookup as it was.
pub proof fn lemma_lookup_remove_frame<V>(s: Seq<(String, V)>, i: int, k: Seq<char>)
    requires
        0 <= i < s.len(),
        s[i].0@ != k,
    ensures
        lookup(s.remove(i), k) == lookup(s, k),
    decreases s.len(),
{
    if i == 0 {
        assert(s.remove(0) =~= s.drop_first());
    } else {
        assert(s.remove(i)[0] == s[0]);
        assert(s.remove(i).len() == s.len() - 1);
        if s[0].0@ != k {
            assert(s.remove(i).drop_first() =~= s.drop_first().remove(i - 1));
            lemma_lookup_remove_frame(s.drop_first(), i - 1, k);
        }
    }
}

/// Under unique keys, removing the pair that carries k makes k absent.
pub proof fn lemma_lookup_remove_gone<V>(s: Seq<(String, V)>, i: int)
    requires
        unique_keys(s),
        0 <= i < s.len(),
    ensures
        lookup(s.remove(i), s[i].0@) == None::<V>,
{
    assert forall|j: int| 0 <= j < s.remove(i).len() implies (#[trigger] s.remove(i)[j]).0@
        != s[i].0@ by {
        if j < i {
            assert(s.remove(i)[j] == s[j]);
        } else {
            assert(s.remove(i)[j] == s[j + 1]);
        }
    }
    lemma_lookup_none(s.remove(i), s[i].0@);
}

/// Removing a pair keeps the remaining keys pairwise distinct.
pub proof fn lemma_unique_keys_remove<V>(s: Seq<(String, V)>, i: int)
    requires
        unique_keys(s),
        0 <= i < s.len(),
    ensures
        unique_keys(s.remove(i)),
{
    assert forall|p: int, q: int| 0 <= p < q < s.remove(i).len() implies (#[trigger] s.remove(
        i,
    )[p]).0@ != (#[trigger] s.remove(i)[q]).0@ by {
        let p0 = if p < i { p } else { p + 1 };
        let q0 = if q < i { q } else { q + 1 };
        assert(s.remove(i)[p] == s[p0]);
        assert(s.remove(i)[q] == s[q0]);
    }
}

/// The position of the first pair carrying the given key, scanning from the
/// front, or None when no pair carries it.
pub fn find_index<V>(entries: &Vec<(String, V)>, key: &String) -> (r: Option<usize>)
    ensures
        match r {
            Some(i) => {
                &&& 0 <= i < entries@.len()
                &&& entries@[i as int].0@ == key@
                &&& forall|j: int| 0 <= j < i ==> (#[trigger] entries@[j]).0@ != key@
            },
            None => forall|j: int| 0 <= j < entries@.len() ==> (#[trigger] entries@[j]).0@ != key@,
        },
{
    let n = entries.len();
    let mut i: usize = 0;
    while i < n
        invariant
            0 <= i <= n,
            n == entries@.len(),
            forall|j: int| 0 <= j < i ==> (#[trigger] entries@[j]).0@ != key@,
        decreases n - i,
    {
        if entries[i].0 == *key {
            return Some(i);
        }
        i = i + 1;
    }
    None
}

} // verus!
