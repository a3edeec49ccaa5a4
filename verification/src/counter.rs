//! The grow-only replicated counter.
//!
//! Each node keeps one contribution per origin node; the counter's externally
//! visible value is the sum of all contributions. A local `add` request
//! increments this node's own contribution; a gossiped snapshot from a peer
//! overwrites that peer's contribution (the snapshot is absolute, not a
//! delta). Because the value read is a function of the per-origin
//! contributions alone ([`lemma_read_converges`]), every node that has heard
//! the same final contributions reads the same sum, whatever the delivery
//! order was.

use vstd::prelude::*;

use crate::assoc::{
    find_index, lemma_lookup_index, lemma_lookup_none, lemma_lookup_push,
    lemma_lookup_remove_frame, lemma_lookup_remove_gone, lemma_lookup_some_index,
    lemma_lookup_update, lemma_unique_keys_remove, lookup, unique_keys,
};

verus! {

/// The sum of all contribution values.
pub open spec fn sum(s: Seq<(String, u32)>) -> int
    decreases s.len(),
{
    if s.len() == 0 {
        0
    } else {
        sum(s.drop_last()) + s.last().1
    }
}

/// A sum of contributions is never negative.
pub proof fn lemma_sum_nonneg(s: Seq<(String, u32)>)
    ensures
        0 <= sum(s),
    decreases s.len(),
{
    if s.len() > 0 {
        lemma_sum_nonneg(s.drop_last());
    }
}

/// The sum of a prefix never exceeds the sum of the whole.
pub proof fn lemma_sum_prefix_le(s: Seq<(String, u32)>, j: int)
    requires
        0 <= j <= s.len(),
    ensures
        sum(s.subrange(0, j)) <= sum(s),
    decreases s.len(),
{
    if j == s.len() {
        assert(s.subrange(0, j) =~= s);
    } else {
        assert(s.drop_last().subrange(0, j) =~= s.subrange(0, j));
        lemma_sum_prefix_le(s.drop_last(), j);
    }
}

/// Replacing one entry moves the sum by the difference of the values.
pub proof fn lemma_sum_update(s: Seq<(String, u32)>, i: int, e: (String, u32))
    requires
        0 <= i < s.len(),
    ensures
        sum(s.update(i, e)) == sum(s) - s[i].1 + e.1,
    decreases s.len(),
{
    if i == s.len() - 1 {
        assert(s.update(i, e).drop_last() =~= s.drop_last());
        assert(s.update(i, e).last() == e);
    } else {
        assert(s.update(i, e).drop_last() =~= s.drop_last().update(i, e));
        assert(s.update(i, e).last() == s.last());
        lemma_sum_update(s.drop_last(), i, e);
    }
}

/// Removing one entry takes exactly its value out of the sum.
pub proof fn lemma_sum_remove(s: Seq<(String, u32)>, i: int)
    requires
        0 <= i < s.len(),
    ensures
        sum(s.remove(i)) == sum(s) - s[i].1,
    decreases s.len(),
{
    if i == s.len() - 1 {
        assert(s.remove(i) =~= s.drop_last());
    } else {
        assert(s.remove(i).drop_last() =~= s.drop_last().remove(i));
        assert(s.remove(i).last() == s.last());
        lemma_sum_remove(s.drop_last(), i);
    }
}

/// No single contribution exceeds the sum of all of them.
pub proof fn lemma_entry_le_sum(s: Seq<(String, u32)>, i: int)
    requires
        0 <= i < s.len(),
    ensures
        s[i].1 <= sum(s),
{
    lemma_sum_remove(s, i);
    lemma_sum_nonneg(s.remove(i));
}

/// The value an `add` leaves for the origin: an absent origin starts at the
/// given value; a present one is overwritten by a snapshot or incremented by
/// a delta.
pub open spec fn merged_value(old_v: Option<u32>, value: u32, with_replace: bool) -> int {
    match old_v {
        None => value as int,
        Some(v) => if with_replace {
            value as int
        } else {
            v + value
        },
    }
}

/// The sum of all contributions after an `add`.
pub open spec fn merged_total(
    s: Seq<(String, u32)>,
    k: Seq<char>,
    value: u32,
    with_replace: bool,
) -> int {
    match lookup(s, k) {
        None => sum(s) + value,
        Some(v) => if with_replace {
            sum(s) - v + value
        } else {
            sum(s) + value
        },
    }
}

/// A per-origin contribution map whose sum is the logical counter value.
pub struct Counter {
    entries: Vec<(String, u32)>,
}

impl View for Counter {
    type V = Seq<(String, u32)>;

    closed spec fn view(&self) -> Seq<(String, u32)> {
        self.entries@
    }
}

impl Counter {
    /// Origins are distinct and the logical value fits the machine word the
    /// protocol carries it in.
    pub open spec fn wf(self) -> bool {
        &&& unique_keys(self@)
        &&& sum(self@) <= u32::MAX
    }

    pub fn new() -> (r: Self)
        ensures
            r.wf(),
            r@ == Seq::<(String, u32)>::empty(),
    {
        Counter { entries: Vec::new() }
    }

    /// Merge one origin's contribution: insert it if absent, otherwise
    /// overwrite it (a gossiped absolute snapshot) or increment it (a local
    /// delta), as `with_replace` says.
    pub fn add(&mut self, node_id: &String, value: u32, with_replace: bool)
        requires
            old(self).wf(),
            merged_total(old(self)@, node_id@, value, with_replace) <= u32::MAX,
        ensures
            final(self).wf(),
            lookup(final(self)@, node_id@) == Some(
                merged_value(lookup(old(self)@, node_id@), value, with_replace) as u32,
            ),
            forall|k: Seq<char>|
                k != node_id@ ==> lookup(final(self)@, k) == #[trigger] lookup(old(self)@, k),
            sum(final(self)@) == merged_total(old(self)@, node_id@, value, with_replace),
    {
        let ghost s0 = self.entries@;
        match find_index(&self.entries, node_id) {
            Some(i) => {
                proof {
                    lemma_lookup_index(s0, node_id@, i as int);
                    lemma_sum_remove(s0, i as int);
                    lemma_sum_nonneg(s0.remove(i as int));
                }
                let old_v: u32 = self.entries[i].1;
                let new_v: u32 = if with_replace {
                    value
                } else {
                    old_v + value
                };
                let key = self.entries[i].0.clone();
                self.entries.set(i, (key, new_v));
                proof {
                    assert(self.entries@ == s0.update(i as int, self.entries@[i as int]));
                    lemma_sum_update(s0, i as int, self.entries@[i as int]);
                    lemma_lookup_update(s0, i as int, self.entries@[i as int]);
                    assert forall|p: int, q: int|
                        0 <= p < q < self.entries@.len() implies (#[trigger] self.entries@[p]).0@
                        != (#[trigger] self.entries@[q]).0@ by {
                        assert(s0[p].0@ != s0[q].0@);
                    }
                }
            },
            None => {
                proof {
                    lemma_lookup_none(s0, node_id@);
                }
                self.entries.push((node_id.clone(), value));
                proof {
                    assert(self.entries@ == s0.push(self.entries@[s0.len() as int]));
                    assert(self.entries@.drop_last() =~= s0);
                    assert forall|k: Seq<char>| true implies #[trigger] lookup(self.entries@, k)
                        == (if k == node_id@ {
                        Some(value)
                    } else {
                        lookup(s0, k)
                    }) by {
                        lemma_lookup_push(s0, self.entries@[s0.len() as int], k);
                    }
                    assert forall|p: int, q: int|
                        0 <= p < q < self.entries@.len() implies (#[trigger] self.entries@[p]).0@
                        != (#[trigger] self.entries@[q]).0@ by {
                        if q < s0.len() {
                            assert(s0[p].0@ != s0[q].0@);
                        } else {
                            assert(self.entries@[q].0@ == node_id@);
                            assert(s0[p].0@ != node_id@);
                        }
                    }
                }
            },
        }
    }

    /// The externally visible counter value: the sum of all contributions.
    pub fn read(&self) -> (r: u32)
        requires
            self.wf(),
        ensures
            r == sum(self@),
    {
        let n = self.entries.len();
        let mut r: u32 = 0;
        let mut i: usize = 0;
        while i < n
            invariant
                0 <= i <= n,
                n == self.entries@.len(),
                unique_keys(self.entries@),
                sum(self.entries@) <= u32::MAX,
                r == sum(self.entries@.subrange(0, i as int)),
            decreases n - i,
        {
            proof {
                let t = self.entries@.subrange(0, i + 1);
                assert(t.drop_last() =~= self.entries@.subrange(0, i as int));
                assert(t.last() == self.entries@[i as int]);
                lemma_sum_prefix_le(self.entries@, i + 1);
                lemma_sum_nonneg(self.entries@.subrange(0, i as int));
            }
            r = r + self.entries[i].1;
            i = i + 1;
        }
        proof {
            assert(self.entries@.subrange(0, n as int) =~= self.entries@);
        }
        r
    }

    /// This node's own contribution, as gossiped to its peers: the stored
    /// value, or zero when nothing was recorded yet.
    pub fn contribution(&self, node_id: &String) -> (r: u32)
        ensures
            r == (match lookup(self@, node_id@) {
                Some(v) => v,
                None => 0u32,
            }),
    {
        match find_index(&self.entries, node_id) {
            Some(i) => {
                proof {
                    lemma_lookup_index(self.entries@, node_id@, i as int);
                }
                self.entries[i].1
            },
            None => {
                proof {
                    lemma_lookup_none(self.entries@, node_id@);
                }
                0
            },
        }
    }

    /// Whether applying an `add` with these arguments keeps the logical
    /// counter value within the machine word the protocol carries it in.
    pub fn can_merge(&self, node_id: &String, value: u32, with_replace: bool) -> (b: bool)
        requires
            self.wf(),
        ensures
            b == (merged_total(self@, node_id@, value, with_replace) <= u32::MAX),
    {
        let total = self.read();
        match find_index(&self.entries, node_id) {
            Some(i) => {
                proof {
                    lemma_lookup_index(self.entries@, node_id@, i as int);
                    lemma_entry_le_sum(self.entries@, i as int);
                }
                let v = self.entries[i].1;
                if with_replace {
                    (total - v) as u64 + value as u64 <= u32::MAX as u64
                } else {
                    total as u64 + value as u64 <= u32::MAX as u64
                }
            },
            None => {
                proof {
                    lemma_lookup_none(self.entries@, node_id@);
                }
                total as u64 + value as u64 <= u32::MAX as u64
            },
        }
    }

    /// Whether no origin has contributed yet.
    pub fn is_empty(&self) -> (r: bool)
        ensures
            r == (self@.len() == 0),
    {
        self.entries.len() == 0
    }
}

/// The counter converges: the value `read` returns is a function of the
/// per-origin contributions alone. Two nodes whose contribution maps agree on
/// every origin — however the `add` and snapshot messages that built them were
/// interleaved — read the same value.
pub proof fn lemma_read_converges(a: Counter, b: Counter)
    requires
        a.wf(),
        b.wf(),
        forall|k: Seq<char>| lookup(a@, k) == lookup(b@, k),
    ensures
        sum(a@) == sum(b@),
{
    lemma_sum_determined_by_lookup(a@, b@);
}

/// The sum of an association list with distinct keys is determined by the
/// key-to-value mapping it represents.
pub proof fn lemma_sum_determined_by_lookup(s1: Seq<(String, u32)>, s2: Seq<(String, u32)>)
    requires
        unique_keys(s1),
        unique_keys(s2),
        forall|k: Seq<char>| lookup(s1, k) == lookup(s2, k),
    ensures
        sum(s1) == sum(s2),
    decreases s1.len(),
{
    if s1.len() == 0 {
        if s2.len() > 0 {
            assert(lookup(s2, s2[0].0@) == Some(s2[0].1));
            assert(lookup(s1, s2[0].0@) == None::<u32>);
        }
    } else {
        let k = s1[0].0@;
        assert(lookup(s1, k) == Some(s1[0].1));
        let i = lemma_lookup_some_index(s2, k);
        let t1 = s1.remove(0);
        let t2 = s2.remove(i);
        lemma_unique_keys_remove(s1, 0);
        lemma_unique_keys_remove(s2, i);
        assert forall|k2: Seq<char>| true implies #[trigger] lookup(t1, k2) == lookup(
            t2,
            k2,
        ) by {
            if k2 == k {
                lemma_lookup_remove_gone(s1, 0);
                lemma_lookup_remove_gone(s2, i);
            } else {
                lemma_lookup_remove_frame(s1, 0, k2);
                lemma_lookup_remove_frame(s2, i, k2);
            }
        }
        lemma_sum_determined_by_lookup(t1, t2);
        lemma_sum_remove(s1, 0);
        lemma_sum_remove(s2, i);
    }
}

} // verus!
