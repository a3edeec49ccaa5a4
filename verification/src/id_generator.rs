//! Cluster-unique id generation.
//!
//! Each node derives ids from a local monotonically increasing counter and the
//! digits of its own identity string: the id is the number whose decimal
//! numeral is the counter's numeral followed by the identity's digits (the
//! characters after the identity's leading tag character). Two calls on one
//! node never return the same id, and nodes whose identities end in different
//! digit runs of the same length never collide with each other.

use vstd::prelude::*;

verus! {

/// c is a decimal digit character.
pub open spec fn is_digit_char(c: char) -> bool {
    '0' <= c && c <= '9'
}

/// The numeric value of a decimal digit character.
pub open spec fn digit_val(c: char) -> int {
    c as int - '0' as int
}

/// Every character of s is a decimal digit.
pub open spec fn all_digits(s: Seq<char>) -> bool {
    forall|i: int| 0 <= i < s.len() ==> is_digit_char(#[trigger] s[i])
}

/// The number whose decimal numeral is the numeral of c followed by the
/// digits of s (Horner's rule).
pub open spec fn append_digits(c: int, s: Seq<char>) -> int
    decreases s.len(),
{
    if s.len() == 0 {
        c
    } else {
        append_digits(c, s.drop_last()) * 10 + digit_val(s.last())
    }
}

/// 10^n.
pub open spec fn pow10(n: nat) -> int
    decreases n,
{
    if n == 0 {
        1
    } else {
        10 * pow10((n - 1) as nat)
    }
}

/// The digits of a node identity after its leading tag character.
pub open spec fn id_suffix(s: Seq<char>) -> Seq<char> {
    s.subrange(1, s.len() as int)
}

/// A node identity the generator can work with: nonempty, ASCII, and every
/// character after the first a decimal digit.
pub open spec fn valid_node_id(s: Seq<char>) -> bool {
    &&& s.len() >= 1
    &&& vstd::utf8::is_ascii_chars(s)
    &&& all_digits(id_suffix(s))
}

/// The id produced for a given counter value by a node with the given
/// identity.
pub open spec fn unique_id(counter: int, node_id: Seq<char>) -> int {
    append_digits(counter, id_suffix(node_id))
}

/// Appending digits never decreases a nonnegative leading value.
pub proof fn lemma_append_digits_grows(c: int, s: Seq<char>)
    requires
        0 <= c,
        all_digits(s),
    ensures
        c <= append_digits(c, s),
    decreases s.len(),
{
    if s.len() > 0 {
        lemma_append_digits_grows(c, s.drop_last());
    }
}

/// Horner evaluation of a digit-string prefix never exceeds the value of the
/// whole string.
pub proof fn lemma_append_digits_prefix(c: int, s: Seq<char>, j: int)
    requires
        0 <= c,
        all_digits(s),
        0 <= j <= s.len(),
    ensures
        append_digits(c, s.subrange(0, j)) <= append_digits(c, s),
    decreases s.len(),
{
    if j == s.len() {
        assert(s.subrange(0, j) =~= s);
    } else {
        assert(s.drop_last().subrange(0, j) =~= s.subrange(0, j));
        assert(all_digits(s.drop_last()));
        lemma_append_digits_prefix(c, s.drop_last(), j);
        lemma_append_digits_grows(c, s.drop_last());
    }
}

/// Decomposition of Horner evaluation: the leading value is scaled by
/// 10^(number of digits) and the digits contribute their own value.
pub proof fn lemma_append_digits_split(c: int, s: Seq<char>)
    ensures
        append_digits(c, s) == c * pow10(s.len()) + append_digits(0, s),
    decreases s.len(),
{
    if s.len() > 0 {
        lemma_append_digits_split(c, s.drop_last());
        assert(c * pow10(s.len()) == (c * pow10((s.len() - 1) as nat)) * 10) by (nonlinear_arith)
            requires pow10(s.len()) == 10 * pow10((s.len() - 1) as nat);
    }
}

/// The value of a digit string is below 10^(its length).
pub proof fn lemma_digits_value_bound(s: Seq<char>)
    requires
        all_digits(s),
    ensures
        0 <= append_digits(0, s) < pow10(s.len()),
    decreases s.len(),
{
    if s.len() > 0 {
        assert(all_digits(s.drop_last()));
        lemma_digits_value_bound(s.drop_last());
    }
}

/// 10^n is positive.
pub proof fn lemma_pow10_pos(n: nat)
    ensures
        pow10(n) >= 1,
    decreases n,
{
    if n > 0 {
        lemma_pow10_pos((n - 1) as nat);
    }
}

/// For a fixed identity, the id grows with the counter.
pub proof fn lemma_unique_id_monotone(c1: int, c2: int, node_id: Seq<char>)
    requires
        0 <= c1 <= c2,
        valid_node_id(node_id),
    ensures
        unique_id(c1, node_id) <= unique_id(c2, node_id),
{
    let s = id_suffix(node_id);
    lemma_append_digits_split(c1, s);
    lemma_append_digits_split(c2, s);
    lemma_pow10_pos(s.len());
    assert(c1 * pow10(s.len()) <= c2 * pow10(s.len())) by (nonlinear_arith)
        requires c1 <= c2, pow10(s.len()) >= 1;
}

/// When n ids in a row stay within bounds, so does each one of them: the
/// k-th of those ids can still be generated.
pub proof fn lemma_generate_step(counter: int, node_id: Seq<char>, n: int, k: int)
    requires
        0 <= counter,
        valid_node_id(node_id),
        counter + n <= u32::MAX,
        n > 0 ==> unique_id(counter + n - 1, node_id) <= u32::MAX,
        0 <= k < n,
    ensures
        counter + k < u32::MAX,
        unique_id(counter + k, node_id) <= u32::MAX,
{
    lemma_unique_id_monotone(counter + k, counter + n - 1, node_id);
}

/// One node never repeats an id: for a fixed identity, distinct counter
/// values give distinct ids.
pub proof fn lemma_unique_per_node(c1: int, c2: int, node_id: Seq<char>)
    requires
        0 <= c1,
        0 <= c2,
        c1 != c2,
        valid_node_id(node_id),
    ensures
        unique_id(c1, node_id) != unique_id(c2, node_id),
{
    let s = id_suffix(node_id);
    lemma_append_digits_split(c1, s);
    lemma_append_digits_split(c2, s);
    lemma_digits_value_bound(s);
    assert(c1 * pow10(s.len()) != c2 * pow10(s.len())) by (nonlinear_arith)
        requires c1 != c2, pow10(s.len()) >= 1;
}

/// Ids are unique across the cluster: nodes whose identities end in digit
/// runs of the same length but with different values never produce the same
/// id, whatever their counters hold.
pub proof fn lemma_unique_across_nodes(c1: int, id1: Seq<char>, c2: int, id2: Seq<char>)
    requires
        0 <= c1,
        0 <= c2,
        valid_node_id(id1),
        valid_node_id(id2),
        id_suffix(id1).len() == id_suffix(id2).len(),
        append_digits(0, id_suffix(id1)) != append_digits(0, id_suffix(id2)),
    ensures
        unique_id(c1, id1) != unique_id(c2, id2),
{
    let s1 = id_suffix(id1);
    let s2 = id_suffix(id2);
    let p = pow10(s1.len());
    lemma_append_digits_split(c1, s1);
    lemma_append_digits_split(c2, s2);
    lemma_digits_value_bound(s1);
    lemma_digits_value_bound(s2);
    assert(c1 * p + append_digits(0, s1) != c2 * p + append_digits(0, s2)) by (nonlinear_arith)
        requires
            0 <= append_digits(0, s1) < p,
            0 <= append_digits(0, s2) < p,
            append_digits(0, s1) != append_digits(0, s2);
}

/// Produces cluster-unique ids from a per-node counter and the node's own
/// identity string.
pub struct IdGenerator {
    counter: u32,
    node_id: String,
}

impl IdGenerator {
    /// The counter the next id will be built from.
    pub closed spec fn counter(self) -> int {
        self.counter as int
    }

    /// The counter is a machine word: never negative, never above u32::MAX.
    pub proof fn lemma_counter_in_range(self)
        ensures
            0 <= self.counter() <= u32::MAX,
    {
    }

    /// The identity string the generator was seeded with.
    pub closed spec fn node_id(self) -> Seq<char> {
        self.node_id@
    }

    /// The next call to generate stays within machine bounds: the identity is
    /// well formed, the id fits in a u32 and the counter can still advance.
    pub open spec fn can_generate(self) -> bool {
        &&& valid_node_id(self.node_id())
        &&& self.counter() < u32::MAX
        &&& unique_id(self.counter(), self.node_id()) <= u32::MAX
    }

    /// The next n calls to generate all stay within machine bounds. Since the
    /// id grows with the counter, bounding the last of the n ids bounds them
    /// all.
    pub open spec fn can_generate_many(self, n: int) -> bool {
        &&& valid_node_id(self.node_id())
        &&& self.counter() + n <= u32::MAX
        &&& (n > 0 ==> unique_id(self.counter() + n - 1, self.node_id()) <= u32::MAX)
    }

    pub fn new(node_id: String) -> (r: Self)
        ensures
            r.counter() == 0,
            r.node_id() == node_id@,
    {
        IdGenerator { counter: 0, node_id }
    }

    /// Whether a string is an identity the generator can work with:
    /// nonempty, ASCII, decimal digits after the leading tag character.
    pub fn check_node_id(node_id: &String) -> (b: bool)
        ensures
            b == valid_node_id(node_id@),
    {
        let s = node_id.as_str();
        if !s.is_ascii() {
            return false;
        }
        let n = s.unicode_len();
        if n == 0 {
            return false;
        }
        let mut j: usize = 1;
        while j < n
            invariant
                1 <= j <= n,
                n == node_id@.len(),
                s@ == node_id@,
                vstd::utf8::is_ascii_chars(node_id@),
                forall|i: int| 1 <= i < j ==> is_digit_char(#[trigger] node_id@[i]),
            decreases n - j,
        {
            let c = s.get_char(j);
            let cu = c as u32;
            if cu < 48 || cu > 57 {
                proof {
                    assert(id_suffix(node_id@)[j - 1] == node_id@[j as int]);
                    assert(!is_digit_char(node_id@[j as int]));
                }
                return false;
            }
            j = j + 1;
        }
        proof {
            assert forall|i: int|
                0 <= i < id_suffix(node_id@).len() implies is_digit_char(
                #[trigger] id_suffix(node_id@)[i],
            ) by {
                assert(id_suffix(node_id@)[i] == node_id@[i + 1]);
            }
        }
        true
    }

    /// Whether the generator can hand out n more ids without leaving machine
    /// bounds.
    pub fn can_generate_many_ids(&self, n: u32) -> (b: bool)
        ensures
            b == self.can_generate_many(n as int),
    {
        if !Self::check_node_id(&self.node_id) {
            return false;
        }
        if self.counter as u64 + n as u64 > u32::MAX as u64 {
            return false;
        }
        if n == 0 {
            return true;
        }
        let c_last: u32 = self.counter + (n - 1);
        let s = self.node_id.as_str();
        let bytes: &[u8] = s.as_bytes();
        let nb: usize = bytes.len();
        proof {
            vstd::utf8::is_ascii_chars_encode_utf8(self.node_id@);
        }
        let ghost suffix = id_suffix(self.node_id@);
        let mut acc: u64 = c_last as u64;
        let mut j: usize = 1;
        while j < nb
            invariant
                1 <= j <= nb,
                nb == self.node_id@.len(),
                n >= 1,
                self.counter + n <= u32::MAX,
                c_last == self.counter + n - 1,
                valid_node_id(self.node_id@),
                bytes@ == vstd::utf8::encode_utf8(self.node_id@),
                bytes@.len() == nb,
                forall|i: int| 0 <= i < nb ==> bytes@[i] == self.node_id@[i] as u8,
                suffix == id_suffix(self.node_id@),
                acc == append_digits(c_last as int, suffix.subrange(0, j - 1)),
                acc <= u32::MAX,
            decreases nb - j,
        {
            let ghost taken = suffix.subrange(0, j - 1);
            let ghost next = suffix.subrange(0, j as int);
            let b: u8 = bytes[j];
            proof {
                assert(suffix[j - 1] == self.node_id@[j as int]);
                assert(is_digit_char(suffix[j - 1]));
                assert(next.drop_last() =~= taken);
                assert(next.last() == self.node_id@[j as int]);
                assert(append_digits(c_last as int, next) == append_digits(c_last as int, taken)
                    * 10 + digit_val(self.node_id@[j as int]));
            }
            let d: u8 = b - 48;
            acc = acc * 10 + d as u64;
            if acc > u32::MAX as u64 {
                proof {
                    lemma_append_digits_prefix(c_last as int, suffix, j as int);
                    assert(suffix.subrange(0, suffix.len() as int) =~= suffix);
                    assert(unique_id(c_last as int, self.node_id@) > u32::MAX);
                }
                return false;
            }
            j = j + 1;
        }
        proof {
            assert(suffix.subrange(0, nb - 1) =~= suffix);
            assert(acc == unique_id(c_last as int, self.node_id@));
        }
        true
    }

    pub fn generate(&mut self) -> (id: u32)
        requires
            old(self).can_generate(),
        ensures
            id == unique_id(old(self).counter(), old(self).node_id()),
            final(self).counter() == old(self).counter() + 1,
            final(self).node_id() == old(self).node_id(),
    {
        let s = self.node_id.as_str();
        let bytes: &[u8] = s.as_bytes();
        let n: usize = bytes.len();
        proof {
            vstd::utf8::is_ascii_chars_encode_utf8(self.node_id@);
        }
        let suffix = Ghost(id_suffix(self.node_id@));
        let c = Ghost(self.counter as int);
        let mut id: u32 = self.counter;
        let mut j: usize = 1;
        while j < n
            invariant
                1 <= j <= n,
                n == self.node_id@.len(),
                valid_node_id(self.node_id@),
                bytes@ == vstd::utf8::encode_utf8(self.node_id@),
                bytes@.len() == n,
                forall|i: int| 0 <= i < n ==> bytes@[i] == self.node_id@[i] as u8,
                suffix@ == id_suffix(self.node_id@),
                c@ == self.counter as int,
                unique_id(c@, self.node_id@) <= u32::MAX,
                id == append_digits(c@, suffix@.subrange(0, j - 1)),
            decreases n - j,
        {
            let ghost taken = suffix@.subrange(0, j - 1);
            let ghost next = suffix@.subrange(0, j as int);
            let b: u8 = bytes[j];
            proof {
                assert(suffix@[j - 1] == self.node_id@[j as int]);
                assert(is_digit_char(suffix@[j - 1]));
                assert(next.drop_last() =~= taken);
                assert(next.last() == self.node_id@[j as int]);
                assert(all_digits(suffix@));
                assert(append_digits(c@, next)
                    == append_digits(c@, taken) * 10 + digit_val(self.node_id@[j as int]));
                lemma_append_digits_prefix(c@, suffix@, j as int);
                assert(suffix@.subrange(0, suffix@.len() as int) =~= suffix@);
                assert(append_digits(c@, next) <= unique_id(c@, self.node_id@));
            }
            let d: u8 = b - 48;
            id = id * 10 + d as u32;
            j = j + 1;
        }
        proof {
            assert(suffix@.subrange(0, n - 1) =~= suffix@);
        }
        self.counter = self.counter + 1;
        id
    }
}

} // verus!
