//! The append-only log service.
//!
//! Each log key owns an append-only sequence of integer payloads; an entry's
//! offset is its position in that sequence, zero-based, dense and never
//! reassigned. Separately, each client owns a table of last-committed offsets,
//! replaced wholesale on every commit.

use vstd::prelude::*;

use crate::assoc::{
    find_index, lemma_lookup_index, lemma_lookup_none, lemma_lookup_push, lemma_lookup_update,
    lookup, unique_keys,
};

verus! {

/// The entries of a log at or after the requested offset, in offset order,
/// each paired with its offset.
pub open spec fn poll_entries(log: Seq<u32>, offset: int) -> Seq<(usize, u32)> {
    Seq::new(
        if 0 <= offset <= log.len() {
            (log.len() - offset) as nat
        } else {
            0
        },
        |i: int| ((offset + i) as usize, log[offset + i]),
    )
}

/// The poll reply for a batch of requested offsets: one row per requested key
/// that has a log, in request order, carrying that log's entries at or after
/// the requested offset. Keys with no stored log are omitted.
pub open spec fn poll_model(
    logs: Seq<(String, Vec<u32>)>,
    offsets: Seq<(String, usize)>,
) -> Seq<(Seq<char>, Seq<(usize, u32)>)>
    decreases offsets.len(),
{
    if offsets.len() == 0 {
        Seq::empty()
    } else {
        poll_model(logs, offsets.drop_last()) + (match lookup(logs, offsets.last().0@) {
            None => Seq::empty(),
            Some(l) => seq![(offsets.last().0@, poll_entries(l@, offsets.last().1 as int))],
        })
    }
}

/// r carries exactly the keys and rows of the model m, in order.
pub open spec fn matches_poll(
    r: Seq<(String, Vec<(usize, u32)>)>,
    m: Seq<(Seq<char>, Seq<(usize, u32)>)>,
) -> bool {
    &&& r.len() == m.len()
    &&& forall|i: int|
        0 <= i < r.len() ==> (#[trigger] r[i]).0@ == m[i].0 && r[i].1@ == m[i].1
}

/// The committed-offsets reply for a batch of requested keys against one
/// client's table: one pair per requested key the client has committed, in
/// request order. Keys with no prior commit are omitted.
pub open spec fn committed_model(
    table: Seq<(String, usize)>,
    keys: Seq<String>,
) -> Seq<(Seq<char>, usize)>
    decreases keys.len(),
{
    if keys.len() == 0 {
        Seq::empty()
    } else {
        committed_model(table, keys.drop_last()) + (match lookup(table, keys.last()@) {
            None => Seq::empty(),
            Some(o) => seq![(keys.last()@, o)],
        })
    }
}

/// r carries exactly the key/offset pairs of the model m, in order.
pub open spec fn matches_committed(r: Seq<(String, usize)>, m: Seq<(Seq<char>, usize)>) -> bool {
    &&& r.len() == m.len()
    &&& forall|i: int|
        0 <= i < r.len() ==> (#[trigger] r[i]).0@ == m[i].0 && r[i].1 == m[i].1
}

/// The append-only per-key log store with per-client committed offsets.
pub struct Kafka {
    // client id -> (log key -> last committed offset for that log)
    last_seen_logs: Vec<(String, Vec<(String, usize)>)>,
    // log key -> the entries appended under it, in append order
    logs: Vec<(String, Vec<u32>)>,
}

impl Kafka {
    /// The per-key logs.
    pub closed spec fn spec_logs(self) -> Seq<(String, Vec<u32>)> {
        self.logs@
    }

    /// The per-client committed-offset tables.
    pub closed spec fn spec_commits(self) -> Seq<(String, Vec<(String, usize)>)> {
        self.last_seen_logs@
    }

    /// Log keys and client ids are each recorded at most once.
    pub open spec fn wf(self) -> bool {
        &&& unique_keys(self.spec_logs())
        &&& unique_keys(self.spec_commits())
    }

    pub fn new() -> (r: Self)
        ensures
            r.wf(),
            r.spec_logs() == Seq::<(String, Vec<u32>)>::empty(),
            r.spec_commits() == Seq::<(String, Vec<(String, usize)>)>::empty(),
    {
        Kafka { last_seen_logs: Vec::new(), logs: Vec::new() }
    }

    /// Append one payload to a key's log (creating the log if absent) and
    /// return the offset the payload now occupies: the log's length before
    /// the append. Offsets for a fixed key are therefore zero-based, grow by
    /// exactly one per write, and existing entries are never moved.
    pub fn write_log(&mut self, key: String, msg: u32) -> (offset: usize)
        requires
            old(self).wf(),
        ensures
            final(self).wf(),
            offset == (match lookup(old(self).spec_logs(), key@) {
                Some(l) => l@.len(),
                None => 0nat,
            }),
            lookup(final(self).spec_logs(), key@) matches Some(l2) && l2@ == (match lookup(
                old(self).spec_logs(),
                key@,
            ) {
                Some(l) => l@,
                None => Seq::<u32>::empty(),
            }).push(msg),
            forall|k: Seq<char>|
                k != key@ ==> lookup(final(self).spec_logs(), k) == #[trigger] lookup(
                    old(self).spec_logs(),
                    k,
                ),
            final(self).spec_commits() == old(self).spec_commits(),
    {
        let ghost s0 = self.logs@;
        match find_index(&self.logs, &key) {
            Some(i) => {
                proof {
                    lemma_lookup_index(s0, key@, i as int);
                }
                let row = self.logs.remove(i);
                let k = row.0;
                let mut l = row.1;
                let offset = l.len();
                l.push(msg);
                self.logs.insert(i, (k, l));
                proof {
                    assert(self.logs@ =~= s0.update(i as int, self.logs@[i as int]));
                    lemma_lookup_update(s0, i as int, self.logs@[i as int]);
                    assert forall|p: int, q: int|
                        0 <= p < q < self.logs@.len() implies (#[trigger] self.logs@[p]).0@
                        != (#[trigger] self.logs@[q]).0@ by {
                        assert(s0[p].0@ != s0[q].0@);
                    }
                }
                offset
            },
            None => {
                proof {
                    lemma_lookup_none(s0, key@);
                }
                let mut l: Vec<u32> = Vec::new();
                l.push(msg);
                let ghost key_view = key@;
                self.logs.push((key, l));
                proof {
                    assert(self.logs@ == s0.push(self.logs@[s0.len() as int]));
                    assert forall|k: Seq<char>| true implies #[trigger] lookup(self.logs@, k)
                        == (if k == key_view {
                        Some(self.logs@[s0.len() as int].1)
                    } else {
                        lookup(s0, k)
                    }) by {
                        lemma_lookup_push(s0, self.logs@[s0.len() as int], k);
                    }
                    assert forall|p: int, q: int|
                        0 <= p < q < self.logs@.len() implies (#[trigger] self.logs@[p]).0@
                        != (#[trigger] self.logs@[q]).0@ by {
                        if q < s0.len() {
                            assert(s0[p].0@ != s0[q].0@);
                        } else {
                            assert(self.logs@[q].0@ == key_view);
                            assert(s0[p].0@ != key_view);
                        }
                    }
                    assert(self.logs@[s0.len() as int].1@ =~= Seq::<u32>::empty().push(msg));
                }
                0
            },
        }
    }

    /// The entries of one key's log at or after the given offset, in offset
    /// order, each paired with its offset; None when the key has no log.
    pub fn get_logs_from_offset(&self, log_key: &String, offset: usize) -> (r: Option<
        Vec<(usize, u32)>,
    >)
        ensures
            match lookup(self.spec_logs(), log_key@) {
                None => r is None,
                Some(l) => r matches Some(v) && v@ == poll_entries(l@, offset as int),
            },
    {
        match find_index(&self.logs, log_key) {
            Some(i) => {
                proof {
                    lemma_lookup_index(self.logs@, log_key@, i as int);
                }
                let l = &self.logs[i].1;
                let n = l.len();
                let mut v: Vec<(usize, u32)> = Vec::new();
                let mut j: usize = if offset <= n {
                    offset
                } else {
                    n
                };
                while j < n
                    invariant
                        offset <= j <= n || (offset > n && j == n),
                        n == l@.len(),
                        v@ =~= poll_entries(l@, offset as int).subrange(
                            0,
                            if offset <= n {
                                j - offset
                            } else {
                                0
                            },
                        ),
                    decreases n - j,
                {
                    v.push((j, l[j]));
                    proof {
                        assert(v@ =~= poll_entries(l@, offset as int).subrange(
                            0,
                            j + 1 - offset,
                        ));
                    }
                    j = j + 1;
                }
                proof {
                    assert(v@ =~= poll_entries(l@, offset as int));
                }
                Some(v)
            },
            None => {
                proof {
                    lemma_lookup_none(self.logs@, log_key@);
                }
                None
            },
        }
    }

    /// Answer a poll: for each requested key that has a log, all entries at
    /// or after the requested offset, in offset order; requested keys with no
    /// log are omitted.
    pub fn read_logs(&self, offsets: Vec<(String, usize)>) -> (r: Vec<(String, Vec<(usize, u32)>)>)
        ensures
            matches_poll(r@, poll_model(self.spec_logs(), offsets@)),
    {
        let mut r: Vec<(String, Vec<(usize, u32)>)> = Vec::new();
        let n = offsets.len();
        let mut i: usize = 0;
        while i < n
            invariant
                0 <= i <= n,
                n == offsets@.len(),
                matches_poll(r@, poll_model(self.spec_logs(), offsets@.subrange(0, i as int))),
            decreases n - i,
        {
            let ghost prefix = offsets@.subrange(0, i as int);
            let ghost next = offsets@.subrange(0, i + 1);
            proof {
                assert(next.drop_last() =~= prefix);
                assert(next.last() == offsets@[i as int]);
            }
            if let Some(v) = self.get_logs_from_offset(&offsets[i].0, offsets[i].1) {
                r.push((offsets[i].0.clone(), v));
            }
            i = i + 1;
        }
        proof {
            assert(offsets@.subrange(0, n as int) =~= offsets@);
        }
        r
    }

    /// Replace (not merge) the client's committed-offset table with the
    /// supplied mapping.
    pub fn commit_offsets(&mut self, client: String, offsets: Vec<(String, usize)>)
        requires
            old(self).wf(),
        ensures
            final(self).wf(),
            lookup(final(self).spec_commits(), client@) matches Some(t) && t@ == offsets@,
            forall|c: Seq<char>|
                c != client@ ==> lookup(final(self).spec_commits(), c) == #[trigger] lookup(
                    old(self).spec_commits(),
                    c,
                ),
            final(self).spec_logs() == old(self).spec_logs(),
    {
        let ghost s0 = self.last_seen_logs@;
        let ghost client_view = client@;
        match find_index(&self.last_seen_logs, &client) {
            Some(i) => {
                self.last_seen_logs.set(i, (client, offsets));
                proof {
                    lemma_lookup_update(s0, i as int, self.last_seen_logs@[i as int]);
                    assert forall|p: int, q: int|
                        0 <= p < q < self.last_seen_logs@.len() implies (#[trigger] self
                            .last_seen_logs@[p]).0@ != (#[trigger] self.last_seen_logs@[q]).0@ by {
                        assert(s0[p].0@ != s0[q].0@);
                    }
                }
            },
            None => {
                proof {
                    lemma_lookup_none(s0, client_view);
                }
                self.last_seen_logs.push((client, offsets));
                proof {
                    assert(self.last_seen_logs@ == s0.push(
                        self.last_seen_logs@[s0.len() as int],
                    ));
                    assert forall|c: Seq<char>| true implies #[trigger] lookup(
                        self.last_seen_logs@,
                        c,
                    ) == (if c == client_view {
                        Some(self.last_seen_logs@[s0.len() as int].1)
                    } else {
                        lookup(s0, c)
                    }) by {
                        lemma_lookup_push(s0, self.last_seen_logs@[s0.len() as int], c);
                    }
                    assert forall|p: int, q: int|
                        0 <= p < q < self.last_seen_logs@.len() implies (#[trigger] self
                            .last_seen_logs@[p]).0@ != (#[trigger] self.last_seen_logs@[q]).0@ by {
                        if q < s0.len() {
                            assert(s0[p].0@ != s0[q].0@);
                        } else {
                            assert(self.last_seen_logs@[q].0@ == client_view);
                            assert(s0[p].0@ != client_view);
                        }
                    }
                }
            },
        }
    }

    /// The committed offset for each requested key the client has previously
    /// committed, in request order; keys with no prior commit are omitted.
    pub fn get_commited_offsets(&self, client: &String, log_keys: Vec<String>) -> (r: Vec<
        (String, usize),
    >)
        ensures
            match lookup(self.spec_commits(), client@) {
                None => r@.len() == 0,
                Some(t) => matches_committed(r@, committed_model(t@, log_keys@)),
            },
    {
        match find_index(&self.last_seen_logs, client) {
            Some(ti) => {
                proof {
                    lemma_lookup_index(self.last_seen_logs@, client@, ti as int);
                }
                let table = &self.last_seen_logs[ti].1;
                let mut r: Vec<(String, usize)> = Vec::new();
                let n = log_keys.len();
                let mut i: usize = 0;
                while i < n
                    invariant
                        0 <= i <= n,
                        n == log_keys@.len(),
                        matches_committed(
                            r@,
                            committed_model(table@, log_keys@.subrange(0, i as int)),
                        ),
                    decreases n - i,
                {
                    let ghost prefix = log_keys@.subrange(0, i as int);
                    let ghost next = log_keys@.subrange(0, i + 1);
                    proof {
                        assert(next.drop_last() =~= prefix);
                        assert(next.last() == log_keys@[i as int]);
                    }
                    match find_index(table, &log_keys[i]) {
                        Some(j) => {
                            proof {
                                lemma_lookup_index(table@, log_keys@[i as int]@, j as int);
                            }
                            r.push((log_keys[i].clone(), table[j].1));
                        },
                        None => {
                            proof {
                                lemma_lookup_none(table@, log_keys@[i as int]@);
                            }
                        },
                    }
                    i = i + 1;
                }
                proof {
                    assert(log_keys@.subrange(0, n as int) =~= log_keys@);
                }
                r
            },
            None => {
                proof {
                    lemma_lookup_none(self.last_seen_logs@, client@);
                }
                Vec::new()
            },
        }
    }
}

/// Offsets are stable and strictly increasing: appending to a log never moves
/// an existing entry, the appended payload lands at the offset the write
/// returns (the log's previous length), and the next write to the same key
/// returns an offset exactly one higher.
pub proof fn lemma_offsets_monotone(log: Seq<u32>, v1: u32, v2: u32)
    ensures
        log.push(v1).len() == log.len() + 1,
        forall|i: int| 0 <= i < log.len() ==> log.push(v1)[i] == log[i],
        log.push(v1)[log.len() as int] == v1,
        log.push(v1).push(v2)[log.len() as int] == v1,
        log.push(v1).push(v2)[log.len() as int + 1] == v2,
{
}

/// Commit visibility: against a freshly committed table, listing a key
/// returns exactly the offset that table carries for it, and nothing when
/// the table does not carry it. Together with the commit contract (the
/// client's table is replaced by exactly the supplied mapping, and other
/// clients' tables are untouched), a committed offset is read back unchanged
/// until a later commit by the same client overwrites the table.
pub proof fn lemma_commit_visibility(table: Seq<(String, usize)>, key: String)
    ensures
        committed_model(table, seq![key]) == (match lookup(table, key@) {
            None => Seq::<(Seq<char>, usize)>::empty(),
            Some(o) => seq![(key@, o)],
        }),
{
    let keys: Seq<String> = seq![key];
    assert(keys.drop_last() =~= Seq::<String>::empty());
    assert(committed_model(table, keys.drop_last()) == Seq::<(Seq<char>, usize)>::empty());
    match lookup(table, key@) {
        None => {
            assert(committed_model(table, keys) =~= Seq::<(Seq<char>, usize)>::empty());
        },
        Some(o) => {
            assert(committed_model(table, keys) =~= seq![(key@, o)]);
        },
    }
}

/// Poll correctness: the entries returned for one log are exactly those at
/// or after the requested offset, in offset order, each carrying its own
/// offset and payload.
pub proof fn lemma_poll_entries_correct(log: Seq<u32>, offset: int)
    requires
        0 <= offset,
        log.len() <= usize::MAX,
    ensures
        offset <= log.len() ==> poll_entries(log, offset).len() == log.len() - offset,
        offset > log.len() ==> poll_entries(log, offset).len() == 0,
        forall|j: int|
            0 <= j < poll_entries(log, offset).len() ==> (#[trigger] poll_entries(log, offset)[j])
                == (((offset + j) as usize, log[offset + j])),
        forall|j: int|
            0 <= j < poll_entries(log, offset).len() ==> (#[trigger] poll_entries(
                log,
                offset,
            )[j]).0 >= offset,
{
}

} // verus!
