//! The dispatcher.
//!
//! A [`Node`] owns the cluster identity and peer membership (set once by the
//! initialization handshake), the broadcast deduplication and pending-ack
//! state, the grow-only counter and the log store. It routes every inbound
//! envelope by its body's kind to exactly one handler and is the sole point
//! from which outbound envelopes are produced.
//!
//! The node is a pure state machine: handlers return the envelopes to emit as
//! [`Effects`] instead of writing them anywhere, so the process around the
//! library can run the transport, the retry timers and the gossip cadence
//! while everything that decides stays verified here.

use vstd::prelude::*;

use crate::assoc::lookup;
use crate::counter::{merged_total, merged_value, sum, Counter};
use crate::id_generator::{lemma_generate_step, unique_id, valid_node_id, IdGenerator};
use crate::kafka::{committed_model, matches_committed, matches_poll, poll_model, Kafka};
use crate::message::{Message, MessageBody, MessageForm};

verus! {

/// The peers a node fans out to: every member of the cluster other than
/// itself, in membership order.
pub open spec fn peers_of(node_ids: Seq<String>, self_id: Seq<char>) -> Seq<String>
    decreases node_ids.len(),
{
    if node_ids.len() == 0 {
        Seq::empty()
    } else {
        peers_of(node_ids.drop_last(), self_id) + (if node_ids.last()@ != self_id {
            seq![node_ids.last()]
        } else {
            Seq::empty()
        })
    }
}

/// A membership prefix never yields more peers than the whole membership.
pub proof fn lemma_peers_prefix_le(node_ids: Seq<String>, self_id: Seq<char>, j: int)
    requires
        0 <= j <= node_ids.len(),
    ensures
        peers_of(node_ids.subrange(0, j), self_id).len() <= peers_of(node_ids, self_id).len(),
    decreases node_ids.len(),
{
    if j == node_ids.len() {
        assert(node_ids.subrange(0, j) =~= node_ids);
    } else {
        assert(node_ids.drop_last().subrange(0, j) =~= node_ids.subrange(0, j));
        lemma_peers_prefix_le(node_ids.drop_last(), self_id, j);
    }
}

/// The fan-out a fresh broadcast value produces: one envelope per peer, in
/// membership order, each carrying the value under a freshly generated
/// request id (consecutive ids, in order).
pub open spec fn fanout_ok(pre: Node, message: u32, fanout: Seq<Message<MessageBody>>) -> bool {
    let peers = peers_of(pre.spec_node_ids(), pre.spec_id());
    let c0 = pre.generator().counter();
    let nid = pre.generator().node_id();
    &&& fanout.len() == peers.len()
    &&& forall|i: int|
        0 <= i < fanout.len() ==> {
            &&& (#[trigger] fanout[i]).src@ == pre.spec_id()
            &&& fanout[i].dest@ == peers[i]@
            &&& fanout[i].body == (MessageBody::Broadcast {
                msg_id: unique_id(c0 + i, nid) as u32,
                message,
            })
        }
}

/// After a fan-out of k envelopes, the pending-acknowledgment table holds
/// exactly what it held before plus the k fresh request ids.
pub open spec fn pending_after_fanout(pre: Node, post: Node, k: int) -> bool {
    forall|x: u32|
        #[trigger] post.pending().contains(x) <==> (pre.pending().contains(x) || exists|j: int|
            0 <= j < k && x == (#[trigger] unique_id(
                pre.generator().counter() + j,
                pre.generator().node_id(),
            )) as u32)
}

/// The reply envelope for a request: addressed back to the requester, from
/// the address the request arrived on.
pub open spec fn reply_to(msg: Message<MessageBody>, body: MessageBody) -> Message<MessageBody> {
    Message { src: msg.dest, dest: msg.src, body }
}

/// What accepting one broadcast delivery does to the seen set: afterwards
/// the value is recorded, nothing else is added or forgotten, and peer
/// replication was triggered exactly when the value was not yet recorded.
pub open spec fn broadcast_accepts(pre: Node, post: Node, message: u32, fanned_out: bool) -> bool {
    &&& post.saved().contains(message)
    &&& (forall|w: u32|
        #[trigger] post.saved().contains(w) <==> (pre.saved().contains(w) || w == message))
    &&& fanned_out == !pre.saved().contains(message)
}

/// Idempotent broadcast delivery: however often a value is delivered, and
/// whatever else the node handles in between (no handler ever forgets a
/// seen value), only the value's first delivery triggers replication to
/// peers. Every delivery is acknowledged regardless: the broadcast contract
/// returns the acknowledgment unconditionally.
pub proof fn lemma_broadcast_idempotent(
    s0: Node,
    s1: Node,
    mid: Node,
    s2: Node,
    v: u32,
    fanned1: bool,
    fanned2: bool,
)
    requires
        broadcast_accepts(s0, s1, v, fanned1),
        forall|w: u32| s1.saved().contains(w) ==> #[trigger] mid.saved().contains(w),
        broadcast_accepts(mid, s2, v, fanned2),
    ensures
        !fanned2,
{
    assert(mid.saved().contains(v));
}

/// What a handled envelope asks the surrounding process to do.
pub struct Effects {
    /// Envelopes to enqueue onto the output sink once, in order.
    pub sends: Vec<Message<MessageBody>>,
    /// Envelopes to enqueue now and then re-send on a timer until the
    /// matching acknowledgment arrives or the retry budget runs out.
    pub retries: Vec<Message<MessageBody>>,
    /// A pending-acknowledgment entry this envelope completed: the waiting
    /// retry task for this request id should be released.
    pub acked: Option<u32>,
}

/// The cluster node: identity, membership, and the broadcast, counter and
/// log subsystems.
pub struct Node {
    id: Option<String>,
    node_ids: Option<Vec<String>>,
    id_generator: Option<IdGenerator>,
    saved_messages: Vec<u32>,
    broadcast_pending: Vec<u32>,
    counter: Counter,
    kafka: Kafka,
}

impl Node {
    /// The initialization handshake has happened.
    pub closed spec fn initialized(self) -> bool {
        self.id is Some && self.node_ids is Some && self.id_generator is Some
    }

    /// This node's identity.
    pub closed spec fn spec_id(self) -> Seq<char> {
        self.id->0@
    }

    /// The full cluster membership, this node included.
    pub closed spec fn spec_node_ids(self) -> Seq<String> {
        self.node_ids->0@
    }

    /// The unique id generator.
    pub closed spec fn generator(self) -> IdGenerator {
        self.id_generator->0
    }

    /// The broadcast values this node has already accepted.
    pub closed spec fn saved(self) -> Seq<u32> {
        self.saved_messages@
    }

    /// The request ids of fan-out envelopes still awaiting acknowledgment.
    pub closed spec fn pending(self) -> Seq<u32> {
        self.broadcast_pending@
    }

    /// The grow-only counter subsystem.
    pub closed spec fn counter_state(self) -> Counter {
        self.counter
    }

    /// The log store subsystem.
    pub closed spec fn kafka_state(self) -> Kafka {
        self.kafka
    }

    /// The subsystems are well formed, and the dedup and pending tables are
    /// sets: no value or request id appears twice.
    pub open spec fn wf(self) -> bool {
        &&& self.counter_state().wf()
        &&& self.kafka_state().wf()
        &&& self.saved().no_duplicates()
        &&& self.pending().no_duplicates()
    }

    /// A fresh, uninitialized node with empty subsystems.
    pub fn new() -> (r: Self)
        ensures
            r.wf(),
            !r.initialized(),
            r.saved() == Seq::<u32>::empty(),
            r.pending() == Seq::<u32>::empty(),
            r.counter_state()@ == Seq::<(String, u32)>::empty(),
            r.kafka_state().spec_logs() == Seq::<(String, Vec<u32>)>::empty(),
            r.kafka_state().spec_commits() == Seq::<(String, Vec<(String, usize)>)>::empty(),
    {
        Node {
            id: None,
            node_ids: None,
            id_generator: None,
            saved_messages: Vec::new(),
            broadcast_pending: Vec::new(),
            counter: Counter::new(),
            kafka: Kafka::new(),
        }
    }

    /// Install the identity and membership the handshake assigned and seed
    /// the id generator with the node's own identity.
    pub fn init_node(&mut self, node_id: String, node_ids: Vec<String>)
        ensures
            final(self).initialized(),
            final(self).spec_id() == node_id@,
            final(self).spec_node_ids() == node_ids@,
            final(self).generator().counter() == 0,
            final(self).generator().node_id() == node_id@,
            final(self).saved() == old(self).saved(),
            final(self).pending() == old(self).pending(),
            final(self).counter_state() == old(self).counter_state(),
            final(self).kafka_state() == old(self).kafka_state(),
    {
        let id_generator = IdGenerator::new(node_id.clone());
        self.id_generator = Some(id_generator);
        self.id = Some(node_id);
        self.node_ids = Some(node_ids);
    }

    /// The handshake: adopt the assigned identity and membership and
    /// acknowledge. Identity is set exactly once; a second handshake is a
    /// precondition violation.
    pub fn handle_init(&mut self, msg: Message<MessageBody>) -> (r: Message<MessageBody>)
        requires
            msg.body is Init,
            !old(self).initialized(),
        ensures
            msg.body matches MessageBody::Init { msg_id, node_id, node_ids } ==> {
                &&& final(self).initialized()
                &&& final(self).spec_id() == node_id@
                &&& final(self).spec_node_ids() == node_ids@
                &&& final(self).generator().counter() == 0
                &&& final(self).generator().node_id() == node_id@
                &&& r == reply_to(msg, MessageBody::InitOk { in_reply_to: msg_id })
            },
            final(self).saved() == old(self).saved(),
            final(self).pending() == old(self).pending(),
            final(self).counter_state() == old(self).counter_state(),
            final(self).kafka_state() == old(self).kafka_state(),
    {
        let Message { src, dest, body } = msg;
        match body {
            MessageBody::Init { msg_id, node_id, node_ids } => {
                self.init_node(node_id, node_ids);
                Message { src: dest, dest: src, body: MessageBody::InitOk { in_reply_to: msg_id } }
            },
            _ => vstd::pervasive::unreached(),
        }
    }

    /// Echo the payload back, the request id serving as both the reply's own
    /// id and its correlation id.
    pub fn handle_echo(&self, msg: Message<MessageBody>) -> (r: Message<MessageBody>)
        requires
            msg.body is Echo,
        ensures
            msg.body matches MessageBody::Echo { msg_id, echo } ==> r == reply_to(
                msg,
                MessageBody::EchoOk { msg_id, in_reply_to: msg_id, echo },
            ),
    {
        let Message { src, dest, body } = msg;
        match body {
            MessageBody::Echo { msg_id, echo } => Message {
                src: dest,
                dest: src,
                body: MessageBody::EchoOk { msg_id, in_reply_to: msg_id, echo },
            },
            _ => vstd::pervasive::unreached(),
        }
    }

    /// Reply with a freshly generated cluster-unique id.
    pub fn handle_generate(&mut self, msg: Message<MessageBody>) -> (r: Message<MessageBody>)
        requires
            msg.body is Generate,
            old(self).initialized(),
            old(self).generator().can_generate(),
        ensures
            msg.body matches MessageBody::Generate { msg_id } ==> r == reply_to(
                msg,
                MessageBody::GenerateOk {
                    msg_id,
                    in_reply_to: msg_id,
                    id: unique_id(
                        old(self).generator().counter(),
                        old(self).generator().node_id(),
                    ) as u32,
                },
            ),
            final(self).initialized(),
            final(self).spec_id() == old(self).spec_id(),
            final(self).spec_node_ids() == old(self).spec_node_ids(),
            final(self).generator().counter() == old(self).generator().counter() + 1,
            final(self).generator().node_id() == old(self).generator().node_id(),
            final(self).saved() == old(self).saved(),
            final(self).pending() == old(self).pending(),
            final(self).counter_state() == old(self).counter_state(),
            final(self).kafka_state() == old(self).kafka_state(),
    {
        let id = match &mut self.id_generator {
            Some(g) => g.generate(),
            None => vstd::pervasive::unreached(),
        };
        let Message { src, dest, body } = msg;
        match body {
            MessageBody::Generate { msg_id } => Message {
                src: dest,
                dest: src,
                body: MessageBody::GenerateOk { msg_id, in_reply_to: msg_id, id },
            },
            _ => vstd::pervasive::unreached(),
        }
    }

    /// Accept and acknowledge a topology announcement. The payload is not
    /// applied: this node always gossips to the full peer set.
    pub fn handle_topology(&self, msg: Message<MessageBody>) -> (r: Message<MessageBody>)
        requires
            msg.body is Topology,
        ensures
            msg.body matches MessageBody::Topology { msg_id, .. } ==> r == reply_to(
                msg,
                MessageBody::TopologyOk { in_reply_to: msg_id },
            ),
    {
        let Message { src, dest, body } = msg;
        match body {
            MessageBody::Topology { msg_id, .. } => Message {
                src: dest,
                dest: src,
                body: MessageBody::TopologyOk { in_reply_to: msg_id },
            },
            _ => vstd::pervasive::unreached(),
        }
    }

    /// Build one broadcast envelope per peer for a newly seen value, each
    /// under a fresh request id, and register every id in the
    /// pending-acknowledgment table. The caller sends each envelope and
    /// retries it until the matching acknowledgment arrives.
    pub fn replicate_to_peers(&mut self, message: u32) -> (fanout: Vec<Message<MessageBody>>)
        requires
            old(self).wf(),
            old(self).initialized(),
            old(self).generator().can_generate_many(
                peers_of(old(self).spec_node_ids(), old(self).spec_id()).len() as int,
            ),
        ensures
            final(self).wf(),
            final(self).initialized(),
            final(self).spec_id() == old(self).spec_id(),
            final(self).spec_node_ids() == old(self).spec_node_ids(),
            final(self).generator().node_id() == old(self).generator().node_id(),
            final(self).generator().counter() == old(self).generator().counter() + peers_of(
                old(self).spec_node_ids(),
                old(self).spec_id(),
            ).len(),
            final(self).saved() == old(self).saved(),
            final(self).counter_state() == old(self).counter_state(),
            final(self).kafka_state() == old(self).kafka_state(),
            fanout_ok(*old(self), message, fanout@),
            pending_after_fanout(
                *old(self),
                *final(self),
                peers_of(old(self).spec_node_ids(), old(self).spec_id()).len() as int,
            ),
    {
        let ghost pre = *self;
        let ghost sid = pre.spec_id();
        let ghost all = pre.spec_node_ids();
        let ghost c0 = pre.generator().counter();
        proof {
            pre.generator().lemma_counter_in_range();
        }
        let ghost nid = pre.generator().node_id();
        let ghost k_total = peers_of(all, sid).len() as int;

        let cur: String = match &self.id {
            Some(s) => s.clone(),
            None => vstd::pervasive::unreached(),
        };
        let mut fanout: Vec<Message<MessageBody>> = Vec::new();
        let n: usize = match &self.node_ids {
            Some(ns) => ns.len(),
            None => vstd::pervasive::unreached(),
        };
        let mut i: usize = 0;
        while i < n
            invariant
                0 <= i <= n,
                self.id is Some && self.node_ids is Some && self.id_generator is Some,
                self.id == pre.id,
                self.node_ids == pre.node_ids,
                n == all.len(),
                all == self.spec_node_ids(),
                sid == self.spec_id(),
                cur@ == sid,
                valid_node_id(nid),
                0 <= c0,
                c0 + k_total <= u32::MAX,
                k_total > 0 ==> unique_id(c0 + k_total - 1, nid) <= u32::MAX,
                k_total == peers_of(all, sid).len(),
                self.generator().node_id() == nid,
                self.generator().counter() == c0 + peers_of(
                    all.subrange(0, i as int),
                    sid,
                ).len(),
                fanout@.len() == peers_of(all.subrange(0, i as int), sid).len(),
                forall|j: int|
                    0 <= j < fanout@.len() ==> {
                        &&& (#[trigger] fanout@[j]).src@ == sid
                        &&& fanout@[j].dest@ == peers_of(all.subrange(0, i as int), sid)[j]@
                        &&& fanout@[j].body == (MessageBody::Broadcast {
                            msg_id: unique_id(c0 + j, nid) as u32,
                            message,
                        })
                    },
                forall|x: u32|
                    #[trigger] self.pending().contains(x) <==> (pre.pending().contains(x)
                        || exists|j: int|
                        0 <= j < fanout@.len() && x == (#[trigger] unique_id(c0 + j, nid)) as u32),
                self.pending().no_duplicates(),
                self.saved() == pre.saved(),
                self.counter_state() == pre.counter_state(),
                self.kafka_state() == pre.kafka_state(),
            decreases n - i,
        {
            let ghost prefix = all.subrange(0, i as int);
            let ghost next = all.subrange(0, i + 1);
            proof {
                assert(next.drop_last() =~= prefix);
                assert(next.last() == all[i as int]);
            }
            let node: &String = match &self.node_ids {
                Some(ns) => &ns[i],
                None => vstd::pervasive::unreached(),
            };
            if *node != cur {
                let ghost pend0 = self.broadcast_pending@;
                let ghost fan0 = fanout@;
                proof {
                    assert(peers_of(next, sid) == peers_of(prefix, sid).push(all[i as int]));
                    lemma_peers_prefix_le(all, sid, i + 1);
                    lemma_generate_step(c0, nid, k_total, fan0.len() as int);
                }
                let dest = node.clone();
                let gid: u32 = match &mut self.id_generator {
                    Some(g) => g.generate(),
                    None => vstd::pervasive::unreached(),
                };
                let m = Message {
                    src: cur.clone(),
                    dest,
                    body: MessageBody::Broadcast { msg_id: gid, message },
                };
                let already = contains_u32(&self.broadcast_pending, gid);
                if !already {
                    self.broadcast_pending.push(gid);
                }
                fanout.push(m);
                proof {
                    assert(gid == unique_id(c0 + fan0.len(), nid) as u32);
                    assert(fanout@ == fan0.push(m));
                    assert(fanout@.len() == peers_of(next, sid).len());
                    assert forall|j: int| 0 <= j < fanout@.len() implies {
                        &&& (#[trigger] fanout@[j]).src@ == sid
                        &&& fanout@[j].dest@ == peers_of(next, sid)[j]@
                        &&& fanout@[j].body == (MessageBody::Broadcast {
                            msg_id: unique_id(c0 + j, nid) as u32,
                            message,
                        })
                    } by {
                        if j < fanout@.len() - 1 {
                            assert(fanout@[j] == fan0[j]);
                            assert(peers_of(next, sid)[j] == peers_of(prefix, sid)[j]);
                        } else {
                            assert(fanout@[j] == m);
                            assert(peers_of(next, sid)[j] == all[i as int]);
                        }
                    }
                    // membership in the pending table, both ways
                    assert forall|x: u32| #[trigger]
                        self.pending().contains(x) implies (pre.pending().contains(x) || exists|
                        j: int,
                    |
                        0 <= j < fanout@.len() && x == (#[trigger] unique_id(
                            c0 + j,
                            nid,
                        )) as u32) by {
                        let ix = choose|ix: int|
                            0 <= ix < self.pending().len() && self.pending()[ix] == x;
                        if ix < pend0.len() {
                            assert(pend0[ix] == x);
                            assert(pend0.contains(x));
                            if !pre.pending().contains(x) {
                                let j0 = choose|j0: int|
                                    0 <= j0 < fan0.len() && x == (#[trigger] unique_id(c0 + j0, nid)) as u32;
                                assert(0 <= j0 < fanout@.len() && x == (unique_id(
                                    c0 + j0,
                                    nid,
                                )) as u32);
                            }
                        } else {
                            assert(x == gid);
                            assert(x == (unique_id(c0 + fan0.len(), nid)) as u32);
                            assert(0 <= fan0.len() < fanout@.len());
                        }
                    }
                    assert forall|x: u32|
                        (pre.pending().contains(x) || exists|j: int|
                            0 <= j < fanout@.len() && x == (#[trigger] unique_id(
                                c0 + j,
                                nid,
                            )) as u32) implies #[trigger] self.pending().contains(x) by {
                        if pend0.contains(x) {
                            let ix = choose|ix: int| 0 <= ix < pend0.len() && pend0[ix] == x;
                            assert(self.pending()[ix] == x);
                        } else if pre.pending().contains(x) {
                            assert(pend0.contains(x));
                        } else {
                            let j = choose|j: int|
                                0 <= j < fanout@.len() && x == (#[trigger] unique_id(c0 + j, nid)) as u32;
                            if j < fan0.len() {
                                assert(pend0.contains(x));
                            } else {
                                assert(x == gid);
                                if already {
                                    assert(pend0.contains(x));
                                } else {
                                    assert(self.pending()[pend0.len() as int] == gid);
                                }
                            }
                        }
                    }
                    // the pending table stays duplicate-free
                    if !already {
                        assert forall|p: int, q: int|
                            0 <= p < q < self.pending().len() implies self.pending()[p]
                            != self.pending()[q] by {
                            if q < pend0.len() {
                                assert(self.pending()[p] == pend0[p]);
                                assert(self.pending()[q] == pend0[q]);
                            } else {
                                assert(self.pending()[q] == gid);
                                assert(self.pending()[p] == pend0[p]);
                                assert(!pend0.contains(gid));
                            }
                        }
                    }
                }
            } else {
                proof {
                    assert(peers_of(next, sid) == peers_of(prefix, sid));
                }
            }
            i = i + 1;
        }
        proof {
            assert(all.subrange(0, n as int) =~= all);
        }
        fanout
    }

    /// Accept a broadcast value: acknowledge it to its immediate sender
    /// unconditionally, and when the value is newly seen, record it and fan
    /// it out to every peer. A duplicate delivery is acknowledged but
    /// triggers no second fan-out.
    pub fn handle_broadcast(&mut self, msg: Message<MessageBody>) -> (r: (
        Message<MessageBody>,
        Vec<Message<MessageBody>>,
    ))
        requires
            msg.body is Broadcast,
            old(self).wf(),
            old(self).initialized(),
            (msg.body matches MessageBody::Broadcast { message, .. } && !old(self).saved().contains(
                message,
            )) ==> old(self).generator().can_generate_many(
                peers_of(old(self).spec_node_ids(), old(self).spec_id()).len() as int,
            ),
        ensures
            final(self).wf(),
            final(self).initialized(),
            final(self).spec_id() == old(self).spec_id(),
            final(self).spec_node_ids() == old(self).spec_node_ids(),
            final(self).generator().node_id() == old(self).generator().node_id(),
            final(self).counter_state() == old(self).counter_state(),
            final(self).kafka_state() == old(self).kafka_state(),
            msg.body matches MessageBody::Broadcast { msg_id, message } ==> {
                &&& r.0 == reply_to(msg, MessageBody::BroadcastOk { in_reply_to: msg_id })
                &&& broadcast_accepts(
                    *old(self),
                    *final(self),
                    message,
                    !old(self).saved().contains(message),
                )
                &&& final(self).saved().contains(message)
                &&& forall|v: u32|
                    #[trigger] final(self).saved().contains(v) <==> (old(self).saved().contains(v)
                        || v == message)
                &&& (old(self).saved().contains(message) ==> {
                    &&& r.1@.len() == 0
                    &&& final(self).saved() == old(self).saved()
                    &&& final(self).pending() == old(self).pending()
                    &&& final(self).generator() == old(self).generator()
                })
                &&& (!old(self).saved().contains(message) ==> {
                    &&& final(self).saved() == old(self).saved().push(message)
                    &&& fanout_ok(*old(self), message, r.1@)
                    &&& pending_after_fanout(
                        *old(self),
                        *final(self),
                        peers_of(old(self).spec_node_ids(), old(self).spec_id()).len() as int,
                    )
                    &&& final(self).generator().counter() == old(self).generator().counter()
                        + peers_of(old(self).spec_node_ids(), old(self).spec_id()).len()
                })
            },
    {
        let ghost pre = *self;
        let Message { src, dest, body } = msg;
        match body {
            MessageBody::Broadcast { msg_id, message } => {
                let fresh = !contains_u32(&self.saved_messages, message);
                let mut fanout: Vec<Message<MessageBody>> = Vec::new();
                if fresh {
                    self.saved_messages.push(message);
                    proof {
                        assert forall|p: int, q: int|
                            0 <= p < q < self.saved().len() implies self.saved()[p]
                            != self.saved()[q] by {
                            if q < pre.saved().len() {
                                assert(self.saved()[p] == pre.saved()[p]);
                                assert(self.saved()[q] == pre.saved()[q]);
                            } else {
                                assert(self.saved()[q] == message);
                                assert(self.saved()[p] == pre.saved()[p]);
                                if pre.saved()[p] == message {
                                    assert(pre.saved().contains(message));
                                }
                            }
                        }
                    }
                    fanout = self.replicate_to_peers(message);
                    proof {
                        assert(self.saved()[pre.saved().len() as int] == message);
                        assert(self.saved().contains(message));
                        assert forall|v: u32| #[trigger]
                            self.saved().contains(v) <==> (pre.saved().contains(v) || v
                            == message) by {
                            if self.saved().contains(v) {
                                let ix = choose|ix: int|
                                    0 <= ix < self.saved().len() && self.saved()[ix] == v;
                                if ix < pre.saved().len() {
                                    assert(pre.saved()[ix] == v);
                                    assert(pre.saved().contains(v));
                                }
                            }
                            if pre.saved().contains(v) {
                                let ix = choose|ix: int|
                                    0 <= ix < pre.saved().len() && pre.saved()[ix] == v;
                                assert(self.saved()[ix] == v);
                                assert(self.saved().contains(v));
                            }
                        }
                        assert(fanout_ok(pre, message, fanout@));
                        assert(pending_after_fanout(
                            pre,
                            *self,
                            peers_of(pre.spec_node_ids(), pre.spec_id()).len() as int,
                        ));
                    }
                } else {
                    proof {
                        assert(self.saved().contains(message));
                    }
                }
                let reply = Message {
                    src: dest,
                    dest: src,
                    body: MessageBody::BroadcastOk { in_reply_to: msg_id },
                };
                (reply, fanout)
            },
            _ => vstd::pervasive::unreached(),
        }
    }

    /// Drop one request id from the pending-acknowledgment table, if it is
    /// there, and report whether it was.
    fn remove_pending(&mut self, id: u32) -> (removed: bool)
        requires
            old(self).wf(),
        ensures
            final(self).wf(),
            final(self).initialized() == old(self).initialized(),
            final(self).spec_id() == old(self).spec_id(),
            final(self).spec_node_ids() == old(self).spec_node_ids(),
            final(self).generator() == old(self).generator(),
            final(self).saved() == old(self).saved(),
            final(self).counter_state() == old(self).counter_state(),
            final(self).kafka_state() == old(self).kafka_state(),
            removed == old(self).pending().contains(id),
            if old(self).pending().contains(id) {
                &&& exists|i: int|
                    0 <= i < old(self).pending().len() && old(self).pending()[i] == id
                        && final(self).pending() == old(self).pending().remove(i)
                &&& !final(self).pending().contains(id)
            } else {
                final(self).pending() == old(self).pending()
            },
    {
        let ghost pre = *self;
        let n = self.broadcast_pending.len();
        let mut i: usize = 0;
        while i < n
            invariant
                0 <= i <= n,
                pre == *old(self),
                *self == pre,
                n == pre.pending().len(),
                pre.wf(),
                forall|j: int| 0 <= j < i ==> pre.pending()[j] != id,
            decreases n - i,
        {
            if self.broadcast_pending[i] == id {
                self.broadcast_pending.remove(i);
                proof {
                    assert(pre.pending()[i as int] == id);
                    assert(pre.pending().contains(id));
                    assert(self.pending() == pre.pending().remove(i as int));
                    assert forall|p: int, q: int|
                        0 <= p < q < self.pending().len() implies self.pending()[p]
                        != self.pending()[q] by {
                        let p0 = if p < i as int {
                            p
                        } else {
                            p + 1
                        };
                        let q0 = if q < i as int {
                            q
                        } else {
                            q + 1
                        };
                        assert(self.pending()[p] == pre.pending()[p0]);
                        assert(self.pending()[q] == pre.pending()[q0]);
                    }
                    assert(!self.pending().contains(id)) by {
                        if self.pending().contains(id) {
                            let j = choose|j: int|
                                0 <= j < self.pending().len() && self.pending()[j] == id;
                            let j0 = if j < i as int {
                                j
                            } else {
                                j + 1
                            };
                            assert(pre.pending()[j0] == id);
                            assert(pre.pending()[i as int] == id);
                        }
                    }
                    assert((i as int) < old(self).pending().len() && old(self).pending()[i as int]
                        == id && self.pending() == old(self).pending().remove(i as int));
                }
                return true;
            }
            i = i + 1;
        }
        proof {
            if pre.pending().contains(id) {
                let j = choose|j: int| 0 <= j < pre.pending().len() && pre.pending()[j] == id;
                assert(pre.pending()[j] != id);
            }
        }
        false
    }

    /// Complete a pending fan-out: when the acknowledged request id is
    /// pending, drop it and report it so the waiting retry task can be
    /// released. An acknowledgment with no matching pending entry is a
    /// silent no-op.
    pub fn handle_broadcast_ok(&mut self, msg: Message<MessageBody>) -> (acked: Option<u32>)
        requires
            old(self).wf(),
        ensures
            final(self).wf(),
            final(self).initialized() == old(self).initialized(),
            final(self).spec_id() == old(self).spec_id(),
            final(self).spec_node_ids() == old(self).spec_node_ids(),
            final(self).generator() == old(self).generator(),
            final(self).saved() == old(self).saved(),
            final(self).counter_state() == old(self).counter_state(),
            final(self).kafka_state() == old(self).kafka_state(),
            match msg.body {
                MessageBody::BroadcastOk { in_reply_to } => {
                    if old(self).pending().contains(in_reply_to) {
                        &&& acked == Some(in_reply_to)
                        &&& exists|i: int|
                            0 <= i < old(self).pending().len() && old(self).pending()[i]
                                == in_reply_to && final(self).pending() == old(
                                self,
                            ).pending().remove(i)
                        &&& !final(self).pending().contains(in_reply_to)
                    } else {
                        &&& acked is None
                        &&& final(self).pending() == old(self).pending()
                    }
                },
                _ => acked is None && final(self).pending() == old(self).pending(),
            },
    {
        let in_reply_to: u32 = match &msg.body {
            MessageBody::BroadcastOk { in_reply_to } => *in_reply_to,
            _ => {
                return None;
            },
        };
        if self.remove_pending(in_reply_to) {
            Some(in_reply_to)
        } else {
            None
        }
    }

    /// Give up on a fan-out whose retry budget is spent: drop its pending
    /// entry, so the table holds only fan-outs still being retried. The
    /// caller logs the failure; no error reaches the original requester.
    pub fn handle_retry_exhausted(&mut self, id: u32) -> (removed: bool)
        requires
            old(self).wf(),
        ensures
            final(self).wf(),
            final(self).initialized() == old(self).initialized(),
            final(self).spec_id() == old(self).spec_id(),
            final(self).spec_node_ids() == old(self).spec_node_ids(),
            final(self).generator() == old(self).generator(),
            final(self).saved() == old(self).saved(),
            final(self).counter_state() == old(self).counter_state(),
            final(self).kafka_state() == old(self).kafka_state(),
            removed == old(self).pending().contains(id),
            if old(self).pending().contains(id) {
                &&& exists|i: int|
                    0 <= i < old(self).pending().len() && old(self).pending()[i] == id
                        && final(self).pending() == old(self).pending().remove(i)
                &&& !final(self).pending().contains(id)
            } else {
                final(self).pending() == old(self).pending()
            },
    {
        self.remove_pending(id)
    }

    /// Reply with the counter's externally visible value: the sum of all
    /// per-origin contributions heard so far.
    pub fn handle_read(&self, msg: Message<MessageBody>) -> (r: Message<MessageBody>)
        requires
            msg.body is Read,
            self.wf(),
        ensures
            msg.body matches MessageBody::Read { msg_id } ==> r == reply_to(
                msg,
                MessageBody::ReadOk {
                    in_reply_to: msg_id,
                    value: sum(self.counter_state()@) as u32,
                },
            ),
    {
        let value = self.counter.read();
        let Message { src, dest, body } = msg;
        match body {
            MessageBody::Read { msg_id } => Message {
                src: dest,
                dest: src,
                body: MessageBody::ReadOk { in_reply_to: msg_id, value },
            },
            _ => vstd::pervasive::unreached(),
        }
    }

    /// Apply a local increment to this node's own contribution (the envelope
    /// is addressed to this node, so its destination is the origin key) and
    /// acknowledge.
    pub fn handle_add(&mut self, msg: Message<MessageBody>) -> (r: Message<MessageBody>)
        requires
            msg.body is Add,
            old(self).wf(),
            msg.body matches MessageBody::Add { delta, .. } ==> merged_total(
                old(self).counter_state()@,
                msg.dest@,
                delta,
                false,
            ) <= u32::MAX,
        ensures
            final(self).wf(),
            final(self).initialized() == old(self).initialized(),
            final(self).spec_id() == old(self).spec_id(),
            final(self).spec_node_ids() == old(self).spec_node_ids(),
            final(self).generator() == old(self).generator(),
            final(self).saved() == old(self).saved(),
            final(self).pending() == old(self).pending(),
            final(self).kafka_state() == old(self).kafka_state(),
            msg.body matches MessageBody::Add { msg_id, delta } ==> {
                &&& r == reply_to(msg, MessageBody::AddOk { in_reply_to: msg_id })
                &&& lookup(final(self).counter_state()@, msg.dest@) == Some(
                    merged_value(
                        lookup(old(self).counter_state()@, msg.dest@),
                        delta,
                        false,
                    ) as u32,
                )
                &&& forall|k: Seq<char>|
                    k != msg.dest@ ==> lookup(final(self).counter_state()@, k) == #[trigger] lookup(
                        old(self).counter_state()@,
                        k,
                    )
                &&& sum(final(self).counter_state()@) == merged_total(
                    old(self).counter_state()@,
                    msg.dest@,
                    delta,
                    false,
                )
            },
    {
        let Message { src, dest, body } = msg;
        match body {
            MessageBody::Add { msg_id, delta } => {
                self.counter.add(&dest, delta, false);
                Message { src: dest, dest: src, body: MessageBody::AddOk { in_reply_to: msg_id } }
            },
            _ => vstd::pervasive::unreached(),
        }
    }

    /// Apply a peer's gossiped snapshot: overwrite that peer's contribution
    /// with the absolute value it sent. No reply is owed.
    pub fn handle_share_counter_state(&mut self, msg: Message<MessageBody>)
        requires
            msg.body is ShareCounterState,
            old(self).wf(),
            msg.body matches MessageBody::ShareCounterState { value } ==> merged_total(
                old(self).counter_state()@,
                msg.src@,
                value,
                true,
            ) <= u32::MAX,
        ensures
            final(self).wf(),
            final(self).initialized() == old(self).initialized(),
            final(self).spec_id() == old(self).spec_id(),
            final(self).spec_node_ids() == old(self).spec_node_ids(),
            final(self).generator() == old(self).generator(),
            final(self).saved() == old(self).saved(),
            final(self).pending() == old(self).pending(),
            final(self).kafka_state() == old(self).kafka_state(),
            msg.body matches MessageBody::ShareCounterState { value } ==> {
                &&& lookup(final(self).counter_state()@, msg.src@) == Some(
                    merged_value(lookup(old(self).counter_state()@, msg.src@), value, true) as u32,
                )
                &&& forall|k: Seq<char>|
                    k != msg.src@ ==> lookup(final(self).counter_state()@, k) == #[trigger] lookup(
                        old(self).counter_state()@,
                        k,
                    )
                &&& sum(final(self).counter_state()@) == merged_total(
                    old(self).counter_state()@,
                    msg.src@,
                    value,
                    true,
                )
            },
    {
        match &msg.body {
            MessageBody::ShareCounterState { value } => {
                self.counter.add(&msg.src, *value, true);
            },
            _ => vstd::pervasive::unreached(),
        }
    }

    /// Append the payload to the named log and reply with the offset it now
    /// occupies.
    pub fn handle_send(&mut self, msg: Message<MessageBody>) -> (r: Message<MessageBody>)
        requires
            msg.body is Send,
            old(self).wf(),
        ensures
            final(self).wf(),
            final(self).initialized() == old(self).initialized(),
            final(self).spec_id() == old(self).spec_id(),
            final(self).spec_node_ids() == old(self).spec_node_ids(),
            final(self).generator() == old(self).generator(),
            final(self).saved() == old(self).saved(),
            final(self).pending() == old(self).pending(),
            final(self).counter_state() == old(self).counter_state(),
            final(self).kafka_state().spec_commits() == old(self).kafka_state().spec_commits(),
            msg.body matches MessageBody::Send { msg_id, key, msg: payload } ==> {
                &&& r == reply_to(
                    msg,
                    MessageBody::SendOk {
                        in_reply_to: msg_id,
                        offset: (match lookup(old(self).kafka_state().spec_logs(), key@) {
                            Some(l) => l@.len(),
                            None => 0nat,
                        }) as usize,
                    },
                )
                &&& lookup(final(self).kafka_state().spec_logs(), key@) matches Some(l2)
                    && l2@ == (match lookup(old(self).kafka_state().spec_logs(), key@) {
                    Some(l) => l@,
                    None => Seq::<u32>::empty(),
                }).push(payload)
                &&& forall|k: Seq<char>|
                    k != key@ ==> lookup(final(self).kafka_state().spec_logs(), k)
                        == #[trigger] lookup(old(self).kafka_state().spec_logs(), k)
            },
    {
        let Message { src, dest, body } = msg;
        match body {
            MessageBody::Send { msg_id, key, msg: payload } => {
                let offset = self.kafka.write_log(key, payload);
                Message {
                    src: dest,
                    dest: src,
                    body: MessageBody::SendOk { in_reply_to: msg_id, offset },
                }
            },
            _ => vstd::pervasive::unreached(),
        }
    }

    /// Answer a poll: for each requested key that has a log, the entries at
    /// or after the requested offset, in offset order.
    pub fn handle_poll(&self, msg: Message<MessageBody>) -> (r: Message<MessageBody>)
        requires
            msg.body is Poll,
        ensures
            msg.body matches MessageBody::Poll { msg_id, offsets } ==> {
                &&& r.src == msg.dest
                &&& r.dest == msg.src
                &&& r.body matches MessageBody::PollOk { in_reply_to, msgs } && in_reply_to
                    == msg_id && matches_poll(
                    msgs@,
                    poll_model(self.kafka_state().spec_logs(), offsets@),
                )
            },
    {
        let Message { src, dest, body } = msg;
        match body {
            MessageBody::Poll { msg_id, offsets } => {
                let msgs = self.kafka.read_logs(offsets);
                Message {
                    src: dest,
                    dest: src,
                    body: MessageBody::PollOk { in_reply_to: msg_id, msgs },
                }
            },
            _ => vstd::pervasive::unreached(),
        }
    }

    /// Replace the requesting client's committed-offset table with the
    /// supplied mapping and acknowledge.
    pub fn handle_commit_offsets(&mut self, msg: Message<MessageBody>) -> (r: Message<MessageBody>)
        requires
            msg.body is CommitOffsets,
            old(self).wf(),
        ensures
            final(self).wf(),
            final(self).initialized() == old(self).initialized(),
            final(self).spec_id() == old(self).spec_id(),
            final(self).spec_node_ids() == old(self).spec_node_ids(),
            final(self).generator() == old(self).generator(),
            final(self).saved() == old(self).saved(),
            final(self).pending() == old(self).pending(),
            final(self).counter_state() == old(self).counter_state(),
            final(self).kafka_state().spec_logs() == old(self).kafka_state().spec_logs(),
            msg.body matches MessageBody::CommitOffsets { msg_id, offsets } ==> {
                &&& r == reply_to(msg, MessageBody::CommitOffsetsOk { in_reply_to: msg_id })
                &&& lookup(final(self).kafka_state().spec_commits(), msg.src@) matches Some(t)
                    && t@ == offsets@
                &&& forall|c: Seq<char>|
                    c != msg.src@ ==> lookup(final(self).kafka_state().spec_commits(), c)
                        == #[trigger] lookup(old(self).kafka_state().spec_commits(), c)
            },
    {
        let Message { src, dest, body } = msg;
        match body {
            MessageBody::CommitOffsets { msg_id, offsets } => {
                let reply = Message {
                    src: dest,
                    dest: src.clone(),
                    body: MessageBody::CommitOffsetsOk { in_reply_to: msg_id },
                };
                self.kafka.commit_offsets(src, offsets);
                reply
            },
            _ => vstd::pervasive::unreached(),
        }
    }

    /// Report the committed offset for each requested key the requesting
    /// client has previously committed; keys with no prior commit are
    /// omitted.
    pub fn handle_list_commited_offsets(&self, msg: Message<MessageBody>) -> (r: Message<
        MessageBody,
    >)
        requires
            msg.body is ListCommittedOffsets,
        ensures
            msg.body matches MessageBody::ListCommittedOffsets { msg_id, keys } ==> {
                &&& r.src == msg.dest
                &&& r.dest == msg.src
                &&& r.body matches MessageBody::ListCommittedOffsetsOk { in_reply_to, offsets }
                    && in_reply_to == msg_id && (match lookup(
                    self.kafka_state().spec_commits(),
                    msg.src@,
                ) {
                    None => offsets@.len() == 0,
                    Some(t) => matches_committed(offsets@, committed_model(t@, keys@)),
                })
            },
    {
        let Message { src, dest, body } = msg;
        match body {
            MessageBody::ListCommittedOffsets { msg_id, keys } => {
                let offsets = self.kafka.get_commited_offsets(&src, keys);
                Message {
                    src: dest,
                    dest: src,
                    body: MessageBody::ListCommittedOffsetsOk { in_reply_to: msg_id, offsets },
                }
            },
            _ => vstd::pervasive::unreached(),
        }
    }

    /// One anti-entropy tick: when the contribution map is empty, report so
    /// (the caller backs off and retries later); otherwise build one snapshot
    /// envelope per peer carrying this node's own contribution. The caller
    /// sends them best-effort, with no acknowledgment and no retry.
    pub fn share_counter_messages(&self) -> (r: Option<Vec<Message<MessageBody>>>)
        requires
            self.initialized(),
        ensures
            (r is None) <==> self.counter_state()@.len() == 0,
            r matches Some(msgs) ==> {
                let peers = peers_of(self.spec_node_ids(), self.spec_id());
                let cv = (match lookup(self.counter_state()@, self.spec_id()) {
                    Some(v) => v,
                    None => 0u32,
                });
                &&& msgs@.len() == peers.len()
                &&& forall|i: int|
                    0 <= i < msgs@.len() ==> {
                        &&& (#[trigger] msgs@[i]).src@ == self.spec_id()
                        &&& msgs@[i].dest@ == peers[i]@
                        &&& msgs@[i].body == (MessageBody::ShareCounterState { value: cv })
                    }
            },
    {
        if self.counter.is_empty() {
            return None;
        }
        let cur: String = match &self.id {
            Some(s) => s.clone(),
            None => vstd::pervasive::unreached(),
        };
        let value = self.counter.contribution(&cur);
        let ns: &Vec<String> = match &self.node_ids {
            Some(v) => v,
            None => vstd::pervasive::unreached(),
        };
        let ghost all = self.spec_node_ids();
        let ghost sid = self.spec_id();
        let n = ns.len();
        let mut msgs: Vec<Message<MessageBody>> = Vec::new();
        let mut i: usize = 0;
        while i < n
            invariant
                0 <= i <= n,
                n == all.len(),
                ns@ == all,
                cur@ == sid,
                value == (match lookup(self.counter_state()@, sid) {
                    Some(v) => v,
                    None => 0u32,
                }),
                sid == self.spec_id(),
                all == self.spec_node_ids(),
                msgs@.len() == peers_of(all.subrange(0, i as int), sid).len(),
                forall|j: int|
                    0 <= j < msgs@.len() ==> {
                        &&& (#[trigger] msgs@[j]).src@ == sid
                        &&& msgs@[j].dest@ == peers_of(all.subrange(0, i as int), sid)[j]@
                        &&& msgs@[j].body == (MessageBody::ShareCounterState { value })
                    },
            decreases n - i,
        {
            let ghost prefix = all.subrange(0, i as int);
            let ghost next = all.subrange(0, i + 1);
            let ghost before = msgs@;
            proof {
                assert(next.drop_last() =~= prefix);
                assert(next.last() == all[i as int]);
            }
            if ns[i] != cur {
                msgs.push(
                    Message {
                        src: cur.clone(),
                        dest: ns[i].clone(),
                        body: MessageBody::ShareCounterState { value },
                    },
                );
                proof {
                    assert(peers_of(next, sid) == peers_of(prefix, sid).push(all[i as int]));
                    assert forall|j: int| 0 <= j < msgs@.len() implies {
                        &&& (#[trigger] msgs@[j]).src@ == sid
                        &&& msgs@[j].dest@ == peers_of(next, sid)[j]@
                        &&& msgs@[j].body == (MessageBody::ShareCounterState { value })
                    } by {
                        if j < msgs@.len() - 1 {
                            assert(msgs@[j] == before[j]);
                            assert(peers_of(next, sid)[j] == peers_of(prefix, sid)[j]);
                        } else {
                            assert(peers_of(next, sid)[j] == all[i as int]);
                        }
                    }
                }
            } else {
                proof {
                    assert(peers_of(next, sid) == peers_of(prefix, sid));
                }
            }
            i = i + 1;
        }
        proof {
            assert(all.subrange(0, n as int) =~= all);
        }
        Some(msgs)
    }

    /// Whether the initialization handshake has happened.
    pub fn is_initialized(&self) -> (b: bool)
        ensures
            b == self.initialized(),
    {
        self.id.is_some() && self.node_ids.is_some() && self.id_generator.is_some()
    }

    /// How many peers this node fans out to.
    fn peer_count(&self) -> (c: usize)
        requires
            self.initialized(),
        ensures
            c == peers_of(self.spec_node_ids(), self.spec_id()).len(),
    {
        let cur: &String = match &self.id {
            Some(s) => s,
            None => vstd::pervasive::unreached(),
        };
        let ns: &Vec<String> = match &self.node_ids {
            Some(v) => v,
            None => vstd::pervasive::unreached(),
        };
        let ghost all = self.spec_node_ids();
        let ghost sid = self.spec_id();
        let n = ns.len();
        let mut c: usize = 0;
        let mut i: usize = 0;
        while i < n
            invariant
                0 <= i <= n,
                n == all.len(),
                ns@ == all,
                cur@ == sid,
                c <= i,
                c == peers_of(all.subrange(0, i as int), sid).len(),
            decreases n - i,
        {
            let ghost prefix = all.subrange(0, i as int);
            let ghost next = all.subrange(0, i + 1);
            proof {
                assert(next.drop_last() =~= prefix);
                assert(next.last() == all[i as int]);
            }
            if ns[i] != *cur {
                c = c + 1;
            }
            i = i + 1;
        }
        proof {
            assert(all.subrange(0, n as int) =~= all);
        }
        c
    }

    /// What each inbound body kind demands of the node before it can be
    /// handled: the kind is one the node handles at all, the identity is in
    /// place where a handler needs it, and the arithmetic the handler does
    /// stays within machine bounds.
    pub open spec fn spec_can_handle(self, msg: Message<MessageBody>) -> bool {
        match msg.body {
            MessageBody::Init { .. } => !self.initialized(),
            MessageBody::Echo { .. } => true,
            MessageBody::Topology { .. } => true,
            MessageBody::Generate { .. } => self.initialized()
                && self.generator().can_generate(),
            MessageBody::Broadcast { message, .. } => self.initialized() && (!self.saved().contains(
                message,
            ) ==> self.generator().can_generate_many(
                peers_of(self.spec_node_ids(), self.spec_id()).len() as int,
            )),
            MessageBody::BroadcastOk { .. } => true,
            MessageBody::Read { .. } => true,
            MessageBody::Add { delta, .. } => merged_total(
                self.counter_state()@,
                msg.dest@,
                delta,
                false,
            ) <= u32::MAX,
            MessageBody::ShareCounterState { value } => merged_total(
                self.counter_state()@,
                msg.src@,
                value,
                true,
            ) <= u32::MAX,
            MessageBody::Send { .. } => true,
            MessageBody::Poll { .. } => true,
            MessageBody::CommitOffsets { .. } => true,
            MessageBody::ListCommittedOffsets { .. } => true,
            _ => false,
        }
    }

    /// Whether this node may be handed the envelope. The surrounding process
    /// tests this before each call to [`Self::handle_message`]; a refusal
    /// marks the protocol violation or precondition failure the envelope
    /// would have caused.
    pub fn can_handle(&self, msg: &Message<MessageBody>) -> (b: bool)
        requires
            self.wf(),
        ensures
            b == self.spec_can_handle(*msg),
    {
        match &msg.body {
            MessageBody::Init { .. } => !self.is_initialized(),
            MessageBody::Echo { .. } => true,
            MessageBody::Topology { .. } => true,
            MessageBody::Generate { .. } => {
                if self.id.is_some() && self.node_ids.is_some() {
                    match &self.id_generator {
                        Some(g) => g.can_generate_many_ids(1),
                        None => false,
                    }
                } else {
                    false
                }
            },
            MessageBody::Broadcast { message, .. } => {
                if self.id.is_some() && self.node_ids.is_some() && self.id_generator.is_some() {
                    if contains_u32(&self.saved_messages, *message) {
                        true
                    } else {
                        let k = self.peer_count();
                        if k > u32::MAX as usize {
                            proof {
                                self.generator().lemma_counter_in_range();
                            }
                            false
                        } else {
                            match &self.id_generator {
                                Some(g) => g.can_generate_many_ids(k as u32),
                                None => vstd::pervasive::unreached(),
                            }
                        }
                    }
                } else {
                    false
                }
            },
            MessageBody::BroadcastOk { .. } => true,
            MessageBody::Read { .. } => true,
            MessageBody::Add { delta, .. } => self.counter.can_merge(&msg.dest, *delta, false),
            MessageBody::ShareCounterState { value } => self.counter.can_merge(
                &msg.src,
                *value,
                true,
            ),
            MessageBody::Send { .. } => true,
            MessageBody::Poll { .. } => true,
            MessageBody::CommitOffsets { .. } => true,
            MessageBody::ListCommittedOffsets { .. } => true,
            _ => false,
        }
    }
}

/// The message inside the one form the node exchanges.
pub open spec fn form_msg(f: MessageForm) -> Message<MessageBody> {
    match f {
        MessageForm::NodeMessage(m) => m,
    }
}

impl Node {
    /// Route one inbound envelope to exactly one handler and return what it
    /// asks the surrounding process to do. Reply kinds the node never
    /// receives are ruled out by [`Self::spec_can_handle`]; handing one in
    /// anyway is the contract violation the surrounding process reports.
    pub fn handle_message(&mut self, msg_form: MessageForm) -> (eff: Effects)
        requires
            old(self).wf(),
            old(self).spec_can_handle(form_msg(msg_form)),
        ensures
            final(self).wf(),
            // the seen set grows monotonically: no handler forgets a value
            forall|w: u32|
                old(self).saved().contains(w) ==> #[trigger] final(self).saved().contains(w),
            ({
                let msg = form_msg(msg_form);
                match msg.body {
                    MessageBody::Init { msg_id, node_id, node_ids } => {
                        &&& eff.sends@.len() == 1
                        &&& eff.sends@[0] == reply_to(
                            msg,
                            MessageBody::InitOk { in_reply_to: msg_id },
                        )
                        &&& eff.retries@.len() == 0
                        &&& eff.acked is None
                        &&& final(self).initialized()
                        &&& final(self).spec_id() == node_id@
                        &&& final(self).spec_node_ids() == node_ids@
                        &&& final(self).generator().counter() == 0
                        &&& final(self).generator().node_id() == node_id@
                        &&& final(self).saved() == old(self).saved()
                        &&& final(self).pending() == old(self).pending()
                        &&& final(self).counter_state() == old(self).counter_state()
                        &&& final(self).kafka_state() == old(self).kafka_state()
                    },
                    MessageBody::Echo { msg_id, echo } => {
                        &&& eff.sends@.len() == 1
                        &&& eff.sends@[0] == reply_to(
                            msg,
                            MessageBody::EchoOk { msg_id, in_reply_to: msg_id, echo },
                        )
                        &&& eff.retries@.len() == 0
                        &&& eff.acked is None
                        &&& *final(self) == *old(self)
                    },
                    MessageBody::Generate { msg_id } => {
                        &&& eff.sends@.len() == 1
                        &&& eff.sends@[0] == reply_to(
                            msg,
                            MessageBody::GenerateOk {
                                msg_id,
                                in_reply_to: msg_id,
                                id: unique_id(
                                    old(self).generator().counter(),
                                    old(self).generator().node_id(),
                                ) as u32,
                            },
                        )
                        &&& eff.retries@.len() == 0
                        &&& eff.acked is None
                        &&& final(self).initialized()
                        &&& final(self).spec_id() == old(self).spec_id()
                        &&& final(self).spec_node_ids() == old(self).spec_node_ids()
                        &&& final(self).generator().counter() == old(self).generator().counter()
                            + 1
                        &&& final(self).generator().node_id() == old(self).generator().node_id()
                        &&& final(self).saved() == old(self).saved()
                        &&& final(self).pending() == old(self).pending()
                        &&& final(self).counter_state() == old(self).counter_state()
                        &&& final(self).kafka_state() == old(self).kafka_state()
                    },
                    MessageBody::Topology { msg_id, .. } => {
                        &&& eff.sends@.len() == 1
                        &&& eff.sends@[0] == reply_to(
                            msg,
                            MessageBody::TopologyOk { in_reply_to: msg_id },
                        )
                        &&& eff.retries@.len() == 0
                        &&& eff.acked is None
                        &&& *final(self) == *old(self)
                    },
                    MessageBody::Broadcast { msg_id, message } => {
                        &&& eff.sends@.len() == 1
                        &&& eff.sends@[0] == reply_to(
                            msg,
                            MessageBody::BroadcastOk { in_reply_to: msg_id },
                        )
                        &&& eff.acked is None
                        &&& final(self).saved().contains(message)
                        &&& forall|v: u32|
                            #[trigger] final(self).saved().contains(v) <==> (old(
                                self,
                            ).saved().contains(v) || v == message)
                        &&& (old(self).saved().contains(message) ==> {
                            &&& eff.retries@.len() == 0
                            &&& final(self).saved() == old(self).saved()
                            &&& final(self).pending() == old(self).pending()
                            &&& final(self).generator() == old(self).generator()
                        })
                        &&& (!old(self).saved().contains(message) ==> {
                            &&& final(self).saved() == old(self).saved().push(message)
                            &&& fanout_ok(*old(self), message, eff.retries@)
                            &&& pending_after_fanout(
                                *old(self),
                                *final(self),
                                peers_of(
                                    old(self).spec_node_ids(),
                                    old(self).spec_id(),
                                ).len() as int,
                            )
                            &&& final(self).generator().counter() == old(
                                self,
                            ).generator().counter() + peers_of(
                                old(self).spec_node_ids(),
                                old(self).spec_id(),
                            ).len()
                        })
                        &&& final(self).initialized()
                        &&& final(self).spec_id() == old(self).spec_id()
                        &&& final(self).spec_node_ids() == old(self).spec_node_ids()
                        &&& final(self).generator().node_id() == old(self).generator().node_id()
                        &&& final(self).counter_state() == old(self).counter_state()
                        &&& final(self).kafka_state() == old(self).kafka_state()
                    },
                    MessageBody::BroadcastOk { in_reply_to } => {
                        &&& eff.sends@.len() == 0
                        &&& eff.retries@.len() == 0
                        &&& (if old(self).pending().contains(in_reply_to) {
                            &&& eff.acked == Some(in_reply_to)
                            &&& exists|i: int|
                                0 <= i < old(self).pending().len() && old(self).pending()[i]
                                    == in_reply_to && final(self).pending() == old(
                                    self,
                                ).pending().remove(i)
                            &&& !final(self).pending().contains(in_reply_to)
                        } else {
                            &&& eff.acked is None
                            &&& final(self).pending() == old(self).pending()
                        })
                        &&& final(self).initialized() == old(self).initialized()
                        &&& final(self).spec_id() == old(self).spec_id()
                        &&& final(self).spec_node_ids() == old(self).spec_node_ids()
                        &&& final(self).generator() == old(self).generator()
                        &&& final(self).saved() == old(self).saved()
                        &&& final(self).counter_state() == old(self).counter_state()
                        &&& final(self).kafka_state() == old(self).kafka_state()
                    },
                    MessageBody::Read { msg_id } => {
                        &&& eff.sends@.len() == 1
                        &&& eff.sends@[0] == reply_to(
                            msg,
                            MessageBody::ReadOk {
                                in_reply_to: msg_id,
                                value: sum(old(self).counter_state()@) as u32,
                            },
                        )
                        &&& eff.retries@.len() == 0
                        &&& eff.acked is None
                        &&& *final(self) == *old(self)
                    },
                    MessageBody::Add { msg_id, delta } => {
                        &&& eff.sends@.len() == 1
                        &&& eff.sends@[0] == reply_to(
                            msg,
                            MessageBody::AddOk { in_reply_to: msg_id },
                        )
                        &&& eff.retries@.len() == 0
                        &&& eff.acked is None
                        &&& lookup(final(self).counter_state()@, msg.dest@) == Some(
                            merged_value(
                                lookup(old(self).counter_state()@, msg.dest@),
                                delta,
                                false,
                            ) as u32,
                        )
                        &&& forall|k: Seq<char>|
                            k != msg.dest@ ==> lookup(final(self).counter_state()@, k)
                                == #[trigger] lookup(old(self).counter_state()@, k)
                        &&& sum(final(self).counter_state()@) == merged_total(
                            old(self).counter_state()@,
                            msg.dest@,
                            delta,
                            false,
                        )
                        &&& final(self).initialized() == old(self).initialized()
                        &&& final(self).spec_id() == old(self).spec_id()
                        &&& final(self).spec_node_ids() == old(self).spec_node_ids()
                        &&& final(self).generator() == old(self).generator()
                        &&& final(self).saved() == old(self).saved()
                        &&& final(self).pending() == old(self).pending()
                        &&& final(self).kafka_state() == old(self).kafka_state()
                    },
                    MessageBody::ShareCounterState { value } => {
                        &&& eff.sends@.len() == 0
                        &&& eff.retries@.len() == 0
                        &&& eff.acked is None
                        &&& lookup(final(self).counter_state()@, msg.src@) == Some(
                            merged_value(
                                lookup(old(self).counter_state()@, msg.src@),
                                value,
                                true,
                            ) as u32,
                        )
                        &&& forall|k: Seq<char>|
                            k != msg.src@ ==> lookup(final(self).counter_state()@, k)
                                == #[trigger] lookup(old(self).counter_state()@, k)
                        &&& sum(final(self).counter_state()@) == merged_total(
                            old(self).counter_state()@,
                            msg.src@,
                            value,
                            true,
                        )
                        &&& final(self).initialized() == old(self).initialized()
                        &&& final(self).spec_id() == old(self).spec_id()
                        &&& final(self).spec_node_ids() == old(self).spec_node_ids()
                        &&& final(self).generator() == old(self).generator()
                        &&& final(self).saved() == old(self).saved()
                        &&& final(self).pending() == old(self).pending()
                        &&& final(self).kafka_state() == old(self).kafka_state()
                    },
                    MessageBody::Send { msg_id, key, msg: payload } => {
                        &&& eff.sends@.len() == 1
                        &&& eff.sends@[0] == reply_to(
                            msg,
                            MessageBody::SendOk {
                                in_reply_to: msg_id,
                                offset: (match lookup(
                                    old(self).kafka_state().spec_logs(),
                                    key@,
                                ) {
                                    Some(l) => l@.len(),
                                    None => 0nat,
                                }) as usize,
                            },
                        )
                        &&& eff.retries@.len() == 0
                        &&& eff.acked is None
                        &&& lookup(final(self).kafka_state().spec_logs(), key@) matches Some(l2)
                            && l2@ == (match lookup(old(self).kafka_state().spec_logs(), key@) {
                            Some(l) => l@,
                            None => Seq::<u32>::empty(),
                        }).push(payload)
                        &&& forall|k: Seq<char>|
                            k != key@ ==> lookup(final(self).kafka_state().spec_logs(), k)
                                == #[trigger] lookup(old(self).kafka_state().spec_logs(), k)
                        &&& final(self).kafka_state().spec_commits() == old(
                            self,
                        ).kafka_state().spec_commits()
                        &&& final(self).initialized() == old(self).initialized()
                        &&& final(self).spec_id() == old(self).spec_id()
                        &&& final(self).spec_node_ids() == old(self).spec_node_ids()
                        &&& final(self).generator() == old(self).generator()
                        &&& final(self).saved() == old(self).saved()
                        &&& final(self).pending() == old(self).pending()
                        &&& final(self).counter_state() == old(self).counter_state()
                    },
                    MessageBody::Poll { msg_id, offsets } => {
                        &&& eff.sends@.len() == 1
                        &&& eff.sends@[0].src == msg.dest
                        &&& eff.sends@[0].dest == msg.src
                        &&& eff.sends@[0].body matches MessageBody::PollOk { in_reply_to, msgs }
                            && in_reply_to == msg_id && matches_poll(
                            msgs@,
                            poll_model(old(self).kafka_state().spec_logs(), offsets@),
                        )
                        &&& eff.retries@.len() == 0
                        &&& eff.acked is None
                        &&& *final(self) == *old(self)
                    },
                    MessageBody::CommitOffsets { msg_id, offsets } => {
                        &&& eff.sends@.len() == 1
                        &&& eff.sends@[0] == reply_to(
                            msg,
                            MessageBody::CommitOffsetsOk { in_reply_to: msg_id },
                        )
                        &&& eff.retries@.len() == 0
                        &&& eff.acked is None
                        &&& lookup(final(self).kafka_state().spec_commits(), msg.src@)
                            matches Some(t) && t@ == offsets@
                        &&& forall|c: Seq<char>|
                            c != msg.src@ ==> lookup(final(self).kafka_state().spec_commits(), c)
                                == #[trigger] lookup(old(self).kafka_state().spec_commits(), c)
                        &&& final(self).kafka_state().spec_logs() == old(
                            self,
                        ).kafka_state().spec_logs()
                        &&& final(self).initialized() == old(self).initialized()
                        &&& final(self).spec_id() == old(self).spec_id()
                        &&& final(self).spec_node_ids() == old(self).spec_node_ids()
                        &&& final(self).generator() == old(self).generator()
                        &&& final(self).saved() == old(self).saved()
                        &&& final(self).pending() == old(self).pending()
                        &&& final(self).counter_state() == old(self).counter_state()
                    },
                    MessageBody::ListCommittedOffsets { msg_id, keys } => {
                        &&& eff.sends@.len() == 1
                        &&& eff.sends@[0].src == msg.dest
                        &&& eff.sends@[0].dest == msg.src
                        &&& eff.sends@[0].body matches MessageBody::ListCommittedOffsetsOk {
                            in_reply_to,
                            offsets,
                        } && in_reply_to == msg_id && (match lookup(
                            old(self).kafka_state().spec_commits(),
                            msg.src@,
                        ) {
                            None => offsets@.len() == 0,
                            Some(t) => matches_committed(offsets@, committed_model(t@, keys@)),
                        })
                        &&& eff.retries@.len() == 0
                        &&& eff.acked is None
                        &&& *final(self) == *old(self)
                    },
                    _ => false,
                }
            }),
    {
        let MessageForm::NodeMessage(msg) = msg_form;
        match &msg.body {
            MessageBody::Init { .. } => {
                let r = self.handle_init(msg);
                Effects { sends: vec_one(r), retries: Vec::new(), acked: None }
            },
            MessageBody::Echo { .. } => {
                let r = self.handle_echo(msg);
                Effects { sends: vec_one(r), retries: Vec::new(), acked: None }
            },
            MessageBody::Generate { .. } => {
                let r = self.handle_generate(msg);
                Effects { sends: vec_one(r), retries: Vec::new(), acked: None }
            },
            MessageBody::Topology { .. } => {
                let r = self.handle_topology(msg);
                Effects { sends: vec_one(r), retries: Vec::new(), acked: None }
            },
            MessageBody::Broadcast { .. } => {
                let (reply, fanout) = self.handle_broadcast(msg);
                Effects { sends: vec_one(reply), retries: fanout, acked: None }
            },
            MessageBody::BroadcastOk { .. } => {
                let acked = self.handle_broadcast_ok(msg);
                Effects { sends: Vec::new(), retries: Vec::new(), acked }
            },
            MessageBody::Read { .. } => {
                let r = self.handle_read(msg);
                Effects { sends: vec_one(r), retries: Vec::new(), acked: None }
            },
            MessageBody::Add { .. } => {
                let r = self.handle_add(msg);
                Effects { sends: vec_one(r), retries: Vec::new(), acked: None }
            },
            MessageBody::ShareCounterState { .. } => {
                self.handle_share_counter_state(msg);
                Effects { sends: Vec::new(), retries: Vec::new(), acked: None }
            },
            MessageBody::Send { .. } => {
                let r = self.handle_send(msg);
                Effects { sends: vec_one(r), retries: Vec::new(), acked: None }
            },
            MessageBody::Poll { .. } => {
                let r = self.handle_poll(msg);
                Effects { sends: vec_one(r), retries: Vec::new(), acked: None }
            },
            MessageBody::CommitOffsets { .. } => {
                let r = self.handle_commit_offsets(msg);
                Effects { sends: vec_one(r), retries: Vec::new(), acked: None }
            },
            MessageBody::ListCommittedOffsets { .. } => {
                let r = self.handle_list_commited_offsets(msg);
                Effects { sends: vec_one(r), retries: Vec::new(), acked: None }
            },
            _ => vstd::pervasive::unreached(),
        }
    }
}

/// A single envelope as a send list.
fn vec_one(m: Message<MessageBody>) -> (v: Vec<Message<MessageBody>>)
    ensures
        v@.len() == 1,
        v@[0] == m,
{
    let mut v: Vec<Message<MessageBody>> = Vec::new();
    v.push(m);
    v
}

/// Whether x occurs in v.
fn contains_u32(v: &Vec<u32>, x: u32) -> (b: bool)
    ensures
        b == v@.contains(x),
{
    let n = v.len();
    let mut i: usize = 0;
    while i < n
        invariant
            0 <= i <= n,
            n == v@.len(),
            forall|j: int| 0 <= j < i ==> v@[j] != x,
        decreases n - i,
    {
        if v[i] == x {
            return true;
        }
        i = i + 1;
    }
    proof {
        if v@.contains(x) {
            let j = choose|j: int| 0 <= j < v@.len() && v@[j] == x;
            assert(v@[j] != x);
        }
    }
    false
}

} // verus!
