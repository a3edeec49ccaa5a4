//! The protocol's envelope and body model.
//!
//! An envelope carries a source, a destination and one body out of a closed
//! set of request and reply kinds. Every reply variant's `in_reply_to` equals
//! the `msg_id` of the request it answers; the handlers in [`crate::node`]
//! state that correlation in their contracts.
//!
//! On the wire these travel as line-delimited JSON objects; that encoding and
//! decoding is the transport's business, outside this library. Mappings such
//! as the poll offsets travel as JSON objects and are held here as key/value
//! pair lists.

use vstd::prelude::*;

verus! {

/// An addressed container for one protocol message. Immutable value,
/// constructed fresh per send.
#[derive(Debug, Clone)]
pub struct Message<Body> {
    pub src: String,
    pub dest: String,
    pub body: Body,
}

/// The closed set of message bodies. Requests carry `msg_id`; replies carry
/// `in_reply_to` equal to the request id they answer.
#[derive(Debug, Clone)]
pub enum MessageBody {
    Echo { msg_id: u32, echo: String },
    Init { msg_id: u32, node_id: String, node_ids: Vec<String> },
    InitOk { in_reply_to: u32 },
    EchoOk { msg_id: u32, in_reply_to: u32, echo: String },
    Generate { msg_id: u32 },
    GenerateOk { msg_id: u32, id: u32, in_reply_to: u32 },
    Broadcast { msg_id: u32, message: u32 },
    BroadcastOk { in_reply_to: u32 },
    Topology { msg_id: u32, topology: Vec<(String, Vec<String>)> },
    TopologyOk { in_reply_to: u32 },
    Add { msg_id: u32, delta: u32 },
    AddOk { in_reply_to: u32 },
    Read { msg_id: u32 },
    ReadOk { in_reply_to: u32, value: u32 },
    ShareCounterState { value: u32 },
    Send { msg_id: u32, key: String, msg: u32 },
    SendOk { in_reply_to: u32, offset: usize },
    Poll { msg_id: u32, offsets: Vec<(String, usize)> },
    PollOk { in_reply_to: u32, msgs: Vec<(String, Vec<(usize, u32)>)> },
    CommitOffsets { msg_id: u32, offsets: Vec<(String, usize)> },
    CommitOffsetsOk { in_reply_to: u32 },
    ListCommittedOffsets { msg_id: u32, keys: Vec<String> },
    ListCommittedOffsetsOk { in_reply_to: u32, offsets: Vec<(String, usize)> },
}

/// The wire type tag of a body.
pub open spec fn type_tag(b: MessageBody) -> Seq<char> {
    match b {
        MessageBody::Echo { .. } => "echo"@,
        MessageBody::Init { .. } => "init"@,
        MessageBody::InitOk { .. } => "init_ok"@,
        MessageBody::EchoOk { .. } => "echo_ok"@,
        MessageBody::Generate { .. } => "generate"@,
        MessageBody::GenerateOk { .. } => "generate_ok"@,
        MessageBody::Broadcast { .. } => "broadcast"@,
        MessageBody::BroadcastOk { .. } => "broadcast_ok"@,
        MessageBody::Topology { .. } => "topology"@,
        MessageBody::TopologyOk { .. } => "topology_ok"@,
        MessageBody::Add { .. } => "add"@,
        MessageBody::AddOk { .. } => "add_ok"@,
        MessageBody::Read { .. } => "read"@,
        MessageBody::ReadOk { .. } => "read_ok"@,
        MessageBody::ShareCounterState { .. } => "share_counter_state"@,
        MessageBody::Send { .. } => "send"@,
        MessageBody::SendOk { .. } => "send_ok"@,
        MessageBody::Poll { .. } => "poll"@,
        MessageBody::PollOk { .. } => "poll_ok"@,
        MessageBody::CommitOffsets { .. } => "commit_offsets"@,
        MessageBody::CommitOffsetsOk { .. } => "commit_offsets_ok"@,
        MessageBody::ListCommittedOffsets { .. } => "list_committed_offsets"@,
        MessageBody::ListCommittedOffsetsOk { .. } => "list_committed_offsets_ok"@,
    }
}

/// The request id a body carries: every request kind has one, and so does
/// the echo reply; the other replies and the gossip snapshot carry none.
pub open spec fn spec_msg_id(b: MessageBody) -> Option<u32> {
    match b {
        MessageBody::Echo { msg_id, .. } => Some(msg_id),
        MessageBody::Init { msg_id, .. } => Some(msg_id),
        MessageBody::EchoOk { msg_id, .. } => Some(msg_id),
        MessageBody::Broadcast { msg_id, .. } => Some(msg_id),
        MessageBody::Generate { msg_id, .. } => Some(msg_id),
        MessageBody::Read { msg_id, .. } => Some(msg_id),
        MessageBody::Topology { msg_id, .. } => Some(msg_id),
        MessageBody::Add { msg_id, .. } => Some(msg_id),
        MessageBody::Send { msg_id, .. } => Some(msg_id),
        MessageBody::Poll { msg_id, .. } => Some(msg_id),
        MessageBody::CommitOffsets { msg_id, .. } => Some(msg_id),
        MessageBody::ListCommittedOffsets { msg_id, .. } => Some(msg_id),
        _ => None,
    }
}

impl Message<MessageBody> {
    /// The wire type tag of this message's body.
    pub fn typ(&self) -> (r: String)
        ensures
            r@ == type_tag(self.body),
    {
        match &self.body {
            MessageBody::Echo { .. } => "echo".to_owned(),
            MessageBody::Init { .. } => "init".to_owned(),
            MessageBody::InitOk { .. } => "init_ok".to_owned(),
            MessageBody::EchoOk { .. } => "echo_ok".to_owned(),
            MessageBody::Generate { .. } => "generate".to_owned(),
            MessageBody::GenerateOk { .. } => "generate_ok".to_owned(),
            MessageBody::Broadcast { .. } => "broadcast".to_owned(),
            MessageBody::BroadcastOk { .. } => "broadcast_ok".to_owned(),
            MessageBody::Topology { .. } => "topology".to_owned(),
            MessageBody::TopologyOk { .. } => "topology_ok".to_owned(),
            MessageBody::Add { .. } => "add".to_owned(),
            MessageBody::AddOk { .. } => "add_ok".to_owned(),
            MessageBody::Read { .. } => "read".to_owned(),
            MessageBody::ReadOk { .. } => "read_ok".to_owned(),
            MessageBody::ShareCounterState { .. } => "share_counter_state".to_owned(),
            MessageBody::Send { .. } => "send".to_owned(),
            MessageBody::SendOk { .. } => "send_ok".to_owned(),
            MessageBody::Poll { .. } => "poll".to_owned(),
            MessageBody::PollOk { .. } => "poll_ok".to_owned(),
            MessageBody::CommitOffsets { .. } => "commit_offsets".to_owned(),
            MessageBody::CommitOffsetsOk { .. } => "commit_offsets_ok".to_owned(),
            MessageBody::ListCommittedOffsets { .. } => "list_committed_offsets".to_owned(),
            MessageBody::ListCommittedOffsetsOk { .. } => "list_committed_offsets_ok".to_owned(),
        }
    }

    /// The request id this message carries, for the kinds that have one.
    pub fn msg_id(&self) -> (r: Option<u32>)
        ensures
            r == spec_msg_id(self.body),
    {
        match &self.body {
            MessageBody::Echo { msg_id, .. } => Some(*msg_id),
            MessageBody::Init { msg_id, .. } => Some(*msg_id),
            MessageBody::EchoOk { msg_id, .. } => Some(*msg_id),
            MessageBody::Broadcast { msg_id, .. } => Some(*msg_id),
            MessageBody::Generate { msg_id, .. } => Some(*msg_id),
            MessageBody::Read { msg_id, .. } => Some(*msg_id),
            MessageBody::Topology { msg_id, .. } => Some(*msg_id),
            MessageBody::Add { msg_id, .. } => Some(*msg_id),
            MessageBody::Send { msg_id, .. } => Some(*msg_id),
            MessageBody::Poll { msg_id, .. } => Some(*msg_id),
            MessageBody::CommitOffsets { msg_id, .. } => Some(*msg_id),
            MessageBody::ListCommittedOffsets { msg_id, .. } => Some(*msg_id),
            _ => None,
        }
    }

    /// The echo payload, when this is an echo request.
    pub fn echo(&self) -> (r: Option<&String>)
        ensures
            match self.body {
                MessageBody::Echo { echo, .. } => r matches Some(e) && *e == echo,
                _ => r is None,
            },
    {
        match &self.body {
            MessageBody::Echo { echo, .. } => Some(echo),
            _ => None,
        }
    }

    /// The node identity an init request assigns.
    pub fn node_id(&self) -> (r: Option<String>)
        ensures
            match self.body {
                MessageBody::Init { node_id, .. } => r matches Some(n) && n@ == node_id@,
                _ => r is None,
            },
    {
        match &self.body {
            MessageBody::Init { node_id, .. } => Some(node_id.clone()),
            _ => None,
        }
    }

    /// The full peer list an init request assigns.
    pub fn node_ids(&self) -> (r: Option<Vec<String>>)
        ensures
            match self.body {
                MessageBody::Init { node_ids, .. } => {
                    &&& r matches Some(ns)
                    &&& ns@.len() == node_ids@.len()
                    &&& forall|i: int| 0 <= i < ns@.len() ==> #[trigger] ns@[i]@ == node_ids@[i]@
                },
                _ => r is None,
            },
    {
        match &self.body {
            MessageBody::Init { node_ids, .. } => {
                let mut ns: Vec<String> = Vec::new();
                let n = node_ids.len();
                let mut i: usize = 0;
                while i < n
                    invariant
                        i <= n,
                        n == node_ids@.len(),
                        ns@.len() == i,
                        forall|k: int| 0 <= k < i ==> #[trigger] ns@[k]@ == node_ids@[k]@,
                    decreases n - i,
                {
                    ns.push(node_ids[i].clone());
                    i = i + 1;
                }
                Some(ns)
            },
            _ => None,
        }
    }
}

/// The one shape of message the node exchanges with its surroundings.
pub enum MessageForm {
    NodeMessage(Message<MessageBody>),
}

} // verus!
