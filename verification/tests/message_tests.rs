use gossip_node::{Message, MessageBody};

fn envelope(body: MessageBody) -> Message<MessageBody> {
    Message { src: String::from("a"), dest: String::from("b"), body }
}

#[test]
fn type_tags_match_wire_names() {
    assert_eq!(envelope(MessageBody::Echo { msg_id: 1, echo: String::from("x") }).typ(), "echo");
    assert_eq!(
        envelope(MessageBody::Init {
            msg_id: 1,
            node_id: String::from("n1"),
            node_ids: vec![String::from("n1")],
        })
        .typ(),
        "init"
    );
    assert_eq!(envelope(MessageBody::Broadcast { msg_id: 1, message: 2 }).typ(), "broadcast");
    assert_eq!(envelope(MessageBody::BroadcastOk { in_reply_to: 1 }).typ(), "broadcast_ok");
    assert_eq!(
        envelope(MessageBody::ShareCounterState { value: 1 }).typ(),
        "share_counter_state"
    );
    assert_eq!(
        envelope(MessageBody::Send { msg_id: 1, key: String::from("k"), msg: 2 }).typ(),
        "send"
    );
    assert_eq!(
        envelope(MessageBody::ListCommittedOffsets { msg_id: 1, keys: vec![] }).typ(),
        "list_committed_offsets"
    );
}

#[test]
fn msg_id_is_exposed_for_every_request_kind() {
    assert_eq!(
        envelope(MessageBody::Echo { msg_id: 7, echo: String::from("x") }).msg_id(),
        Some(7)
    );
    assert_eq!(envelope(MessageBody::Read { msg_id: 9 }).msg_id(), Some(9));
    assert_eq!(envelope(MessageBody::Broadcast { msg_id: 3, message: 1 }).msg_id(), Some(3));
    assert_eq!(envelope(MessageBody::Add { msg_id: 4, delta: 1 }).msg_id(), Some(4));
    assert_eq!(
        envelope(MessageBody::Send { msg_id: 5, key: String::from("k"), msg: 1 }).msg_id(),
        Some(5)
    );
    assert_eq!(envelope(MessageBody::Poll { msg_id: 6, offsets: vec![] }).msg_id(), Some(6));
    assert_eq!(
        envelope(MessageBody::CommitOffsets { msg_id: 8, offsets: vec![] }).msg_id(),
        Some(8)
    );
    assert_eq!(
        envelope(MessageBody::ListCommittedOffsets { msg_id: 10, keys: vec![] }).msg_id(),
        Some(10)
    );
    assert_eq!(envelope(MessageBody::AddOk { in_reply_to: 7 }).msg_id(), None);
    assert_eq!(envelope(MessageBody::ShareCounterState { value: 1 }).msg_id(), None);
}

#[test]
fn init_accessors_expose_identity_and_membership() {
    let m = envelope(MessageBody::Init {
        msg_id: 1,
        node_id: String::from("n3"),
        node_ids: vec![String::from("n1"), String::from("n3")],
    });
    assert_eq!(m.node_id(), Some(String::from("n3")));
    assert_eq!(m.node_ids(), Some(vec![String::from("n1"), String::from("n3")]));
    assert_eq!(m.echo(), None);
    let e = envelope(MessageBody::Echo { msg_id: 1, echo: String::from("payload") });
    assert_eq!(e.echo(), Some(&String::from("payload")));
    assert_eq!(e.node_id(), None);
    assert_eq!(e.node_ids(), None);
}
