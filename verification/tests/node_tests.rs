use gossip_node::{Message, MessageBody, MessageForm, Node};

fn request(body: MessageBody) -> Message<MessageBody> {
    Message { src: String::from("c1"), dest: String::from("n1"), body }
}

fn init_node_ab() -> Node {
    let mut node = Node::new();
    let init = request(MessageBody::Init {
        msg_id: 0,
        node_id: String::from("n1"),
        node_ids: vec![String::from("n1"), String::from("n2")],
    });
    assert!(node.can_handle(&init));
    let eff = node.handle_message(MessageForm::NodeMessage(init));
    assert_eq!(eff.sends.len(), 1);
    assert!(matches!(eff.sends[0].body, MessageBody::InitOk { in_reply_to: 0 }));
    node
}

#[test]
fn broadcast_is_acked_and_fanned_out() {
    let mut node = init_node_ab();
    let b = request(MessageBody::Broadcast { msg_id: 1, message: 42 });
    assert!(node.can_handle(&b));
    let eff = node.handle_message(MessageForm::NodeMessage(b));
    assert_eq!(eff.sends.len(), 1);
    let ack = &eff.sends[0];
    assert_eq!(ack.src, "n1");
    assert_eq!(ack.dest, "c1");
    assert!(matches!(ack.body, MessageBody::BroadcastOk { in_reply_to: 1 }));
    assert_eq!(eff.retries.len(), 1);
    let fan = &eff.retries[0];
    assert_eq!(fan.src, "n1");
    assert_eq!(fan.dest, "n2");
    assert!(matches!(fan.body, MessageBody::Broadcast { message: 42, .. }));
}

#[test]
fn duplicate_broadcast_is_acked_without_second_fanout() {
    let mut node = init_node_ab();
    let eff1 = node.handle_message(MessageForm::NodeMessage(request(MessageBody::Broadcast {
        msg_id: 1,
        message: 7,
    })));
    assert_eq!(eff1.retries.len(), 1);
    let eff2 = node.handle_message(MessageForm::NodeMessage(request(MessageBody::Broadcast {
        msg_id: 2,
        message: 7,
    })));
    assert_eq!(eff2.sends.len(), 1);
    assert!(matches!(eff2.sends[0].body, MessageBody::BroadcastOk { in_reply_to: 2 }));
    assert!(eff2.retries.is_empty());
}

#[test]
fn broadcast_ok_releases_pending_entry_once() {
    let mut node = init_node_ab();
    let eff = node.handle_message(MessageForm::NodeMessage(request(MessageBody::Broadcast {
        msg_id: 1,
        message: 9,
    })));
    let fan_id = match eff.retries[0].body {
        MessageBody::Broadcast { msg_id, .. } => msg_id,
        _ => panic!("expected a broadcast fan-out"),
    };
    let ok = Message {
        src: String::from("n2"),
        dest: String::from("n1"),
        body: MessageBody::BroadcastOk { in_reply_to: fan_id },
    };
    let eff2 = node.handle_message(MessageForm::NodeMessage(ok));
    assert_eq!(eff2.acked, Some(fan_id));
    assert!(eff2.sends.is_empty() && eff2.retries.is_empty());
    let ok_again = Message {
        src: String::from("n2"),
        dest: String::from("n1"),
        body: MessageBody::BroadcastOk { in_reply_to: fan_id },
    };
    let eff3 = node.handle_message(MessageForm::NodeMessage(ok_again));
    assert_eq!(eff3.acked, None);
}

#[test]
fn two_adds_then_read_returns_the_sum() {
    let mut node = init_node_ab();
    for (id, delta) in [(1u32, 5u32), (2, 3)] {
        let add = request(MessageBody::Add { msg_id: id, delta });
        assert!(node.can_handle(&add));
        let eff = node.handle_message(MessageForm::NodeMessage(add));
        assert!(matches!(eff.sends[0].body, MessageBody::AddOk { .. }));
    }
    let eff = node.handle_message(MessageForm::NodeMessage(request(MessageBody::Read {
        msg_id: 3,
    })));
    assert!(matches!(eff.sends[0].body, MessageBody::ReadOk { in_reply_to: 3, value: 8 }));
}

#[test]
fn send_then_poll_round_trip() {
    let mut node = init_node_ab();
    let e1 = node.handle_message(MessageForm::NodeMessage(request(MessageBody::Send {
        msg_id: 1,
        key: String::from("k1"),
        msg: 10,
    })));
    assert!(matches!(e1.sends[0].body, MessageBody::SendOk { in_reply_to: 1, offset: 0 }));
    let e2 = node.handle_message(MessageForm::NodeMessage(request(MessageBody::Send {
        msg_id: 2,
        key: String::from("k1"),
        msg: 20,
    })));
    assert!(matches!(e2.sends[0].body, MessageBody::SendOk { in_reply_to: 2, offset: 1 }));
    let e3 = node.handle_message(MessageForm::NodeMessage(request(MessageBody::Poll {
        msg_id: 3,
        offsets: vec![(String::from("k1"), 0)],
    })));
    match &e3.sends[0].body {
        MessageBody::PollOk { in_reply_to, msgs } => {
            assert_eq!(*in_reply_to, 3);
            assert_eq!(msgs.len(), 1);
            assert_eq!(msgs[0].0, "k1");
            assert_eq!(msgs[0].1, vec![(0, 10), (1, 20)]);
        },
        _ => panic!("expected a poll reply"),
    }
}

#[test]
fn commit_then_list_committed_offsets() {
    let mut node = init_node_ab();
    let e1 = node.handle_message(MessageForm::NodeMessage(request(MessageBody::CommitOffsets {
        msg_id: 1,
        offsets: vec![(String::from("k1"), 1)],
    })));
    assert!(matches!(e1.sends[0].body, MessageBody::CommitOffsetsOk { in_reply_to: 1 }));
    let e2 = node.handle_message(MessageForm::NodeMessage(request(
        MessageBody::ListCommittedOffsets {
            msg_id: 2,
            keys: vec![String::from("k1"), String::from("k2")],
        },
    )));
    match &e2.sends[0].body {
        MessageBody::ListCommittedOffsetsOk { in_reply_to, offsets } => {
            assert_eq!(*in_reply_to, 2);
            assert_eq!(*offsets, vec![(String::from("k1"), 1)]);
        },
        _ => panic!("expected a committed-offsets reply"),
    }
}

#[test]
fn echo_round_trips_the_payload() {
    let mut node = init_node_ab();
    let eff = node.handle_message(MessageForm::NodeMessage(request(MessageBody::Echo {
        msg_id: 5,
        echo: String::from("hello"),
    })));
    let r = &eff.sends[0];
    assert_eq!(r.src, "n1");
    assert_eq!(r.dest, "c1");
    match &r.body {
        MessageBody::EchoOk { msg_id, in_reply_to, echo } => {
            assert_eq!((*msg_id, *in_reply_to), (5, 5));
            assert_eq!(echo, "hello");
        },
        _ => panic!("expected an echo reply"),
    }
}

#[test]
fn generate_returns_distinct_ids() {
    let mut node = init_node_ab();
    let e1 = node.handle_message(MessageForm::NodeMessage(request(MessageBody::Generate {
        msg_id: 1,
    })));
    let a = match &e1.sends[0].body {
        MessageBody::GenerateOk { id, .. } => *id,
        _ => panic!("expected a generate reply"),
    };
    let e2 = node.handle_message(MessageForm::NodeMessage(request(MessageBody::Generate {
        msg_id: 2,
    })));
    let b = match &e2.sends[0].body {
        MessageBody::GenerateOk { id, .. } => *id,
        _ => panic!("expected a generate reply"),
    };
    assert_ne!(a, b);
}

#[test]
fn topology_is_acknowledged_but_not_applied() {
    let mut node = init_node_ab();
    let topo = request(MessageBody::Topology {
        msg_id: 4,
        topology: vec![(String::from("n1"), vec![String::from("n2")])],
    });
    let eff = node.handle_message(MessageForm::NodeMessage(topo));
    assert!(matches!(eff.sends[0].body, MessageBody::TopologyOk { in_reply_to: 4 }));
    // fan-out still targets the full peer set afterwards
    let b = request(MessageBody::Broadcast { msg_id: 5, message: 1 });
    let eff2 = node.handle_message(MessageForm::NodeMessage(b));
    assert_eq!(eff2.retries.len(), 1);
}

#[test]
fn gossiped_snapshot_overwrites_contribution() {
    let mut node = init_node_ab();
    let share = Message {
        src: String::from("n2"),
        dest: String::from("n1"),
        body: MessageBody::ShareCounterState { value: 10 },
    };
    let e1 = node.handle_message(MessageForm::NodeMessage(share));
    assert!(e1.sends.is_empty() && e1.retries.is_empty());
    let share_again = Message {
        src: String::from("n2"),
        dest: String::from("n1"),
        body: MessageBody::ShareCounterState { value: 4 },
    };
    node.handle_message(MessageForm::NodeMessage(share_again));
    let eff = node.handle_message(MessageForm::NodeMessage(request(MessageBody::Read {
        msg_id: 9,
    })));
    assert!(matches!(eff.sends[0].body, MessageBody::ReadOk { value: 4, .. }));
}

#[test]
fn gossip_tick_builds_snapshot_envelopes() {
    let mut node = init_node_ab();
    assert!(node.is_initialized());
    assert!(node.share_counter_messages().is_none());
    node.handle_message(MessageForm::NodeMessage(request(MessageBody::Add {
        msg_id: 1,
        delta: 6,
    })));
    let msgs = node.share_counter_messages().expect("contributions present");
    assert_eq!(msgs.len(), 1);
    assert_eq!(msgs[0].src, "n1");
    assert_eq!(msgs[0].dest, "n2");
    assert!(matches!(msgs[0].body, MessageBody::ShareCounterState { value: 6 }));
}

#[test]
fn reply_kinds_are_refused() {
    let node = init_node_ab();
    let stray = request(MessageBody::EchoOk {
        msg_id: 1,
        in_reply_to: 1,
        echo: String::from("x"),
    });
    assert!(!node.can_handle(&stray));
    let init_ok = request(MessageBody::InitOk { in_reply_to: 1 });
    assert!(!node.can_handle(&init_ok));
}

#[test]
fn a_second_handshake_is_refused() {
    let node = init_node_ab();
    let again = request(MessageBody::Init {
        msg_id: 1,
        node_id: String::from("n9"),
        node_ids: vec![String::from("n9")],
    });
    assert!(!node.can_handle(&again));
}

#[test]
fn retry_exhaustion_drops_the_pending_entry() {
    let mut node = init_node_ab();
    let eff = node.handle_message(MessageForm::NodeMessage(request(MessageBody::Broadcast {
        msg_id: 1,
        message: 11,
    })));
    let fan_id = match eff.retries[0].body {
        MessageBody::Broadcast { msg_id, .. } => msg_id,
        _ => panic!("expected a broadcast fan-out"),
    };
    assert!(node.handle_retry_exhausted(fan_id));
    // the entry is gone: a late acknowledgment is now a silent no-op
    let late = Message {
        src: String::from("n2"),
        dest: String::from("n1"),
        body: MessageBody::BroadcastOk { in_reply_to: fan_id },
    };
    let eff2 = node.handle_message(MessageForm::NodeMessage(late));
    assert_eq!(eff2.acked, None);
    // exhausting an id that is not pending reports so
    assert!(!node.handle_retry_exhausted(fan_id));
}

#[test]
fn counter_overflow_is_refused_before_handling() {
    let mut node = init_node_ab();
    let big = request(MessageBody::Add { msg_id: 1, delta: u32::MAX });
    assert!(node.can_handle(&big));
    node.handle_message(MessageForm::NodeMessage(big));
    let one_more = request(MessageBody::Add { msg_id: 2, delta: 1 });
    assert!(!node.can_handle(&one_more));
    // a snapshot that lowers the total is still allowed
    let lower = Message {
        src: String::from("n1"),
        dest: String::from("n1"),
        body: MessageBody::ShareCounterState { value: 3 },
    };
    assert!(node.can_handle(&lower));
}

#[test]
fn subsystems_require_initialization() {
    let node = Node::new();
    assert!(!node.is_initialized());
    assert!(!node.can_handle(&request(MessageBody::Generate { msg_id: 1 })));
    assert!(!node.can_handle(&request(MessageBody::Broadcast { msg_id: 1, message: 3 })));
    assert!(node.can_handle(&request(MessageBody::Echo { msg_id: 1, echo: String::from("e") })));
}
