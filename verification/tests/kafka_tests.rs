use gossip_node::Kafka;

#[test]
fn offsets_are_dense_and_zero_based() {
    let mut k = Kafka::new();
    assert_eq!(k.write_log(String::from("k1"), 10), 0);
    assert_eq!(k.write_log(String::from("k1"), 20), 1);
    assert_eq!(k.write_log(String::from("k2"), 30), 0);
    assert_eq!(k.write_log(String::from("k1"), 40), 2);
}

#[test]
fn poll_returns_entries_from_offset() {
    let mut k = Kafka::new();
    k.write_log(String::from("k1"), 10);
    k.write_log(String::from("k1"), 20);
    let r = k.read_logs(vec![(String::from("k1"), 0)]);
    assert_eq!(r.len(), 1);
    assert_eq!(r[0].0, "k1");
    assert_eq!(r[0].1, vec![(0, 10), (1, 20)]);
}

#[test]
fn poll_respects_offset_and_omits_missing_keys() {
    let mut k = Kafka::new();
    k.write_log(String::from("k1"), 10);
    k.write_log(String::from("k1"), 20);
    k.write_log(String::from("k1"), 30);
    let r = k.read_logs(vec![(String::from("k1"), 1), (String::from("nope"), 0)]);
    assert_eq!(r.len(), 1);
    assert_eq!(r[0].0, "k1");
    assert_eq!(r[0].1, vec![(1, 20), (2, 30)]);
}

#[test]
fn poll_past_the_end_is_empty() {
    let mut k = Kafka::new();
    k.write_log(String::from("k1"), 10);
    let r = k.read_logs(vec![(String::from("k1"), 9)]);
    assert_eq!(r.len(), 1);
    assert!(r[0].1.is_empty());
    let at_end = k.read_logs(vec![(String::from("k1"), 1)]);
    assert_eq!(at_end.len(), 1);
    assert!(at_end[0].1.is_empty());
}

#[test]
fn committed_offsets_are_read_back() {
    let mut k = Kafka::new();
    k.commit_offsets(String::from("c1"), vec![(String::from("k1"), 1)]);
    let r = k.get_commited_offsets(
        &String::from("c1"),
        vec![String::from("k1"), String::from("k2")],
    );
    assert_eq!(r, vec![(String::from("k1"), 1)]);
}

#[test]
fn commit_replaces_the_whole_table() {
    let mut k = Kafka::new();
    k.commit_offsets(String::from("c1"), vec![(String::from("k1"), 1)]);
    k.commit_offsets(String::from("c1"), vec![(String::from("k2"), 5)]);
    let r = k.get_commited_offsets(
        &String::from("c1"),
        vec![String::from("k1"), String::from("k2")],
    );
    assert_eq!(r, vec![(String::from("k2"), 5)]);
}

#[test]
fn commits_are_per_client() {
    let mut k = Kafka::new();
    k.commit_offsets(String::from("c1"), vec![(String::from("k1"), 1)]);
    let r = k.get_commited_offsets(&String::from("c2"), vec![String::from("k1")]);
    assert!(r.is_empty());
}

#[test]
fn single_log_reads_distinguish_missing_keys() {
    let mut k = Kafka::new();
    k.write_log(String::from("k1"), 10);
    assert!(k.get_logs_from_offset(&String::from("nope"), 0).is_none());
    assert_eq!(k.get_logs_from_offset(&String::from("k1"), 0), Some(vec![(0, 10)]));
}
