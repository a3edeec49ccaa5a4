use gossip_node::Counter;

#[test]
fn local_increments_accumulate() {
    let mut c = Counter::new();
    c.add(&String::from("n1"), 5, false);
    c.add(&String::from("n1"), 3, false);
    assert_eq!(c.read(), 8);
}

#[test]
fn snapshots_overwrite() {
    let mut c = Counter::new();
    c.add(&String::from("n2"), 7, true);
    c.add(&String::from("n2"), 3, true);
    assert_eq!(c.read(), 3);
}

#[test]
fn contributions_sum_across_origins() {
    let mut c = Counter::new();
    c.add(&String::from("n1"), 5, false);
    c.add(&String::from("n2"), 7, true);
    c.add(&String::from("n3"), 2, false);
    assert_eq!(c.read(), 14);
    assert_eq!(c.contribution(&String::from("n2")), 7);
    assert_eq!(c.contribution(&String::from("n9")), 0);
}

#[test]
fn reads_converge_when_contributions_agree() {
    // different interleavings, same final per-origin contributions
    let mut a = Counter::new();
    a.add(&String::from("n1"), 5, false);
    a.add(&String::from("n2"), 7, true);
    a.add(&String::from("n2"), 9, true);
    let mut b = Counter::new();
    b.add(&String::from("n2"), 9, true);
    b.add(&String::from("n1"), 2, false);
    b.add(&String::from("n1"), 3, false);
    assert_eq!(a.read(), b.read());
    assert_eq!(a.read(), 14);
}

#[test]
fn empty_counter_reads_zero() {
    let c = Counter::new();
    assert!(c.is_empty());
    assert_eq!(c.read(), 0);
}

#[test]
fn merge_bound_is_checked() {
    let mut c = Counter::new();
    c.add(&String::from("n1"), u32::MAX - 1, false);
    assert!(c.can_merge(&String::from("n1"), 1, false));
    assert!(!c.can_merge(&String::from("n1"), 2, false));
    assert!(c.can_merge(&String::from("n1"), u32::MAX, true));
    assert!(!c.can_merge(&String::from("n2"), 2, false));
}
