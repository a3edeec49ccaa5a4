use gossip_node::IdGenerator;

#[test]
fn generates_counter_prefixed_ids() {
    let mut g = IdGenerator::new(String::from("n1"));
    assert_eq!(g.generate(), 1); // "0" then the identity digits "1"
    assert_eq!(g.generate(), 11); // "1" then "1"
    assert_eq!(g.generate(), 21);
}

#[test]
fn ids_differ_within_and_across_nodes() {
    let mut a = IdGenerator::new(String::from("n0"));
    let mut b = IdGenerator::new(String::from("n1"));
    let mut seen: Vec<u32> = Vec::new();
    for _ in 0..10 {
        seen.push(a.generate());
        seen.push(b.generate());
    }
    for i in 0..seen.len() {
        for j in (i + 1)..seen.len() {
            assert_ne!(seen[i], seen[j]);
        }
    }
}

#[test]
fn empty_digit_suffix_is_allowed() {
    let mut g = IdGenerator::new(String::from("n"));
    assert_eq!(g.generate(), 0);
    assert_eq!(g.generate(), 1);
}

#[test]
fn node_id_validity_is_checked() {
    assert!(IdGenerator::check_node_id(&String::from("n1")));
    assert!(IdGenerator::check_node_id(&String::from("n042")));
    assert!(IdGenerator::check_node_id(&String::from("n")));
    assert!(!IdGenerator::check_node_id(&String::from("")));
    assert!(!IdGenerator::check_node_id(&String::from("ab")));
    assert!(!IdGenerator::check_node_id(&String::from("n1x")));
}

#[test]
fn generation_bound_is_checked() {
    let g = IdGenerator::new(String::from("n1"));
    assert!(g.can_generate_many_ids(0));
    assert!(g.can_generate_many_ids(1));
    assert!(g.can_generate_many_ids(1000));
    // the 430_000_000th id would be 4_299_999_991, past the u32 range
    assert!(!g.can_generate_many_ids(430_000_000));
    let bad = IdGenerator::new(String::from("ax"));
    assert!(!bad.can_generate_many_ids(1));
}
