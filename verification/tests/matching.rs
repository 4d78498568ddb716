use geo::{Distance, Euclidean, Point};
use queue_processor::entry::{match_id, Identifiable, MatchGroup, QueueEntry};
use queue_processor::matching::{
    compatible, compatible_ip, compatible_mmr, graph_of, make_matches, match_positions, MatchError,
    PairTable, MMR_WINDOW,
};

fn entry(user: &str, mmr: i64, ip: &str) -> QueueEntry {
    QueueEntry {
        user: user.to_string(),
        ip: ip.to_string(),
        region: "us-east-1".to_string(),
        mmr,
        join_time: 0,
        queue: "unranked-solo".to_string(),
        wait_count: 0,
    }
}

fn all_near(n: usize) -> PairTable {
    let mut t = PairTable::new(n);
    for a in 0..n {
        for b in (a + 1)..n {
            assert!(t.set(a, b, true));
        }
    }
    t
}

#[test]
fn compatible_example_is_matched_as_a_b() {
    let a = entry("A", 1500, "1.1.1.1");
    let b = entry("B", 1550, "2.2.2.2");
    let a_point = Point::new(0.0f64, 0.0f64);
    let b_point = Point::new(0.0005f64, 0.0005f64);
    let near = Euclidean.distance(a_point, b_point).abs() < 100.0;
    assert!(near);
    assert!(compatible(&a, &b, near));
    let mut table = PairTable::new(2);
    table.set(0, 1, near);
    let groups = make_matches(&vec![a.clone(), b.clone()], &table).unwrap();
    assert_eq!(groups.len(), 1);
    assert_eq!(groups[0].players, vec![a, b]);
    assert_eq!(groups[0].id(), "A::B");
}

#[test]
fn match_id_sorts_and_joins() {
    let a = entry("A", 0, "");
    let b = entry("B", 0, "");
    assert_eq!(match_id(&vec![a.clone(), b.clone()]), "A::B");
    assert_eq!(match_id(&vec![b.clone(), a.clone()]), "A::B");
    let c = entry("alice", 0, "");
    let d = entry("Zed", 0, "");
    let e = entry("al", 0, "");
    assert_eq!(match_id(&vec![c, d, e]), "Zed::al::alice");
    let none: Vec<QueueEntry> = vec![];
    assert_eq!(match_id(&none), "");
    assert_eq!(match_id(&vec![entry("solo", 0, "")]), "solo");
    assert_eq!(entry("x", 0, "").id(), "x");
}

#[test]
fn mmr_window_is_strict() {
    let a = entry("a", 1500, "1");
    assert!(compatible_mmr(&a, &entry("b", 1599, "2")));
    assert!(compatible_mmr(&a, &entry("b", 1401, "2")));
    assert!(!compatible_mmr(&a, &entry("b", 1600, "2")));
    assert!(!compatible_mmr(&a, &entry("b", 1400, "2")));
    assert!(!compatible_mmr(&entry("lo", i64::MIN, "1"), &entry("hi", i64::MAX, "2")));
    assert!(compatible_mmr(&entry("lo", i64::MIN, "1"), &entry("hi", i64::MIN + 99, "2")));
}

#[test]
fn same_ip_is_incompatible() {
    let a = entry("a", 1500, "1.1.1.1");
    let b = entry("b", 1500, "1.1.1.1");
    let c = entry("c", 1500, "1.1.1.2");
    assert!(!compatible_ip(&a, &b));
    assert!(compatible_ip(&a, &c));
    assert!(!compatible(&a, &b, true));
    assert!(compatible(&a, &c, true));
    assert!(!compatible(&a, &c, false));
}

#[test]
fn greedy_takes_the_first_free_neighbour() {
    // a is compatible with b and with c: it is paired with b, the first.
    let entries = vec![entry("a", 1500, "1"), entry("b", 1510, "2"), entry("c", 1520, "3")];
    let pairs = match_positions(&entries, &all_near(3)).unwrap();
    assert_eq!(pairs, vec![(0, 1)]);
}

#[test]
fn greedy_is_not_maximum() {
    // 0-1, 0-2, 1-3 are the compatible pairs: greedy makes (0,1) and leaves
    // 2 and 3 out, though (0,2), (1,3) would pair everybody.
    let entries = vec![
        entry("ann", 1000, "0"),
        entry("ben", 1050, "1"),
        entry("cat", 950, "2"),
        entry("dan", 1149, "3"),
    ];
    let pairs = match_positions(&entries, &all_near(4)).unwrap();
    assert_eq!(pairs, vec![(0, 1)]);
    let groups = make_matches(&entries, &all_near(4)).unwrap();
    assert_eq!(groups, vec![MatchGroup { players: vec![entries[0].clone(), entries[1].clone()] }]);
}

#[test]
fn unmatched_entries_are_left_out() {
    let entries = vec![
        entry("ann", 1000, "0"),
        entry("ben", 2000, "1"),
        entry("cat", 1001, "2"),
        entry("dan", 3000, "3"),
        entry("eve", 2001, "4"),
    ];
    let pairs = match_positions(&entries, &all_near(5)).unwrap();
    assert_eq!(pairs, vec![(0, 2), (1, 4)]);
    let groups = make_matches(&entries, &all_near(5)).unwrap();
    assert_eq!(groups.len(), 2);
    assert_eq!(groups[0].id(), "ann::cat");
    assert_eq!(groups[1].id(), "ben::eve");
}

#[test]
fn far_apart_entries_are_not_matched() {
    let entries = vec![entry("a", 1500, "1"), entry("b", 1500, "2")];
    let far = PairTable::new(2);
    assert_eq!(make_matches(&entries, &far).unwrap(), vec![]);
}

#[test]
fn empty_and_single_queues_make_no_match() {
    assert_eq!(make_matches(&vec![], &PairTable::new(0)).unwrap(), vec![]);
    assert_eq!(make_matches(&vec![entry("a", 1, "1")], &PairTable::new(1)).unwrap(), vec![]);
}

#[test]
fn table_of_the_wrong_size_is_refused() {
    let entries = vec![entry("a", 1500, "1"), entry("b", 1500, "2")];
    assert_eq!(make_matches(&entries, &PairTable::new(3)), Err(MatchError::TableSize));
    assert_eq!(match_positions(&entries, &PairTable::new(1)), Err(MatchError::TableSize));
}

#[test]
fn same_input_gives_the_same_groups() {
    let entries = vec![
        entry("ann", 1000, "0"),
        entry("ben", 1050, "1"),
        entry("cat", 1080, "2"),
        entry("dan", 1100, "3"),
    ];
    let first = make_matches(&entries, &all_near(4)).unwrap();
    let second = make_matches(&entries, &all_near(4)).unwrap();
    assert_eq!(first, second);
    assert_eq!(first.len(), 2);
}

#[test]
fn verdict_tables_are_symmetric() {
    let mut t = PairTable::new(3);
    assert_eq!(t.size(), 3);
    assert!(!t.get(0, 1));
    assert!(t.set(2, 0, true));
    assert!(t.get(0, 2));
    assert!(t.get(2, 0));
    assert!(!t.get(1, 2));
    assert!(t.set(0, 2, false));
    assert!(!t.get(2, 0));
    assert!(!t.set(0, 3, true));
    assert!(!t.set(3, 0, true));
    assert!(!t.get(0, 3));
    assert!(!t.get(7, 7));
    assert_eq!(t.size(), 3);
    assert_eq!(MMR_WINDOW, 100);
}

#[test]
fn graph_of_a_table_has_its_edges_in_order() {
    let mut t = PairTable::new(4);
    t.set(3, 1, true);
    t.set(0, 3, true);
    t.set(2, 3, true);
    t.set(1, 0, true);
    let g = graph_of(&t);
    assert_eq!(g.node_count(), 4);
    assert_eq!(g.edge_count(), 4);
    // the neighbours of a position ascend
    assert_eq!(g.neighbors(0), vec![1, 3]);
    assert_eq!(g.neighbors(1), vec![0, 3]);
    assert_eq!(g.neighbors(2), vec![3]);
    assert_eq!(g.neighbors(3), vec![0, 1, 2]);
    assert_eq!(g.greedy_matching(), vec![(0, 1), (2, 3)]);
    assert_eq!(graph_of(&PairTable::new(0)).node_count(), 0);
}
