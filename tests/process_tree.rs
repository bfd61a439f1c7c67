use pi_natives::proc_children::{listed_child_pids, parse_child_pids, parse_pid};
use pi_natives::terminate::{count_delivered, kill_order, kill_process_group, process_group_id};
use pi_natives::tree::{
    build_process_tree, collect_descendants, list_descendants, ListingWalk, ProcessEntry,
};

fn entry(pid: u32, parent_pid: u32) -> ProcessEntry {
    ProcessEntry { pid, parent_pid }
}

fn sample_snapshot() -> Vec<ProcessEntry> {
    vec![entry(1, 0), entry(2, 1), entry(3, 1), entry(4, 2), entry(5, 9), entry(6, 4)]
}

#[test]
fn descendants_are_listed_in_pre_order() {
    assert_eq!(list_descendants(&sample_snapshot(), 1), vec![2, 4, 6, 3]);
}

#[test]
fn collect_appends_to_existing_ids() {
    let mut pids = vec![77];
    collect_descendants(&sample_snapshot(), 2, &mut pids);
    assert_eq!(pids, vec![77, 4, 6]);
}

#[test]
fn childless_process_has_no_descendants() {
    assert_eq!(list_descendants(&sample_snapshot(), 3), Vec::<i32>::new());
}

#[test]
fn unknown_process_has_no_descendants() {
    assert_eq!(list_descendants(&sample_snapshot(), 4242), Vec::<i32>::new());
    assert_eq!(list_descendants(&Vec::new(), 1), Vec::<i32>::new());
}

#[test]
fn orphans_of_an_exited_parent_are_not_its_descendants() {
    let snapshot = vec![entry(5, 7)];
    assert_eq!(list_descendants(&snapshot, 7), Vec::<i32>::new());
    let mut pids = vec![1];
    collect_descendants(&snapshot, 7, &mut pids);
    assert_eq!(pids, vec![1]);
    assert_eq!(list_descendants(&sample_snapshot(), 9), Vec::<i32>::new());
}

#[test]
fn cyclic_snapshot_walk_ends() {
    let snapshot = vec![entry(1, 2), entry(2, 1)];
    assert_eq!(list_descendants(&snapshot, 1), vec![2, 1]);
    assert_eq!(list_descendants(&snapshot, 2), vec![1, 2]);
}

#[test]
fn tree_map_keeps_snapshot_order() {
    let snapshot =
        vec![entry(1, 0), entry(8, 1), entry(3, 1), entry(5, 1), entry(9, 1), entry(2, 1)];
    let tree = build_process_tree(&snapshot);
    assert_eq!(tree.len(), 2);
    assert!(tree.contains_key(&0) && tree.contains_key(&1));
    assert!(build_process_tree(&Vec::new()).is_empty());
    assert_eq!(list_descendants(&snapshot, 1), vec![8, 3, 5, 9, 2]);
}

#[test]
fn large_pid_wraps_to_signed() {
    let snapshot = vec![entry(1, 0), entry(4_000_000_000, 1)];
    assert_eq!(list_descendants(&snapshot, 1), vec![4_000_000_000u32 as i32]);
}

#[test]
fn kill_order_puts_descendants_before_root() {
    let descendants = list_descendants(&sample_snapshot(), 1);
    let order = kill_order(1, &descendants);
    assert_eq!(order, vec![3, 6, 4, 2, 1]);
    let root_at = order.iter().position(|&p| p == 1).unwrap();
    assert_eq!(root_at, order.len() - 1);
    for d in &descendants {
        assert!(order.iter().position(|p| p == d).unwrap() < root_at);
    }
}

#[test]
fn kill_order_of_lone_process_is_the_process() {
    assert_eq!(kill_order(7, &Vec::new()), vec![7]);
}

#[test]
fn delivered_signals_are_counted() {
    assert_eq!(count_delivered(&vec![true, false, true, true]), 3);
    assert_eq!(count_delivered(&vec![false, false]), 0);
    assert_eq!(count_delivered(&Vec::new()), 0);
}

#[test]
fn process_groups_unsupported_without_groups() {
    assert_eq!(process_group_id(1234), None);
    assert!(!kill_process_group(1234, 9));
}

#[test]
fn children_listing_is_parsed() {
    assert_eq!(parse_child_pids("123 456 \n"), vec![123, 456]);
    assert_eq!(parse_child_pids(""), Vec::<i32>::new());
    assert_eq!(parse_child_pids("  \t\n"), Vec::<i32>::new());
}

#[test]
fn children_listing_skips_bad_words() {
    assert_eq!(
        parse_child_pids("12 abc -5 +7 2147483648 -2147483648 1x 2147483647"),
        vec![12, -5, 7, -2147483648, 2147483647]
    );
    assert_eq!(parse_child_pids("4\u{a0}5\u{3000}6"), vec![4, 5, 6]);
}

#[test]
fn single_words_parse_as_integers() {
    let w = |s: &str| s.chars().collect::<Vec<char>>();
    assert_eq!(parse_pid(&w("0")), Some(0));
    assert_eq!(parse_pid(&w("-")), None);
    assert_eq!(parse_pid(&w("+")), None);
    assert_eq!(parse_pid(&w("")), None);
    assert_eq!(parse_pid(&w("-0012")), Some(-12));
    assert_eq!(parse_pid(&w("99999999999999999999")), None);
}

#[test]
fn listing_walk_reads_each_found_process() {
    let mut walk = ListingWalk::new(1);
    assert_eq!(walk.pending(), Some(1));
    walk.record(&vec![2, 3]);
    assert_eq!(walk.pending(), Some(2));
    walk.record(&vec![4]);
    assert_eq!(walk.pending(), Some(3));
    walk.record(&Vec::new());
    assert_eq!(walk.pending(), Some(4));
    walk.record(&Vec::new());
    assert_eq!(walk.pending(), None);
    assert_eq!(walk.row_count(), 3);
    assert_eq!(walk.descendants(), vec![2, 4, 3]);
}

#[test]
fn listing_walk_of_unreadable_root_is_empty() {
    let mut walk = ListingWalk::new(99);
    assert_eq!(walk.pending(), Some(99));
    walk.record(&Vec::new());
    assert_eq!(walk.pending(), None);
    assert_eq!(walk.descendants(), Vec::<i32>::new());
}

#[test]
fn listing_walk_reads_a_relisted_process_once() {
    let mut walk = ListingWalk::new(1);
    walk.record(&vec![2]);
    assert_eq!(walk.pending(), Some(2));
    walk.record(&vec![1]);
    assert_eq!(walk.pending(), None);
    assert_eq!(walk.descendants(), vec![2, 1]);
}

#[test]
fn listing_buffer_keeps_reported_positive_ids() {
    let buffer = vec![11, 0, 12, -3, 13];
    assert_eq!(listed_child_pids(&buffer, 16), vec![11, 12]);
    assert_eq!(listed_child_pids(&buffer, 20), vec![11, 12, 13]);
    assert_eq!(listed_child_pids(&buffer, 400), vec![11, 12, 13]);
    assert_eq!(listed_child_pids(&buffer, 7), vec![11]);
    assert_eq!(listed_child_pids(&buffer, 0), Vec::<i32>::new());
    assert_eq!(listed_child_pids(&buffer, -1), Vec::<i32>::new());
}
