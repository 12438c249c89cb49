use kill_tree::driver::child_process_id_map_filter;
use kill_tree::traversal::get_process_ids_to_kill;
use kill_tree::tree::get_child_process_id_map;
use kill_tree::types::{ChildProcessIdMap, Config, ProcessInfo};

fn info(process_id: u32, parent_process_id: u32, name: &str) -> ProcessInfo {
    ProcessInfo { process_id, parent_process_id, name: name.to_string() }
}

fn config(include_target: bool) -> Config {
    Config { signal: "SIGTERM".to_string(), include_target }
}

fn index(edges: &[(u32, u32)]) -> ChildProcessIdMap {
    let infos: Vec<ProcessInfo> =
        edges.iter().map(|&(process_id, parent)| info(process_id, parent, "p")).collect();
    get_child_process_id_map(&infos, child_process_id_map_filter)
}

fn small_tree() -> ChildProcessIdMap {
    index(&[(1, 0), (2, 1), (3, 2), (4, 1)])
}

#[test]
fn discovery_order_of_small_tree() {
    let order = get_process_ids_to_kill(1, &small_tree(), &config(true));
    assert_eq!(order, vec![1, 2, 4, 3]);
}

#[test]
fn target_left_out_children_kept() {
    let order = get_process_ids_to_kill(2, &small_tree(), &config(false));
    assert_eq!(order, vec![3]);
    let order = get_process_ids_to_kill(1, &small_tree(), &config(false));
    assert_eq!(order, vec![2, 4, 3]);
    assert!(!order.contains(&1));
}

#[test]
fn unknown_target_is_alone() {
    assert_eq!(get_process_ids_to_kill(77, &small_tree(), &config(true)), vec![77]);
    assert_eq!(get_process_ids_to_kill(77, &small_tree(), &config(false)), Vec::<u32>::new());
    let empty = ChildProcessIdMap::new();
    assert_eq!(get_process_ids_to_kill(5, &empty, &config(true)), vec![5]);
}

#[test]
fn leaf_target_has_no_descendants() {
    assert_eq!(get_process_ids_to_kill(3, &small_tree(), &config(true)), vec![3]);
    assert_eq!(get_process_ids_to_kill(4, &small_tree(), &config(false)), Vec::<u32>::new());
}

#[test]
fn levels_come_one_after_the_other() {
    let map = index(&[
        (10, 1),
        (20, 1),
        (30, 1),
        (31, 30),
        (11, 10),
        (12, 10),
        (21, 20),
        (111, 11),
        (211, 21),
        (1111, 111),
    ]);
    let order = get_process_ids_to_kill(1, &map, &config(true));
    assert_eq!(order, vec![1, 10, 20, 30, 11, 12, 21, 31, 111, 211, 1111]);
}

#[test]
fn ancestors_are_discovered_before_descendants() {
    let edges = [(2, 1), (3, 2), (4, 3), (5, 4), (6, 2), (7, 6), (8, 1)];
    let map = index(&edges);
    let order = get_process_ids_to_kill(1, &map, &config(true));
    let place = |id: u32| order.iter().position(|&other| other == id).unwrap();
    for &(child, parent) in edges.iter() {
        assert!(place(parent) < place(child));
    }
    assert!(place(2) < place(5));
    assert!(place(1) < place(7));
    assert_eq!(order[0], 1);
}

#[test]
fn every_reachable_id_once_and_no_other() {
    let map = index(&[(2, 1), (3, 1), (4, 2), (50, 40), (51, 50), (1, 0)]);
    let mut order = get_process_ids_to_kill(1, &map, &config(true));
    order.sort_unstable();
    assert_eq!(order, vec![1, 2, 3, 4]);
}

#[test]
fn repeated_child_is_visited_once() {
    let map = index(&[(2, 1), (2, 1), (3, 2), (3, 1)]);
    let order = get_process_ids_to_kill(1, &map, &config(true));
    assert_eq!(order, vec![1, 2, 3]);
}

#[test]
fn cycle_through_target_ends() {
    let map = index(&[(2, 3), (3, 2), (4, 3)]);
    assert_eq!(get_process_ids_to_kill(2, &map, &config(true)), vec![2, 3, 4]);
    assert_eq!(get_process_ids_to_kill(2, &map, &config(false)), vec![3, 4]);
    assert_eq!(get_process_ids_to_kill(3, &map, &config(true)), vec![3, 2, 4]);
}

#[test]
fn same_input_same_order() {
    let first = get_process_ids_to_kill(1, &small_tree(), &config(true));
    let second = get_process_ids_to_kill(1, &small_tree(), &config(true));
    assert_eq!(first, second);
}
