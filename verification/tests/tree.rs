use kill_tree::driver::child_process_id_map_filter;
use kill_tree::tree::{get_child_process_id_map, get_process_info_map};
use kill_tree::types::ProcessInfo;

fn info(process_id: u32, parent_process_id: u32, name: &str) -> ProcessInfo {
    ProcessInfo { process_id, parent_process_id, name: name.to_string() }
}

#[test]
fn children_are_grouped_by_parent() {
    let infos = vec![info(1, 0, "init"), info(2, 1, "a"), info(3, 2, "b"), info(4, 1, "c")];
    let map = get_child_process_id_map(&infos, child_process_id_map_filter);
    assert_eq!(map.len(), 3);
    assert_eq!(map.get(&0), Some(&vec![1]));
    assert_eq!(map.get(&1), Some(&vec![2, 4]));
    assert_eq!(map.get(&2), Some(&vec![3]));
    assert_eq!(map.get(&3), None);
}

#[test]
fn children_are_sorted_ascending() {
    let infos = vec![
        info(90, 1, "z"),
        info(7, 1, "y"),
        info(4000000000, 1, "x"),
        info(12, 1, "w"),
        info(8, 1, "v"),
        info(5, 2, "u"),
        info(3, 2, "t"),
    ];
    let map = get_child_process_id_map(&infos, child_process_id_map_filter);
    assert_eq!(map.get(&1), Some(&vec![7, 8, 12, 90, 4000000000]));
    assert_eq!(map.get(&2), Some(&vec![3, 5]));
}

#[test]
fn repeated_ids_are_all_listed() {
    let infos = vec![info(5, 1, "a"), info(3, 1, "b"), info(5, 1, "c")];
    let map = get_child_process_id_map(&infos, child_process_id_map_filter);
    assert_eq!(map.get(&1), Some(&vec![3, 5, 5]));
}

#[test]
fn self_parented_entry_is_left_out() {
    let infos = vec![info(0, 0, "idle"), info(4, 0, "system"), info(9, 9, "odd")];
    let map = get_child_process_id_map(&infos, child_process_id_map_filter);
    assert_eq!(map.get(&0), Some(&vec![4]));
    assert_eq!(map.get(&9), None);
    assert_eq!(map.len(), 1);
}

#[test]
fn filter_decides_what_is_listed() {
    let infos = vec![info(2, 1, "keep"), info(3, 1, "drop"), info(4, 1, "keep")];
    let map = get_child_process_id_map(&infos, |info: &ProcessInfo| info.name == "drop");
    assert_eq!(map.get(&1), Some(&vec![2, 4]));
    let none = get_child_process_id_map(&infos, |_: &ProcessInfo| true);
    assert!(none.is_empty());
    let all = get_child_process_id_map(&infos, |_: &ProcessInfo| false);
    assert_eq!(all.get(&1), Some(&vec![2, 3, 4]));
}

#[test]
fn empty_snapshot_gives_empty_maps() {
    let infos: Vec<ProcessInfo> = Vec::new();
    assert!(get_child_process_id_map(&infos, child_process_id_map_filter).is_empty());
    assert!(get_process_info_map(infos).is_empty());
}

#[test]
fn info_map_holds_every_entry_unfiltered() {
    let infos = vec![info(0, 0, "idle"), info(1, 0, "init"), info(2, 1, "a")];
    let map = get_process_info_map(infos);
    assert_eq!(map.len(), 3);
    assert_eq!(map.get(&0), Some(&info(0, 0, "idle")));
    assert_eq!(map.get(&1), Some(&info(1, 0, "init")));
    assert_eq!(map.get(&2), Some(&info(2, 1, "a")));
}

#[test]
fn info_map_keeps_the_later_entry() {
    let infos = vec![info(2, 1, "first"), info(3, 1, "other"), info(2, 7, "second")];
    let map = get_process_info_map(infos);
    assert_eq!(map.len(), 2);
    assert_eq!(map.get(&2), Some(&info(2, 7, "second")));
    assert_eq!(map.get(&3), Some(&info(3, 1, "other")));
}
