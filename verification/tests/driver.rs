use kill_tree::driver::{get_kill_order, kill_tree_internal, parse_kill_output, Killable};
use kill_tree::tree::get_process_info_map;
use kill_tree::types::{Config, Error, KillOutput, Output, ProcessInfo};
use std::cell::RefCell;

fn info(process_id: u32, parent_process_id: u32, name: &str) -> ProcessInfo {
    ProcessInfo { process_id, parent_process_id, name: name.to_string() }
}

fn config(include_target: bool) -> Config {
    Config { signal: "SIGTERM".to_string(), include_target }
}

fn snapshot() -> Vec<ProcessInfo> {
    vec![info(1, 0, "init"), info(2, 1, "a"), info(3, 2, "b"), info(4, 1, "c")]
}

fn gone(process_id: u32) -> Error {
    Error::TerminationFailure { process_id, code: Some(5), reason: "access denied".to_string() }
}

fn killed(process_id: u32, parent_process_id: u32, name: &str) -> Output {
    Output::Killed { process_id, parent_process_id, name: name.to_string() }
}

struct Scripted {
    gone: Vec<u32>,
    failing: Vec<u32>,
    asked: RefCell<Vec<u32>>,
}

impl Scripted {
    fn new(gone: &[u32], failing: &[u32]) -> Scripted {
        Scripted { gone: gone.to_vec(), failing: failing.to_vec(), asked: RefCell::new(Vec::new()) }
    }
}

impl Killable for Scripted {
    fn kill(&self, process_id: u32) -> Result<KillOutput, Error> {
        self.asked.borrow_mut().push(process_id);
        if self.failing.contains(&process_id) {
            Err(Error::TerminationFailure { process_id, code: None, reason: "in use".to_string() })
        } else if self.gone.contains(&process_id) {
            Ok(KillOutput::MaybeAlreadyTerminated { process_id, source: gone(process_id) })
        } else {
            Ok(KillOutput::Killed { process_id })
        }
    }
}

#[test]
fn whole_tree_is_killed_children_first() {
    let killer = Scripted::new(&[], &[]);
    let outputs = kill_tree_internal(1, &config(true), snapshot(), &killer).unwrap();
    assert_eq!(*killer.asked.borrow(), vec![3, 4, 2, 1]);
    assert_eq!(
        outputs,
        vec![killed(3, 2, "b"), killed(4, 1, "c"), killed(2, 1, "a"), killed(1, 0, "init")]
    );
}

#[test]
fn target_left_out_is_neither_killed_nor_reported() {
    let killer = Scripted::new(&[], &[]);
    let outputs = kill_tree_internal(2, &config(false), snapshot(), &killer).unwrap();
    assert_eq!(*killer.asked.borrow(), vec![3]);
    assert_eq!(outputs, vec![killed(3, 2, "b")]);
}

#[test]
fn maybe_already_terminated_is_no_error() {
    let killer = Scripted::new(&[3], &[]);
    let outputs = kill_tree_internal(1, &config(true), snapshot(), &killer).unwrap();
    assert_eq!(
        outputs,
        vec![
            Output::MaybeAlreadyTerminated { process_id: 3, source: gone(3) },
            killed(4, 1, "c"),
            killed(2, 1, "a"),
            killed(1, 0, "init"),
        ]
    );
}

#[test]
fn hard_failure_ends_the_work() {
    let killer = Scripted::new(&[], &[2]);
    let result = kill_tree_internal(1, &config(true), snapshot(), &killer);
    assert_eq!(
        result,
        Err(Error::TerminationFailure { process_id: 2, code: None, reason: "in use".to_string() })
    );
    assert_eq!(*killer.asked.borrow(), vec![3, 4, 2]);
}

#[test]
fn target_outside_snapshot_is_attempted_and_dropped() {
    let killer = Scripted::new(&[], &[]);
    let outputs = kill_tree_internal(77, &config(true), snapshot(), &killer).unwrap();
    assert_eq!(*killer.asked.borrow(), vec![77]);
    assert!(outputs.is_empty());
    let killer = Scripted::new(&[], &[]);
    let outputs = kill_tree_internal(77, &config(false), snapshot(), &killer).unwrap();
    assert!(killer.asked.borrow().is_empty());
    assert!(outputs.is_empty());
}

#[test]
fn target_outside_snapshot_already_gone_is_reported() {
    let killer = Scripted::new(&[77], &[]);
    let outputs = kill_tree_internal(77, &config(true), snapshot(), &killer).unwrap();
    assert_eq!(outputs, vec![Output::MaybeAlreadyTerminated { process_id: 77, source: gone(77) }]);
}

#[test]
fn self_parented_root_is_killed_once() {
    let infos = vec![info(0, 0, "idle"), info(4, 0, "system"), info(8, 4, "child")];
    let killer = Scripted::new(&[], &[]);
    let outputs = kill_tree_internal(0, &config(true), infos, &killer).unwrap();
    assert_eq!(*killer.asked.borrow(), vec![8, 4, 0]);
    assert_eq!(outputs, vec![killed(8, 4, "child"), killed(4, 0, "system"), killed(0, 0, "idle")]);
}

#[test]
fn killed_entry_is_used_up() {
    let mut map = get_process_info_map(snapshot());
    let first = parse_kill_output(KillOutput::Killed { process_id: 2 }, &mut map);
    assert_eq!(first, Some(killed(2, 1, "a")));
    assert!(!map.contains_key(&2));
    assert_eq!(map.len(), 3);
    let second = parse_kill_output(KillOutput::Killed { process_id: 2 }, &mut map);
    assert_eq!(second, None);
    assert_eq!(map.len(), 3);
}

#[test]
fn killed_without_entry_is_dropped() {
    let mut map = get_process_info_map(snapshot());
    let output = parse_kill_output(KillOutput::Killed { process_id: 500 }, &mut map);
    assert_eq!(output, None);
    assert_eq!(map.len(), 4);
}

#[test]
fn maybe_already_terminated_passes_through() {
    let mut map = get_process_info_map(snapshot());
    let known = KillOutput::MaybeAlreadyTerminated { process_id: 3, source: gone(3) };
    let output = parse_kill_output(known, &mut map);
    assert_eq!(output, Some(Output::MaybeAlreadyTerminated { process_id: 3, source: gone(3) }));
    assert!(map.contains_key(&3));
    let unknown = KillOutput::MaybeAlreadyTerminated { process_id: 500, source: gone(500) };
    let output = parse_kill_output(unknown, &mut map);
    assert_eq!(output, Some(Output::MaybeAlreadyTerminated { process_id: 500, source: gone(500) }));
    assert_eq!(map.len(), 4);
}

#[test]
fn report_takes_parent_and_name_from_the_entry() {
    let mut map = get_process_info_map(vec![info(2, 1, "old"), info(2, 9, "new")]);
    let output = parse_kill_output(KillOutput::Killed { process_id: 2 }, &mut map);
    assert_eq!(output, Some(killed(2, 9, "new")));
    assert!(map.is_empty());
}

#[test]
fn kill_order_is_discovery_order_backwards() {
    assert_eq!(get_kill_order(1, &config(true), &snapshot()), vec![3, 4, 2, 1]);
    assert_eq!(get_kill_order(1, &config(false), &snapshot()), vec![3, 4, 2]);
    assert_eq!(get_kill_order(2, &config(false), &snapshot()), vec![3]);
    assert_eq!(get_kill_order(2, &config(true), &snapshot()), vec![3, 2]);
    assert_eq!(get_kill_order(77, &config(true), &snapshot()), vec![77]);
    assert_eq!(get_kill_order(77, &config(false), &snapshot()), Vec::<u32>::new());
}

#[test]
fn kill_order_puts_descendants_first() {
    let edges = [(2, 1), (3, 2), (4, 3), (5, 4), (6, 2), (7, 6), (8, 1)];
    let infos: Vec<ProcessInfo> =
        edges.iter().map(|&(process_id, parent)| info(process_id, parent, "p")).collect();
    let order = get_kill_order(1, &config(true), &infos);
    let place = |id: u32| order.iter().position(|&other| other == id).unwrap();
    for &(child, parent) in edges.iter() {
        assert!(place(child) < place(parent));
    }
    assert!(place(5) < place(2));
    assert!(place(7) < place(1));
    assert_eq!(order.len(), 8);
    assert_eq!(*order.last().unwrap(), 1);
}

#[test]
fn kill_order_skips_the_self_parented_entry() {
    let infos = vec![info(0, 0, "idle"), info(4, 0, "system"), info(8, 4, "child")];
    assert_eq!(get_kill_order(0, &config(true), &infos), vec![8, 4, 0]);
    assert_eq!(get_kill_order(0, &config(false), &infos), vec![8, 4]);
}

#[test]
fn later_ids_are_not_tried_after_a_failure() {
    let killer = Scripted::new(&[], &[4]);
    let result = kill_tree_internal(1, &config(true), snapshot(), &killer);
    assert!(matches!(result, Err(Error::TerminationFailure { process_id: 4, .. })));
    assert_eq!(*killer.asked.borrow(), vec![3, 4]);
}
