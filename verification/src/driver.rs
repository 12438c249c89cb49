//! The execution driver: it terminates the discovered processes, children
//! before parents, and reports on each.

use crate::traversal::{discovery_order, get_process_ids_to_kill};
use crate::tree::{
    child_graph, filter_answers, get_child_process_id_map, get_process_info_map, graph_of,
    info_map_of,
};
use crate::types::{
    Config, Error, KillOutput, KillOutputView, Output, OutputView, Outputs, ProcessId, ProcessIds,
    ProcessInfo, ProcessInfoMap, ProcessInfos,
};
use vstd::prelude::*;

verus! {

broadcast use vstd::std_specs::hash::group_hash_axioms;

/// Terminates one process. An implementation answers `Killed` where the
/// process was terminated, `MaybeAlreadyTerminated` where the attempt failed
/// in a way that a process already gone explains, and an error otherwise.
pub trait Killable {
    fn kill(&self, process_id: ProcessId) -> (result: Result<KillOutput, Error>);
}

/// Whether a snapshot entry names itself as its parent, as the root
/// pseudo-process of a system does.
pub open spec fn names_itself(info: ProcessInfo) -> bool {
    info.parent_process_id == info.process_id
}

/// For each entry of a snapshot, whether it names itself as its parent.
pub open spec fn self_parented(infos: Seq<ProcessInfo>) -> Seq<bool> {
    infos.map_values(|info: ProcessInfo| names_itself(info))
}

/// Tells whether a snapshot entry names itself as its parent. Such an entry
/// stays out of the child index, where it would be its own child.
pub fn child_process_id_map_filter(process_info: &ProcessInfo) -> (excluded: bool)
    ensures
        excluded == names_itself(*process_info),
{
    process_info.parent_process_id == process_info.process_id
}

/// The report on one termination attempt, given the snapshot entries not yet
/// reported: a terminated process is reported with the parent and name of its
/// entry, and not at all where it has none; a process that may have been gone
/// already is reported as it came.
pub open spec fn report(attempt: KillOutputView, infos: Map<ProcessId, ProcessInfo>) -> Option<
    OutputView,
> {
    match attempt {
        KillOutputView::Killed { process_id } => {
            if infos.contains_key(process_id) {
                Some(
                    OutputView::Killed {
                        process_id: infos[process_id].process_id,
                        parent_process_id: infos[process_id].parent_process_id,
                        name: infos[process_id].name@,
                    },
                )
            } else {
                None
            }
        },
        KillOutputView::MaybeAlreadyTerminated {
            process_id,
            source,
        } => Some(OutputView::MaybeAlreadyTerminated { process_id, source }),
    }
}

/// The snapshot entries that are left after an attempt was reported: that of a
/// terminated process is used up.
pub open spec fn left_after(attempt: KillOutputView, infos: Map<ProcessId, ProcessInfo>) -> Map<
    ProcessId,
    ProcessInfo,
> {
    match attempt {
        KillOutputView::Killed { process_id } => infos.remove(process_id),
        KillOutputView::MaybeAlreadyTerminated { .. } => infos,
    }
}

/// The snapshot entries that are left after a run of attempts.
pub open spec fn left_after_all(attempts: Seq<KillOutputView>, infos: Map<ProcessId, ProcessInfo>)
    -> Map<ProcessId, ProcessInfo>
    decreases attempts.len(),
{
    if attempts.len() == 0 {
        infos
    } else {
        left_after(attempts.last(), left_after_all(attempts.drop_last(), infos))
    }
}

/// The reports on a run of attempts, in the order of the attempts.
pub open spec fn reports(attempts: Seq<KillOutputView>, infos: Map<ProcessId, ProcessInfo>) -> Seq<
    OutputView,
>
    decreases attempts.len(),
{
    if attempts.len() == 0 {
        Seq::empty()
    } else {
        let earlier = reports(attempts.drop_last(), infos);
        match report(attempts.last(), left_after_all(attempts.drop_last(), infos)) {
            Some(output) => earlier.push(output),
            None => earlier,
        }
    }
}

/// The views of a list of reports.
pub open spec fn output_views(outputs: Seq<Output>) -> Seq<OutputView> {
    outputs.map_values(|output: Output| output@)
}

/// Turns the outcome of one termination attempt into a report, and uses up
/// the snapshot entry of a terminated process.
pub fn parse_kill_output(kill_output: KillOutput, process_info_map: &mut ProcessInfoMap) -> (output:
    Option<Output>)
    ensures
        match output {
            Some(output) => report(kill_output@, old(process_info_map)@) == Some(output@),
            None => report(kill_output@, old(process_info_map)@) is None,
        },
        final(process_info_map)@ == left_after(kill_output@, old(process_info_map)@),
{
    match kill_output {
        KillOutput::Killed { process_id } => {
            match process_info_map.remove(&process_id) {
                Some(process_info) => Some(
                    Output::Killed {
                        process_id: process_info.process_id,
                        parent_process_id: process_info.parent_process_id,
                        name: process_info.name,
                    },
                ),
                None => {
                    assert(process_info_map@ =~= old(process_info_map)@.remove(process_id));
                    None
                },
            }
        },
        KillOutput::MaybeAlreadyTerminated { process_id, source } => Some(
            Output::MaybeAlreadyTerminated { process_id, source },
        ),
    }
}

/// The process id that an attempt speaks of.
pub open spec fn attempt_id(attempt: KillOutputView) -> ProcessId {
    match attempt {
        KillOutputView::Killed { process_id } => process_id,
        KillOutputView::MaybeAlreadyTerminated { process_id, .. } => process_id,
    }
}

/// The process id that a report speaks of.
pub open spec fn output_id(output: OutputView) -> ProcessId {
    match output {
        OutputView::Killed { process_id, .. } => process_id,
        OutputView::MaybeAlreadyTerminated { process_id, .. } => process_id,
    }
}

/// Whether every entry stands under its own process id.
pub open spec fn keyed_by_id(infos: Map<ProcessId, ProcessInfo>) -> bool {
    forall|id: ProcessId| #[trigger] infos.contains_key(id) ==> infos[id].process_id == id
}

/// The map of a snapshot holds every entry under its own process id, and
/// holds an id exactly if the snapshot has an entry for it.
pub proof fn lemma_info_map_keyed_by_id(infos: Seq<ProcessInfo>)
    ensures
        keyed_by_id(info_map_of(infos)),
        forall|id: ProcessId| #[trigger]
            info_map_of(infos).contains_key(id) <==> exists|k: int|
                0 <= k < infos.len() && #[trigger] infos[k].process_id == id,
    decreases infos.len(),
{
    if infos.len() > 0 {
        let shorter = infos.drop_last();
        lemma_info_map_keyed_by_id(shorter);
        assert forall|id: ProcessId| #[trigger]
            info_map_of(infos).contains_key(id) <==> exists|k: int|
                0 <= k < infos.len() && #[trigger] infos[k].process_id == id by {
            if info_map_of(shorter).contains_key(id) {
                let k = choose|k: int| 0 <= k < shorter.len() && #[trigger] shorter[k].process_id == id;
                assert(infos[k].process_id == id);
            }
            if exists|k: int| 0 <= k < infos.len() && #[trigger] infos[k].process_id == id {
                let k = choose|k: int| 0 <= k < infos.len() && #[trigger] infos[k].process_id == id;
                if k < shorter.len() {
                    assert(shorter[k].process_id == id);
                }
            }
            assert(infos[infos.len() - 1].process_id == infos.last().process_id);
        }
    }
}

/// Once a terminated process is reported, its entry is used up: a second
/// attempt that claims to have terminated it is not reported.
pub proof fn lemma_entry_used_once(process_id: ProcessId, infos: Map<ProcessId, ProcessInfo>)
    ensures
        report(
            KillOutputView::Killed { process_id },
            left_after(KillOutputView::Killed { process_id }, infos),
        ) is None,
{
}

/// What holds of the reports on a run of attempts: the entries left stand
/// under their own ids, no report of a terminated process speaks of an id
/// that still has an entry, no two such reports speak of the same id, and
/// every report speaks of the id of an attempt.
spec fn reports_state(attempts: Seq<KillOutputView>, infos: Map<ProcessId, ProcessInfo>)
    -> bool {
    let outputs = reports(attempts, infos);
    let left = left_after_all(attempts, infos);
    &&& keyed_by_id(left)
    &&& forall|i: int|
        0 <= i < outputs.len() && #[trigger] outputs[i] is Killed ==> !left.contains_key(
            output_id(outputs[i]),
        )
    &&& forall|i: int, j: int|
        0 <= i < j < outputs.len() && #[trigger] outputs[i] is Killed && #[trigger] outputs[j] is Killed
            ==> output_id(outputs[i]) != output_id(outputs[j])
    &&& forall|i: int|
        0 <= i < outputs.len() ==> exists|k: int|
            0 <= k < attempts.len() && attempt_id(#[trigger] attempts[k]) == output_id(
                #[trigger] outputs[i],
            )
}

/// The reports on a run of attempts are in that state.
proof fn lemma_reports_state(attempts: Seq<KillOutputView>, infos: Map<ProcessId, ProcessInfo>)
    requires
        keyed_by_id(infos),
    ensures
        reports_state(attempts, infos),
    decreases attempts.len(),
{
    if attempts.len() > 0 {
        let shorter = attempts.drop_last();
        lemma_reports_state(shorter, infos);
        let earlier = reports(shorter, infos);
        let before = left_after_all(shorter, infos);
        let outputs = reports(attempts, infos);
        let left = left_after_all(attempts, infos);
        let last = attempts.len() - 1;
        assert(attempts[last] == attempts.last());
        assert forall|i: int| 0 <= i < outputs.len() implies exists|k: int|
            0 <= k < attempts.len() && attempt_id(#[trigger] attempts[k]) == output_id(
                #[trigger] outputs[i],
            ) by {
            if i < earlier.len() {
                assert(outputs[i] == earlier[i]);
                let k = choose|k: int|
                    0 <= k < shorter.len() && attempt_id(#[trigger] shorter[k]) == output_id(
                        earlier[i],
                    );
                assert(attempts[k] == shorter[k]);
            } else {
                assert(attempt_id(attempts[last]) == output_id(outputs[i]));
            }
        }
        assert forall|i: int|
            0 <= i < outputs.len() && #[trigger] outputs[i] is Killed implies !left.contains_key(
            output_id(outputs[i]),
        ) by {
            if i < earlier.len() {
                assert(outputs[i] == earlier[i]);
            }
        }
        assert forall|i: int, j: int|
            0 <= i < j < outputs.len() && #[trigger] outputs[i] is Killed && #[trigger] outputs[j] is Killed implies output_id(
            outputs[i],
        ) != output_id(outputs[j]) by {
            assert(outputs[i] == earlier[i]);
            if j < earlier.len() {
                assert(outputs[j] == earlier[j]);
            }
        }
    }
}

/// No process is reported as terminated twice, however often the attempts
/// name it.
pub proof fn lemma_killed_reported_once(
    attempts: Seq<KillOutputView>,
    infos: Map<ProcessId, ProcessInfo>,
)
    requires
        keyed_by_id(infos),
    ensures
        forall|i: int, j: int|
            0 <= i < j < reports(attempts, infos).len() && #[trigger] reports(
                attempts,
                infos,
            )[i] is Killed && #[trigger] reports(attempts, infos)[j] is Killed ==> output_id(
                reports(attempts, infos)[i],
            ) != output_id(reports(attempts, infos)[j]),
{
    lemma_reports_state(attempts, infos);
}

/// Where every attempt speaks of an id of `ids`, so does every report.
pub proof fn lemma_reports_within(
    attempts: Seq<KillOutputView>,
    infos: Map<ProcessId, ProcessInfo>,
    ids: Seq<ProcessId>,
)
    requires
        keyed_by_id(infos),
        forall|k: int| 0 <= k < attempts.len() ==> ids.contains(attempt_id(#[trigger] attempts[k])),
    ensures
        forall|i: int|
            0 <= i < reports(attempts, infos).len() ==> ids.contains(
                output_id(#[trigger] reports(attempts, infos)[i]),
            ),
{
    lemma_reports_state(attempts, infos);
    let outputs = reports(attempts, infos);
    assert forall|i: int| 0 <= i < outputs.len() implies ids.contains(
        output_id(#[trigger] outputs[i]),
    ) by {
        let k = choose|k: int|
            0 <= k < attempts.len() && attempt_id(#[trigger] attempts[k]) == output_id(outputs[i]);
        assert(ids.contains(attempt_id(attempts[k])));
    }
}

/// Without the target included, no report speaks of the target, as long as
/// every attempt speaks of an id of the kill order.
pub proof fn lemma_target_not_reported(
    attempts: Seq<KillOutputView>,
    snapshot: Seq<ProcessInfo>,
    target: ProcessId,
)
    requires
        forall|k: int|
            0 <= k < attempts.len() ==> kill_order(snapshot, target, false).contains(
                attempt_id(#[trigger] attempts[k]),
            ),
    ensures
        !kill_order(snapshot, target, false).contains(target),
        forall|i: int|
            0 <= i < reports(attempts, info_map_of(snapshot)).len() ==> output_id(
                #[trigger] reports(attempts, info_map_of(snapshot))[i],
            ) != target,
{
    let graph = child_graph(snapshot, self_parented(snapshot));
    let order = discovery_order(graph, target, false);
    let backwards = kill_order(snapshot, target, false);
    crate::reach::lemma_target_left_out(graph, target);
    if backwards.contains(target) {
        let i = choose|i: int| 0 <= i < backwards.len() && backwards[i] == target;
        assert(order[order.len() - 1 - i] == target);
    }
    lemma_info_map_keyed_by_id(snapshot);
    lemma_reports_within(attempts, info_map_of(snapshot), backwards);
}

/// The order in which the processes of a snapshot are terminated for a
/// target: the discovery order backwards, so that a process comes after its
/// descendants.
pub open spec fn kill_order(
    infos: Seq<ProcessInfo>,
    target: ProcessId,
    include_target: bool,
) -> Seq<ProcessId> {
    discovery_order(child_graph(infos, self_parented(infos)), target, include_target).reverse()
}

/// Computes the order in which the processes of a snapshot are terminated
/// for a target: children before parents, the target last where it is
/// included.
pub fn get_kill_order(
    process_id: ProcessId,
    config: &Config,
    process_infos: &ProcessInfos,
) -> (order: ProcessIds)
    ensures
        order@ == kill_order(process_infos@, process_id, config.include_target),
{
    let child_process_id_map = get_child_process_id_map(
        process_infos,
        child_process_id_map_filter,
    );
    proof {
        let answers = choose|answers: Seq<bool>| #[trigger]
            filter_answers(child_process_id_map_filter, process_infos@, answers) && graph_of(
                child_process_id_map@,
            ) == child_graph(process_infos@, answers);
        assert(answers =~= self_parented(process_infos@));
    }
    let discovered = get_process_ids_to_kill(process_id, &child_process_id_map, config);
    let mut order: ProcessIds = Vec::new();
    let mut left: usize = discovered.len();
    while left > 0
        invariant
            left <= discovered.len(),
            order@.len() == discovered.len() - left,
            forall|k: int|
                0 <= k < order@.len() ==> order@[k] == discovered@[discovered.len() - 1 - k],
        decreases left,
    {
        left -= 1;
        order.push(discovered[left]);
    }
    assert(order@ =~= discovered@.reverse());
    order
}

/// The views of a run of attempts.
pub open spec fn attempt_views(attempts: Seq<KillOutput>) -> Seq<KillOutputView> {
    attempts.map_values(|attempt: KillOutput| attempt@)
}

/// Whether `attempts` are what the killer answered, in turn, when it was
/// asked to terminate the first ids of `ids`, one attempt for each.
pub open spec fn answered<K: Killable>(
    killer: &K,
    ids: Seq<ProcessId>,
    attempts: Seq<KillOutput>,
) -> bool {
    &&& attempts.len() <= ids.len()
    &&& forall|k: int|
        0 <= k < attempts.len() ==> call_ensures(
            K::kill,
            (killer, ids[k]),
            Ok::<KillOutput, Error>(#[trigger] attempts[k]),
        )
}

/// Terminates the tree of `process_id` as the snapshot `process_infos` shows
/// it. The killer is asked for each id of `kill_order` in turn, and each of
/// its answers is reported as `reports` says. The first error of the killer
/// ends the work: no further id is tried, and the error is returned in place
/// of the reports.
pub fn kill_tree_internal<K: Killable>(
    process_id: ProcessId,
    config: &Config,
    process_infos: ProcessInfos,
    killer: &K,
) -> (result: Result<Outputs, Error>)
    ensures
        match result {
            Ok(outputs) => exists|attempts: Seq<KillOutput>|
                {
                    &&& attempts.len() == kill_order(
                        process_infos@,
                        process_id,
                        config.include_target,
                    ).len()
                    &&& #[trigger] answered(
                        killer,
                        kill_order(process_infos@, process_id, config.include_target),
                        attempts,
                    )
                    &&& output_views(outputs@) == reports(
                        attempt_views(attempts),
                        info_map_of(process_infos@),
                    )
                },
            Err(error) => exists|attempts: Seq<KillOutput>|
                {
                    &&& attempts.len() < kill_order(
                        process_infos@,
                        process_id,
                        config.include_target,
                    ).len()
                    &&& #[trigger] answered(
                        killer,
                        kill_order(process_infos@, process_id, config.include_target),
                        attempts,
                    )
                    &&& call_ensures(
                        K::kill,
                        (
                            killer,
                            kill_order(
                                process_infos@,
                                process_id,
                                config.include_target,
                            )[attempts.len() as int],
                        ),
                        Err::<KillOutput, Error>(error),
                    )
                },
        },
{
    let order = get_kill_order(process_id, config, &process_infos);
    let ghost snapshot = process_infos@;
    let ghost infos = info_map_of(snapshot);
    let mut outputs: Outputs = Vec::new();
    let mut process_info_map = get_process_info_map(process_infos);
    let ghost mut attempts: Seq<KillOutput> = Seq::empty();
    let mut at: usize = 0;
    assert(output_views(outputs@) =~= reports(attempt_views(attempts), infos));
    while at < order.len()
        invariant
            at <= order.len(),
            snapshot == process_infos@,
            infos == info_map_of(snapshot),
            order@ == kill_order(snapshot, process_id, config.include_target),
            attempts.len() == at,
            answered(killer, order@, attempts),
            output_views(outputs@) == reports(attempt_views(attempts), infos),
            process_info_map@ == left_after_all(attempt_views(attempts), infos),
        decreases order.len() - at,
    {
        let kill_output = match killer.kill(order[at]) {
            Ok(kill_output) => kill_output,
            Err(error) => {
                return Err(error);
            },
        };
        let ghost earlier = attempts;
        let ghost reported = outputs@;
        proof {
            attempts = attempts.push(kill_output);
            assert(attempt_views(attempts).drop_last() =~= attempt_views(earlier));
            assert(attempt_views(attempts).last() == kill_output@);
        }
        match parse_kill_output(kill_output, &mut process_info_map) {
            Some(output) => {
                outputs.push(output);
                assert(output_views(outputs@) =~= output_views(reported).push(output@));
            },
            None => {},
        }
        at += 1;
    }
    Ok(outputs)
}

} // verus!
