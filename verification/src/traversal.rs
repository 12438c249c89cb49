//! The breadth-first walk from a target over the child index, which gives the
//! order in which processes are discovered.

use crate::tree::graph_of;
use crate::types::{ChildProcessIdMap, Config, ProcessId, ProcessIds};
use std::collections::{HashSet, VecDeque};
use vstd::prelude::*;

verus! {

broadcast use vstd::std_specs::hash::group_hash_axioms;

/// The children that `graph` lists under `id`; none where `id` is no key.
pub open spec fn children_of(graph: Map<ProcessId, Seq<ProcessId>>, id: ProcessId) -> Seq<
    ProcessId,
> {
    if graph.contains_key(id) {
        graph[id]
    } else {
        Seq::empty()
    }
}

/// `order` with each id of `children` put at its end, in turn, unless it is
/// there already.
pub open spec fn enqueue(order: Seq<ProcessId>, children: Seq<ProcessId>) -> Seq<ProcessId>
    decreases children.len(),
{
    if children.len() == 0 {
        order
    } else {
        let earlier = enqueue(order, children.drop_last());
        if earlier.contains(children.last()) {
            earlier
        } else {
            earlier.push(children.last())
        }
    }
}

/// The number of values that a process id can take.
pub open spec fn id_count() -> int {
    0x1_0000_0000
}

/// A list that holds no process id twice is no longer than there are ids.
pub proof fn lemma_distinct_ids_bounded(ids: Seq<ProcessId>)
    requires
        ids.no_duplicates(),
    ensures
        ids.len() <= id_count(),
{
    let numbers = ids.map_values(|id: ProcessId| id as int);
    assert(numbers.no_duplicates());
    numbers.unique_seq_to_set();
    let all = vstd::set_lib::set_int_range(0, id_count());
    vstd::set_lib::lemma_int_range(0, id_count());
    assert(numbers.to_set().subset_of(all)) by {
        assert forall|n: int| numbers.to_set().contains(n) implies all.contains(n) by {
            let k = choose|k: int| 0 <= k < numbers.len() && numbers[k] == n;
            assert(numbers[k] == ids[k] as int);
        }
    }
    vstd::set_lib::lemma_len_subset(numbers.to_set(), all);
}

/// Enqueueing keeps what was there, in place, and adds no id twice.
pub proof fn lemma_enqueue_extends(order: Seq<ProcessId>, children: Seq<ProcessId>)
    ensures
        order.is_prefix_of(enqueue(order, children)),
        order.no_duplicates() ==> enqueue(order, children).no_duplicates(),
        forall|id: ProcessId|
            enqueue(order, children).contains(id) <==> order.contains(id) || children.contains(id),
    decreases children.len(),
{
    if children.len() > 0 {
        let shorter = children.drop_last();
        let earlier = enqueue(order, shorter);
        let longer = enqueue(order, children);
        lemma_enqueue_extends(order, shorter);
        assert forall|id: ProcessId|
            longer.contains(id) <==> order.contains(id) || children.contains(id) by {
            if children.contains(id) {
                let k = choose|k: int| 0 <= k < children.len() && children[k] == id;
                if k < shorter.len() {
                    assert(shorter[k] == id);
                }
            }
            if shorter.contains(id) {
                let k = choose|k: int| 0 <= k < shorter.len() && shorter[k] == id;
                assert(children[k] == id);
            }
            if earlier.contains(id) {
                let k = choose|k: int| 0 <= k < earlier.len() && earlier[k] == id;
                assert(longer[k] == id);
            }
            if !earlier.contains(children.last()) {
                assert(longer[earlier.len() as int] == children.last());
            }
            assert(children[children.len() - 1] == children.last());
        }
    }
}

/// The breadth-first walk. `order` holds the ids discovered so far, each
/// once, and those before index `at` have had their children enqueued. The
/// walk takes the id at `at`, enqueues its children, and goes on with the
/// next, until no id is left.
pub open spec fn walk(graph: Map<ProcessId, Seq<ProcessId>>, order: Seq<ProcessId>, at: nat) -> Seq<
    ProcessId,
>
    decreases id_count() - at,
    when order.no_duplicates() && at <= order.len()
{
    if at >= order.len() {
        order
    } else {
        proof {
            lemma_distinct_ids_bounded(order);
        }
        walk(graph, enqueue(order, children_of(graph, order[at as int])), at + 1)
    }
}

/// Every id that the walk from `target` reaches, in the order of discovery:
/// the target first, then its children, then theirs, level by level.
pub open spec fn visited(graph: Map<ProcessId, Seq<ProcessId>>, target: ProcessId) -> Seq<
    ProcessId,
> {
    walk(graph, seq![target], 0)
}

/// The discovery order: what the walk from `target` visits, without the
/// target itself unless `include_target` asks for it.
pub open spec fn discovery_order(
    graph: Map<ProcessId, Seq<ProcessId>>,
    target: ProcessId,
    include_target: bool,
) -> Seq<ProcessId> {
    if include_target {
        visited(graph, target)
    } else {
        visited(graph, target).drop_first()
    }
}

/// Walks the child index breadth first from `target_process_id`, with a
/// first-in-first-out queue, and returns the ids in the order of discovery.
/// An id is taken up once, however often the index lists it.
pub fn get_process_ids_to_kill(
    target_process_id: ProcessId,
    child_process_id_map: &ChildProcessIdMap,
    config: &Config,
) -> (process_ids_to_kill: ProcessIds)
    ensures
        process_ids_to_kill@ == discovery_order(
            graph_of(child_process_id_map@),
            target_process_id,
            config.include_target,
        ),
{
    let ghost graph = graph_of(child_process_id_map@);
    let ghost first: int = if config.include_target {
        0
    } else {
        1
    };
    let mut process_ids_to_kill: ProcessIds = Vec::new();
    let mut queue: VecDeque<ProcessId> = VecDeque::new();
    let mut seen: HashSet<ProcessId> = HashSet::new();
    queue.push_back(target_process_id);
    seen.insert(target_process_id);
    let ghost mut order: Seq<ProcessId> = seq![target_process_id];
    let ghost mut at: int = 0;
    assert(queue@ =~= order.skip(0));
    assert(seen@ =~= order.to_set()) by {
        assert(order[0] == target_process_id);
    }
    while queue.len() > 0
        invariant
            0 <= at <= order.len(),
            order.len() > 0,
            order[0] == target_process_id,
            order.no_duplicates(),
            seen@ == order.to_set(),
            queue@ == order.skip(at),
            graph == graph_of(child_process_id_map@),
            first == if config.include_target { 0int } else { 1int },
            walk(graph, order, at as nat) == visited(graph, target_process_id),
            at == 0 ==> process_ids_to_kill@.len() == 0,
            at > 0 ==> process_ids_to_kill@ == order.subrange(first, at),
        decreases id_count() - at,
    {
        let ghost start = order;
        let ghost found = process_ids_to_kill@;
        proof {
            lemma_distinct_ids_bounded(start);
        }
        match queue.pop_front() {
            Some(process_id) => {
                assert(process_id == start[at]);
                assert(queue@ =~= start.skip(at + 1));
                if process_id == target_process_id {
                    if config.include_target {
                        process_ids_to_kill.push(process_id);
                    }
                } else {
                    process_ids_to_kill.push(process_id);
                }
                assert(process_ids_to_kill@ =~= start.subrange(first, at + 1));
                match child_process_id_map.get(&process_id) {
                    Some(children) => {
                        let mut next: usize = 0;
                        assert(children@.take(0) =~= Seq::empty());
                        while next < children.len()
                            invariant
                                next <= children.len(),
                                0 <= at < start.len(),
                                order == enqueue(start, children@.take(next as int)),
                                seen@ == order.to_set(),
                                queue@ == order.skip(at + 1),
                            decreases children.len() - next,
                        {
                            let child = children[next];
                            let ghost earlier = order;
                            proof {
                                let longer = children@.take(next + 1);
                                assert(longer.drop_last() =~= children@.take(next as int));
                                assert(longer.last() == child);
                                lemma_enqueue_extends(start, children@.take(next as int));
                            }
                            if !seen.contains(&child) {
                                seen.insert(child);
                                queue.push_back(child);
                                proof {
                                    order = earlier.push(child);
                                    assert(start.is_prefix_of(earlier));
                                    assert(queue@ =~= order.skip(at + 1));
                                    assert(seen@ =~= order.to_set()) by {
                                        broadcast use vstd::seq_lib::group_seq_properties;

                                    }
                                }
                            }
                            next += 1;
                        }
                        proof {
                            assert(children@.take(next as int) =~= children@);
                            assert(children_of(graph, process_id) == children@);
                        }
                    },
                    None => {
                        assert(children_of(graph, process_id) =~= Seq::empty());
                    },
                }
                proof {
                    lemma_enqueue_extends(start, children_of(graph, process_id));
                    assert(process_ids_to_kill@ =~= order.subrange(first, at + 1));
                    at = at + 1;
                }
            },
            None => {
                assert(false);
            },
        }
    }
    proof {
        assert(order.skip(at).len() == 0);
        assert(process_ids_to_kill@ =~= discovery_order(
            graph,
            target_process_id,
            config.include_target,
        ));
    }
    process_ids_to_kill
}

} // verus!
