//! What the walk reaches: the discovery order holds the target's tree, each
//! id once, and in a tree it holds every process before its descendants.

use crate::traversal::{
    children_of, discovery_order, enqueue, id_count, lemma_distinct_ids_bounded,
    lemma_enqueue_extends, visited, walk,
};
use crate::tree::{ascending, child_graph, in_ascending_order, listed_children};
use crate::types::{ProcessId, ProcessInfo};
use vstd::prelude::*;

verus! {

/// Whether `path` is a chain in which every id but the first is listed as a
/// child of the one before it.
pub open spec fn is_path(graph: Map<ProcessId, Seq<ProcessId>>, path: Seq<ProcessId>) -> bool {
    &&& path.len() > 0
    &&& forall|k: int|
        #![trigger path[k]]
        0 <= k < path.len() - 1 ==> children_of(graph, path[k]).contains(path[k + 1])
}

/// Whether `to` is `from` itself or can be reached from it by going from
/// parent to child.
pub open spec fn reachable(
    graph: Map<ProcessId, Seq<ProcessId>>,
    from: ProcessId,
    to: ProcessId,
) -> bool {
    exists|path: Seq<ProcessId>| #[trigger]
        is_path(graph, path) && path[0] == from && path.last() == to
}

/// Whether `id` is a proper descendant of `ancestor`: a child of it, or a
/// child of a proper descendant of it.
pub open spec fn is_descendant(
    graph: Map<ProcessId, Seq<ProcessId>>,
    ancestor: ProcessId,
    id: ProcessId,
) -> bool {
    exists|path: Seq<ProcessId>| #[trigger]
        is_path(graph, path) && path.len() >= 2 && path[0] == ancestor && path.last() == id
}

/// Whether no id is listed as a child of two parents.
pub open spec fn single_parent(graph: Map<ProcessId, Seq<ProcessId>>) -> bool {
    forall|p: ProcessId, q: ProcessId, c: ProcessId|
        #[trigger] children_of(graph, p).contains(c) && #[trigger] children_of(graph, q).contains(
            c,
        ) ==> p == q
}

/// Whether the graph below `target` is a tree: no id has two parents, and
/// the target is not among its own descendants.
pub open spec fn is_tree_from(graph: Map<ProcessId, Seq<ProcessId>>, target: ProcessId) -> bool {
    single_parent(graph) && !is_descendant(graph, target, target)
}

/// Whether every id of `order` can be reached from `target`.
pub open spec fn all_reachable(
    graph: Map<ProcessId, Seq<ProcessId>>,
    target: ProcessId,
    order: Seq<ProcessId>,
) -> bool {
    forall|j: int| 0 <= j < order.len() ==> reachable(graph, target, #[trigger] order[j])
}

/// Whether `order` holds the children of each of its first `at` ids.
pub open spec fn children_enqueued(
    graph: Map<ProcessId, Seq<ProcessId>>,
    order: Seq<ProcessId>,
    at: int,
) -> bool {
    forall|k: int, c: ProcessId|
        0 <= k < at && k < order.len() && #[trigger] children_of(graph, order[k]).contains(c)
            ==> order.contains(c)
}

/// Whether the id at index `j` of `order` is listed as a child of an id
/// before it.
pub open spec fn has_discoverer(
    graph: Map<ProcessId, Seq<ProcessId>>,
    order: Seq<ProcessId>,
    j: int,
) -> bool {
    exists|k: int| 0 <= k < j && #[trigger] children_of(graph, order[k]).contains(order[j])
}

/// What holds of the walk at every step.
pub open spec fn walk_state(
    graph: Map<ProcessId, Seq<ProcessId>>,
    target: ProcessId,
    order: Seq<ProcessId>,
    at: int,
) -> bool {
    &&& 0 <= at <= order.len()
    &&& order.len() > 0
    &&& order[0] == target
    &&& order.no_duplicates()
    &&& all_reachable(graph, target, order)
    &&& children_enqueued(graph, order, at)
    &&& forall|j: int| 1 <= j < order.len() ==> #[trigger] has_discoverer(graph, order, j)
}

/// A child of an id that can be reached can be reached.
pub proof fn lemma_reach_child(
    graph: Map<ProcessId, Seq<ProcessId>>,
    from: ProcessId,
    parent: ProcessId,
    child: ProcessId,
)
    requires
        reachable(graph, from, parent),
        children_of(graph, parent).contains(child),
    ensures
        reachable(graph, from, child),
        is_descendant(graph, from, child),
{
    let path = choose|path: Seq<ProcessId>| #[trigger]
        is_path(graph, path) && path[0] == from && path.last() == parent;
    let longer = path.push(child);
    assert forall|k: int| #![trigger longer[k]] 0 <= k < longer.len() - 1 implies children_of(
        graph,
        longer[k],
    ).contains(longer[k + 1]) by {
        if k < path.len() - 1 {
            assert(longer[k] == path[k]);
            assert(longer[k + 1] == path[k + 1]);
        } else {
            assert(longer[k] == parent);
            assert(longer[k + 1] == child);
        }
    }
    assert(is_path(graph, longer) && longer[0] == from && longer.last() == child);
}

/// One step of the walk keeps what holds of it.
proof fn lemma_walk_step(
    graph: Map<ProcessId, Seq<ProcessId>>,
    target: ProcessId,
    order: Seq<ProcessId>,
    at: int,
)
    requires
        walk_state(graph, target, order, at),
        at < order.len(),
    ensures
        walk_state(graph, target, enqueue(order, children_of(graph, order[at])), at + 1),
{
    let parent = order[at];
    let children = children_of(graph, parent);
    let next = enqueue(order, children);
    lemma_enqueue_extends(order, children);
    assert forall|j: int| 0 <= j < next.len() implies reachable(
        graph,
        target,
        #[trigger] next[j],
    ) by {
        assert(next.contains(next[j]));
        if order.contains(next[j]) {
            let i = choose|i: int| 0 <= i < order.len() && order[i] == next[j];
            assert(reachable(graph, target, order[i]));
        } else {
            assert(reachable(graph, target, order[at]));
            lemma_reach_child(graph, target, parent, next[j]);
        }
    }
    assert forall|k: int, c: ProcessId|
        0 <= k < at + 1 && k < next.len() && #[trigger] children_of(graph, next[k]).contains(
            c,
        ) implies next.contains(c) by {
        assert(next[k] == order[k]);
        if k < at {
            assert(order.contains(c));
        }
    }
    assert forall|j: int| 1 <= j < next.len() implies #[trigger] has_discoverer(
        graph,
        next,
        j,
    ) by {
        if j < order.len() {
            assert(has_discoverer(graph, order, j));
            let k = choose|k: int|
                0 <= k < j && #[trigger] children_of(graph, order[k]).contains(order[j]);
            assert(next[k] == order[k]);
            assert(next[j] == order[j]);
            assert(children_of(graph, next[k]).contains(next[j]));
        } else {
            assert(next.contains(next[j]));
            if order.contains(next[j]) {
                let i = choose|i: int| 0 <= i < order.len() && order[i] == next[j];
                assert(next[i] == order[i]);
            }
            assert(next[at] == parent);
            assert(children_of(graph, next[at]).contains(next[j]));
        }
    }
}

/// The walk ends in a list that holds the children of every id in it.
pub proof fn lemma_walk_closes(
    graph: Map<ProcessId, Seq<ProcessId>>,
    target: ProcessId,
    order: Seq<ProcessId>,
    at: nat,
)
    requires
        walk_state(graph, target, order, at as int),
    ensures
        walk_state(graph, target, walk(graph, order, at), walk(graph, order, at).len() as int),
    decreases id_count() - at,
{
    lemma_distinct_ids_bounded(order);
    if at < order.len() {
        let next = enqueue(order, children_of(graph, order[at as int]));
        lemma_walk_step(graph, target, order, at as int);
        lemma_walk_closes(graph, target, next, at + 1);
    } else {
        assert(walk(graph, order, at) == order);
    }
}

/// What holds of the list of visited ids.
pub proof fn lemma_visited_state(graph: Map<ProcessId, Seq<ProcessId>>, target: ProcessId)
    ensures
        walk_state(graph, target, visited(graph, target), visited(graph, target).len() as int),
{
    let start = seq![target];
    assert(is_path(graph, start) && start[0] == target && start.last() == target);
    assert(reachable(graph, target, target));
    assert(walk_state(graph, target, start, 0));
    lemma_walk_closes(graph, target, start, 0);
}

/// A list that holds the children of each of its ids holds every path that
/// starts in it.
proof fn lemma_closed_holds_path(
    graph: Map<ProcessId, Seq<ProcessId>>,
    order: Seq<ProcessId>,
    path: Seq<ProcessId>,
    upto: int,
)
    requires
        children_enqueued(graph, order, order.len() as int),
        is_path(graph, path),
        order.contains(path[0]),
        0 <= upto < path.len(),
    ensures
        order.contains(path[upto]),
    decreases upto,
{
    if upto > 0 {
        lemma_closed_holds_path(graph, order, path, upto - 1);
        let k = choose|k: int| 0 <= k < order.len() && order[k] == path[upto - 1];
        assert(children_of(graph, path[upto - 1]).contains(path[upto - 1 + 1]));
        assert(children_of(graph, order[k]).contains(path[upto]));
    }
}

/// The walk visits every id that can be reached from the target, no other,
/// and none twice.
pub proof fn lemma_visits_reachable_once(graph: Map<ProcessId, Seq<ProcessId>>, target: ProcessId)
    ensures
        visited(graph, target).no_duplicates(),
        visited(graph, target).len() > 0,
        visited(graph, target)[0] == target,
        forall|id: ProcessId| #[trigger]
            visited(graph, target).contains(id) <==> reachable(graph, target, id),
{
    let order = visited(graph, target);
    lemma_visited_state(graph, target);
    assert forall|id: ProcessId| reachable(graph, target, id) implies order.contains(id) by {
        let path = choose|path: Seq<ProcessId>| #[trigger]
            is_path(graph, path) && path[0] == target && path.last() == id;
        assert(order[0] == target);
        lemma_closed_holds_path(graph, order, path, path.len() - 1);
    }
    assert forall|id: ProcessId| order.contains(id) implies reachable(graph, target, id) by {
        let j = choose|j: int| 0 <= j < order.len() && order[j] == id;
        assert(reachable(graph, target, order[j]));
    }
}

/// The discovery order holds every id that can be reached from the target,
/// but for the target where it is left out, and no other, and none twice.
pub proof fn lemma_discovery_order_is_tree(
    graph: Map<ProcessId, Seq<ProcessId>>,
    target: ProcessId,
    include_target: bool,
)
    ensures
        discovery_order(graph, target, include_target).no_duplicates(),
        forall|id: ProcessId| #[trigger]
            discovery_order(graph, target, include_target).contains(id) <==> reachable(
                graph,
                target,
                id,
            ) && (include_target || id != target),
{
    let all = visited(graph, target);
    let order = discovery_order(graph, target, include_target);
    lemma_visits_reachable_once(graph, target);
    if !include_target {
        assert forall|id: ProcessId| order.contains(id) <==> all.contains(id) && id != target by {
            if order.contains(id) {
                let j = choose|j: int| 0 <= j < order.len() && order[j] == id;
                assert(all[j + 1] == id);
            }
            if all.contains(id) && id != target {
                let j = choose|j: int| 0 <= j < all.len() && all[j] == id;
                assert(order[j - 1] == id);
            }
        }
    }
}

/// Without the target included, the discovery order lacks the target and
/// still holds each of its children.
pub proof fn lemma_target_left_out(graph: Map<ProcessId, Seq<ProcessId>>, target: ProcessId)
    ensures
        !discovery_order(graph, target, false).contains(target),
        forall|child: ProcessId|
            children_of(graph, target).contains(child) && child != target ==> discovery_order(
                graph,
                target,
                false,
            ).contains(child),
{
    lemma_discovery_order_is_tree(graph, target, false);
    let order = discovery_order(graph, target, false);
    assert(order.contains(target) <==> reachable(graph, target, target) && target != target);
    assert forall|child: ProcessId|
        children_of(graph, target).contains(child) && child != target implies discovery_order(
        graph,
        target,
        false,
    ).contains(child) by {
        let start = seq![target];
        assert(is_path(graph, start) && start[0] == target && start.last() == target);
        lemma_reach_child(graph, target, target, child);
    }
}

/// In a tree, the walk discovers a child after its parent.
proof fn lemma_child_after_parent(
    graph: Map<ProcessId, Seq<ProcessId>>,
    target: ProcessId,
    i: int,
    child: ProcessId,
) -> (j: int)
    requires
        is_tree_from(graph, target),
        0 <= i < visited(graph, target).len(),
        children_of(graph, visited(graph, target)[i]).contains(child),
    ensures
        i < j < visited(graph, target).len(),
        visited(graph, target)[j] == child,
{
    let order = visited(graph, target);
    lemma_visited_state(graph, target);
    assert(order.contains(child));
    let j = choose|j: int| 0 <= j < order.len() && order[j] == child;
    if j == 0 {
        assert(reachable(graph, target, order[i]));
        lemma_reach_child(graph, target, order[i], child);
        assert(false);
    } else {
        assert(has_discoverer(graph, order, j));
        let k = choose|k: int|
            0 <= k < j && #[trigger] children_of(graph, order[k]).contains(order[j]);
        assert(order[k] == order[i]);
    }
    j
}

/// In a tree, the walk discovers the end of a path no earlier than its
/// start, and later where the path has a step.
proof fn lemma_path_end_later(
    graph: Map<ProcessId, Seq<ProcessId>>,
    target: ProcessId,
    path: Seq<ProcessId>,
    i: int,
) -> (j: int)
    requires
        is_tree_from(graph, target),
        is_path(graph, path),
        0 <= i < visited(graph, target).len(),
        visited(graph, target)[i] == path[0],
    ensures
        i <= j < visited(graph, target).len(),
        visited(graph, target)[j] == path.last(),
        path.len() >= 2 ==> i < j,
    decreases path.len(),
{
    if path.len() == 1 {
        i
    } else {
        let shorter = path.drop_last();
        assert forall|k: int| #![trigger shorter[k]] 0 <= k < shorter.len() - 1 implies children_of(
            graph,
            shorter[k],
        ).contains(shorter[k + 1]) by {
            assert(shorter[k] == path[k]);
            assert(shorter[k + 1] == path[k + 1]);
        }
        let before = lemma_path_end_later(graph, target, shorter, i);
        let k = path.len() - 2;
        assert(shorter.last() == path[k]);
        assert(children_of(graph, path[k]).contains(path[k + 1]));
        lemma_child_after_parent(graph, target, before, path.last())
    }
}

/// In a tree, the discovery order holds every process before each of its
/// proper descendants.
pub proof fn lemma_parents_before_children(
    graph: Map<ProcessId, Seq<ProcessId>>,
    target: ProcessId,
    include_target: bool,
)
    requires
        is_tree_from(graph, target),
    ensures
        forall|a: int, b: int|
            #![trigger discovery_order(graph, target, include_target)[a], discovery_order(graph, target, include_target)[b]]
            0 <= a < discovery_order(graph, target, include_target).len() && 0 <= b
                < discovery_order(graph, target, include_target).len() && is_descendant(
                graph,
                discovery_order(graph, target, include_target)[a],
                discovery_order(graph, target, include_target)[b],
            ) ==> a < b,
{
    let all = visited(graph, target);
    let order = discovery_order(graph, target, include_target);
    let shift: int = if include_target {
        0
    } else {
        1
    };
    lemma_visits_reachable_once(graph, target);
    assert forall|a: int, b: int|
        #![trigger order[a], order[b]]
        0 <= a < order.len() && 0 <= b < order.len() && is_descendant(
            graph,
            order[a],
            order[b],
        ) implies a < b by {
        let path = choose|path: Seq<ProcessId>| #[trigger]
            is_path(graph, path) && path.len() >= 2 && path[0] == order[a] && path.last()
                == order[b];
        assert(all[a + shift] == order[a]);
        assert(all[b + shift] == order[b]);
        let j = lemma_path_end_later(graph, target, path, a + shift);
        assert(all[j] == all[b + shift]);
    }
}

/// In a tree, the discovery order taken backwards holds every proper
/// descendant of a process before that process.
pub proof fn lemma_children_before_parents(
    graph: Map<ProcessId, Seq<ProcessId>>,
    target: ProcessId,
    include_target: bool,
)
    requires
        is_tree_from(graph, target),
    ensures
        forall|i: int, j: int|
            #![trigger discovery_order(graph, target, include_target).reverse()[i], discovery_order(graph, target, include_target).reverse()[j]]
            0 <= i < discovery_order(graph, target, include_target).len() && 0 <= j
                < discovery_order(graph, target, include_target).len() && is_descendant(
                graph,
                discovery_order(graph, target, include_target).reverse()[j],
                discovery_order(graph, target, include_target).reverse()[i],
            ) ==> i < j,
{
    let order = discovery_order(graph, target, include_target);
    let backwards = order.reverse();
    lemma_parents_before_children(graph, target, include_target);
    assert forall|i: int, j: int|
        #![trigger backwards[i], backwards[j]]
        0 <= i < order.len() && 0 <= j < order.len() && is_descendant(
            graph,
            backwards[j],
            backwards[i],
        ) implies i < j by {
        let a = order.len() - 1 - j;
        let b = order.len() - 1 - i;
        assert(order[a] == backwards[j]);
        assert(order[b] == backwards[i]);
    }
}

/// The ascending order of a list exists: it is ascending and holds the ids
/// of the list, each as often.
pub proof fn lemma_ascending_order_exists(ids: Seq<ProcessId>)
    ensures
        ascending(in_ascending_order(ids)),
        in_ascending_order(ids).to_multiset() == ids.to_multiset(),
{
    let leq = |x: ProcessId, y: ProcessId| x <= y;
    assert(vstd::relations::total_ordering(leq));
    ids.lemma_sort_by_ensures(leq);
    let sorted = ids.sort_by(leq);
    assert(ascending(sorted)) by {
        assert forall|i: int, j: int| 0 <= i < j < sorted.len() implies sorted[i] <= sorted[j] by {
            assert(leq(sorted[i], sorted[j]));
        }
    }
    assert(ascending(sorted) && sorted.to_multiset() == ids.to_multiset());
}

/// An id is listed under a parent exactly if the snapshot has an entry with
/// that id and that parent which is not left out.
pub proof fn lemma_listed_children(
    infos: Seq<ProcessInfo>,
    excluded: Seq<bool>,
    parent: ProcessId,
    child: ProcessId,
)
    ensures
        listed_children(infos, excluded, parent).contains(child) <==> exists|k: int|
            0 <= k < infos.len() && (#[trigger] infos[k]).process_id == child
                && infos[k].parent_process_id == parent && !excluded[k],
    decreases infos.len(),
{
    if infos.len() > 0 {
        let shorter = infos.drop_last();
        let before = listed_children(shorter, excluded, parent);
        let listed = listed_children(infos, excluded, parent);
        let last = infos.len() - 1;
        lemma_listed_children(shorter, excluded, parent, child);
        assert(infos[last] == infos.last());
        if listed.contains(child) {
            let i = choose|i: int| 0 <= i < listed.len() && listed[i] == child;
            if i < before.len() {
                assert(before[i] == child);
                let k = choose|k: int|
                    0 <= k < shorter.len() && (#[trigger] shorter[k]).process_id == child
                        && shorter[k].parent_process_id == parent && !excluded[k];
                assert(infos[k] == shorter[k]);
            }
        }
        if exists|k: int|
            0 <= k < infos.len() && (#[trigger] infos[k]).process_id == child
                && infos[k].parent_process_id == parent && !excluded[k] {
            let k = choose|k: int|
                0 <= k < infos.len() && (#[trigger] infos[k]).process_id == child
                    && infos[k].parent_process_id == parent && !excluded[k];
            if k < last {
                assert(shorter[k] == infos[k]);
                let i = choose|i: int| 0 <= i < before.len() && before[i] == child;
                assert(listed[i] == child);
            } else {
                assert(listed[listed.len() - 1] == child);
            }
        }
    }
}

/// The graph of a snapshot has an edge from a parent to a child exactly if
/// the snapshot has an entry with that id and that parent which is not left
/// out.
pub proof fn lemma_child_graph_edges(
    infos: Seq<ProcessInfo>,
    excluded: Seq<bool>,
    parent: ProcessId,
    child: ProcessId,
)
    ensures
        children_of(child_graph(infos, excluded), parent).contains(child) <==> exists|k: int|
            0 <= k < infos.len() && (#[trigger] infos[k]).process_id == child
                && infos[k].parent_process_id == parent && !excluded[k],
{
    broadcast use vstd::seq_lib::group_to_multiset_ensures;

    let listed = listed_children(infos, excluded, parent);
    let sorted = in_ascending_order(listed);
    lemma_ascending_order_exists(listed);
    lemma_listed_children(infos, excluded, parent, child);
    assert(sorted.contains(child) <==> listed.contains(child)) by {
        assert(sorted.to_multiset().count(child) == listed.to_multiset().count(child));
    }
    if listed.len() == 0 {
        assert(!listed.contains(child));
    }
}

/// Where no two entries of a snapshot carry one process id, no id has two
/// parents in its graph.
pub proof fn lemma_unique_ids_single_parent(infos: Seq<ProcessInfo>, excluded: Seq<bool>)
    requires
        forall|i: int, j: int|
            0 <= i < j < infos.len() ==> (#[trigger] infos[i]).process_id
                != (#[trigger] infos[j]).process_id,
    ensures
        single_parent(child_graph(infos, excluded)),
{
    let graph = child_graph(infos, excluded);
    assert forall|p: ProcessId, q: ProcessId, c: ProcessId|
        #[trigger] children_of(graph, p).contains(c) && #[trigger] children_of(graph, q).contains(
            c,
        ) implies p == q by {
        lemma_child_graph_edges(infos, excluded, p, c);
        lemma_child_graph_edges(infos, excluded, q, c);
        let i = choose|k: int|
            0 <= k < infos.len() && (#[trigger] infos[k]).process_id == c
                && infos[k].parent_process_id == p && !excluded[k];
        let j = choose|k: int|
            0 <= k < infos.len() && (#[trigger] infos[k]).process_id == c
                && infos[k].parent_process_id == q && !excluded[k];
        if i < j {
            assert(infos[i].process_id != infos[j].process_id);
        } else if j < i {
            assert(infos[j].process_id != infos[i].process_id);
        }
    }
}

} // verus!
