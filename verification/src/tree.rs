//! The tree model: a snapshot of the process table indexed by parent, and by
//! process id.

use crate::types::{ChildProcessIdMap, ProcessId, ProcessInfo, ProcessInfoMap, ProcessInfos};
use std::collections::HashMap;
use vstd::prelude::*;

verus! {

broadcast use {vstd::std_specs::hash::group_hash_axioms, vstd::seq_lib::group_to_multiset_ensures};

/// Whether `answers` holds, for each entry of a snapshot in turn, an answer
/// that `filter` gives when asked whether to leave the entry out.
pub open spec fn filter_answers<F: Fn(&ProcessInfo) -> bool>(
    filter: F,
    infos: Seq<ProcessInfo>,
    answers: Seq<bool>,
) -> bool {
    &&& answers.len() == infos.len()
    &&& forall|k: int|
        0 <= k < infos.len() ==> call_ensures(filter, (&infos[k],), #[trigger] answers[k])
}

/// The ids that a snapshot lists under `parent`, in the order of the
/// snapshot, without the entries that are left out: the entry at index `k` is
/// left out where `excluded[k]` says so.
pub open spec fn listed_children(
    infos: Seq<ProcessInfo>,
    excluded: Seq<bool>,
    parent: ProcessId,
) -> Seq<ProcessId>
    decreases infos.len(),
{
    if infos.len() == 0 {
        Seq::empty()
    } else {
        let before = listed_children(infos.drop_last(), excluded, parent);
        let info = infos.last();
        if info.parent_process_id == parent && !excluded[infos.len() - 1] {
            before.push(info.process_id)
        } else {
            before
        }
    }
}

/// Whether no id in `ids` is followed by a smaller one.
pub open spec fn ascending(ids: Seq<ProcessId>) -> bool {
    forall|i: int, j: int| 0 <= i < j < ids.len() ==> ids[i] <= ids[j]
}

/// Two ascending lists that hold the same ids, each as often, are one list.
pub proof fn lemma_ascending_unique(a: Seq<ProcessId>, b: Seq<ProcessId>)
    requires
        ascending(a),
        ascending(b),
        a.to_multiset() == b.to_multiset(),
    ensures
        a == b,
{
    let leq = |x: ProcessId, y: ProcessId| x <= y;
    assert(vstd::relations::sorted_by(a, leq));
    assert(vstd::relations::sorted_by(b, leq));
    assert(vstd::relations::total_ordering(leq));
    vstd::seq_lib::lemma_sorted_unique(a, b, leq);
}

/// The ids of `ids`, each as often as there, in ascending order.
pub open spec fn in_ascending_order(ids: Seq<ProcessId>) -> Seq<ProcessId> {
    choose|sorted: Seq<ProcessId>| ascending(sorted) && sorted.to_multiset() == ids.to_multiset()
}

/// The child lists of a child index as sequences.
pub open spec fn graph_of(map: Map<ProcessId, Vec<ProcessId>>) -> Map<ProcessId, Seq<ProcessId>> {
    map.map_values(|children: Vec<ProcessId>| children@)
}

/// The parent-to-children graph of a snapshot of which some entries are left
/// out: under every parent that has a child listed, those children in
/// ascending order.
pub open spec fn child_graph(infos: Seq<ProcessInfo>, excluded: Seq<bool>) -> Map<
    ProcessId,
    Seq<ProcessId>,
> {
    Map::new(
        |parent: ProcessId| listed_children(infos, excluded, parent).len() > 0,
        |parent: ProcessId| in_ascending_order(listed_children(infos, excluded, parent)),
    )
}

/// What is listed under a parent depends on no answer beyond the snapshot's
/// length.
proof fn lemma_listed_children_by_prefix(
    infos: Seq<ProcessInfo>,
    shorter: Seq<bool>,
    longer: Seq<bool>,
    parent: ProcessId,
)
    requires
        infos.len() <= shorter.len(),
        shorter.is_prefix_of(longer),
    ensures
        listed_children(infos, shorter, parent) == listed_children(infos, longer, parent),
    decreases infos.len(),
{
    if infos.len() > 0 {
        lemma_listed_children_by_prefix(infos.drop_last(), shorter, longer, parent);
        assert(shorter[infos.len() - 1] == longer[infos.len() - 1]);
    }
}

/// Whether `map` groups the first entries of a snapshot by parent, each list
/// in the order of the snapshot, and `parents` names every key of it.
spec fn groups(
    map: Map<ProcessId, Vec<ProcessId>>,
    parents: Seq<ProcessId>,
    infos: Seq<ProcessInfo>,
    excluded: Seq<bool>,
) -> bool {
    forall|parent: ProcessId|
        {
            let listed = #[trigger] listed_children(infos, excluded, parent);
            &&& map.contains_key(parent) <==> listed.len() > 0
            &&& map.contains_key(parent) ==> map[parent]@ == listed && parents.contains(parent)
        }
}

/// Whether `map` holds under every parent the ids that the snapshot lists
/// there, each as often, in whatever order.
spec fn permutes(
    map: Map<ProcessId, Vec<ProcessId>>,
    infos: Seq<ProcessInfo>,
    excluded: Seq<bool>,
) -> bool {
    forall|parent: ProcessId|
        {
            let listed = #[trigger] listed_children(infos, excluded, parent);
            &&& map.contains_key(parent) <==> listed.len() > 0
            &&& map.contains_key(parent) ==> map[parent]@.to_multiset() == listed.to_multiset()
        }
}

/// Sorts a list of process ids with `sort_unstable` of the standard library's
/// slices. Its documentation says that the slice is sorted in ascending
/// order; as a sort it rearranges the elements and neither adds nor drops
/// one. This is believed, not proved.
#[verifier::external_body]
fn sort_ascending(ids: &mut Vec<ProcessId>)
    ensures
        ascending(final(ids)@),
        final(ids)@.to_multiset() == old(ids)@.to_multiset(),
{
    ids.sort_unstable();
}

/// Builds the index from parent to children. `filter` is asked once for each
/// entry of the snapshot, in turn, whether to leave it out; every entry that
/// it keeps in is listed under its parent, and every list is sorted
/// ascending.
pub fn get_child_process_id_map<F: Fn(&ProcessInfo) -> bool>(
    process_infos: &Vec<ProcessInfo>,
    filter: F,
) -> (map: ChildProcessIdMap)
    requires
        forall|info: &ProcessInfo| #[trigger] call_requires(filter, (info,)),
    ensures
        exists|answers: Seq<bool>| #[trigger]
            filter_answers(filter, process_infos@, answers) && graph_of(map@) == child_graph(
                process_infos@,
                answers,
            ),
        forall|parent: ProcessId| #[trigger]
            map@.contains_key(parent) ==> ascending(map@[parent]@),
{
    let mut map: ChildProcessIdMap = HashMap::new();
    let mut parents: Vec<ProcessId> = Vec::new();
    let ghost mut answers: Seq<bool> = Seq::empty();
    let mut at: usize = 0;
    assert(process_infos@.take(0) =~= Seq::empty());
    while at < process_infos.len()
        invariant
            at <= process_infos.len(),
            forall|info: &ProcessInfo| #[trigger] call_requires(filter, (info,)),
            filter_answers(filter, process_infos@.take(at as int), answers),
            groups(map@, parents@, process_infos@.take(at as int), answers),
        decreases process_infos.len() - at,
    {
        let info = &process_infos[at];
        let excluded = filter(info);
        let ghost seen = process_infos@.take(at as int);
        let ghost next = process_infos@.take(at + 1);
        let ghost before = map@;
        let ghost named = parents@;
        let ghost earlier = answers;
        proof {
            answers = earlier.push(excluded);
            assert(next.drop_last() =~= seen);
            assert(next.last() == *info);
            assert forall|k: int| 0 <= k < next.len() implies call_ensures(
                filter,
                (&next[k],),
                #[trigger] answers[k],
            ) by {
                if k < at {
                    assert(next[k] == seen[k]);
                    assert(answers[k] == earlier[k]);
                }
            }
        }
        if !excluded {
            let parent = info.parent_process_id;
            let mut children = match map.remove(&parent) {
                Some(children) => children,
                None => {
                    parents.push(parent);
                    Vec::new()
                },
            };
            children.push(info.process_id);
            map.insert(parent, children);
        }
        proof {
            assert forall|p: ProcessId|
                {
                    let listed = #[trigger] listed_children(next, answers, p);
                    &&& map@.contains_key(p) <==> listed.len() > 0
                    &&& map@.contains_key(p) ==> map@[p]@ == listed && parents@.contains(p)
                } by {
                let was = listed_children(seen, earlier, p);
                lemma_listed_children_by_prefix(seen, earlier, answers, p);
                assert(before.contains_key(p) <==> was.len() > 0);
                if before.contains_key(p) {
                    let k = choose|k: int| 0 <= k < named.len() && named[k] == p;
                    assert(parents@[k] == p);
                }
                if !excluded && p == info.parent_process_id {
                    if !before.contains_key(p) {
                        assert(parents@[parents@.len() - 1] == p);
                        assert(map@[p]@ =~= was.push(info.process_id));
                    }
                }
            }
        }
        at += 1;
    }
    assert(process_infos@.take(at as int) =~= process_infos@);
    assert forall|p: ProcessId| #[trigger] map@.contains_key(p) implies parents@.contains(p) by {
        let listed = listed_children(process_infos@, answers, p);
    }
    let mut next: usize = 0;
    while next < parents.len()
        invariant
            next <= parents.len(),
            permutes(map@, process_infos@, answers),
            forall|p: ProcessId| #[trigger] map@.contains_key(p) ==> parents@.contains(p),
            forall|k: int|
                0 <= k < next && map@.contains_key(#[trigger] parents@[k]) ==> ascending(
                    map@[parents@[k]]@,
                ),
        decreases parents.len() - next,
    {
        let parent = parents[next];
        let ghost before = map@;
        match map.remove(&parent) {
            Some(children) => {
                let mut children = children;
                sort_ascending(&mut children);
                map.insert(parent, children);
            },
            None => {
                assert(map@ =~= before);
            },
        }
        proof {
            assert forall|p: ProcessId|
                {
                    let listed = #[trigger] listed_children(process_infos@, answers, p);
                    &&& map@.contains_key(p) <==> listed.len() > 0
                    &&& map@.contains_key(p) ==> map@[p]@.to_multiset() == listed.to_multiset()
                } by {
                assert(before.contains_key(p) <==> listed_children(process_infos@, answers, p).len()
                    > 0);
            }
            assert forall|k: int|
                0 <= k < next + 1 && map@.contains_key(#[trigger] parents@[k]) implies ascending(
                map@[parents@[k]]@,
            ) by {
                if parents@[k] != parent {
                    assert(before.contains_key(parents@[k]));
                    assert(map@[parents@[k]] == before[parents@[k]]);
                }
            }
        }
        next += 1;
    }
    proof {
        assert forall|p: ProcessId| #[trigger] map@.contains_key(p) implies ascending(
            map@[p]@,
        ) by {
            let k = choose|k: int| 0 <= k < parents@.len() && parents@[k] == p;
            assert(map@.contains_key(parents@[k]));
        }
        let graph = child_graph(process_infos@, answers);
        assert forall|p: ProcessId| #[trigger]
            graph_of(map@).contains_key(p) implies graph_of(map@)[p] == graph[p] by {
            let listed = listed_children(process_infos@, answers, p);
            let children = map@[p]@;
            assert(ascending(children) && children.to_multiset() == listed.to_multiset());
            lemma_ascending_unique(in_ascending_order(listed), children);
        }
        assert forall|p: ProcessId|
            graph_of(map@).contains_key(p) <==> graph.contains_key(p) by {
            let listed = listed_children(process_infos@, answers, p);
        }
        assert(graph_of(map@) =~= graph);
    }
    map
}

/// The map that holds, for each process id of a snapshot, the last entry that
/// carries it.
pub open spec fn info_map_of(infos: Seq<ProcessInfo>) -> Map<ProcessId, ProcessInfo>
    decreases infos.len(),
{
    if infos.len() == 0 {
        Map::empty()
    } else {
        info_map_of(infos.drop_last()).insert(infos.last().process_id, infos.last())
    }
}

/// Builds the map from process id to snapshot entry. Where two entries carry
/// one id, the later one stays.
pub fn get_process_info_map(process_infos: ProcessInfos) -> (map: ProcessInfoMap)
    ensures
        map@ == info_map_of(process_infos@),
{
    let mut rest = process_infos;
    let mut map: ProcessInfoMap = HashMap::new();
    assert(info_map_of(rest@).union_prefer_right(map@) =~= info_map_of(process_infos@));
    while rest.len() > 0
        invariant
            info_map_of(rest@).union_prefer_right(map@) == info_map_of(process_infos@),
        decreases rest.len(),
    {
        let ghost longer = rest@;
        let ghost before = map@;
        let popped = rest.pop();
        if let Some(info) = popped {
            if !map.contains_key(&info.process_id) {
                map.insert(info.process_id, info);
            }
        }
        assert(info_map_of(rest@).union_prefer_right(map@) =~= info_map_of(
            longer,
        ).union_prefer_right(before));
    }
    assert(info_map_of(rest@) =~= Map::empty());
    assert(map@ =~= info_map_of(rest@).union_prefer_right(map@));
    map
}

} // verus!
