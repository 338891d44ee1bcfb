//! Taking a node out of a program: the program's graph and the graphs of its
//! branches.
//!
//! Every edge of a program stands in the program's own graph, those inside a
//! branch too. So a node that leaves a branch leaves its wiring behind, and the
//! wiring is swept afterwards.
//!
//! A node may take others with it. A Match takes its arms, and the last arm takes
//! its Match. An arm takes its branch, which is the one that ends in the Sink the
//! arm names, with every branch that is nested in it.

use crate::model::anchor;
use crate::model::etype::EType;
use crate::model::node::{self, ENode};
use crate::model::table;
use crate::model::term_graph::{self, TermGraph, TermGraphView};
use crate::model::term_graph_laws;
use std::collections::HashSet;
use vstd::prelude::*;

verus! {

broadcast use vstd::std_specs::hash::group_hash_axioms;

/// The values of a list of graphs.
pub open spec fn graph_views(graphs: Seq<TermGraph>) -> Seq<TermGraphView> {
    graphs.map_values(|graph: TermGraph| graph@)
}

/// Some branch has the anchor.
pub open spec fn in_a_branch(branches: Seq<TermGraphView>, at: anchor::Id) -> bool {
    exists|i: int| 0 <= i < branches.len() && (#[trigger] branches[i]).anchors.contains_key(at)
}

/// The anchors of a program.
pub open spec fn live_in(root: TermGraphView, branches: Seq<TermGraphView>) -> Set<anchor::Id> {
    Set::new(|at: anchor::Id| root.anchors.contains_key(at) || in_a_branch(branches, at))
}

/// The program's graph without the edges that end nowhere.
pub open spec fn swept(root: TermGraphView, branches: Seq<TermGraphView>) -> TermGraphView {
    root.retaining_edges(live_in(root, branches))
}

fn add_anchors(graph: &TermGraph, live: &mut HashSet<usize>)
    ensures
        forall|key: usize| #[trigger]
            final(live)@.contains(key) <==> old(live)@.contains(key)
                || graph@.anchors.contains_key(anchor::Id(key)),
{
    let keys = table::keys_of(&graph.anchors);
    let ghost before = live@;
    let mut i: usize = 0;
    while i < keys.len()
        invariant
            i <= keys.len(),
            forall|key: usize| #[trigger]
                live@.contains(key) <==> before.contains(key) || keys@.take(i as int).contains(key),
        decreases keys.len() - i,
    {
        let ghost so_far = live@;
        live.insert(keys[i]);
        proof {
            let grown = keys@.take(i + 1);
            let rest = keys@.take(i as int);
            assert(grown =~= rest.push(keys@[i as int]));
            assert forall|key: usize| #[trigger] live@.contains(key) <==> before.contains(key)
                || grown.contains(key) by {
                if rest.contains(key) {
                    let j = choose|j: int| 0 <= j < rest.len() && rest[j] == key;
                    assert(grown[j] == key);
                }
                if grown.contains(key) {
                    let j = choose|j: int| 0 <= j < grown.len() && grown[j] == key;
                    if j < i {
                        assert(rest[j] == key);
                    }
                }
                assert(grown[i as int] == keys@[i as int]);
            }
        }
        i = i + 1;
    }
    proof {
        assert(keys@.take(i as int) =~= keys@);
        assert forall|key: usize| #[trigger] live@.contains(key) <==> before.contains(key)
            || graph@.anchors.contains_key(anchor::Id(key)) by {
            assert(keys@.to_set().contains(key) == keys@.contains(key));
            assert(graph.anchors@.contains_key(key) == graph@.anchors.contains_key(
                anchor::Id(key),
            ));
        }
    }
}

/// The anchors of a program: those of its own graph and those of its branches.
pub fn live_anchors(root: &TermGraph, branches: &Vec<TermGraph>) -> (live: HashSet<usize>)
    ensures
        table::anchor_set(live@) == live_in(root@, graph_views(branches@)),
{
    let mut live: HashSet<usize> = HashSet::new();
    add_anchors(root, &mut live);
    let ghost views = graph_views(branches@);
    let mut i: usize = 0;
    while i < branches.len()
        invariant
            i <= branches.len(),
            views == graph_views(branches@),
            forall|key: usize| #[trigger]
                live@.contains(key) <==> root@.anchors.contains_key(anchor::Id(key))
                    || in_a_branch(views.take(i as int), anchor::Id(key)),
        decreases branches.len() - i,
    {
        let ghost before = live@;
        add_anchors(&branches[i], &mut live);
        proof {
            assert forall|key: usize| #[trigger] live@.contains(key) <==>
                root@.anchors.contains_key(anchor::Id(key)) || in_a_branch(
                views.take(i + 1),
                anchor::Id(key),
            ) by {
                let at = anchor::Id(key);
                assert(before.contains(key) <==> root@.anchors.contains_key(at) || in_a_branch(
                    views.take(i as int),
                    at,
                ));
                lemma_one_more_branch(views, i as int, at);
            }
        }
        i = i + 1;
    }
    proof {
        assert(views.take(i as int) =~= views);
        assert(table::anchor_set(live@) =~= live_in(root@, views)) by {
            assert forall|at: anchor::Id| table::anchor_set(live@).contains(at) == live_in(
                root@,
                views,
            ).contains(at) by {
                assert(live@.contains(at.0) <==> root@.anchors.contains_key(anchor::Id(at.0))
                    || in_a_branch(views, anchor::Id(at.0)));
                assert(anchor::Id(at.0) == at);
            }
        }
    }
    live
}

proof fn lemma_one_more_branch(branches: Seq<TermGraphView>, i: int, at: anchor::Id)
    requires
        0 <= i < branches.len(),
    ensures
        in_a_branch(branches.take(i + 1), at) <==> in_a_branch(branches.take(i), at)
            || branches[i].anchors.contains_key(at),
{
    let grown = branches.take(i + 1);
    let rest = branches.take(i);
    if in_a_branch(rest, at) {
        let j = choose|j: int| 0 <= j < rest.len() && (#[trigger] rest[j]).anchors.contains_key(at);
        assert(grown[j].anchors.contains_key(at));
    }
    if branches[i].anchors.contains_key(at) {
        assert(grown[i].anchors.contains_key(at));
    }
    if in_a_branch(grown, at) {
        let j = choose|j: int|
            0 <= j < grown.len() && (#[trigger] grown[j]).anchors.contains_key(at);
        if j < i {
            assert(rest[j].anchors.contains_key(at));
        }
    }
}

/// The program's graph without the edges that end on an anchor which is no
/// longer there.
pub fn minus_dangling_edges(root: &TermGraph, branches: &Vec<TermGraph>) -> (res: TermGraph)
    ensures
        res@ == swept(root@, graph_views(branches@)),
{
    let live = live_anchors(root, branches);
    root.retaining_edges(&live)
}

/// The first branch that has the node.
pub open spec fn branch_with(branches: Seq<TermGraphView>, id: node::Id) -> Option<int>
    decreases branches.len(),
{
    if branches.len() == 0 {
        None
    } else {
        match branch_with(branches.drop_last(), id) {
            Some(i) => Some(i),
            None => if branches.last().nodes.contains_key(id) {
                Some(branches.len() - 1)
            } else {
                None
            },
        }
    }
}

// ── What leaves with a node ──

/// The node `pattern` is an arm whose branch ends in `sink`.
pub open spec fn ends_in(graph: TermGraphView, pattern: node::Id, sink: node::Id) -> bool {
    graph.nodes.contains_key(pattern) && (graph.nodes[pattern] matches ENode::Pattern {
        sink_node_id,
        ..
    } && sink_node_id == sink)
}

/// Some arm in the graph has the branch that ends in `sink`.
pub open spec fn holds_branch(graph: TermGraphView, sink: node::Id) -> bool {
    exists|pattern: node::Id| #[trigger] ends_in(graph, pattern, sink)
}

/// The Sinks of the branches that leave with the node `id`: the one of an arm,
/// and those of all the arms of a Match.
pub open spec fn sinks_of(graph: TermGraphView, id: node::Id) -> Set<node::Id> {
    Set::new(
        |sink: node::Id|
            match graph.nodes[id] {
                ENode::Match { patterns, .. } => exists|i: int|
                    0 <= i < patterns.len() && ends_in(graph, #[trigger] patterns@[i], sink),
                ENode::Pattern { sink_node_id, .. } => sink_node_id == sink,
                _ => false,
            },
    )
}

/// A way through the branches: it begins in a branch that ends in one of `sinks`,
/// and every branch on it hangs on an arm in the branch before.
pub open spec fn is_way(
    branches: Seq<TermGraphView>,
    sinks: Set<node::Id>,
    way: Seq<int>,
) -> bool {
    &&& way.len() > 0
    &&& forall|k: int| 0 <= k < way.len() ==> 0 <= #[trigger] way[k] < branches.len()
    &&& sinks.contains(branches[way[0]].sink_node_id)
    &&& forall|k: int|
        0 < k < way.len() ==> holds_branch(
            branches[way[k - 1]],
            branches[#[trigger] way[k]].sink_node_id,
        )
}

/// The branch `i` goes when the branches that end in `sinks` do: it is one of
/// them, or it is nested in one, however deep.
pub open spec fn is_taken(
    branches: Seq<TermGraphView>,
    sinks: Set<node::Id>,
    i: int,
) -> bool {
    exists|way: Seq<int>| #[trigger] is_way(branches, sinks, way) && way.last() == i
}

/// What is left of the first `len` branches when those that end in `sinks` go.
pub open spec fn left_standing(
    branches: Seq<TermGraphView>,
    sinks: Set<node::Id>,
    len: int,
) -> Seq<TermGraphView>
    decreases len,
{
    if len <= 0 {
        Seq::empty()
    } else if is_taken(branches, sinks, len - 1) {
        left_standing(branches, sinks, len - 1)
    } else {
        left_standing(branches, sinks, len - 1).push(branches[len - 1])
    }
}

/// The nodes of `list` that are arms in the graph.
pub open spec fn arms_in(graph: TermGraphView, list: Seq<node::Id>) -> Set<node::Id> {
    Set::new(
        |id: node::Id|
            list.contains(id) && graph.nodes.contains_key(id) && graph.nodes[id] is Pattern,
    )
}

/// The graph without the arms of `list`. An arm has no anchors, so nothing else
/// changes.
pub open spec fn without_arms(graph: TermGraphView, list: Seq<node::Id>) -> TermGraphView {
    TermGraphView { nodes: graph.nodes.remove_keys(arms_in(graph, list)), ..graph }
}

/// Every node but `id`.
pub open spec fn other_than(id: node::Id) -> spec_fn(node::Id) -> bool {
    |other: node::Id| other != id
}

/// The arms of a list other than `id`, in their order.
pub open spec fn others(patterns: Seq<node::Id>, id: node::Id) -> Seq<node::Id> {
    patterns.filter(other_than(id))
}

/// The arms that are left to the Match of the arm `id` when that arm goes, in
/// their order; nothing where `id` is no arm of a Match.
pub open spec fn arms_left(graph: TermGraphView, id: node::Id) -> Seq<node::Id> {
    match graph.nodes[id] {
        ENode::Pattern { parent_match, .. } => if graph.nodes.contains_key(parent_match) {
            match graph.nodes[parent_match] {
                ENode::Match { patterns, .. } => others(patterns@, id),
                _ => Seq::empty(),
            }
        } else {
            Seq::empty()
        },
        _ => Seq::empty(),
    }
}

/// The graph without the node `id`. A Match takes all of its arms with it. An arm
/// leaves the list of its Match, which has `rest` from then on; the last arm takes
/// the Match with it.
pub open spec fn trimmed(graph: TermGraphView, id: node::Id, rest: Vec<node::Id>) -> TermGraphView {
    match graph.nodes[id] {
        ENode::Match { patterns, .. } => without_arms(graph.minus_node(id), patterns@),
        ENode::Pattern { parent_match, .. } => {
            let less = graph.minus_node(id);
            if less.nodes.contains_key(parent_match) {
                match less.nodes[parent_match] {
                    ENode::Match { input_anchor, output_anchor, .. } => if rest@.len() == 0 {
                        less.minus_node(parent_match)
                    } else {
                        less.with_node_replaced(
                            parent_match,
                            ENode::Match { patterns: rest, input_anchor, output_anchor },
                        )
                    },
                    _ => less,
                }
            } else {
                less
            }
        },
        _ => graph.minus_node(id),
    }
}

/// The graph that has the node `id`: the program's own, or else the first branch
/// that does.
pub open spec fn home_of(
    root: TermGraphView,
    branches: Seq<TermGraphView>,
    id: node::Id,
) -> Option<TermGraphView> {
    if root.nodes.contains_key(id) {
        Some(root)
    } else {
        match branch_with(branches, id) {
            Some(i) => Some(branches[i]),
            None => None,
        }
    }
}

/// The program without the node `id`: it leaves the graph it lives in together
/// with what cannot stay without it, the branches of the arms that go are gone,
/// and so is every edge that then ends nowhere. `rest` are the arms that are left
/// to the Match of an arm. Nothing happens where no graph has the node.
pub open spec fn without_node(
    root: TermGraphView,
    branches: Seq<TermGraphView>,
    id: node::Id,
    rest: Vec<node::Id>,
) -> (TermGraphView, Seq<TermGraphView>) {
    if root.nodes.contains_key(id) {
        let less = trimmed(root, id, rest);
        let left = left_standing(branches, sinks_of(root, id), branches.len() as int);
        (swept(less, left), left)
    } else {
        match branch_with(branches, id) {
            Some(i) => {
                let less = branches.update(i, trimmed(branches[i], id, rest));
                let left = left_standing(less, sinks_of(branches[i], id), less.len() as int);
                (swept(root, left), left)
            },
            None => (root, branches),
        }
    }
}

/// `rest` are the arms that are left to the Match of the arm `id`, where `id` is
/// one.
pub open spec fn are_the_rest(
    root: TermGraphView,
    branches: Seq<TermGraphView>,
    id: node::Id,
    rest: Vec<node::Id>,
) -> bool {
    home_of(root, branches, id) matches Some(home) ==> rest@ == arms_left(home, id)
}

proof fn lemma_branch_with(branches: Seq<TermGraphView>, id: node::Id, len: int)
    requires
        0 <= len <= branches.len(),
        branch_with(branches.take(len), id) is Some,
    ensures
        branch_with(branches, id) == branch_with(branches.take(len), id),
    decreases branches.len(),
{
    if len == branches.len() {
        assert(branches.take(len) =~= branches);
    } else {
        assert(branches.drop_last().take(len) =~= branches.take(len));
        lemma_branch_with(branches.drop_last(), id, len);
    }
}

fn find_branch(branches: &Vec<TermGraph>, id: &node::Id) -> (at: Option<usize>)
    ensures
        match at {
            Some(at) => at < branches.len() && branches@[at as int]@.nodes.contains_key(*id)
                && branch_with(graph_views(branches@), *id) == Some(at as int),
            None => branch_with(graph_views(branches@), *id) is None,
        },
{
    let ghost views = graph_views(branches@);
    let mut i: usize = 0;
    assert(views.take(0).len() == 0);
    while i < branches.len()
        invariant
            i <= branches.len(),
            views == graph_views(branches@),
            branch_with(views.take(i as int), *id) is None,
        decreases branches.len() - i,
    {
        proof {
            assert(views.take(i + 1).drop_last() =~= views.take(i as int));
            assert(views.take(i + 1).last() == branches@[i as int]@);
            assert(node::Id(id.0) == *id);
        }
        if branches[i].nodes.contains_key(&id.0) {
            proof {
                lemma_branch_with(views, *id, i + 1);
            }
            return Some(i);
        }
        i = i + 1;
    }
    assert(views.take(i as int) =~= views);
    None
}

fn is_among(ids: &Vec<node::Id>, id: node::Id) -> (res: bool)
    ensures
        res == ids@.contains(id),
{
    let mut i: usize = 0;
    while i < ids.len()
        invariant
            i <= ids.len(),
            forall|j: int| 0 <= j < i ==> ids@[j] != id,
        decreases ids.len() - i,
    {
        if ids[i] == id {
            return true;
        }
        i = i + 1;
    }
    false
}

fn arm_ends_in(graph: &TermGraph, pattern: node::Id, sink: node::Id) -> (res: bool)
    ensures
        res == ends_in(graph@, pattern, sink),
{
    assert(node::Id(pattern.0) == pattern);
    match graph.nodes.get(&pattern.0) {
        Some(ENode::Pattern { sink_node_id, .. }) => *sink_node_id == sink,
        _ => false,
    }
}

fn has_branch(graph: &TermGraph, sink: node::Id) -> (res: bool)
    ensures
        res == holds_branch(graph@, sink),
{
    let keys = table::keys_of(&graph.nodes);
    let mut i: usize = 0;
    while i < keys.len()
        invariant
            i <= keys.len(),
            forall|j: int| 0 <= j < i ==> !ends_in(graph@, node::Id(#[trigger] keys@[j]), sink),
        decreases keys.len() - i,
    {
        if arm_ends_in(graph, node::Id(keys[i]), sink) {
            return true;
        }
        i = i + 1;
    }
    proof {
        if holds_branch(graph@, sink) {
            let pattern = choose|pattern: node::Id| #[trigger] ends_in(graph@, pattern, sink);
            assert(graph.nodes@.contains_key(pattern.0));
            assert(keys@.to_set().contains(pattern.0));
            let j = choose|j: int| 0 <= j < keys.len() && keys@[j] == pattern.0;
            assert(node::Id(keys@[j]) == pattern);
        }
    }
    false
}

/// The Sinks of the branches that leave with a node.
fn taken_sinks(graph: &TermGraph, id: &node::Id) -> (sinks: Vec<node::Id>)
    requires
        graph@.nodes.contains_key(*id),
    ensures
        sinks@.to_set() == sinks_of(graph@, *id),
{
    let mut sinks: Vec<node::Id> = Vec::new();
    assert(node::Id(id.0) == *id);
    match graph.nodes.get(&id.0).unwrap() {
        ENode::Match { patterns, .. } => {
            let mut i: usize = 0;
            while i < patterns.len()
                invariant
                    i <= patterns.len(),
                    forall|sink: node::Id| #[trigger]
                        sinks@.contains(sink) <==> exists|j: int|
                            0 <= j < i && ends_in(graph@, #[trigger] patterns@[j], sink),
                decreases patterns.len() - i,
            {
                let arm: node::Id = patterns[i];
                let ghost before = sinks@;
                assert(node::Id(arm.0) == arm);
                if let Some(ENode::Pattern { sink_node_id, .. }) = graph.nodes.get(&arm.0) {
                    sinks.push(*sink_node_id);
                    assert(ends_in(graph@, patterns@[i as int], *sink_node_id));
                }
                proof {
                    assert forall|sink: node::Id| #[trigger] sinks@.contains(sink) <==> exists|
                        j: int,
                    |
                        0 <= j < i + 1 && ends_in(graph@, #[trigger] patterns@[j], sink) by {
                        if sinks@.contains(sink) {
                            let k = choose|k: int| 0 <= k < sinks@.len() && sinks@[k] == sink;
                            if k < before.len() {
                                assert(before[k] == sink);
                                assert(before.contains(sink));
                            } else {
                                assert(ends_in(graph@, patterns@[i as int], sink));
                            }
                        }
                        if before.contains(sink) {
                            let k = choose|k: int| 0 <= k < before.len() && before[k] == sink;
                            assert(sinks@[k] == sink);
                        }
                        if ends_in(graph@, patterns@[i as int], sink) {
                            assert(sinks@.last() == sink);
                            assert(sinks@[sinks@.len() - 1] == sink);
                        }
                    }
                }
                i = i + 1;
            }
            assert(sinks@.to_set() =~= sinks_of(graph@, *id)) by {
                assert forall|sink: node::Id| sinks@.to_set().contains(sink) == sinks_of(
                    graph@,
                    *id,
                ).contains(sink) by {
                    assert(sinks@.to_set().contains(sink) == sinks@.contains(sink));
                }
            }
        },
        ENode::Pattern { sink_node_id, .. } => {
            sinks.push(*sink_node_id);
            assert(sinks@[0] == *sink_node_id);
            assert(sinks@.to_set() =~= sinks_of(graph@, *id)) by {
                assert forall|sink: node::Id| sinks@.to_set().contains(sink) == sinks_of(
                    graph@,
                    *id,
                ).contains(sink) by {
                    assert(sinks@.to_set().contains(sink) == sinks@.contains(sink));
                }
            }
        },
        _ => {
            assert(sinks@.to_set() =~= sinks_of(graph@, *id)) by {
                assert forall|sink: node::Id| sinks@.to_set().contains(sink) == sinks_of(
                    graph@,
                    *id,
                ).contains(sink) by {
                    assert(sinks@.to_set().contains(sink) == sinks@.contains(sink));
                }
            }
        },
    }
    sinks
}

/// The branch `i` hangs on what is marked as gone, or ends in one of `sinks`.
spec fn follows(
    branches: Seq<TermGraphView>,
    sinks: Set<node::Id>,
    gone: Seq<bool>,
    i: int,
) -> bool {
    sinks.contains(branches[i].sink_node_id) || exists|j: int|
        0 <= j < gone.len() && #[trigger] gone[j] && holds_branch(
            branches[j],
            branches[i].sink_node_id,
        )
}

fn hangs_on_gone(branches: &Vec<TermGraph>, sinks: &Vec<node::Id>, gone: &Vec<bool>, i: usize) -> (res:
    bool)
    requires
        gone.len() == branches.len(),
        i < branches.len(),
    ensures
        res == follows(graph_views(branches@), sinks@.to_set(), gone@, i as int),
{
    let sink = branches[i].sink_node_id;
    let ghost views = graph_views(branches@);
    assert(views[i as int].sink_node_id == sink);
    assert(sinks@.to_set().contains(sink) == sinks@.contains(sink));
    if is_among(sinks, sink) {
        return true;
    }
    let mut j: usize = 0;
    while j < gone.len()
        invariant
            j <= gone.len(),
            gone.len() == branches.len(),
            views == graph_views(branches@),
            i < views.len(),
            views[i as int].sink_node_id == sink,
            forall|k: int| 0 <= k < j && #[trigger] gone@[k] ==> !holds_branch(views[k], sink),
        decreases gone.len() - j,
    {
        if gone[j] && has_branch(&branches[j], sink) {
            assert(gone@[j as int] && holds_branch(views[j as int], sink));
            return true;
        }
        j = j + 1;
    }
    false
}

fn next_gone(branches: &Vec<TermGraph>, sinks: &Vec<node::Id>, gone: &Vec<bool>) -> (next: Option<
    usize,
>)
    requires
        gone.len() == branches.len(),
    ensures
        match next {
            Some(i) => i < gone.len() && !gone@[i as int] && follows(
                graph_views(branches@),
                sinks@.to_set(),
                gone@,
                i as int,
            ),
            None => forall|i: int|
                0 <= i < gone.len() && follows(
                    graph_views(branches@),
                    sinks@.to_set(),
                    gone@,
                    i,
                ) ==> #[trigger] gone@[i],
        },
{
    let mut i: usize = 0;
    while i < branches.len()
        invariant
            i <= branches.len(),
            gone.len() == branches.len(),
            forall|k: int|
                0 <= k < i && follows(graph_views(branches@), sinks@.to_set(), gone@, k)
                    ==> #[trigger] gone@[k],
        decreases branches.len() - i,
    {
        if !gone[i] && hangs_on_gone(branches, sinks, gone, i) {
            return Some(i);
        }
        i = i + 1;
    }
    None
}

/// How many are not marked.
spec fn unmarked(marks: Seq<bool>) -> nat
    decreases marks.len(),
{
    if marks.len() == 0 {
        0
    } else {
        unmarked(marks.drop_last()) + if marks.last() {
            0nat
        } else {
            1nat
        }
    }
}

proof fn lemma_marking(marks: Seq<bool>, i: int)
    requires
        0 <= i < marks.len(),
        !marks[i],
    ensures
        unmarked(marks.update(i, true)) < unmarked(marks),
    decreases marks.len(),
{
    let more = marks.update(i, true);
    if i == marks.len() - 1 {
        assert(more.drop_last() =~= marks.drop_last());
    } else {
        assert(more.drop_last() =~= marks.drop_last().update(i, true));
        lemma_marking(marks.drop_last(), i);
    }
}

proof fn lemma_following_is_taken(
    branches: Seq<TermGraphView>,
    sinks: Set<node::Id>,
    gone: Seq<bool>,
    i: int,
)
    requires
        gone.len() == branches.len(),
        0 <= i < branches.len(),
        forall|k: int| 0 <= k < gone.len() && #[trigger] gone[k] ==> is_taken(branches, sinks, k),
        follows(branches, sinks, gone, i),
    ensures
        is_taken(branches, sinks, i),
{
    let sink = branches[i].sink_node_id;
    if sinks.contains(sink) {
        let way = seq![i];
        assert(is_way(branches, sinks, way));
        assert(way.last() == i);
    } else {
        let j = choose|j: int|
            0 <= j < gone.len() && #[trigger] gone[j] && holds_branch(branches[j], sink);
        lemma_nested_is_taken(branches, sinks, j, i);
    }
}

/// What hangs on a branch that goes, goes too.
proof fn lemma_nested_is_taken(
    branches: Seq<TermGraphView>,
    sinks: Set<node::Id>,
    outer: int,
    inner: int,
)
    requires
        is_taken(branches, sinks, outer),
        0 <= inner < branches.len(),
        holds_branch(branches[outer], branches[inner].sink_node_id),
    ensures
        is_taken(branches, sinks, inner),
{
    let before = choose|way: Seq<int>| #[trigger]
        is_way(branches, sinks, way) && way.last() == outer;
    let way = before.push(inner);
    assert forall|k: int| 0 <= k < way.len() implies 0 <= #[trigger] way[k] < branches.len() by {
        if k < before.len() {
            assert(way[k] == before[k]);
        }
    }
    assert(way[0] == before[0]);
    assert forall|k: int| 0 < k < way.len() implies holds_branch(
        branches[way[k - 1]],
        branches[#[trigger] way[k]].sink_node_id,
    ) by {
        assert(way[k - 1] == before[k - 1]);
        if k < before.len() {
            assert(way[k] == before[k]);
        }
    }
    assert(is_way(branches, sinks, way));
    assert(way.last() == inner);
}

/// Where the marks leave nothing out that follows, they hold every way.
proof fn lemma_way_is_marked(
    branches: Seq<TermGraphView>,
    sinks: Set<node::Id>,
    gone: Seq<bool>,
    way: Seq<int>,
)
    requires
        gone.len() == branches.len(),
        is_way(branches, sinks, way),
        forall|i: int|
            0 <= i < gone.len() && follows(branches, sinks, gone, i) ==> #[trigger] gone[i],
    ensures
        gone[way.last()],
    decreases way.len(),
{
    if way.len() == 1 {
        assert(way.last() == way[0]);
        assert(follows(branches, sinks, gone, way[0]));
    } else {
        let before = way.drop_last();
        assert forall|k: int| 0 <= k < before.len() implies 0 <= #[trigger] before[k]
            < branches.len() by {
            assert(before[k] == way[k]);
        }
        assert(before[0] == way[0]);
        assert forall|k: int| 0 < k < before.len() implies holds_branch(
            branches[before[k - 1]],
            branches[#[trigger] before[k]].sink_node_id,
        ) by {
            assert(before[k] == way[k] && before[k - 1] == way[k - 1]);
        }
        lemma_way_is_marked(branches, sinks, gone, before);
        let last = way.len() - 1;
        assert(before.last() == way[last - 1]);
        assert(way.last() == way[last]);
        assert(gone[way[last - 1]]);
        assert(holds_branch(branches[way[last - 1]], branches[way[last]].sink_node_id));
        assert(follows(branches, sinks, gone, way[last]));
    }
}

/// Which branches go when those that end in `sinks` do.
fn taken_branches(branches: &Vec<TermGraph>, sinks: &Vec<node::Id>) -> (gone: Vec<bool>)
    ensures
        gone.len() == branches.len(),
        forall|i: int|
            0 <= i < gone.len() ==> #[trigger] gone@[i] == is_taken(
                graph_views(branches@),
                sinks@.to_set(),
                i,
            ),
{
    let ghost views = graph_views(branches@);
    let ghost ends = sinks@.to_set();
    let mut gone: Vec<bool> = Vec::new();
    let mut i: usize = 0;
    while i < branches.len()
        invariant
            i <= branches.len(),
            gone.len() == i,
            forall|k: int| 0 <= k < i ==> !(#[trigger] gone@[k]),
        decreases branches.len() - i,
    {
        gone.push(false);
        i = i + 1;
    }
    let mut next = next_gone(branches, sinks, &gone);
    while next.is_some()
        invariant
            gone.len() == branches.len(),
            views == graph_views(branches@),
            ends == sinks@.to_set(),
            forall|k: int| 0 <= k < gone.len() && #[trigger] gone@[k] ==> is_taken(views, ends, k),
            match next {
                Some(i) => i < gone.len() && !gone@[i as int] && follows(
                    views,
                    ends,
                    gone@,
                    i as int,
                ),
                None => forall|i: int|
                    0 <= i < gone.len() && follows(views, ends, gone@, i) ==> #[trigger] gone@[i],
            },
        decreases unmarked(gone@),
    {
        if let Some(i) = next {
            proof {
                lemma_following_is_taken(views, ends, gone@, i as int);
                lemma_marking(gone@, i as int);
            }
            gone.set(i, true);
        }
        next = next_gone(branches, sinks, &gone);
    }
    proof {
        assert forall|i: int| 0 <= i < gone.len() implies #[trigger] gone@[i] == is_taken(
            views,
            ends,
            i,
        ) by {
            if is_taken(views, ends, i) {
                let way = choose|way: Seq<int>| #[trigger]
                    is_way(views, ends, way) && way.last() == i;
                lemma_way_is_marked(views, ends, gone@, way);
            }
        }
    }
    gone
}

/// Take out the branches that end in `sinks`, and those that are nested in them.
fn drop_branches(branches: &mut Vec<TermGraph>, sinks: &Vec<node::Id>)
    ensures
        graph_views(final(branches)@) == left_standing(
            graph_views(old(branches)@),
            sinks@.to_set(),
            old(branches).len() as int,
        ),
{
    let ghost views = graph_views(branches@);
    let ghost ends = sinks@.to_set();
    let gone = taken_branches(branches, sinks);
    let mut i: usize = branches.len();
    let ghost mut tail = Seq::<TermGraphView>::empty();
    assert(graph_views(branches@) =~= views.take(i as int) + tail);
    assert(left_standing(views, ends, views.len() as int) =~= left_standing(views, ends, i as int)
        + tail);
    while i > 0
        invariant
            i <= gone.len(),
            gone.len() == views.len(),
            i <= branches.len(),
            forall|k: int| 0 <= k < gone.len() ==> #[trigger] gone@[k] == is_taken(views, ends, k),
            graph_views(branches@) == views.take(i as int) + tail,
            left_standing(views, ends, views.len() as int) == left_standing(views, ends, i as int)
                + tail,
        decreases i,
    {
        i = i - 1;
        assert(gone@[i as int] == is_taken(views, ends, i as int));
        if gone[i] {
            let ghost before = branches@;
            branches.remove(i);
            proof {
                assert(graph_views(branches@) =~= graph_views(before).remove(i as int));
                assert(graph_views(branches@) =~= views.take(i as int) + tail);
            }
        } else {
            proof {
                let longer = seq![views[i as int]] + tail;
                assert(views.take(i + 1) =~= views.take(i as int).push(views[i as int]));
                assert(graph_views(branches@) =~= views.take(i as int) + longer);
                assert(left_standing(views, ends, i + 1) + tail =~= left_standing(
                    views,
                    ends,
                    i as int,
                ) + longer);
                tail = longer;
            }
        }
    }
    assert(views.take(0) + tail =~= tail);
    assert(left_standing(views, ends, 0) + tail =~= tail);
}

/// Taking an arm out changes nothing but the table of nodes.
proof fn lemma_minus_arm(graph: TermGraphView, id: node::Id)
    requires
        graph.nodes.contains_key(id),
        graph.nodes[id] is Pattern,
    ensures
        graph.minus_node(id) == (TermGraphView { nodes: graph.nodes.remove(id), ..graph }),
{
    let less = graph.minus_node(id);
    assert(graph.nodes[id].anchor_list().len() == 0);
    assert(less.anchors =~= graph.anchors);
    assert(less.anchor_to_node =~= graph.anchor_to_node);
    assert(less.incoming_edge =~= graph.incoming_edge);
}

fn minus_arms(graph: TermGraph, list: &Vec<node::Id>) -> (res: TermGraph)
    ensures
        res@ == without_arms(graph@, list@),
{
    let ghost whole = graph@;
    let mut less = graph;
    let mut i: usize = 0;
    assert(without_arms(whole, list@.take(0)) =~= whole) by {
        assert(arms_in(whole, list@.take(0)) =~= Set::empty());
        assert(whole.nodes.remove_keys(Set::empty()) =~= whole.nodes);
    }
    while i < list.len()
        invariant
            i <= list.len(),
            less@ == without_arms(whole, list@.take(i as int)),
        decreases list.len() - i,
    {
        let arm: node::Id = list[i];
        let ghost seen = list@.take(i as int);
        let ghost more = list@.take(i + 1);
        proof {
            assert(node::Id(arm.0) == arm);
            assert(more =~= seen.push(arm));
            assert forall|id: node::Id| #[trigger] more.contains(id) <==> seen.contains(id) || id
                == arm by {
                if more.contains(id) {
                    let k = choose|k: int| 0 <= k < more.len() && more[k] == id;
                    if k < i {
                        assert(seen[k] == id);
                    }
                }
                if seen.contains(id) {
                    let k = choose|k: int| 0 <= k < seen.len() && seen[k] == id;
                    assert(more[k] == id);
                }
                assert(more[i as int] == arm);
            }
        }
        let is_arm = match less.nodes.get(&arm.0) {
            Some(ENode::Pattern { .. }) => true,
            _ => false,
        };
        if is_arm {
            proof {
                lemma_minus_arm(less@, arm);
                assert(less@.nodes.remove(arm) =~= whole.nodes.remove_keys(arms_in(whole, more)));
            }
            less = less.minus_node(&arm);
        } else {
            proof {
                assert(less@.nodes =~= whole.nodes.remove_keys(arms_in(whole, more)));
            }
        }
        i = i + 1;
    }
    assert(list@.take(i as int) =~= list@);
    less
}

fn other_arms(patterns: &Vec<node::Id>, id: node::Id) -> (rest: Vec<node::Id>)
    ensures
        rest@ == others(patterns@, id),
{
    let ghost other = other_than(id);
    let mut rest: Vec<node::Id> = Vec::new();
    let mut i: usize = 0;
    assert(patterns@.take(0).filter(other) =~= Seq::empty()) by {
        reveal(Seq::filter);
    }
    while i < patterns.len()
        invariant
            i <= patterns.len(),
            other == other_than(id),
            rest@ == patterns@.take(i as int).filter(other),
        decreases patterns.len() - i,
    {
        proof {
            assert(patterns@.take(i + 1) =~= patterns@.take(i as int).push(patterns@[i as int]));
            patterns@.take(i as int).lemma_filter_push(patterns@[i as int], other);
        }
        if patterns[i] != id {
            rest.push(patterns[i]);
        }
        i = i + 1;
    }
    assert(patterns@.take(i as int) =~= patterns@);
    rest
}

/// The graph without a node, and without what cannot stay without it; and the arms
/// that are left to the Match of an arm.
fn minus_whole_node(graph: &TermGraph, id: &node::Id) -> (res: (TermGraph, Ghost<Vec<node::Id>>))
    requires
        graph@.nodes.contains_key(*id),
    ensures
        res.1@@ == arms_left(graph@, *id),
        res.0@ == trimmed(graph@, *id, res.1@),
{
    assert(node::Id(id.0) == *id);
    let less = graph.minus_node(id);
    let none: Vec<node::Id> = Vec::new();
    assert(none@ =~= Seq::empty());
    match graph.nodes.get(&id.0).unwrap() {
        ENode::Match { patterns, .. } => (minus_arms(less, patterns), Ghost(none)),
        ENode::Pattern { parent_match, .. } => {
            assert(node::Id(parent_match.0) == *parent_match);
            proof {
                lemma_minus_arm(graph@, *id);
            }
            match graph.nodes.get(&parent_match.0) {
                Some(ENode::Match { patterns, input_anchor, output_anchor }) => {
                    assert(*parent_match != *id);
                    let rest = other_arms(patterns, *id);
                    let ghost kept = rest;
                    if rest.len() == 0 {
                        (less.minus_node(parent_match), Ghost(kept))
                    } else {
                        let thinner = ENode::Match {
                            patterns: rest,
                            input_anchor: *input_anchor,
                            output_anchor: *output_anchor,
                        };
                        (less.with_node_replaced(parent_match, thinner), Ghost(kept))
                    }
                },
                _ => (less, Ghost(none)),
            }
        },
        _ => (less, Ghost(none)),
    }
}

/// Take a node out of the graph it lives in, wherever that is, with all that
/// cannot stay without it. Says whether anything changed.
///
/// A Match takes its arms, an arm takes its whole branch, and the last arm of a
/// Match takes the Match.
pub fn remove_node(root: &mut TermGraph, branches: &mut Vec<TermGraph>, id: &node::Id) -> (changed:
    bool)
    ensures
        changed == (home_of(old(root)@, graph_views(old(branches)@), *id) is Some),
        exists|rest: Vec<node::Id>| #[trigger]
            are_the_rest(old(root)@, graph_views(old(branches)@), *id, rest) && (
            final(root)@,
            graph_views(final(branches)@),
        ) == without_node(old(root)@, graph_views(old(branches)@), *id, rest),
{
    let ghost views = graph_views(branches@);
    let ghost whole = root@;
    assert(node::Id(id.0) == *id);
    if root.nodes.contains_key(&id.0) {
        let sinks = taken_sinks(root, id);
        let (less, rest) = minus_whole_node(root, id);
        drop_branches(branches, &sinks);
        *root = minus_dangling_edges(&less, branches);
        assert(are_the_rest(whole, views, *id, rest@));
        return true;
    }
    match find_branch(branches, id) {
        Some(at) => {
            let sinks = taken_sinks(&branches[at], id);
            let (less, rest) = minus_whole_node(&branches[at], id);
            branches.set(at, less);
            assert(graph_views(branches@) =~= views.update(at as int, less@));
            drop_branches(branches, &sinks);
            *root = minus_dangling_edges(root, branches);
            assert(are_the_rest(whole, views, *id, rest@));
            true
        },
        None => {
            let none: Vec<node::Id> = Vec::new();
            assert(are_the_rest(whole, views, *id, none));
            false
        },
    }
}

// ── Laws ──

/// An anchor that is there after a removal and belonged to none of the nodes that
/// left the program's graph.
pub open spec fn stayed(
    root: TermGraphView,
    left: TermGraphView,
    live: Set<anchor::Id>,
    at: anchor::Id,
) -> bool {
    live.contains(at) && forall|id: node::Id| #[trigger]
        root.nodes.contains_key(id) && !left.nodes.contains_key(id)
            ==> !root.nodes[id].anchor_ids().contains(at)
}

proof fn lemma_left_standing(branches: Seq<TermGraphView>, sinks: Set<node::Id>, len: int)
    requires
        0 <= len <= branches.len(),
    ensures
        ({
            let left = left_standing(branches, sinks, len);
            &&& forall|k: int|
                0 <= k < left.len() ==> exists|j: int|
                    #![trigger branches[j]]
                    0 <= j < len && !is_taken(branches, sinks, j) && #[trigger] left[k]
                        == branches[j]
            &&& forall|j: int|
                0 <= j < len && !is_taken(branches, sinks, j) ==> left.contains(
                    #[trigger] branches[j],
                )
        }),
    decreases len,
{
    let left = left_standing(branches, sinks, len);
    if len > 0 {
        lemma_left_standing(branches, sinks, len - 1);
        let before = left_standing(branches, sinks, len - 1);
        assert forall|k: int| 0 <= k < left.len() implies exists|j: int|
            #![trigger branches[j]]
            0 <= j < len && !is_taken(branches, sinks, j) && #[trigger] left[k] == branches[j] by {
            if k < before.len() {
                assert(left[k] == before[k]);
            } else {
                assert(left[k] == branches[len - 1]);
            }
        }
        assert forall|j: int| 0 <= j < len && !is_taken(branches, sinks, j) implies left.contains(
            #[trigger] branches[j],
        ) by {
            if j < len - 1 {
                let k = choose|k: int| 0 <= k < before.len() && before[k] == branches[j];
                assert(left[k] == branches[j]);
            } else {
                assert(left[left.len() - 1] == branches[j]);
            }
        }
    }
}

/// No branch is left that ends in one of the Sinks that go.
proof fn lemma_sinks_are_gone(branches: Seq<TermGraphView>, sinks: Set<node::Id>)
    ensures
        forall|k: int|
            0 <= k < left_standing(branches, sinks, branches.len() as int).len() ==> !sinks.contains(
                (#[trigger] left_standing(branches, sinks, branches.len() as int)[k]).sink_node_id,
            ),
{
    let left = left_standing(branches, sinks, branches.len() as int);
    lemma_left_standing(branches, sinks, branches.len() as int);
    assert forall|k: int| 0 <= k < left.len() implies !sinks.contains(
        (#[trigger] left[k]).sink_node_id,
    ) by {
        let j = choose|j: int|
            #![trigger branches[j]]
            0 <= j < branches.len() && !is_taken(branches, sinks, j) && left[k] == branches[j];
        if sinks.contains(left[k].sink_node_id) {
            let way = seq![j];
            assert(is_way(branches, sinks, way));
            assert(way.last() == j);
        }
    }
}

/// A node that goes takes its own edges and those of a Match that goes with it,
/// and no other.
proof fn lemma_trimmed_edges(graph: TermGraphView, id: node::Id, rest: Vec<node::Id>)
    requires
        graph.nodes.contains_key(id),
    ensures
        ({
            let less = trimmed(graph, id, rest);
            &&& less.sink_node_id == graph.sink_node_id
            &&& forall|to: anchor::Id| #[trigger]
                less.incoming_edge.contains_key(to) ==> graph.incoming_edge.contains_key(to)
                    && less.incoming_edge[to] == graph.incoming_edge[to]
            &&& forall|to: anchor::Id|
                graph.incoming_edge.contains_key(to) && (forall|gone: node::Id| #[trigger]
                    graph.nodes.contains_key(gone) && !less.nodes.contains_key(gone)
                        ==> !graph.nodes[gone].anchor_ids().contains(to)
                        && !graph.nodes[gone].anchor_ids().contains(graph.incoming_edge[to]))
                    ==> #[trigger] less.incoming_edge.contains_key(to)
        }),
{
    let less = trimmed(graph, id, rest);
    if graph.nodes[id] is Pattern {
        lemma_minus_arm(graph, id);
    }
    assert(graph.nodes.contains_key(id) && !less.nodes.contains_key(id));
    if let ENode::Pattern { parent_match, .. } = graph.nodes[id] {
        if graph.nodes.contains_key(parent_match) && graph.nodes[parent_match] is Match
            && rest@.len() == 0 {
            assert(graph.nodes.contains_key(parent_match) && !less.nodes.contains_key(
                parent_match,
            ));
        }
    }
}

/// After a removal no edge of the program ends on an anchor that is gone, and an
/// edge between anchors that stayed is still there.
pub proof fn law_no_edge_dangles(
    root: TermGraphView,
    branches: Seq<TermGraphView>,
    id: node::Id,
    rest: Vec<node::Id>,
)
    requires
        home_of(root, branches, id) is Some,
    ensures
        ({
            let (left, arms) = without_node(root, branches, id, rest);
            let live = live_in(left, arms);
            &&& forall|to: anchor::Id| #[trigger]
                left.incoming_edge.contains_key(to) ==> live.contains(to) && live.contains(
                    left.incoming_edge[to],
                ) && root.incoming_edge.contains_key(to) && left.incoming_edge[to]
                    == root.incoming_edge[to]
            &&& forall|to: anchor::Id|
                root.incoming_edge.contains_key(to) && stayed(root, left, live, to) && stayed(
                    root,
                    left,
                    live,
                    root.incoming_edge[to],
                ) ==> #[trigger] left.incoming_edge.contains_key(to)
        }),
{
    let (left, arms) = without_node(root, branches, id, rest);
    if root.nodes.contains_key(id) {
        let less = trimmed(root, id, rest);
        lemma_trimmed_edges(root, id, rest);
        assert(live_in(left, arms) =~= live_in(less, arms));
        term_graph_laws::law_retaining_edges(less, live_in(less, arms));
    } else {
        assert(live_in(left, arms) =~= live_in(root, arms));
        term_graph_laws::law_retaining_edges(root, live_in(root, arms));
    }
}

/// What hangs on a branch that goes, goes too: no branch is left whose arm went
/// with another branch.
pub proof fn law_nested_branches_go(
    branches: Seq<TermGraphView>,
    sinks: Set<node::Id>,
    outer: int,
    inner: int,
)
    requires
        is_taken(branches, sinks, outer),
        0 <= inner < branches.len(),
        holds_branch(branches[outer], branches[inner].sink_node_id),
    ensures
        is_taken(branches, sinks, inner),
{
    lemma_nested_is_taken(branches, sinks, outer, inner);
}

/// The arm `id` of the Match `parent` in the graph `home`.
pub open spec fn is_arm_of(home: TermGraphView, id: node::Id, parent: node::Id) -> bool {
    &&& home.nodes.contains_key(id)
    &&& home.nodes[id] matches ENode::Pattern { parent_match, .. } && parent_match == parent
    &&& home.nodes.contains_key(parent)
    &&& home.nodes[parent] matches ENode::Match { patterns, .. } && patterns@.contains(id)
}

/// The arms of a Match.
pub open spec fn arms_of(node: ENode) -> Seq<node::Id> {
    match node {
        ENode::Match { patterns, .. } => patterns@,
        _ => Seq::empty(),
    }
}

/// The last arm of a Match takes the Match with it: naming the arm and naming the
/// Match is the same removal, and neither of them, no anchor of the Match and no
/// branch of the arm is left.
pub proof fn law_the_last_arm_takes_the_match(
    root: TermGraphView,
    branches: Seq<TermGraphView>,
    home: TermGraphView,
    id: node::Id,
    parent: node::Id,
    rest: Vec<node::Id>,
    none: Vec<node::Id>,
)
    requires
        is_arm_of(home, id, parent),
        arms_of(home.nodes[parent]) == seq![id],
        home_of(root, branches, id) == Some(home),
        root.nodes.contains_key(parent) == root.nodes.contains_key(id),
        branch_with(branches, parent) == branch_with(branches, id),
        rest@ == arms_left(home, id),
    ensures
        without_node(root, branches, id, rest) == without_node(root, branches, parent, none),
        !trimmed(home, id, rest).nodes.contains_key(id),
        !trimmed(home, id, rest).nodes.contains_key(parent),
        trimmed(home, id, rest).anchors.dom().disjoint(home.nodes[parent].anchor_ids()),
        forall|k: int|
            0 <= k < without_node(root, branches, id, rest).1.len() ==> !ends_in(
                home,
                id,
                (#[trigger] without_node(root, branches, id, rest).1[k]).sink_node_id,
            ),
{
    lemma_minus_arm(home, id);
    let arms = arms_of(home.nodes[parent]);
    assert(rest@.len() == 0) by {
        assert(arms =~= Seq::empty().push(id));
        Seq::<node::Id>::empty().lemma_filter_push(id, other_than(id));
        assert(Seq::<node::Id>::empty().filter(other_than(id)) =~= Seq::empty()) by {
            reveal(Seq::filter);
        }
    }
    let less = home.minus_node(parent);
    assert(arms[0] == id);
    assert(arms_in(less, arms) =~= set![id]);
    assert(trimmed(home, id, rest) =~= trimmed(home, parent, none)) by {
        let one = trimmed(home, id, rest);
        let other = trimmed(home, parent, none);
        assert(one.nodes =~= other.nodes);
        assert(one.anchors =~= other.anchors);
        assert(one.anchor_to_node =~= other.anchor_to_node);
        assert(one.incoming_edge =~= other.incoming_edge);
    }
    assert(sinks_of(home, id) =~= sinks_of(home, parent)) by {
        assert forall|sink: node::Id| sinks_of(home, id).contains(sink) == sinks_of(
            home,
            parent,
        ).contains(sink) by {
            if sinks_of(home, id).contains(sink) {
                assert(ends_in(home, arms[0], sink));
            }
        }
    }
    lemma_branches_of_arm_go(root, branches, home, id, rest);
}

proof fn lemma_branches_of_arm_go(
    root: TermGraphView,
    branches: Seq<TermGraphView>,
    home: TermGraphView,
    id: node::Id,
    rest: Vec<node::Id>,
)
    requires
        home_of(root, branches, id) == Some(home),
    ensures
        forall|k: int|
            0 <= k < without_node(root, branches, id, rest).1.len() ==> !sinks_of(
                home,
                id,
            ).contains((#[trigger] without_node(root, branches, id, rest).1[k]).sink_node_id),
{
    let sinks = sinks_of(home, id);
    if root.nodes.contains_key(id) {
        lemma_sinks_are_gone(branches, sinks);
    } else {
        let i = branch_with(branches, id)->0;
        lemma_sinks_are_gone(branches.update(i, trimmed(branches[i], id, rest)), sinks);
    }
}

/// An arm among others leaves the list of its Match, and the Match stays as it
/// was otherwise: the other arms keep their order, no anchor goes, and no branch
/// of the arm is left.
pub proof fn law_an_arm_leaves_its_match(
    root: TermGraphView,
    branches: Seq<TermGraphView>,
    home: TermGraphView,
    id: node::Id,
    parent: node::Id,
    rest: Vec<node::Id>,
)
    requires
        is_arm_of(home, id, parent),
        home_of(root, branches, id) == Some(home),
        rest@ == arms_left(home, id),
        rest@.len() > 0,
    ensures
        ({
            let less = trimmed(home, id, rest);
            &&& !less.nodes.contains_key(id)
            &&& less.nodes.dom() == home.nodes.dom().remove(id)
            &&& forall|other: node::Id|
                other != id && other != parent && home.nodes.contains_key(other)
                    ==> #[trigger] less.nodes[other] == home.nodes[other]
            &&& less.nodes[parent] is Match
            &&& arms_of(less.nodes[parent]) == others(arms_of(home.nodes[parent]), id)
            &&& less.nodes[parent].anchor_list() == home.nodes[parent].anchor_list()
            &&& less.anchors == home.anchors
            &&& less.incoming_edge == home.incoming_edge
        }),
        forall|k: int|
            0 <= k < without_node(root, branches, id, rest).1.len() ==> !ends_in(
                home,
                id,
                (#[trigger] without_node(root, branches, id, rest).1[k]).sink_node_id,
            ),
{
    lemma_minus_arm(home, id);
    let less = trimmed(home, id, rest);
    assert(less.nodes.dom() =~= home.nodes.dom().remove(id));
    assert(less.nodes[parent].anchor_list() =~= home.nodes[parent].anchor_list());
    lemma_branches_of_arm_go(root, branches, home, id, rest);
}

/// A Match takes every arm of it, and every branch of those.
pub proof fn law_a_match_takes_its_arms(
    root: TermGraphView,
    branches: Seq<TermGraphView>,
    home: TermGraphView,
    id: node::Id,
    arm: node::Id,
    rest: Vec<node::Id>,
)
    requires
        home_of(root, branches, id) == Some(home),
        is_arm_of(home, arm, id),
    ensures
        !trimmed(home, id, rest).nodes.contains_key(id),
        !trimmed(home, id, rest).nodes.contains_key(arm),
        forall|k: int|
            0 <= k < without_node(root, branches, id, rest).1.len() ==> !ends_in(
                home,
                arm,
                (#[trigger] without_node(root, branches, id, rest).1[k]).sink_node_id,
            ),
{
    let arms = arms_of(home.nodes[id]);
    let at = choose|i: int| 0 <= i < arms.len() && arms[i] == arm;
    lemma_branches_of_arm_go(root, branches, home, id, rest);
    let left = without_node(root, branches, id, rest).1;
    assert forall|k: int| 0 <= k < left.len() implies !ends_in(
        home,
        arm,
        (#[trigger] left[k]).sink_node_id,
    ) by {
        if ends_in(home, arms[at], left[k].sink_node_id) {
            assert(sinks_of(home, id).contains(left[k].sink_node_id));
        }
    }
}

/// Some graph of the program has the node.
pub open spec fn has_node(
    root: TermGraphView,
    branches: Seq<TermGraphView>,
    id: node::Id,
) -> bool {
    root.nodes.contains_key(id) || exists|i: int|
        0 <= i < branches.len() && (#[trigger] branches[i]).nodes.contains_key(id)
}

/// Every edge of a program stands in the program's own graph, and ends on anchors
/// that are there.
pub open spec fn edges_settled(root: TermGraphView, branches: Seq<TermGraphView>) -> bool {
    &&& forall|to: anchor::Id| #[trigger]
        root.incoming_edge.contains_key(to) ==> live_in(root, branches).contains(to) && live_in(
            root,
            branches,
        ).contains(root.incoming_edge[to])
    &&& forall|i: int|
        0 <= i < branches.len() ==> (#[trigger] branches[i]).incoming_edge == Map::<
            anchor::Id,
            anchor::Id,
        >::empty()
}

/// A graph with a new Match and its one arm.
pub open spec fn with_match(
    graph: TermGraphView,
    id: node::Id,
    whole: ENode,
    pattern: node::Id,
    arm: ENode,
) -> TermGraphView {
    graph.plus_node(id, whole).plus_node(pattern, arm)
}

proof fn lemma_none_taken(branches: Seq<TermGraphView>, sinks: Set<node::Id>, len: int)
    requires
        0 <= len <= branches.len(),
        forall|j: int| 0 <= j < len ==> !is_taken(branches, sinks, j),
    ensures
        left_standing(branches, sinks, len) == branches.take(len),
    decreases len,
{
    if len > 0 {
        lemma_none_taken(branches, sinks, len - 1);
        assert(branches.take(len) =~= branches.take(len - 1).push(branches[len - 1]));
    } else {
        assert(branches.take(0) =~= Seq::empty());
    }
}

/// A branch that holds no arm is all that goes with its Sink.
proof fn lemma_only_the_new_branch_goes(
    branches: Seq<TermGraphView>,
    branch: TermGraphView,
    sinks: Set<node::Id>,
)
    requires
        sinks == set![branch.sink_node_id],
        forall|sink: node::Id| !holds_branch(branch, sink),
        forall|i: int|
            0 <= i < branches.len() ==> (#[trigger] branches[i]).sink_node_id
                != branch.sink_node_id,
    ensures
        left_standing(branches.push(branch), sinks, (branches.len() + 1) as int) == branches,
{
    let all = branches.push(branch);
    let last = branches.len() as int;
    assert(is_taken(all, sinks, last)) by {
        let way = seq![last];
        assert(is_way(all, sinks, way));
        assert(way.last() == last);
    }
    assert forall|j: int| 0 <= j < last implies !is_taken(all, sinks, j) by {
        if is_taken(all, sinks, j) {
            let way = choose|way: Seq<int>| #[trigger]
                is_way(all, sinks, way) && way.last() == j;
            assert(0 <= way[0] < all.len());
            if way[0] < last {
                assert(all[way[0]] == branches[way[0]]);
            }
            if way.len() > 1 {
                assert(holds_branch(all[way[1 - 1]], all[way[1]].sink_node_id));
            } else {
                assert(way.last() == way[0]);
            }
        }
    }
    lemma_none_taken(all, sinks, last);
    assert(all.take(last) =~= branches);
}

/// A cancelled Match leaves no trace: taking out the one arm of a Match that was
/// just built, with the branch that was built for it, gives the program back as
/// it was before. `scope` is the branch the Match was built in, or none for the
/// program itself.
pub proof fn law_a_cancelled_match_leaves_no_trace(
    root: TermGraphView,
    branches: Seq<TermGraphView>,
    scope: Option<int>,
    id: node::Id,
    patterns: Vec<node::Id>,
    input: anchor::Id,
    output: anchor::Id,
    pattern: node::Id,
    etype: Option<EType>,
    sink: node::Id,
    sink_input: anchor::Id,
    entry: node::Id,
    entry_output: anchor::Id,
    rest: Vec<node::Id>,
)
    requires
        scope matches Some(i) ==> 0 <= i < branches.len(),
        term_graph_laws::well_formed(root),
        forall|i: int|
            0 <= i < branches.len() ==> term_graph_laws::well_formed(#[trigger] branches[i]),
        edges_settled(root, branches),
        patterns@ == seq![pattern],
        id != pattern,
        input != output,
        !has_node(root, branches, id),
        !has_node(root, branches, pattern),
        !live_in(root, branches).contains(input),
        !live_in(root, branches).contains(output),
        forall|i: int| 0 <= i < branches.len() ==> (#[trigger] branches[i]).sink_node_id != sink,
        rest@ == Seq::<node::Id>::empty(),
    ensures
        ({
            let whole = ENode::Match { patterns, input_anchor: input, output_anchor: output };
            let arm = ENode::Pattern { parent_match: id, etype, sink_node_id: sink };
            let branch = term_graph::only_branch(sink, sink_input, entry, entry_output, pattern);
            let (grown, arms) = match scope {
                Some(i) => (
                    root,
                    branches.update(i, with_match(branches[i], id, whole, pattern, arm)),
                ),
                None => (with_match(root, id, whole, pattern, arm), branches),
            };
            &&& are_the_rest(grown, arms.push(branch), pattern, rest)
            &&& without_node(grown, arms.push(branch), pattern, rest) == (root, branches)
        }),
{
    let whole = ENode::Match { patterns, input_anchor: input, output_anchor: output };
    let arm = ENode::Pattern { parent_match: id, etype, sink_node_id: sink };
    let branch = term_graph::only_branch(sink, sink_input, entry, entry_output, pattern);
    assert forall|end: node::Id| !holds_branch(branch, end) by {
        assert forall|at: node::Id| !ends_in(branch, at, end) by {}
    }
    assert(branch.sink_node_id == sink);
    assert(patterns@[0] == pattern);
    let home = match scope {
        Some(i) => branches[i],
        None => root,
    };
    assert(others(patterns@, pattern) =~= Seq::empty()) by {
        assert(patterns@ =~= Seq::empty().push(pattern));
        Seq::<node::Id>::empty().lemma_filter_push(pattern, other_than(pattern));
        assert(Seq::<node::Id>::empty().filter(other_than(pattern)) =~= Seq::empty()) by {
            reveal(Seq::filter);
        }
    }
    // What is fresh to the program is fresh to the graph the Match is built in.
    assert forall|at: anchor::Id| home.anchors.contains_key(at) implies live_in(
        root,
        branches,
    ).contains(at) by {
        if let Some(i) = scope {
            assert(branches[i].anchors.contains_key(at));
        }
    }
    assert(whole.anchor_list()[0].0 == input && whole.anchor_list()[1].0 == output);
    assert(whole.anchor_ids() =~= set![input, output]);
    assert(term_graph_laws::anchors_distinct(whole));
    assert(!home.nodes.contains_key(id) && !home.nodes.contains_key(pattern)) by {
        if let Some(i) = scope {
            assert(branches[i] == home);
        }
    }
    assert(term_graph_laws::is_fresh(home, id, whole));
    assert(term_graph_laws::untouched_by_edges(home, whole.anchor_ids())) by {
        if let Some(i) = scope {
            assert(branches[i].incoming_edge == Map::<anchor::Id, anchor::Id>::empty());
        }
    }
    let with_whole = home.plus_node(id, whole);
    let grown_home = with_match(home, id, whole, pattern, arm);
    term_graph_laws::law_minus_node_undoes_plus_node(home, id, whole);
    assert(arm.anchor_list().len() == 0);
    assert(arm.anchor_ids() =~= Set::empty());
    term_graph_laws::law_minus_node_undoes_plus_node(with_whole, pattern, arm);
    assert(trimmed(grown_home, pattern, rest) == home);
    assert(sinks_of(grown_home, pattern) =~= set![sink]);
    lemma_only_the_new_branch_goes(branches, branch, set![sink]);
    term_graph_laws::law_retaining_edges(root, live_in(root, branches));
    assert(swept(root, branches) == root);
    match scope {
        Some(i) => {
            let arms = branches.update(i, grown_home).push(branch);
            assert(!root.nodes.contains_key(pattern));
            lemma_first_branch(arms, pattern, i);
            assert(arms[i] == grown_home);
            assert(arms.update(i, home) =~= branches.push(branch));
        },
        None => {},
    }
}

/// A cancelled arm leaves no trace: taking out an arm that was just added to a
/// Match which has others, with the branch that was built for it, gives the
/// program back as it was before, with the arms that the Match had. `scope` is the
/// branch the Match stands in, or none for the program itself.
pub proof fn law_a_cancelled_arm_leaves_no_trace(
    root: TermGraphView,
    branches: Seq<TermGraphView>,
    scope: Option<int>,
    id: node::Id,
    grown_patterns: Vec<node::Id>,
    pattern: node::Id,
    etype: Option<EType>,
    sink: node::Id,
    sink_input: anchor::Id,
    entry: node::Id,
    entry_output: anchor::Id,
    rest: Vec<node::Id>,
)
    requires
        scope matches Some(i) ==> 0 <= i < branches.len(),
        edges_settled(root, branches),
        !has_node(root, branches, pattern),
        forall|i: int| 0 <= i < branches.len() ==> (#[trigger] branches[i]).sink_node_id != sink,
        ({
            let home = match scope {
                Some(i) => branches[i],
                None => root,
            };
            &&& home.nodes.contains_key(id)
            &&& home.nodes[id] is Match
            &&& arms_of(home.nodes[id]).len() > 0
            &&& rest@ == arms_of(home.nodes[id])
            &&& others(grown_patterns@, pattern) == rest@
        }),
    ensures
        ({
            let home = match scope {
                Some(i) => branches[i],
                None => root,
            };
            let arm = ENode::Pattern { parent_match: id, etype, sink_node_id: sink };
            let branch = term_graph::only_branch(sink, sink_input, entry, entry_output, pattern);
            let grown_home = with_arms(home, id, grown_patterns).plus_node(pattern, arm);
            let (grown, arms) = match scope {
                Some(i) => (root, branches.update(i, grown_home)),
                None => (grown_home, branches),
            };
            let back = with_arms(home, id, rest);
            &&& are_the_rest(grown, arms.push(branch), pattern, rest)
            &&& without_node(grown, arms.push(branch), pattern, rest) == match scope {
                Some(i) => (root, branches.update(i, back)),
                None => (back, branches),
            }
        }),
{
    let home = match scope {
        Some(i) => branches[i],
        None => root,
    };
    let arm = ENode::Pattern { parent_match: id, etype, sink_node_id: sink };
    let branch = term_graph::only_branch(sink, sink_input, entry, entry_output, pattern);
    assert forall|end: node::Id| !holds_branch(branch, end) by {
        assert forall|at: node::Id| !ends_in(branch, at, end) by {}
    }
    assert(branch.sink_node_id == sink);
    assert(!home.nodes.contains_key(pattern)) by {
        if let Some(i) = scope {
            assert(branches[i] == home);
        }
    }
    let longer = with_arms(home, id, grown_patterns);
    let grown_home = longer.plus_node(pattern, arm);
    let back = with_arms(home, id, rest);
    assert(arm.anchor_list().len() == 0);
    assert(arm.anchor_ids() =~= Set::empty());
    assert(term_graph_laws::is_fresh(longer, pattern, arm));
    term_graph_laws::law_minus_node_undoes_plus_node(longer, pattern, arm);
    assert(trimmed(grown_home, pattern, rest) =~= back) by {
        assert(trimmed(grown_home, pattern, rest).nodes =~= back.nodes);
    }
    assert(sinks_of(grown_home, pattern) =~= set![sink]);
    match scope {
        Some(i) => {
            let arms = branches.update(i, grown_home).push(branch);
            let kept = branches.update(i, back);
            lemma_first_branch(arms, pattern, i);
            assert(arms[i] == grown_home);
            assert(arms.update(i, back) =~= kept.push(branch));
            lemma_only_the_new_branch_goes(kept, branch, set![sink]);
            assert(live_in(root, kept) =~= live_in(root, branches)) by {
                assert forall|at: anchor::Id| in_a_branch(kept, at) == in_a_branch(
                    branches,
                    at,
                ) by {
                    if in_a_branch(kept, at) {
                        let j = choose|j: int|
                            0 <= j < kept.len() && (#[trigger] kept[j]).anchors.contains_key(at);
                        assert(branches[j].anchors.contains_key(at));
                    }
                    if in_a_branch(branches, at) {
                        let j = choose|j: int|
                            0 <= j < branches.len() && (
                            #[trigger] branches[j]).anchors.contains_key(at);
                        assert(kept[j].anchors.contains_key(at));
                    }
                }
            }
            term_graph_laws::law_retaining_edges(root, live_in(root, kept));
        },
        None => {
            lemma_only_the_new_branch_goes(branches, branch, set![sink]);
            assert(live_in(back, branches) =~= live_in(root, branches));
            term_graph_laws::law_retaining_edges(back, live_in(back, branches));
        },
    }
}

/// The graph with other arms for the Match `id`.
pub open spec fn with_arms(
    graph: TermGraphView,
    id: node::Id,
    patterns: Vec<node::Id>,
) -> TermGraphView {
    match graph.nodes[id] {
        ENode::Match { input_anchor, output_anchor, .. } => graph.with_node_replaced(
            id,
            ENode::Match { patterns, input_anchor, output_anchor },
        ),
        _ => graph,
    }
}

/// A cancelled node leaves no trace: taking out a node that was just built gives
/// the program back as it was before. `scope` is the branch the node was built in,
/// or none for the program itself.
pub proof fn law_a_cancelled_node_leaves_no_trace(
    root: TermGraphView,
    branches: Seq<TermGraphView>,
    scope: Option<int>,
    id: node::Id,
    node: ENode,
    rest: Vec<node::Id>,
)
    requires
        scope matches Some(i) ==> 0 <= i < branches.len(),
        node !is Match,
        node !is Pattern,
        term_graph_laws::well_formed(root),
        forall|i: int|
            0 <= i < branches.len() ==> term_graph_laws::well_formed(#[trigger] branches[i]),
        edges_settled(root, branches),
        term_graph_laws::anchors_distinct(node),
        !has_node(root, branches, id),
        live_in(root, branches).disjoint(node.anchor_ids()),
        rest@ == Seq::<node::Id>::empty(),
    ensures
        ({
            let (grown, arms) = match scope {
                Some(i) => (root, branches.update(i, branches[i].plus_node(id, node))),
                None => (root.plus_node(id, node), branches),
            };
            &&& are_the_rest(grown, arms, id, rest)
            &&& without_node(grown, arms, id, rest) == (root, branches)
        }),
{
    let home = match scope {
        Some(i) => branches[i],
        None => root,
    };
    assert forall|at: anchor::Id| home.anchors.contains_key(at) implies live_in(
        root,
        branches,
    ).contains(at) by {
        if let Some(i) = scope {
            assert(branches[i].anchors.contains_key(at));
        }
    }
    assert(!home.nodes.contains_key(id)) by {
        if let Some(i) = scope {
            assert(branches[i] == home);
        }
    }
    assert(term_graph_laws::is_fresh(home, id, node));
    assert(term_graph_laws::untouched_by_edges(home, node.anchor_ids())) by {
        if let Some(i) = scope {
            assert(branches[i].incoming_edge == Map::<anchor::Id, anchor::Id>::empty());
        }
    }
    let grown_home = home.plus_node(id, node);
    term_graph_laws::law_minus_node_undoes_plus_node(home, id, node);
    assert(sinks_of(grown_home, id) =~= Set::empty());
    lemma_nothing_taken(branches);
    term_graph_laws::law_retaining_edges(root, live_in(root, branches));
    assert(swept(root, branches) == root);
    match scope {
        Some(i) => {
            let arms = branches.update(i, grown_home);
            lemma_first_branch(arms, id, i);
            assert(arms.update(i, home) =~= branches);
        },
        None => {},
    }
}

proof fn lemma_nothing_taken(branches: Seq<TermGraphView>)
    ensures
        left_standing(branches, Set::empty(), branches.len() as int) == branches,
{
    assert forall|j: int| 0 <= j < branches.len() implies !is_taken(
        branches,
        Set::empty(),
        j,
    ) by {
        if is_taken(branches, Set::empty(), j) {
            let way = choose|way: Seq<int>| #[trigger]
                is_way(branches, Set::empty(), way) && way.last() == j;
        }
    }
    lemma_none_taken(branches, Set::empty(), branches.len() as int);
    assert(branches.take(branches.len() as int) =~= branches);
}

/// A branch with the node, with none before it.
proof fn lemma_first_branch(branches: Seq<TermGraphView>, id: node::Id, i: int)
    requires
        0 <= i < branches.len(),
        branches[i].nodes.contains_key(id),
        forall|j: int| 0 <= j < i ==> !(#[trigger] branches[j]).nodes.contains_key(id),
    ensures
        branch_with(branches, id) == Some(i),
    decreases branches.len(),
{
    let shorter = branches.drop_last();
    if i < branches.len() - 1 {
        lemma_first_branch(shorter, id, i);
    } else {
        lemma_no_branch(shorter, id);
    }
}

proof fn lemma_no_branch(branches: Seq<TermGraphView>, id: node::Id)
    requires
        forall|j: int| 0 <= j < branches.len() ==> !(#[trigger] branches[j]).nodes.contains_key(id),
    ensures
        branch_with(branches, id) is None,
    decreases branches.len(),
{
    if branches.len() > 0 {
        lemma_no_branch(branches.drop_last(), id);
    }
}

/// The arms a Match names are there and are its own, and it has one at least.
pub open spec fn has_its_arms(graph: TermGraphView, id: node::Id) -> bool {
    let arms = arms_of(graph.nodes[id]);
    &&& arms.len() > 0
    &&& forall|i: int| 0 <= i < arms.len() ==> is_arm_of(graph, #[trigger] arms[i], id)
}

/// The Match of an arm is there, and names it.
pub open spec fn has_its_match(graph: TermGraphView, id: node::Id) -> bool {
    graph.nodes[id] matches ENode::Pattern { parent_match, .. } && is_arm_of(
        graph,
        id,
        parent_match,
    )
}

/// Matches and arms agree with each other.
pub open spec fn arms_agree(graph: TermGraphView) -> bool {
    &&& forall|id: node::Id|
        graph.nodes.contains_key(id) && graph.nodes[id] is Match ==> #[trigger] has_its_arms(
            graph,
            id,
        )
    &&& forall|id: node::Id|
        graph.nodes.contains_key(id) && graph.nodes[id] is Pattern ==> #[trigger] has_its_match(
            graph,
            id,
        )
}

/// The branch that ends in `sink` hangs on an arm of the program.
pub open spec fn is_hung(
    root: TermGraphView,
    branches: Seq<TermGraphView>,
    sink: node::Id,
) -> bool {
    holds_branch(root, sink) || exists|j: int|
        0 <= j < branches.len() && holds_branch(#[trigger] branches[j], sink)
}

/// A program in order: in each of its graphs the Matches and the arms agree with
/// each other, and every branch hangs on an arm.
pub open spec fn in_order(root: TermGraphView, branches: Seq<TermGraphView>) -> bool {
    &&& arms_agree(root)
    &&& forall|i: int| 0 <= i < branches.len() ==> arms_agree(#[trigger] branches[i])
    &&& forall|i: int|
        0 <= i < branches.len() ==> is_hung(root, branches, (#[trigger] branches[i]).sink_node_id)
}

proof fn lemma_others(patterns: Seq<node::Id>, id: node::Id)
    ensures
        forall|arm: node::Id| #[trigger]
            others(patterns, id).contains(arm) <==> patterns.contains(arm) && arm != id,
{
    let rest = others(patterns, id);
    let other = other_than(id);
    assert forall|arm: node::Id| #[trigger] rest.contains(arm) <==> patterns.contains(arm) && arm
        != id by {
        if rest.contains(arm) {
            let i = choose|i: int| 0 <= i < rest.len() && rest[i] == arm;
            patterns.lemma_filter_pred(other, i);
            patterns.lemma_filter_contains_rev(other, arm);
        }
        if patterns.contains(arm) && arm != id {
            let i = choose|i: int| 0 <= i < patterns.len() && patterns[i] == arm;
            patterns.lemma_filter_contains(other, i);
        }
    }
}

/// What a removal leaves of a graph agrees with itself, and the arms that went are
/// those whose branches go.
proof fn lemma_trimmed_agrees(graph: TermGraphView, id: node::Id, rest: Vec<node::Id>)
    requires
        arms_agree(graph),
        graph.nodes.contains_key(id),
        rest@ == arms_left(graph, id),
    ensures
        arms_agree(trimmed(graph, id, rest)),
        forall|arm: node::Id, sink: node::Id| #[trigger]
            ends_in(graph, arm, sink) ==> ends_in(trimmed(graph, id, rest), arm, sink)
                || sinks_of(graph, id).contains(sink),
{
    let less = trimmed(graph, id, rest);
    match graph.nodes[id] {
        ENode::Match { patterns, .. } => {
            let arms = patterns@;
            assert(has_its_arms(graph, id));
            let without = graph.minus_node(id);
            assert forall|arm: node::Id| #[trigger] arms_in(without, arms).contains(arm)
                <==> is_arm_of(graph, arm, id) by {
                if arms_in(without, arms).contains(arm) {
                    let i = choose|i: int| 0 <= i < arms.len() && arms[i] == arm;
                    assert(is_arm_of(graph, arms[i], id));
                }
            }
            assert forall|other: node::Id|
                less.nodes.contains_key(other) && less.nodes[other] is Match implies
                #[trigger] has_its_arms(less, other) by {
                assert(has_its_arms(graph, other));
                let own = arms_of(graph.nodes[other]);
                assert forall|i: int| 0 <= i < own.len() implies is_arm_of(
                    less,
                    #[trigger] own[i],
                    other,
                ) by {
                    assert(is_arm_of(graph, own[i], other));
                    assert(!arms_in(without, arms).contains(own[i]));
                }
            }
            assert forall|other: node::Id|
                less.nodes.contains_key(other) && less.nodes[other] is Pattern implies
                #[trigger] has_its_match(less, other) by {
                assert(has_its_match(graph, other));
                assert(!arms_in(without, arms).contains(other));
            }
            assert forall|arm: node::Id, sink: node::Id| #[trigger]
                ends_in(graph, arm, sink) implies ends_in(less, arm, sink) || sinks_of(
                graph,
                id,
            ).contains(sink) by {
                if arms_in(without, arms).contains(arm) {
                    let i = choose|i: int| 0 <= i < arms.len() && arms[i] == arm;
                    assert(ends_in(graph, arms[i], sink));
                }
            }
        },
        ENode::Pattern { parent_match, .. } => {
            assert(has_its_match(graph, id));
            assert(has_its_arms(graph, parent_match));
            lemma_minus_arm(graph, id);
            let arms = arms_of(graph.nodes[parent_match]);
            lemma_others(arms, id);
            assert(rest@ == others(arms, id));
            assert forall|other: node::Id|
                less.nodes.contains_key(other) && less.nodes[other] is Match implies
                #[trigger] has_its_arms(less, other) by {
                assert(has_its_arms(graph, other));
                let own = arms_of(less.nodes[other]);
                assert forall|i: int| 0 <= i < own.len() implies is_arm_of(
                    less,
                    #[trigger] own[i],
                    other,
                ) by {
                    let arm = own[i];
                    if other == parent_match {
                        assert(rest@.contains(arm));
                        assert(arms.contains(arm));
                        let k = choose|k: int| 0 <= k < arms.len() && arms[k] == arm;
                        assert(is_arm_of(graph, arms[k], other));
                        assert(own.contains(arm));
                    } else {
                        assert(arms_of(graph.nodes[other])[i] == arm);
                        assert(is_arm_of(graph, arm, other));
                        assert(arm != id);
                    }
                }
            }
            assert forall|other: node::Id|
                less.nodes.contains_key(other) && less.nodes[other] is Pattern implies
                #[trigger] has_its_match(less, other) by {
                assert(has_its_match(graph, other));
                if is_arm_of(graph, other, parent_match) {
                    assert(rest@.contains(other));
                }
            }
            assert forall|arm: node::Id, sink: node::Id| #[trigger]
                ends_in(graph, arm, sink) implies ends_in(less, arm, sink) || sinks_of(
                graph,
                id,
            ).contains(sink) by {}
        },
        _ => {
            assert forall|other: node::Id|
                less.nodes.contains_key(other) && less.nodes[other] is Match implies
                #[trigger] has_its_arms(less, other) by {
                assert(has_its_arms(graph, other));
                let own = arms_of(graph.nodes[other]);
                assert forall|i: int| 0 <= i < own.len() implies is_arm_of(
                    less,
                    #[trigger] own[i],
                    other,
                ) by {
                    assert(is_arm_of(graph, own[i], other));
                }
            }
            assert forall|other: node::Id|
                less.nodes.contains_key(other) && less.nodes[other] is Pattern implies
                #[trigger] has_its_match(less, other) by {
                assert(has_its_match(graph, other));
            }
        },
    }
}

proof fn lemma_branch_found(branches: Seq<TermGraphView>, id: node::Id)
    ensures
        branch_with(branches, id) matches Some(i) ==> 0 <= i < branches.len()
            && branches[i].nodes.contains_key(id),
    decreases branches.len(),
{
    if branches.len() > 0 {
        lemma_branch_found(branches.drop_last(), id);
    }
}

/// A removal keeps a program in order: no Match is left that names an arm which
/// is gone or that has none, no arm without its Match, and no branch without its
/// arm.
pub proof fn law_removal_leaves_no_orphans(
    root: TermGraphView,
    branches: Seq<TermGraphView>,
    id: node::Id,
    rest: Vec<node::Id>,
)
    requires
        in_order(root, branches),
        are_the_rest(root, branches, id, rest),
    ensures
        in_order(
            without_node(root, branches, id, rest).0,
            without_node(root, branches, id, rest).1,
        ),
{
    lemma_branch_found(branches, id);
    if home_of(root, branches, id) is Some {
        lemma_no_orphans(root, branches, id, rest);
    }
}

proof fn lemma_no_orphans(
    root: TermGraphView,
    branches: Seq<TermGraphView>,
    id: node::Id,
    rest: Vec<node::Id>,
)
    requires
        in_order(root, branches),
        are_the_rest(root, branches, id, rest),
        home_of(root, branches, id) is Some,
    ensures
        in_order(
            without_node(root, branches, id, rest).0,
            without_node(root, branches, id, rest).1,
        ),
{
    lemma_branch_found(branches, id);
    let home = home_of(root, branches, id)->0;
    let sinks = sinks_of(home, id);
    lemma_trimmed_agrees(home, id, rest);
    lemma_trimmed_edges(home, id, rest);
    let (whole, all) = if root.nodes.contains_key(id) {
        (trimmed(root, id, rest), branches)
    } else {
        let i = branch_with(branches, id)->0;
        (root, branches.update(i, trimmed(branches[i], id, rest)))
    };
    let (left, arms) = without_node(root, branches, id, rest);
    lemma_left_standing(all, sinks, all.len() as int);
    lemma_sinks_are_gone(all, sinks);
    assert(left.nodes == whole.nodes);
    assert(arms_agree(left)) by {
        lemma_same_nodes_agree(whole, left);
    }
    assert forall|k: int| 0 <= k < arms.len() implies arms_agree(#[trigger] arms[k]) && is_hung(
        left,
        arms,
        arms[k].sink_node_id,
    ) by {
        let j = choose|j: int|
            #![trigger all[j]]
            0 <= j < all.len() && !is_taken(all, sinks, j) && arms[k] == all[j];
        let sink = branches[j].sink_node_id;
        assert(arms[k].sink_node_id == sink);
        assert(!sinks.contains(sink));
        assert(arms_agree(branches[j]));
        assert(is_hung(root, branches, sink));
        if holds_branch(root, sink) {
            let arm = choose|arm: node::Id| #[trigger] ends_in(root, arm, sink);
            assert(ends_in(left, arm, sink));
        } else {
            let h = choose|h: int|
                0 <= h < branches.len() && holds_branch(#[trigger] branches[h], sink);
            let arm = choose|arm: node::Id| #[trigger] ends_in(branches[h], arm, sink);
            assert(ends_in(all[h], arm, sink));
            assert(holds_branch(all[h], all[j].sink_node_id));
            if is_taken(all, sinks, h) {
                lemma_nested_is_taken(all, sinks, h, j);
            }
            assert(arms.contains(all[h]));
            let at = choose|at: int| 0 <= at < arms.len() && arms[at] == all[h];
            assert(holds_branch(arms[at], sink));
        }
    }
}

proof fn lemma_same_nodes_agree(one: TermGraphView, other: TermGraphView)
    requires
        arms_agree(one),
        one.nodes == other.nodes,
    ensures
        arms_agree(other),
{
    assert forall|id: node::Id|
        other.nodes.contains_key(id) && other.nodes[id] is Match implies #[trigger] has_its_arms(
        other,
        id,
    ) by {
        assert(has_its_arms(one, id));
        let arms = arms_of(one.nodes[id]);
        assert forall|i: int| 0 <= i < arms.len() implies is_arm_of(
            other,
            #[trigger] arms[i],
            id,
        ) by {
            assert(is_arm_of(one, arms[i], id));
        }
    }
    assert forall|id: node::Id|
        other.nodes.contains_key(id) && other.nodes[id] is Pattern implies #[trigger] has_its_match(
        other,
        id,
    ) by {
        assert(has_its_match(one, id));
    }
}

/// A removal keeps the tables of every graph in agreement, as long as no graph
/// loses its Sink.
pub proof fn law_removal_keeps_well_formed(
    graph: TermGraphView,
    id: node::Id,
    rest: Vec<node::Id>,
    live: Set<anchor::Id>,
)
    requires
        term_graph_laws::well_formed(graph),
        graph.nodes.contains_key(id),
        id != graph.sink_node_id,
    ensures
        term_graph_laws::well_formed(trimmed(graph, id, rest)),
        term_graph_laws::well_formed(trimmed(graph, id, rest).retaining_edges(live)),
{
    let without = graph.minus_node(id);
    term_graph_laws::law_minus_node_keeps_well_formed(graph, id);
    match graph.nodes[id] {
        ENode::Match { patterns, .. } => {
            lemma_without_arms_well_formed(without, patterns@);
        },
        ENode::Pattern { parent_match, .. } => {
            if without.nodes.contains_key(parent_match) {
                if let ENode::Match { input_anchor, output_anchor, .. } =
                    without.nodes[parent_match] {
                    let thinner = ENode::Match { patterns: rest, input_anchor, output_anchor };
                    if rest@.len() == 0 {
                        term_graph_laws::law_minus_node_keeps_well_formed(without, parent_match);
                    } else {
                        assert(thinner.anchor_list()
                            =~= without.nodes[parent_match].anchor_list());
                        term_graph_laws::law_with_node_replaced(without, parent_match, thinner);
                    }
                }
            }
        },
        _ => {},
    }
    term_graph_laws::law_retaining_edges(trimmed(graph, id, rest), live);
}

proof fn lemma_without_arms_well_formed(graph: TermGraphView, list: Seq<node::Id>)
    requires
        term_graph_laws::well_formed(graph),
    ensures
        term_graph_laws::well_formed(without_arms(graph, list)),
{
    let less = without_arms(graph, list);
    assert forall|id: node::Id, i: int|
        #![trigger less.nodes[id].anchor_list()[i]]
        less.nodes.contains_key(id) && 0 <= i < less.nodes[id].anchor_list().len() implies {
        let (at, kind) = less.nodes[id].anchor_list()[i];
        &&& less.anchors.contains_key(at)
        &&& less.anchors[at] == kind
        &&& less.anchor_to_node[at] == id
    } by {
        let entry = graph.nodes[id].anchor_list()[i];
    }
    assert forall|at: anchor::Id| #[trigger] less.anchor_to_node.contains_key(at) implies {
        let owner = less.anchor_to_node[at];
        &&& less.nodes.contains_key(owner)
        &&& less.nodes[owner].anchor_ids().contains(at)
    } by {
        let owner = graph.anchor_to_node[at];
        assert(graph.nodes[owner].anchor_ids().contains(at));
        if arms_in(graph, list).contains(owner) {
            assert(graph.nodes[owner].anchor_list().len() == 0);
        }
    }
}

/// Removing a node that is not there changes nothing.
pub proof fn law_removing_nothing(
    root: TermGraphView,
    branches: Seq<TermGraphView>,
    id: node::Id,
    rest: Vec<node::Id>,
)
    requires
        home_of(root, branches, id) is None,
    ensures
        without_node(root, branches, id, rest) == (root, branches),
{
}

} // verus!
