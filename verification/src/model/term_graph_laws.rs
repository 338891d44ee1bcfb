//! What holds of every term graph, and of the operations taken together.

use crate::model::anchor;
use crate::model::node::{self, ENode};
use crate::model::table;
use crate::model::term_graph::{self, TermGraphView};
use vstd::prelude::*;

verus! {

/// The anchors of a node are different from each other.
pub open spec fn anchors_distinct(node: ENode) -> bool {
    forall|i: int, j: int|
        0 <= i < j < node.anchor_list().len() ==> (#[trigger] node.anchor_list()[i]).0 != (
        #[trigger] node.anchor_list()[j]).0
}

/// Neither the id nor an anchor of the node is in use.
pub open spec fn is_fresh(graph: TermGraphView, id: node::Id, node: ENode) -> bool {
    &&& !graph.nodes.contains_key(id)
    &&& graph.anchors.dom().disjoint(node.anchor_ids())
    &&& graph.anchor_to_node.dom().disjoint(node.anchor_ids())
}

/// No edge of the graph ends on one of `ids`.
pub open spec fn untouched_by_edges(graph: TermGraphView, ids: Set<anchor::Id>) -> bool {
    forall|to: anchor::Id| #[trigger]
        graph.incoming_edge.contains_key(to) ==> !ids.contains(to) && !ids.contains(
            graph.incoming_edge[to],
        )
}

/// The tables of a graph agree with each other: the sink is there, every anchor
/// of every node is known for what it is and as that node's, and nothing else is
/// known.
pub open spec fn well_formed(graph: TermGraphView) -> bool {
    &&& graph.nodes.contains_key(graph.sink_node_id)
    &&& graph.nodes[graph.sink_node_id] is Sink
    &&& graph.anchors.dom() == graph.anchor_to_node.dom()
    &&& forall|id: node::Id, i: int|
        #![trigger graph.nodes[id].anchor_list()[i]]
        graph.nodes.contains_key(id) && 0 <= i < graph.nodes[id].anchor_list().len() ==> {
            let (at, kind) = graph.nodes[id].anchor_list()[i];
            &&& graph.anchors.contains_key(at)
            &&& graph.anchors[at] == kind
            &&& graph.anchor_to_node[at] == id
        }
    &&& forall|at: anchor::Id| #[trigger]
        graph.anchor_to_node.contains_key(at) ==> {
            let owner = graph.anchor_to_node[at];
            &&& graph.nodes.contains_key(owner)
            &&& graph.nodes[owner].anchor_ids().contains(at)
        }
}

/// Every id of the graph was handed out: its number is below the number of ids
/// that have been.
pub open spec fn ids_issued(graph: TermGraphView, nodes: nat, anchors: nat) -> bool {
    &&& forall|id: node::Id| #[trigger] graph.nodes.contains_key(id) ==> id.0 < nodes
    &&& forall|at: anchor::Id| #[trigger] graph.anchors.contains_key(at) ==> at.0 < anchors
    &&& forall|at: anchor::Id| #[trigger] graph.anchor_to_node.contains_key(at) ==> at.0 < anchors
}

/// What adding a fresh node does to the anchor tables: the node's anchors are
/// entered for what they are, and everything else stays.
pub proof fn lemma_plus_node_tables(graph: TermGraphView, id: node::Id, node: ENode)
    requires
        anchors_distinct(node),
    ensures
        ({
            let grown = graph.plus_node(id, node);
            &&& grown.anchors.dom() == graph.anchors.dom().union(node.anchor_ids())
            &&& grown.anchor_to_node.dom() == graph.anchor_to_node.dom().union(node.anchor_ids())
            &&& forall|i: int|
                0 <= i < node.anchor_list().len() ==> {
                    let (at, kind) = #[trigger] node.anchor_list()[i];
                    &&& grown.anchors[at] == kind
                    &&& grown.anchor_to_node[at] == id
                }
            &&& forall|at: anchor::Id|
                !node.anchor_ids().contains(at) && graph.anchors.contains_key(at)
                    ==> #[trigger] grown.anchors[at] == graph.anchors[at]
            &&& forall|at: anchor::Id|
                !node.anchor_ids().contains(at) && graph.anchor_to_node.contains_key(at)
                    ==> #[trigger] grown.anchor_to_node[at] == graph.anchor_to_node[at]
        }),
{
    let list = node.anchor_list();
    let owners = table::owned(list, id);
    table::lemma_entered(graph.anchors, list);
    table::lemma_entered(graph.anchor_to_node, owners);
    assert(table::listed(list) =~= node.anchor_ids());
    assert forall|at: anchor::Id| table::listed(owners).contains(at) <==> node.anchor_ids().contains(
        at,
    ) by {
        if table::listed(owners).contains(at) {
            let i = choose|i: int| 0 <= i < owners.len() && #[trigger] owners[i].0 == at;
            assert(list[i].0 == at);
        }
        if node.anchor_ids().contains(at) {
            let i = choose|i: int| 0 <= i < list.len() && #[trigger] list[i].0 == at;
            assert(owners[i].0 == at);
        }
    }
    assert(table::listed(owners) =~= node.anchor_ids());
    let grown = graph.plus_node(id, node);
    assert forall|i: int| 0 <= i < list.len() implies {
        let (at, kind) = #[trigger] list[i];
        &&& grown.anchors[at] == kind
        &&& grown.anchor_to_node[at] == id
    } by {
        let at = list[i].0;
        assert(table::listed(list).contains(at));
        assert(table::listed(owners).contains(at));
        let j = choose|j: int|
            0 <= j < list.len() && #[trigger] list[j].0 == at && table::entered(
                graph.anchors,
                list,
            )[at] == list[j].1;
        assert(j == i);
        let k = choose|k: int|
            0 <= k < owners.len() && #[trigger] owners[k].0 == at && table::entered(
                graph.anchor_to_node,
                owners,
            )[at] == owners[k].1;
        assert(owners[k].1 == id);
    }
}

/// Adding a fresh node keeps the tables in agreement.
pub proof fn law_plus_node_keeps_well_formed(graph: TermGraphView, id: node::Id, node: ENode)
    requires
        well_formed(graph),
        is_fresh(graph, id, node),
        anchors_distinct(node),
    ensures
        well_formed(graph.plus_node(id, node)),
        graph.plus_node(id, node).sink_node_id == graph.sink_node_id,
{
    lemma_plus_node_tables(graph, id, node);
    let grown = graph.plus_node(id, node);
    assert(grown.anchors.dom() =~= grown.anchor_to_node.dom());
    assert forall|other: node::Id, i: int|
        #![trigger grown.nodes[other].anchor_list()[i]]
        grown.nodes.contains_key(other) && 0 <= i < grown.nodes[other].anchor_list().len() implies {
        let (at, kind) = grown.nodes[other].anchor_list()[i];
        &&& grown.anchors.contains_key(at)
        &&& grown.anchors[at] == kind
        &&& grown.anchor_to_node[at] == other
    } by {
        let at = grown.nodes[other].anchor_list()[i].0;
        if other == id {
            assert(node.anchor_list()[i].0 == at);
            assert(node.anchor_ids().contains(at));
        } else {
            assert(graph.nodes[other].anchor_list()[i].0 == at);
            assert(graph.anchors.contains_key(at));
            assert(!node.anchor_ids().contains(at));
        }
    }
    assert forall|at: anchor::Id| #[trigger] grown.anchor_to_node.contains_key(at) implies {
        let owner = grown.anchor_to_node[at];
        &&& grown.nodes.contains_key(owner)
        &&& grown.nodes[owner].anchor_ids().contains(at)
    } by {
        if node.anchor_ids().contains(at) {
            let i = choose|i: int|
                0 <= i < node.anchor_list().len() && #[trigger] node.anchor_list()[i].0 == at;
            assert(grown.anchor_to_node[at] == id);
        } else {
            assert(graph.anchor_to_node.contains_key(at));
            assert(graph.anchor_to_node[at] != id);
        }
    }
}

/// A new graph is its sink alone, and its tables agree.
pub proof fn law_new_is_well_formed(sink: node::Id, input: anchor::Id)
    ensures
        well_formed(term_graph::only_sink(sink, input)),
        term_graph::only_sink(sink, input).nodes.dom() == set![sink],
        term_graph::only_sink(sink, input).anchors.dom() == set![input],
        term_graph::only_sink(sink, input).sink_node_id == sink,
        term_graph::only_sink(sink, input).incoming_edge.dom() == Set::<anchor::Id>::empty(),
{
    let node = ENode::Sink { input_anchor: input };
    let graph = term_graph::only_sink(sink, input);
    lemma_plus_node_tables(TermGraphView::bare(sink), sink, node);
    assert(node.anchor_list()[0].0 == input);
    assert(node.anchor_ids() =~= set![input]);
    assert(graph.nodes.dom() =~= set![sink]);
    assert(graph.anchors.dom() =~= set![input]);
    assert(graph.anchor_to_node.dom() =~= set![input]);
    assert(graph.incoming_edge.dom() =~= Set::<anchor::Id>::empty());
    assert forall|id: node::Id, i: int|
        #![trigger graph.nodes[id].anchor_list()[i]]
        graph.nodes.contains_key(id) && 0 <= i < graph.nodes[id].anchor_list().len() implies {
        let (at, kind) = graph.nodes[id].anchor_list()[i];
        &&& graph.anchors.contains_key(at)
        &&& graph.anchors[at] == kind
        &&& graph.anchor_to_node[at] == id
    } by {
        assert(graph.nodes.dom().contains(id));
        assert(id == sink);
        assert(graph.nodes[id] == node);
        assert(node.anchor_list()[i].0 == input);
    }
    assert forall|at: anchor::Id| #[trigger] graph.anchor_to_node.contains_key(at) implies {
        let owner = graph.anchor_to_node[at];
        &&& graph.nodes.contains_key(owner)
        &&& graph.nodes[owner].anchor_ids().contains(at)
    } by {
        assert(graph.anchor_to_node.dom().contains(at));
        assert(at == input);
        assert(graph.anchor_to_node[at] == sink);
        assert(graph.nodes[sink] == node);
    }
}

/// A new branch is its sink and its one entry, and its tables agree.
pub proof fn law_new_branch_is_well_formed(
    sink: node::Id,
    input: anchor::Id,
    entry: node::Id,
    output: anchor::Id,
    pattern: node::Id,
)
    requires
        sink != entry,
        input != output,
    ensures
        ({
            let branch = term_graph::only_branch(sink, input, entry, output, pattern);
            &&& well_formed(branch)
            &&& branch.nodes.dom() == set![sink, entry]
            &&& branch.anchors.dom() == set![input, output]
            &&& branch.sink_node_id == sink
            &&& branch.nodes[entry] == ENode::BranchSource { pattern, output_anchor: output }
            &&& branch.incoming_edge.dom() == Set::<anchor::Id>::empty()
        }),
{
    law_new_is_well_formed(sink, input);
    let graph = term_graph::only_sink(sink, input);
    let node = ENode::BranchSource { pattern, output_anchor: output };
    let branch = term_graph::only_branch(sink, input, entry, output, pattern);
    assert(node.anchor_list()[0].0 == output);
    assert(node.anchor_ids() =~= set![output]);
    assert(!graph.nodes.dom().contains(entry));
    assert(graph.anchors.dom() == set![input]);
    assert(is_fresh(graph, entry, node));
    law_plus_node_keeps_well_formed(graph, entry, node);
    lemma_plus_node_tables(graph, entry, node);
    assert(branch.nodes.dom() =~= set![sink, entry]);
    assert(branch.anchors.dom() =~= set![input, output]);
}

/// An id that a domain has not handed out yet is fresh to every graph made of
/// ids that it has.
pub proof fn law_issued_ids_are_fresh(
    graph: TermGraphView,
    nodes: nat,
    anchors: nat,
    id: node::Id,
    node: ENode,
)
    requires
        ids_issued(graph, nodes, anchors),
        id.0 >= nodes,
        forall|i: int|
            0 <= i < node.anchor_list().len() ==> (#[trigger] node.anchor_list()[i]).0.0 >= anchors,
    ensures
        is_fresh(graph, id, node),
{
    assert forall|at: anchor::Id| node.anchor_ids().contains(at) implies at.0 >= anchors by {
        let i = choose|i: int|
            0 <= i < node.anchor_list().len() && #[trigger] node.anchor_list()[i].0 == at;
        assert(node.anchor_list()[i].0.0 >= anchors);
    }
}

/// Taking a node other than the sink out keeps the tables in agreement.
pub proof fn law_minus_node_keeps_well_formed(graph: TermGraphView, id: node::Id)
    requires
        well_formed(graph),
        graph.nodes.contains_key(id),
        id != graph.sink_node_id,
    ensures
        well_formed(graph.minus_node(id)),
        graph.minus_node(id).sink_node_id == graph.sink_node_id,
{
    let less = graph.minus_node(id);
    let gone = graph.nodes[id].anchor_ids();
    assert(less.anchors.dom() =~= less.anchor_to_node.dom());
    assert forall|at: anchor::Id| gone.contains(at) implies graph.anchor_to_node[at] == id by {
        let i = choose|i: int|
            0 <= i < graph.nodes[id].anchor_list().len() && #[trigger]
            graph.nodes[id].anchor_list()[i].0 == at;
    }
    assert forall|other: node::Id, i: int|
        #![trigger less.nodes[other].anchor_list()[i]]
        less.nodes.contains_key(other) && 0 <= i < less.nodes[other].anchor_list().len() implies {
        let (at, kind) = less.nodes[other].anchor_list()[i];
        &&& less.anchors.contains_key(at)
        &&& less.anchors[at] == kind
        &&& less.anchor_to_node[at] == other
    } by {
        let at = graph.nodes[other].anchor_list()[i].0;
        assert(graph.anchor_to_node[at] == other);
        assert(!gone.contains(at));
    }
    assert forall|at: anchor::Id| #[trigger] less.anchor_to_node.contains_key(at) implies {
        let owner = less.anchor_to_node[at];
        &&& less.nodes.contains_key(owner)
        &&& less.nodes[owner].anchor_ids().contains(at)
    } by {
        assert(graph.anchor_to_node.contains_key(at));
        assert(graph.anchor_to_node[at] != id) by {
            if graph.anchor_to_node[at] == id {
                assert(gone.contains(at));
            }
        }
    }
}

/// Taking a node out leaves no edge on an anchor of it, and no other edge is
/// lost.
pub proof fn law_minus_node_takes_its_edges(graph: TermGraphView, id: node::Id)
    requires
        graph.nodes.contains_key(id),
    ensures
        untouched_by_edges(graph.minus_node(id), graph.nodes[id].anchor_ids()),
        forall|to: anchor::Id|
            graph.incoming_edge.contains_key(to) && !graph.nodes[id].anchor_ids().contains(to)
                && !graph.nodes[id].anchor_ids().contains(graph.incoming_edge[to]) ==> (#[trigger]
            graph.minus_node(id).incoming_edge.contains_key(to) && graph.minus_node(
                id,
            ).incoming_edge[to] == graph.incoming_edge[to]),
{
}

/// Taking out the node that was just added gives back the graph as it was.
pub proof fn law_minus_node_undoes_plus_node(graph: TermGraphView, id: node::Id, node: ENode)
    requires
        is_fresh(graph, id, node),
        anchors_distinct(node),
        untouched_by_edges(graph, node.anchor_ids()),
    ensures
        graph.plus_node(id, node).minus_node(id) == graph,
{
    lemma_plus_node_tables(graph, id, node);
    let back = graph.plus_node(id, node).minus_node(id);
    assert(back.nodes =~= graph.nodes);
    assert(back.anchors =~= graph.anchors);
    assert(back.anchor_to_node =~= graph.anchor_to_node);
    assert(back.incoming_edge =~= graph.incoming_edge);
}

/// An input carries at most one edge: wiring it again replaces what arrived,
/// wiring it the same way twice is wiring it once, and no other input notices.
pub proof fn law_one_edge_per_input(
    graph: TermGraphView,
    first: anchor::Id,
    second: anchor::Id,
    to: anchor::Id,
    other: anchor::Id,
)
    requires
        other != to,
    ensures
        graph.plus_edge(first, to).plus_edge(second, to) == graph.plus_edge(second, to),
        graph.plus_edge(first, to).plus_edge(first, to) == graph.plus_edge(first, to),
        graph.plus_edge(first, to).incoming_edge[to] == first,
        graph.plus_edge(first, to).source_of(to) == Some(graph.anchor_to_node[first]),
        graph.plus_edge(first, to).source_of(other) == graph.source_of(other),
{
    assert(graph.plus_edge(first, to).plus_edge(second, to) =~= graph.plus_edge(second, to));
    assert(graph.plus_edge(first, to).plus_edge(first, to) =~= graph.plus_edge(first, to));
}

/// Wiring leaves the tables of nodes and anchors alone, and so in agreement.
pub proof fn law_plus_edge_keeps_well_formed(
    graph: TermGraphView,
    from: anchor::Id,
    to: anchor::Id,
)
    requires
        well_formed(graph),
    ensures
        well_formed(graph.plus_edge(from, to)),
        graph.plus_edge(from, to).sink_node_id == graph.sink_node_id,
{
    let wired = graph.plus_edge(from, to);
    assert forall|id: node::Id, i: int|
        #![trigger wired.nodes[id].anchor_list()[i]]
        wired.nodes.contains_key(id) && 0 <= i < wired.nodes[id].anchor_list().len() implies {
        let (at, kind) = wired.nodes[id].anchor_list()[i];
        &&& wired.anchors.contains_key(at)
        &&& wired.anchors[at] == kind
        &&& wired.anchor_to_node[at] == id
    } by {
        let entry = graph.nodes[id].anchor_list()[i];
    }
}

/// Keeping only the edges between live anchors leaves no edge that ends
/// elsewhere, loses none that does not, and is done after once.
pub proof fn law_retaining_edges(graph: TermGraphView, live: Set<anchor::Id>)
    ensures
        forall|to: anchor::Id| #[trigger]
            graph.retaining_edges(live).incoming_edge.contains_key(to) <==> (
            graph.incoming_edge.contains_key(to) && live.contains(to) && live.contains(
                graph.incoming_edge[to],
            )),
        forall|to: anchor::Id| #[trigger]
            graph.retaining_edges(live).incoming_edge.contains_key(to) ==> graph.retaining_edges(
                live,
            ).incoming_edge[to] == graph.incoming_edge[to],
        graph.retaining_edges(live).retaining_edges(live) == graph.retaining_edges(live),
        well_formed(graph) ==> well_formed(graph.retaining_edges(live)),
        (forall|to: anchor::Id| #[trigger]
            graph.incoming_edge.contains_key(to) ==> live.contains(to) && live.contains(
                graph.incoming_edge[to],
            )) ==> graph.retaining_edges(live) == graph,
{
    let kept = graph.retaining_edges(live);
    assert(kept.retaining_edges(live) =~= kept);
    if forall|to: anchor::Id| #[trigger]
        graph.incoming_edge.contains_key(to) ==> live.contains(to) && live.contains(
            graph.incoming_edge[to],
        ) {
        assert(kept =~= graph);
    }
    if well_formed(graph) {
        assert forall|id: node::Id, i: int|
            #![trigger kept.nodes[id].anchor_list()[i]]
            kept.nodes.contains_key(id) && 0 <= i < kept.nodes[id].anchor_list().len() implies {
            let (at, kind) = kept.nodes[id].anchor_list()[i];
            &&& kept.anchors.contains_key(at)
            &&& kept.anchors[at] == kind
            &&& kept.anchor_to_node[at] == id
        } by {
            let entry = graph.nodes[id].anchor_list()[i];
        }
    }
}

/// After a sweep that keeps the anchors of the graph itself, every edge can be
/// followed to the node it comes from.
pub proof fn law_swept_edges_have_producers(
    graph: TermGraphView,
    live: Set<anchor::Id>,
    input: anchor::Id,
)
    requires
        well_formed(graph),
        live.subset_of(graph.anchors.dom()),
    ensures
        graph.retaining_edges(live).producer_known(input),
        match graph.retaining_edges(live).source_of(input) {
            Some(source) => graph.nodes.contains_key(source)
                && graph.nodes[source].anchor_ids().contains(graph.incoming_edge[input]),
            None => true,
        },
{
    let swept = graph.retaining_edges(live);
    if swept.incoming_edge.contains_key(input) {
        let from = graph.incoming_edge[input];
        assert(live.contains(from));
        assert(graph.anchors.dom().contains(from));
        assert(graph.anchor_to_node.contains_key(from));
    }
}

/// A node may be replaced by one with the same anchors: the tables still agree.
/// Replacing a node by itself, or one that is not there, changes nothing.
pub proof fn law_with_node_replaced(graph: TermGraphView, id: node::Id, node: ENode)
    ensures
        well_formed(graph) && graph.nodes.contains_key(id) && node.anchor_list()
            == graph.nodes[id].anchor_list() && (id == graph.sink_node_id ==> node is Sink)
            ==> well_formed(graph.with_node_replaced(id, node)),
        graph.nodes.contains_key(id) ==> graph.with_node_replaced(id, graph.nodes[id]) == graph,
        !graph.nodes.contains_key(id) ==> graph.with_node_replaced(id, node) == graph,
        graph.with_node_replaced(id, node).nodes.dom() == graph.nodes.dom(),
{
    let replaced = graph.with_node_replaced(id, node);
    if graph.nodes.contains_key(id) {
        assert(graph.with_node_replaced(id, graph.nodes[id]) =~= graph);
    }
    assert(replaced.nodes.dom() =~= graph.nodes.dom());
    if well_formed(graph) && graph.nodes.contains_key(id) && node.anchor_list()
        == graph.nodes[id].anchor_list() && (id == graph.sink_node_id ==> node is Sink) {
        assert(node.anchor_ids() =~= graph.nodes[id].anchor_ids());
        assert forall|other: node::Id, i: int|
            #![trigger replaced.nodes[other].anchor_list()[i]]
            replaced.nodes.contains_key(other) && 0 <= i
                < replaced.nodes[other].anchor_list().len() implies {
            let (at, kind) = replaced.nodes[other].anchor_list()[i];
            &&& replaced.anchors.contains_key(at)
            &&& replaced.anchors[at] == kind
            &&& replaced.anchor_to_node[at] == other
        } by {
            let entry = graph.nodes[other].anchor_list()[i];
        }
    }
}

/// Two graphs with no id in common are merged without loss: every node, anchor
/// and edge of both is there, the sink is the first one's, and the tables agree.
pub proof fn law_merged_with(graph: TermGraphView, other: TermGraphView)
    requires
        well_formed(graph),
        well_formed(other),
        graph.nodes.dom().disjoint(other.nodes.dom()),
        graph.anchors.dom().disjoint(other.anchors.dom()),
        other.incoming_edge.dom() == Set::<anchor::Id>::empty(),
    ensures
        well_formed(graph.merged_with(other)),
        graph.nodes.submap_of(graph.merged_with(other).nodes),
        other.nodes.submap_of(graph.merged_with(other).nodes),
        graph.anchors.submap_of(graph.merged_with(other).anchors),
        other.anchors.submap_of(graph.merged_with(other).anchors),
        graph.merged_with(other).nodes.dom() == graph.nodes.dom().union(other.nodes.dom()),
        graph.merged_with(other).incoming_edge == graph.incoming_edge,
        graph.merged_with(other).sink_node_id == graph.sink_node_id,
{
    let both = graph.merged_with(other);
    assert(both.incoming_edge =~= graph.incoming_edge);
    assert(both.nodes.dom() =~= graph.nodes.dom().union(other.nodes.dom()));
    assert(both.anchors.dom() =~= both.anchor_to_node.dom());
    assert forall|id: node::Id| #[trigger] graph.nodes.contains_key(id) implies both.nodes[id]
        == graph.nodes[id] by {
        assert(!other.nodes.dom().contains(id));
    }
    assert forall|at: anchor::Id| #[trigger] graph.anchors.contains_key(at) implies both.anchors[at]
        == graph.anchors[at] by {
        assert(!other.anchors.dom().contains(at));
    }
    assert forall|id: node::Id, i: int|
        #![trigger both.nodes[id].anchor_list()[i]]
        both.nodes.contains_key(id) && 0 <= i < both.nodes[id].anchor_list().len() implies {
        let (at, kind) = both.nodes[id].anchor_list()[i];
        &&& both.anchors.contains_key(at)
        &&& both.anchors[at] == kind
        &&& both.anchor_to_node[at] == id
    } by {
        if other.nodes.contains_key(id) {
            let entry = other.nodes[id].anchor_list()[i];
            assert(other.anchor_to_node.dom().contains(entry.0));
        } else {
            let entry = graph.nodes[id].anchor_list()[i];
            assert(graph.anchors.contains_key(entry.0));
            assert(!other.anchors.dom().contains(entry.0));
            assert(!other.anchor_to_node.dom().contains(entry.0));
        }
    }
    assert forall|at: anchor::Id| #[trigger] both.anchor_to_node.contains_key(at) implies {
        let owner = both.anchor_to_node[at];
        &&& both.nodes.contains_key(owner)
        &&& both.nodes[owner].anchor_ids().contains(at)
    } by {
        if other.anchor_to_node.contains_key(at) {
            assert(other.nodes.contains_key(other.anchor_to_node[at]));
        } else {
            assert(graph.anchor_to_node.contains_key(at));
            assert(graph.nodes.contains_key(graph.anchor_to_node[at]));
            assert(!other.nodes.dom().contains(graph.anchor_to_node[at]));
        }
    }
}

/// The list of what arrives agrees with what arrives at each input: a pair is in
/// it exactly when its input is one of the node's and is fed by that node.
pub proof fn law_sources_agree_with_edges<A>(
    graph: TermGraphView,
    inputs: Seq<(anchor::Id, A)>,
    input: anchor::Id,
    source: node::Id,
)
    ensures
        graph.sources_of(inputs).contains((input, source)) <==> (graph.source_of(input) == Some(
            source,
        ) && exists|i: int| 0 <= i < inputs.len() && #[trigger] inputs[i].0 == input),
        graph.sources_of(inputs).len() <= inputs.len(),
    decreases inputs.len(),
{
    if inputs.len() > 0 {
        let shorter = inputs.drop_last();
        law_sources_agree_with_edges(graph, shorter, input, source);
        let before = graph.sources_of(shorter);
        let now = graph.sources_of(inputs);
        let pair = (input, source);
        if now.contains(pair) {
            let k = choose|k: int| 0 <= k < now.len() && now[k] == pair;
            if k < before.len() {
                assert(before[k] == pair);
                let i = choose|i: int| 0 <= i < shorter.len() && #[trigger] shorter[i].0 == input;
                assert(inputs[i].0 == input);
            } else {
                assert(inputs[inputs.len() - 1].0 == input);
            }
        }
        if graph.source_of(input) == Some(source) && exists|i: int|
            0 <= i < inputs.len() && #[trigger] inputs[i].0 == input {
            let i = choose|i: int| 0 <= i < inputs.len() && #[trigger] inputs[i].0 == input;
            if i < shorter.len() {
                assert(shorter[i].0 == input);
                assert(before.contains(pair));
                let k = choose|k: int| 0 <= k < before.len() && before[k] == pair;
                assert(now[k] == pair);
            } else {
                assert(now.last() == pair);
            }
        }
    }
}

/// A node that is replaced is the new one from then on, and every other node, every
/// anchor and every edge is as it was.
pub proof fn law_a_replaced_node_is_the_new_one(
    graph: TermGraphView,
    id: node::Id,
    node: ENode,
    other: node::Id,
)
    requires
        graph.nodes.contains_key(id),
    ensures
        graph.with_node_replaced(id, node).nodes.contains_key(id),
        graph.with_node_replaced(id, node).nodes[id] == node,
        other != id && graph.nodes.contains_key(other) ==> graph.with_node_replaced(
            id,
            node,
        ).nodes.contains_key(other) && graph.with_node_replaced(id, node).nodes[other]
            == graph.nodes[other],
        graph.with_node_replaced(id, node).anchors == graph.anchors,
        graph.with_node_replaced(id, node).anchor_to_node == graph.anchor_to_node,
        graph.with_node_replaced(id, node).incoming_edge == graph.incoming_edge,
        graph.with_node_replaced(id, node).sink_node_id == graph.sink_node_id,
{
}

/// Merging two graphs keeps the edges of both; an input that both of them feed is fed
/// as in the second.
pub proof fn law_merging_keeps_the_edges(
    graph: TermGraphView,
    other: TermGraphView,
    to: anchor::Id,
)
    ensures
        graph.merged_with(other).incoming_edge.contains_key(to)
            <==> graph.incoming_edge.contains_key(to) || other.incoming_edge.contains_key(to),
        other.incoming_edge.contains_key(to) ==> graph.merged_with(other).incoming_edge[to]
            == other.incoming_edge[to],
        graph.incoming_edge.contains_key(to) && !other.incoming_edge.contains_key(to)
            ==> graph.merged_with(other).incoming_edge[to] == graph.incoming_edge[to],
{
}

/// What arrives at an input comes from the node whose anchor its edge starts from; at
/// an input without an edge nothing arrives.
pub proof fn law_what_arrives_at_an_input(graph: TermGraphView, input: anchor::Id)
    ensures
        !graph.incoming_edge.contains_key(input) ==> graph.source_of(input) is None,
        graph.incoming_edge.contains_key(input) ==> graph.source_of(input) == Some(
            graph.anchor_to_node[graph.incoming_edge[input]],
        ),
{
}

} // verus!
