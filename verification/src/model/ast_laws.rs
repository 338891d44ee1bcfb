//! What holds of every AST, and of the operations taken together.

use crate::model::anchor;
use crate::model::ast::{self, AstView};
use crate::model::edge::Edge;
use crate::model::node::{self, ENode};
use crate::model::term_graph::{self, TermGraphView};
use crate::model::term_graph_laws;
use vstd::prelude::*;

verus! {

/// The nodes and anchors of an AST, as a graph without edges.
pub open spec fn tables(ast: AstView) -> TermGraphView {
    TermGraphView {
        nodes: ast.nodes,
        anchors: ast.anchors,
        anchor_to_node: ast.anchor_to_node,
        incoming_edge: Map::empty(),
        sink_node_id: ast.sink_node_id,
    }
}

/// The tables of an AST agree with each other.
pub open spec fn well_formed(ast: AstView) -> bool {
    term_graph_laws::well_formed(tables(ast))
}

/// No list of edges is empty.
pub open spec fn no_empty_list(ast: AstView) -> bool {
    forall|from: anchor::Id| #[trigger] ast.edges.contains_key(from) ==> ast.edges[from].len() > 0
}

/// No edge starts from or ends on one of `ids`.
pub open spec fn untouched_by_edges(ast: AstView, ids: Set<anchor::Id>) -> bool {
    &&& forall|from: anchor::Id| #[trigger] ast.edges.contains_key(from) ==> !ids.contains(from)
    &&& forall|from: anchor::Id, i: int|
        ast.edges.contains_key(from) && 0 <= i < ast.edges[from].len() ==> !ids.contains(
            (#[trigger] ast.edges[from][i]).to,
        )
}

/// A new AST is its sink alone, and its tables agree.
pub proof fn law_new_is_well_formed(sink: node::Id, input: anchor::Id)
    ensures
        well_formed(ast::only_sink(sink, input)),
        no_empty_list(ast::only_sink(sink, input)),
        ast::only_sink(sink, input).nodes.dom() == set![sink],
        ast::only_sink(sink, input).edges.dom() == Set::<anchor::Id>::empty(),
        ast::only_sink(sink, input).sink_node_id == sink,
{
    term_graph_laws::law_new_is_well_formed(sink, input);
    assert(tables(ast::only_sink(sink, input)) =~= term_graph::only_sink(sink, input));
    assert(ast::only_sink(sink, input).edges.dom() =~= Set::<anchor::Id>::empty());
}

/// Every builder keeps the tables in agreement and carries the sink forward,
/// under the conditions under which it does so for a term graph.
pub proof fn law_builders_keep_well_formed(
    ast: AstView,
    id: node::Id,
    node: ENode,
    from: anchor::Id,
    to: anchor::Id,
)
    requires
        well_formed(ast),
    ensures
        term_graph_laws::is_fresh(tables(ast), id, node) && term_graph_laws::anchors_distinct(node)
            ==> well_formed(ast.plus_node(id, node)),
        ast.nodes.contains_key(id) && id != ast.sink_node_id ==> well_formed(ast.minus_node(id)),
        ast.nodes.contains_key(id) && node.anchor_list() == ast.nodes[id].anchor_list() && (id
            == ast.sink_node_id ==> node is Sink) ==> well_formed(
            ast.with_node_replaced(id, node),
        ),
        well_formed(ast.plus_edge(from, to)),
        ast.plus_node(id, node).sink_node_id == ast.sink_node_id,
        ast.minus_node(id).sink_node_id == ast.sink_node_id,
        ast.with_node_replaced(id, node).sink_node_id == ast.sink_node_id,
        ast.plus_edge(from, to).sink_node_id == ast.sink_node_id,
{
    let graph = tables(ast);
    if term_graph_laws::is_fresh(graph, id, node) && term_graph_laws::anchors_distinct(node) {
        term_graph_laws::law_plus_node_keeps_well_formed(graph, id, node);
        assert(tables(ast.plus_node(id, node)) =~= graph.plus_node(id, node));
    }
    if ast.nodes.contains_key(id) && id != ast.sink_node_id {
        term_graph_laws::law_minus_node_keeps_well_formed(graph, id);
        assert(tables(ast.minus_node(id)) =~= graph.minus_node(id));
    }
    if ast.nodes.contains_key(id) && node.anchor_list() == ast.nodes[id].anchor_list() && (id
        == ast.sink_node_id ==> node is Sink) {
        term_graph_laws::law_with_node_replaced(graph, id, node);
        assert(tables(ast.with_node_replaced(id, node)) =~= graph.with_node_replaced(id, node));
    }
    assert(tables(ast.plus_edge(from, to)) =~= graph);
}

/// Two ASTs with no id in common are merged without loss: every node and anchor
/// of both is there, the tables agree, and every anchor has the edges it had in
/// the one followed by those it had in the other.
pub proof fn law_merged_with(ast: AstView, other: AstView, from: anchor::Id)
    requires
        well_formed(ast),
        well_formed(other),
        ast.nodes.dom().disjoint(other.nodes.dom()),
        ast.anchors.dom().disjoint(other.anchors.dom()),
    ensures
        well_formed(ast.merged_with(other)),
        ast.nodes.submap_of(ast.merged_with(other).nodes),
        other.nodes.submap_of(ast.merged_with(other).nodes),
        ast.merged_with(other).nodes.dom() == ast.nodes.dom().union(other.nodes.dom()),
        ast.merged_with(other).sink_node_id == ast.sink_node_id,
        ast::edges_from(ast.merged_with(other).edges, from) == ast::edges_from(ast.edges, from)
            + ast::edges_from(other.edges, from),
{
    term_graph_laws::law_merged_with(tables(ast), tables(other));
    assert(tables(ast.merged_with(other)) =~= tables(ast).merged_with(tables(other)));
    assert(ast::edges_from(ast.merged_with(other).edges, from) =~= ast::edges_from(ast.edges, from)
        + ast::edges_from(other.edges, from));
}

/// Keeping what does not end on one of `gone` keeps everything where nothing
/// does.
proof fn lemma_nothing_to_drop(list: Seq<Edge>, gone: Set<anchor::Id>)
    requires
        forall|i: int| 0 <= i < list.len() ==> !gone.contains((#[trigger] list[i]).to),
    ensures
        ast::not_ending_on(list, gone) == list,
    decreases list.len(),
{
    reveal(Seq::filter);
    if list.len() > 0 {
        lemma_nothing_to_drop(list.drop_last(), gone);
    }
}

/// Taking out the node that was just added gives back the AST as it was.
pub proof fn law_minus_node_undoes_plus_node(ast: AstView, id: node::Id, node: ENode)
    requires
        term_graph_laws::is_fresh(tables(ast), id, node),
        term_graph_laws::anchors_distinct(node),
        untouched_by_edges(ast, node.anchor_ids()),
        no_empty_list(ast),
    ensures
        ast.plus_node(id, node).minus_node(id) == ast,
{
    let graph = tables(ast);
    term_graph_laws::law_minus_node_undoes_plus_node(graph, id, node);
    let back = ast.plus_node(id, node).minus_node(id);
    assert(tables(back) =~= graph.plus_node(id, node).minus_node(id));
    assert(tables(back) == graph);
    assert forall|from: anchor::Id| #[trigger] ast.edges.contains_key(from) implies (
    back.edges.contains_key(from) && back.edges[from] == ast.edges[from]) by {
        assert forall|i: int| 0 <= i < ast.edges[from].len() implies !node.anchor_ids().contains(
            (#[trigger] ast.edges[from][i]).to,
        ) by {}
        lemma_nothing_to_drop(ast.edges[from], node.anchor_ids());
    }
    assert(back.edges =~= ast.edges);
}

/// Taking a node out leaves no edge on an anchor of it and no empty list.
pub proof fn law_minus_node_takes_its_edges(ast: AstView, id: node::Id)
    requires
        ast.nodes.contains_key(id),
    ensures
        untouched_by_edges(ast.minus_node(id), ast.nodes[id].anchor_ids()),
        no_empty_list(ast.minus_node(id)),
{
    let gone = ast.nodes[id].anchor_ids();
    let less = ast.minus_node(id);
    let keeps = |edge: Edge| !gone.contains(edge.to);
    assert forall|from: anchor::Id, i: int|
        less.edges.contains_key(from) && 0 <= i < less.edges[from].len() implies !gone.contains(
        (#[trigger] less.edges[from][i]).to,
    ) by {
        broadcast use vstd::seq_lib::group_filter_ensures;
        assert(less.edges[from] == ast.edges[from].filter(keeps));
        assert(keeps(less.edges[from][i]));
    }
}

/// An added edge is the last of those that start where it starts.
pub proof fn law_plus_edge_appends(
    ast: AstView,
    from: anchor::Id,
    to: anchor::Id,
    other: anchor::Id,
)
    requires
        other != from,
    ensures
        ast::edges_from(ast.plus_edge(from, to).edges, from) == ast::edges_from(
            ast.edges,
            from,
        ).push(Edge { to }),
        ast::edges_from(ast.plus_edge(from, to).edges, other) == ast::edges_from(ast.edges, other),
        no_empty_list(ast) ==> no_empty_list(ast.plus_edge(from, to)),
{
}

/// Moving one stop of a walk to its end does not change what is gathered, but
/// for the order.
proof fn lemma_stop_last(ast: AstView, walk: Seq<anchor::Id>, at: int, anchor: anchor::Id)
    requires
        0 <= at < walk.len(),
    ensures
        ast.feeding_along(walk, anchor).to_multiset() == ast.feeding_along(
            walk.remove(at),
            anchor,
        ).to_multiset().add(ast.feeding_from(walk[at], ast.edges[walk[at]], anchor).to_multiset()),
    decreases walk.len(),
{
    broadcast use vstd::multiset::group_multiset_axioms;
    let last = walk.last();
    let own = ast.feeding_from(walk[at], ast.edges[walk[at]], anchor);
    if at == walk.len() - 1 {
        assert(walk.remove(at) =~= walk.drop_last());
        vstd::seq_lib::lemma_multiset_commutative(
            ast.feeding_along(walk.drop_last(), anchor),
            own,
        );
    } else {
        let shorter = walk.drop_last();
        let ending = ast.feeding_from(last, ast.edges[last], anchor);
        lemma_stop_last(ast, shorter, at, anchor);
        assert(walk.remove(at).drop_last() =~= shorter.remove(at));
        assert(walk.remove(at).last() == last);
        vstd::seq_lib::lemma_multiset_commutative(ast.feeding_along(shorter, anchor), ending);
        vstd::seq_lib::lemma_multiset_commutative(
            ast.feeding_along(shorter.remove(at), anchor),
            ending,
        );
        assert(ast.feeding_along(walk, anchor).to_multiset() =~= ast.feeding_along(
            walk.remove(at),
            anchor,
        ).to_multiset().add(own.to_multiset()));
    }
}

/// Two walks over the same anchors gather the same nodes.
proof fn lemma_walks_agree(
    ast: AstView,
    walk: Seq<anchor::Id>,
    other: Seq<anchor::Id>,
    anchor: anchor::Id,
)
    requires
        walk.no_duplicates(),
        other.no_duplicates(),
        walk.to_set() == other.to_set(),
    ensures
        ast.feeding_along(walk, anchor).to_multiset() == ast.feeding_along(
            other,
            anchor,
        ).to_multiset(),
    decreases walk.len(),
{
    if walk.len() == 0 {
        if other.len() > 0 {
            assert(other.to_set().contains(other[0]));
            assert(walk.to_set().contains(other[0]));
        }
        assert(walk =~= other);
    } else {
        let last = walk.last();
        assert(walk[walk.len() - 1] == last);
        assert(walk.to_set().contains(last));
        assert(other.to_set().contains(last));
        let at = choose|at: int| 0 <= at < other.len() && other[at] == last;
        let rest = walk.drop_last();
        let remaining = other.remove(at);
        assert forall|id: anchor::Id| rest.to_set().contains(id) <==> remaining.to_set().contains(
            id,
        ) by {
            if rest.to_set().contains(id) {
                let i = choose|i: int| 0 <= i < rest.len() && rest[i] == id;
                assert(walk[i] == id);
                assert(other.to_set().contains(id));
                let j = choose|j: int| 0 <= j < other.len() && other[j] == id;
                assert(j != at);
                if j < at {
                    assert(remaining[j] == id);
                } else {
                    assert(remaining[j - 1] == id);
                }
            }
            if remaining.to_set().contains(id) {
                let j = choose|j: int| 0 <= j < remaining.len() && remaining[j] == id;
                if j < at {
                    assert(other[j] == id);
                } else {
                    assert(other[j + 1] == id);
                }
                assert(other.to_set().contains(id));
                assert(walk.to_set().contains(id));
                let i = choose|i: int| 0 <= i < walk.len() && walk[i] == id;
                assert(id != last);
                assert(rest[i] == id);
            }
        }
        assert(rest.to_set() =~= remaining.to_set());
        assert(remaining.no_duplicates());
        lemma_walks_agree(ast, rest, remaining, anchor);
        lemma_stop_last(ast, other, at, anchor);
        lemma_stop_last(ast, walk, walk.len() - 1, anchor);
        assert(walk.remove(walk.len() - 1) =~= rest);
    }
}

/// However the edges are walked, the same nodes are found to feed an anchor,
/// each as often.
pub proof fn law_feeding_nodes_are_determined(
    ast: AstView,
    nodes: Seq<node::Id>,
    others: Seq<node::Id>,
    anchor: anchor::Id,
)
    requires
        ast.are_feeding(nodes, anchor),
        ast.are_feeding(others, anchor),
    ensures
        nodes.to_multiset() == others.to_multiset(),
{
    let walk = choose|walk: Seq<anchor::Id>| #[trigger]
        ast.is_walk(walk) && nodes == ast.feeding_along(walk, anchor);
    let other = choose|walk: Seq<anchor::Id>| #[trigger]
        ast.is_walk(walk) && others == ast.feeding_along(walk, anchor);
    lemma_walks_agree(ast, walk, other, anchor);
}

/// A node that is replaced is the new one from then on, and every other node and every
/// edge is as it was.
pub proof fn law_a_replaced_node_is_the_new_one(
    ast: AstView,
    id: node::Id,
    node: ENode,
    other: node::Id,
)
    ensures
        ast.nodes.contains_key(id) ==> ast.with_node_replaced(id, node).nodes.contains_key(id)
            && ast.with_node_replaced(id, node).nodes[id] == node,
        !ast.nodes.contains_key(id) ==> ast.with_node_replaced(id, node) == ast,
        other != id && ast.nodes.contains_key(other) ==> ast.with_node_replaced(
            id,
            node,
        ).nodes.contains_key(other) && ast.with_node_replaced(id, node).nodes[other]
            == ast.nodes[other],
        ast.with_node_replaced(id, node).edges == ast.edges,
        ast.with_node_replaced(id, node).anchors == ast.anchors,
        ast.with_node_replaced(id, node).anchor_to_node == ast.anchor_to_node,
{
}

proof fn lemma_feeding_from(
    ast: AstView,
    from: anchor::Id,
    list: Seq<Edge>,
    anchor: anchor::Id,
    node: node::Id,
)
    ensures
        ast.feeding_from(from, list, anchor).contains(node) <==> ast.anchor_to_node[from] == node
            && exists|i: int| 0 <= i < list.len() && (#[trigger] list[i]).to == anchor,
        ast.feeding_from(from, list, anchor).len() == list.filter(
            |edge: Edge| edge.to == anchor,
        ).len(),
    decreases list.len(),
{
    reveal(Seq::filter);
    if list.len() > 0 {
        let shorter = list.drop_last();
        lemma_feeding_from(ast, from, shorter, anchor, node);
        let before = ast.feeding_from(from, shorter, anchor);
        let now = ast.feeding_from(from, list, anchor);
        if now.contains(node) {
            let k = choose|k: int| 0 <= k < now.len() && now[k] == node;
            if k < before.len() {
                assert(before[k] == node);
                let i = choose|i: int| 0 <= i < shorter.len() && (#[trigger] shorter[i]).to == anchor;
                assert(list[i].to == anchor);
            } else {
                assert(list[list.len() - 1].to == anchor);
            }
        }
        if ast.anchor_to_node[from] == node && exists|i: int|
            0 <= i < list.len() && (#[trigger] list[i]).to == anchor {
            let i = choose|i: int| 0 <= i < list.len() && (#[trigger] list[i]).to == anchor;
            if i < shorter.len() {
                assert(shorter[i].to == anchor);
                let k = choose|k: int| 0 <= k < before.len() && before[k] == node;
                assert(now[k] == node);
            } else {
                assert(now[before.len() as int] == node);
            }
        }
    }
}

/// An edge of the list that starts from `from` ends on `anchor`.
pub open spec fn leads_to(ast: AstView, from: anchor::Id, anchor: anchor::Id) -> bool {
    ast.edges.contains_key(from) && exists|i: int|
        0 <= i < ast.edges[from].len() && (#[trigger] ast.edges[from][i]).to == anchor
}

proof fn lemma_feeding_along(
    ast: AstView,
    walk: Seq<anchor::Id>,
    anchor: anchor::Id,
    node: node::Id,
)
    requires
        forall|k: int| 0 <= k < walk.len() ==> ast.edges.contains_key(#[trigger] walk[k]),
    ensures
        ast.feeding_along(walk, anchor).contains(node) <==> exists|k: int|
            0 <= k < walk.len() && leads_to(ast, #[trigger] walk[k], anchor)
                && ast.anchor_to_node[walk[k]] == node,
    decreases walk.len(),
{
    if walk.len() > 0 {
        let shorter = walk.drop_last();
        let last = walk.len() - 1;
        assert forall|k: int| 0 <= k < shorter.len() implies ast.edges.contains_key(
            #[trigger] shorter[k],
        ) by {
            assert(walk[k] == shorter[k]);
        }
        lemma_feeding_along(ast, shorter, anchor, node);
        lemma_feeding_from(ast, walk[last], ast.edges[walk[last]], anchor, node);
        let before = ast.feeding_along(shorter, anchor);
        let more = ast.feeding_from(walk[last], ast.edges[walk[last]], anchor);
        let now = ast.feeding_along(walk, anchor);
        assert(now == before + more);
        if now.contains(node) {
            let k = choose|k: int| 0 <= k < now.len() && now[k] == node;
            if k < before.len() {
                assert(before[k] == node);
                let at = choose|at: int|
                    0 <= at < shorter.len() && leads_to(ast, #[trigger] shorter[at], anchor)
                        && ast.anchor_to_node[shorter[at]] == node;
                assert(walk[at] == shorter[at]);
            } else {
                assert(more[k - before.len()] == node);
                assert(leads_to(ast, walk[last], anchor));
            }
        }
        if exists|k: int|
            0 <= k < walk.len() && leads_to(ast, #[trigger] walk[k], anchor)
                && ast.anchor_to_node[walk[k]] == node {
            let at = choose|at: int|
                0 <= at < walk.len() && leads_to(ast, #[trigger] walk[at], anchor)
                    && ast.anchor_to_node[walk[at]] == node;
            if at < last {
                assert(shorter[at] == walk[at]);
                let k = choose|k: int| 0 <= k < before.len() && before[k] == node;
                assert(now[k] == node);
            } else {
                let k = choose|k: int| 0 <= k < more.len() && more[k] == node;
                assert(now[before.len() + k] == node);
            }
        }
    }
}

/// The nodes that feed an anchor are the nodes whose anchors have an edge to it, and
/// no others.
pub proof fn law_who_feeds_an_anchor(
    ast: AstView,
    nodes: Seq<node::Id>,
    anchor: anchor::Id,
    node: node::Id,
)
    requires
        ast.are_feeding(nodes, anchor),
    ensures
        nodes.contains(node) <==> exists|from: anchor::Id| #[trigger]
            leads_to(ast, from, anchor) && ast.anchor_to_node[from] == node,
{
    let walk = choose|walk: Seq<anchor::Id>| #[trigger]
        ast.is_walk(walk) && nodes == ast.feeding_along(walk, anchor);
    assert forall|k: int| 0 <= k < walk.len() implies ast.edges.contains_key(#[trigger] walk[k]) by {
        assert(walk.to_set().contains(walk[k]));
    }
    lemma_feeding_along(ast, walk, anchor, node);
    if exists|from: anchor::Id| #[trigger]
        leads_to(ast, from, anchor) && ast.anchor_to_node[from] == node {
        let from = choose|from: anchor::Id| #[trigger]
            leads_to(ast, from, anchor) && ast.anchor_to_node[from] == node;
        assert(walk.to_set().contains(from));
        let k = choose|k: int| 0 <= k < walk.len() && walk[k] == from;
        assert(leads_to(ast, walk[k], anchor));
    }
}

/// Every node that feeds an input is listed with that input, each once and in its
/// order, and the inputs follow each other.
pub proof fn law_each_is_listed_with_what_it_feeds<A>(
    inputs: Seq<(anchor::Id, A)>,
    feeding: Seq<Seq<node::Id>>,
    input: (anchor::Id, A),
    nodes: Seq<node::Id>,
)
    ensures
        ast::paired(input.0, nodes).len() == nodes.len(),
        forall|i: int|
            0 <= i < nodes.len() ==> #[trigger] ast::paired(input.0, nodes)[i] == (
                input.0,
                nodes[i],
            ),
        ast::paired_in_turn(inputs.push(input), feeding.push(nodes)) == ast::paired_in_turn(
            inputs,
            feeding,
        ) + ast::paired(input.0, nodes),
        ast::paired_in_turn(Seq::<(anchor::Id, A)>::empty(), feeding).len() == 0,
{
    assert(inputs.push(input).drop_last() =~= inputs);
    assert(feeding.push(nodes).drop_last() =~= feeding);
}

} // verus!
