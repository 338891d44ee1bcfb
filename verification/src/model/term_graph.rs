//! The term graph: nodes, their anchors, and the edges between those.

use crate::common::IdDomain;
use crate::model::anchor::{self, EAnchor, EAnchorView};
use crate::model::node::{self, ENode};
use crate::model::table;
use std::collections::{HashMap, HashSet};
use vstd::prelude::*;

verus! {

broadcast use vstd::std_specs::hash::group_hash_axioms;

#[derive(Clone, Debug)]
pub struct TermGraph {
    /// By the number of the node's id, as every table here is by the number of
    /// the id that it is looked up with.
    pub nodes: HashMap<usize, ENode>,
    pub anchors: HashMap<usize, EAnchor>,
    pub anchor_to_node: HashMap<usize, node::Id>,
    /// The edge arriving at an input anchor: the key is the input, the value the
    /// output that feeds it.
    ///
    /// Keyed by the arriving end, because that is where the language's one
    /// constraint sits: an input anchor carries *at most one* incoming edge,
    /// and a map keyed this way has nowhere to put a second. A producer may
    /// feed as many consumers as it likes.
    pub incoming_edge: HashMap<usize, anchor::Id>,
    /// The Sink node that terminates this graph. Always present: a `TermGraph`
    /// is born with its sink in `new`, and every builder carries it forward
    /// unchanged.
    pub sink_node_id: node::Id,
}

/// The mathematical value of a [`TermGraph`].
#[verifier::ext_equal]
pub struct TermGraphView {
    pub nodes: Map<node::Id, ENode>,
    pub anchors: Map<anchor::Id, EAnchorView>,
    pub anchor_to_node: Map<anchor::Id, node::Id>,
    /// From an input to the output that feeds it.
    pub incoming_edge: Map<anchor::Id, anchor::Id>,
    pub sink_node_id: node::Id,
}

impl View for TermGraph {
    type V = TermGraphView;

    open spec fn view(&self) -> TermGraphView {
        TermGraphView {
            nodes: table::by_node(self.nodes@),
            anchors: table::anchor_kinds(self.anchors@),
            anchor_to_node: table::by_anchor(self.anchor_to_node@),
            incoming_edge: table::by_anchor(self.incoming_edge@),
            sink_node_id: self.sink_node_id,
        }
    }
}

impl TermGraphView {
    /// A graph of nothing, that names `sink_node_id` as its sink.
    pub open spec fn bare(sink_node_id: node::Id) -> TermGraphView {
        TermGraphView {
            nodes: Map::empty(),
            anchors: Map::empty(),
            anchor_to_node: Map::empty(),
            incoming_edge: Map::empty(),
            sink_node_id,
        }
    }

    /// The graph with one more node, and with the node's anchors.
    pub open spec fn plus_node(self, id: node::Id, node: ENode) -> TermGraphView {
        TermGraphView {
            nodes: self.nodes.insert(id, node),
            anchors: table::entered(self.anchors, node.anchor_list()),
            anchor_to_node: table::entered(
                self.anchor_to_node,
                table::owned(node.anchor_list(), id),
            ),
            ..self
        }
    }

    /// The graph with `from` wired to `to`, in place of whatever arrived there.
    pub open spec fn plus_edge(self, from: anchor::Id, to: anchor::Id) -> TermGraphView {
        TermGraphView { incoming_edge: self.incoming_edge.insert(to, from), ..self }
    }

    /// The edges between anchors of `kept`.
    pub open spec fn edges_within(self, kept: Set<anchor::Id>) -> Map<anchor::Id, anchor::Id> {
        self.incoming_edge.restrict(
            Set::new(
                |to: anchor::Id|
                    self.incoming_edge.contains_key(to) && kept.contains(to) && kept.contains(
                        self.incoming_edge[to],
                    ),
            ),
        )
    }

    /// The graph with no edges but those between anchors of `live`.
    pub open spec fn retaining_edges(self, live: Set<anchor::Id>) -> TermGraphView {
        TermGraphView { incoming_edge: self.edges_within(live), ..self }
    }

    /// The graph with the node `id` replaced, where it has one. The anchors stay
    /// what they were.
    pub open spec fn with_node_replaced(self, id: node::Id, node: ENode) -> TermGraphView {
        TermGraphView {
            nodes: if self.nodes.contains_key(id) {
                self.nodes.insert(id, node)
            } else {
                self.nodes
            },
            ..self
        }
    }

    /// The graph without the node `id`, without its anchors, and without the
    /// edges that end on one of those.
    pub open spec fn minus_node(self, id: node::Id) -> TermGraphView {
        let gone = self.nodes[id].anchor_ids();
        TermGraphView {
            nodes: self.nodes.remove(id),
            anchors: self.anchors.remove_keys(gone),
            anchor_to_node: self.anchor_to_node.remove_keys(gone),
            incoming_edge: self.edges_within(gone.complement()),
            sink_node_id: self.sink_node_id,
        }
    }

    /// Both graphs in one, with the sink of the first.
    pub open spec fn merged_with(self, other: TermGraphView) -> TermGraphView {
        TermGraphView {
            nodes: self.nodes.union_prefer_right(other.nodes),
            anchors: self.anchors.union_prefer_right(other.anchors),
            anchor_to_node: self.anchor_to_node.union_prefer_right(other.anchor_to_node),
            incoming_edge: self.incoming_edge.union_prefer_right(other.incoming_edge),
            sink_node_id: self.sink_node_id,
        }
    }

    /// The node whose value arrives at `input`.
    pub open spec fn source_of(self, input: anchor::Id) -> Option<node::Id> {
        if self.incoming_edge.contains_key(input) {
            Some(self.anchor_to_node[self.incoming_edge[input]])
        } else {
            None
        }
    }

    /// Whatever feeds `input` is an anchor of some node of the graph.
    pub open spec fn producer_known(self, input: anchor::Id) -> bool {
        self.incoming_edge.contains_key(input) ==> self.anchor_to_node.contains_key(
            self.incoming_edge[input],
        )
    }

    /// The inputs of `inputs` that something arrives at, each with the node it
    /// arrives from, in the order of `inputs`.
    pub open spec fn sources_of<A>(self, inputs: Seq<(anchor::Id, A)>) -> Seq<
        (anchor::Id, node::Id),
    >
        decreases inputs.len(),
    {
        if inputs.len() == 0 {
            Seq::empty()
        } else {
            let before = self.sources_of(inputs.drop_last());
            match self.source_of(inputs.last().0) {
                Some(source) => before.push((inputs.last().0, source)),
                None => before,
            }
        }
    }
}

/// A freshly created graph: nothing but its sink.
pub open spec fn only_sink(sink: node::Id, input: anchor::Id) -> TermGraphView {
    TermGraphView::bare(sink).plus_node(sink, ENode::Sink { input_anchor: input })
}

/// A freshly created branch: its sink, and the one entry that belongs to
/// `pattern`.
pub open spec fn only_branch(
    sink: node::Id,
    input: anchor::Id,
    entry: node::Id,
    output: anchor::Id,
    pattern: node::Id,
) -> TermGraphView {
    only_sink(sink, input).plus_node(entry, ENode::BranchSource { pattern, output_anchor: output })
}

impl TermGraph {
    /// Create a graph that already contains its terminating `Sink` node (with a
    /// fresh input anchor), pointed to by `sink_node_id`. The id domains are
    /// threaded through so every id stays globally unique.
    pub fn new(
        node_id_domain: IdDomain<node::Id>,
        anchor_id_domain: IdDomain<anchor::Id>,
    ) -> (res: (Self, IdDomain<node::Id>, IdDomain<anchor::Id>))
        requires
            node_id_domain.issued() < usize::MAX,
            anchor_id_domain.issued() < usize::MAX,
        ensures
            res.0@ == only_sink(
                node::Id(node_id_domain.issued() as usize),
                anchor::Id(anchor_id_domain.issued() as usize),
            ),
            res.1.issued() == node_id_domain.issued() + 1,
            res.2.issued() == anchor_id_domain.issued() + 1,
    {
        let (node_id_domain, sink_node_id) = node_id_domain.next_id();
        let (anchor_id_domain, sink_input_anchor_id) = anchor_id_domain.next_id();
        let bare = TermGraph {
            nodes: HashMap::new(),
            anchors: HashMap::new(),
            anchor_to_node: HashMap::new(),
            incoming_edge: HashMap::new(),
            sink_node_id,
        };
        assert(bare@ =~= TermGraphView::bare(sink_node_id));
        let graph = bare.plus_node(
            sink_node_id,
            ENode::Sink { input_anchor: sink_input_anchor_id },
        );
        (graph, node_id_domain, anchor_id_domain)
    }

    /// Sub-graph for a Match branch: the terminating Sink plus the branch's
    /// single `BranchSource`, which belongs to `pattern`. Both are
    /// constitutive, so they are created here rather than by any user action.
    pub fn new_pattern_sub_graph(
        node_id_domain: IdDomain<node::Id>,
        anchor_id_domain: IdDomain<anchor::Id>,
        pattern: node::Id,
    ) -> (res: (IdDomain<node::Id>, IdDomain<anchor::Id>, Self, node::Id, node::Id))
        requires
            node_id_domain.issued() + 1 < usize::MAX,
            anchor_id_domain.issued() + 1 < usize::MAX,
        ensures
            res.0.issued() == node_id_domain.issued() + 2,
            res.1.issued() == anchor_id_domain.issued() + 2,
            res.3.0 == node_id_domain.issued(),
            res.4.0 == node_id_domain.issued() + 1,
            res.2@ == only_branch(
                res.3,
                anchor::Id(anchor_id_domain.issued() as usize),
                res.4,
                anchor::Id((anchor_id_domain.issued() + 1) as usize),
                pattern,
            ),
    {
        let (sub_graph, node_id_domain, anchor_id_domain) = Self::new(
            node_id_domain,
            anchor_id_domain,
        );
        let sink_node_id = sub_graph.sink_node_id;
        let (node_id_domain, branch_source_id) = node_id_domain.next_id();
        let (anchor_id_domain, branch_source_anchor_id) = anchor_id_domain.next_id();
        let sub_graph = sub_graph.plus_node(
            branch_source_id,
            ENode::BranchSource { pattern, output_anchor: branch_source_anchor_id },
        );
        (node_id_domain, anchor_id_domain, sub_graph, sink_node_id, branch_source_id)
    }

    /// Union another graph's nodes/anchors/edges into this one, keeping this
    /// graph's `sink_node_id` as the root.
    ///
    /// Every edge is recorded on the root graph, so a sub-graph's
    /// `incoming_edge` is empty and there is nothing here to resolve.
    pub fn merged_with(self, other: Self) -> (res: Self)
        requires
            other@.incoming_edge == Map::<anchor::Id, anchor::Id>::empty(),
        ensures
            res@ == self@.merged_with(other@),
    {
        let res = TermGraph {
            nodes: table::united(self.nodes, other.nodes),
            anchors: table::united(self.anchors, other.anchors),
            anchor_to_node: table::united(self.anchor_to_node, other.anchor_to_node),
            incoming_edge: table::united(self.incoming_edge, other.incoming_edge),
            sink_node_id: self.sink_node_id,
        };
        assert(res@ =~= self@.merged_with(other@));
        res
    }

    /// Wire `from` to `to`, taking the place of whatever arrived at `to`.
    pub fn plus_edge(&self, from: anchor::Id, to: anchor::Id) -> (res: Self)
        ensures
            res@ == self@.plus_edge(from, to),
    {
        let mut incoming_edge = self.incoming_edge.clone();
        incoming_edge.insert(to.0, from);
        let res = TermGraph {
            anchors: self.anchors.clone(),
            nodes: self.nodes.clone(),
            anchor_to_node: self.anchor_to_node.clone(),
            sink_node_id: self.sink_node_id,
            incoming_edge,
        };
        assert(res@ =~= self@.plus_edge(from, to));
        res
    }

    /// Keep only the edges both of whose ends are still anchors of something.
    ///
    /// The counterpart to `minus_node` for a scene made of more than one graph:
    /// asked as a question about what is still there, rather than answered by
    /// listing what a removal took away.
    pub fn retaining_edges(&self, live: &HashSet<usize>) -> (res: Self)
        ensures
            res@ == self@.retaining_edges(table::anchor_set(live@)),
    {
        let keys = table::keys_of(&self.incoming_edge);
        let mut incoming_edge = self.incoming_edge.clone();
        let mut i: usize = 0;
        while i < keys.len()
            invariant
                i <= keys.len(),
                forall|key: usize| #[trigger]
                    incoming_edge@.contains_key(key) <==> self.incoming_edge@.contains_key(key) && (
                    (exists|j: int| 0 <= j < i && keys@[j] == key) ==> live@.contains(key)
                        && live@.contains(self.incoming_edge@[key].0)),
                forall|key: usize| #[trigger]
                    incoming_edge@.contains_key(key) ==> incoming_edge@[key]
                        == self.incoming_edge@[key],
            decreases keys.len() - i,
        {
            let to: usize = keys[i];
            assert(keys@[i as int] == to);
            if let Some(from) = self.incoming_edge.get(&to) {
                if !(live.contains(&to) && live.contains(&from.0)) {
                    incoming_edge.remove(&to);
                }
            }
            i = i + 1;
        }
        let res = TermGraph {
            nodes: self.nodes.clone(),
            anchors: self.anchors.clone(),
            anchor_to_node: self.anchor_to_node.clone(),
            sink_node_id: self.sink_node_id,
            incoming_edge,
        };
        assert forall|key: usize| self.incoming_edge@.contains_key(key) implies exists|j: int|
            0 <= j < keys.len() && keys@[j] == key by {
            assert(keys@.to_set().contains(key));
        }
        assert(res@ =~= self@.retaining_edges(table::anchor_set(live@)));
        res
    }

    /// Add a node under `node_id`, and every anchor of it.
    pub fn plus_node(&self, node_id: node::Id, n: ENode) -> (res: Self)
        ensures
            res@ == self@.plus_node(node_id, n),
    {
        let list = n.anchors();
        let anchors = table::with_anchors(&self.anchors, &list);
        let anchor_to_node = table::with_owner(&self.anchor_to_node, &list, node_id);
        proof {
            table::lemma_owned_anchors(list@, n, node_id);
        }
        let mut nodes = self.nodes.clone();
        nodes.insert(node_id.0, n);
        let res = TermGraph {
            anchors,
            nodes,
            anchor_to_node,
            incoming_edge: self.incoming_edge.clone(),
            sink_node_id: self.sink_node_id,
        };
        assert(res@ =~= self@.plus_node(node_id, n));
        res
    }

    /// Replace `n_id`'s node with `new_node`. Anchor tables are untouched;
    /// callers are responsible for ensuring the replacement has the same
    /// anchors (used e.g. to update a `Match`'s `patterns` list).
    pub fn with_node_replaced(&self, n_id: &node::Id, new_node: ENode) -> (res: Self)
        ensures
            res@ == self@.with_node_replaced(*n_id, new_node),
    {
        let mut nodes = self.nodes.clone();
        if nodes.contains_key(&n_id.0) {
            nodes.insert(n_id.0, new_node);
        }
        let res = TermGraph {
            nodes,
            anchors: self.anchors.clone(),
            anchor_to_node: self.anchor_to_node.clone(),
            incoming_edge: self.incoming_edge.clone(),
            sink_node_id: self.sink_node_id,
        };
        assert(res@ =~= self@.with_node_replaced(*n_id, new_node));
        res
    }

    /// Take a node out, and with it its anchors and every edge that ends on one
    /// of those.
    pub fn minus_node(&self, n_id: &node::Id) -> (res: Self)
        requires
            self@.nodes.contains_key(*n_id),
        ensures
            res@ == self@.minus_node(*n_id),
    {
        let node = self.nodes.get(&n_id.0).unwrap();
        let gone = node.anchors();
        proof {
            table::lemma_listed_anchors(gone@, *node);
        }
        let keys = table::keys_of(&self.incoming_edge);
        let mut incoming_edge = self.incoming_edge.clone();
        let mut i: usize = 0;
        while i < keys.len()
            invariant
                i <= keys.len(),
                forall|key: usize| #[trigger]
                    incoming_edge@.contains_key(key) <==> self.incoming_edge@.contains_key(key) && (
                    (exists|j: int| 0 <= j < i && keys@[j] == key) ==> !table::listed(
                        gone@,
                    ).contains(anchor::Id(key)) && !table::listed(gone@).contains(
                        self.incoming_edge@[key],
                    )),
                forall|key: usize| #[trigger]
                    incoming_edge@.contains_key(key) ==> incoming_edge@[key]
                        == self.incoming_edge@[key],
            decreases keys.len() - i,
        {
            let to: usize = keys[i];
            assert(keys@[i as int] == to);
            if let Some(from) = self.incoming_edge.get(&to) {
                if table::is_listed(&gone, anchor::Id(to)) || table::is_listed(&gone, *from) {
                    incoming_edge.remove(&to);
                }
            }
            i = i + 1;
        }
        let mut nodes = self.nodes.clone();
        nodes.remove(&n_id.0);
        let res = TermGraph {
            nodes,
            anchors: table::without(&self.anchors, &gone),
            anchor_to_node: table::without(&self.anchor_to_node, &gone),
            incoming_edge,
            sink_node_id: self.sink_node_id,
        };
        assert forall|key: usize| self.incoming_edge@.contains_key(key) implies exists|j: int|
            0 <= j < keys.len() && keys@[j] == key by {
            assert(keys@.to_set().contains(key));
        }
        assert(res@ =~= self@.minus_node(*n_id));
        res
    }

    /// The node producing the value that arrives at `input`, if one does.
    ///
    /// An `Option` and not a list, because an input anchor carries at most one
    /// incoming edge and the edge table is shaped to say so. It may be asked
    /// only of a graph that was swept: whatever feeds the input has to be an
    /// anchor of some node.
    pub fn source_node_for_input(&self, input: &anchor::Id) -> (res: Option<node::Id>)
        requires
            self@.producer_known(*input),
        ensures
            res == self@.source_of(*input),
    {
        match self.incoming_edge.get(&input.0) {
            Some(from) => {
                assert(self@.incoming_edge[*input] == *from);
                Some(*self.anchor_to_node.get(&from.0).unwrap())
            },
            None => None,
        }
    }

    /// Every input of `node_id` that something arrives at, with the node it
    /// arrives from. Inputs nothing is wired to are left out rather than
    /// carried as absences: what the caller counts is what has arrived.
    pub fn source_nodes_by_input(&self, node_id: &node::Id) -> (res: Vec<(anchor::Id, node::Id)>)
        requires
            self@.nodes.contains_key(*node_id) ==> forall|i: int|
                0 <= i < self@.nodes[*node_id].input_list().len() ==> self@.producer_known(
                    (#[trigger] self@.nodes[*node_id].input_list()[i]).0,
                ),
        ensures
            res@ == if self@.nodes.contains_key(*node_id) {
                self@.sources_of(self@.nodes[*node_id].input_list())
            } else {
                Seq::empty()
            },
    {
        let mut res: Vec<(anchor::Id, node::Id)> = Vec::new();
        if let Some(node) = self.nodes.get(&node_id.0) {
            assert(*node == self@.nodes[*node_id]);
            let inputs = node.input_anchors();
            let ghost list = node.input_list();
            let mut i: usize = 0;
            while i < inputs.len()
                invariant
                    i <= inputs.len(),
                    list == node::input_views(inputs@),
                    forall|i: int|
                        0 <= i < list.len() ==> self@.producer_known((#[trigger] list[i]).0),
                    res@ == self@.sources_of(list.take(i as int)),
                decreases inputs.len() - i,
            {
                assert(list[i as int].0 == inputs@[i as int].0);
                assert(list.take(i + 1).drop_last() == list.take(i as int));
                if let Some(source) = self.source_node_for_input(&inputs[i].0) {
                    res.push((inputs[i].0, source));
                }
                i = i + 1;
            }
            assert(list.take(i as int) == list);
        }
        res
    }
}

} // verus!
