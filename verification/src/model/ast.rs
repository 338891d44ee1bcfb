//! The syntax tree: the same nodes and anchors as a term graph, with the edges
//! kept by the anchor they start from.

use crate::common::IdDomain;
use crate::model::anchor::{self, EAnchor, EAnchorView};
use crate::model::edge::Edge;
use crate::model::node::{self, ENode};
use crate::model::table;
use std::collections::HashMap;
use vstd::prelude::*;

verus! {

broadcast use vstd::std_specs::hash::group_hash_axioms;

#[derive(Clone, Debug)]
pub struct Ast {
    /// By the number of the node's id, as every table here is by the number of
    /// the id that it is looked up with.
    pub nodes: HashMap<usize, ENode>,
    pub anchors: HashMap<usize, EAnchor>,
    pub anchor_to_node: HashMap<usize, node::Id>,
    /// The edges that start from an anchor, in the order they were added.
    pub edges: HashMap<usize, Vec<Edge>>,
    /// The Sink node that terminates this AST. Always present: an `Ast` is born
    /// with its sink in `new`, and every builder carries it forward unchanged.
    pub sink_node_id: node::Id,
}

/// The mathematical value of an [`Ast`].
#[verifier::ext_equal]
pub struct AstView {
    pub nodes: Map<node::Id, ENode>,
    pub anchors: Map<anchor::Id, EAnchorView>,
    pub anchor_to_node: Map<anchor::Id, node::Id>,
    pub edges: Map<anchor::Id, Seq<Edge>>,
    pub sink_node_id: node::Id,
}

/// The lists of edges of a table, by the anchors they start from.
pub open spec fn edge_lists(table: Map<usize, Vec<Edge>>) -> Map<anchor::Id, Seq<Edge>> {
    Map::new(|id: anchor::Id| table.contains_key(id.0), |id: anchor::Id| table[id.0]@)
}

impl View for Ast {
    type V = AstView;

    open spec fn view(&self) -> AstView {
        AstView {
            nodes: table::by_node(self.nodes@),
            anchors: table::anchor_kinds(self.anchors@),
            anchor_to_node: table::by_anchor(self.anchor_to_node@),
            edges: edge_lists(self.edges@),
            sink_node_id: self.sink_node_id,
        }
    }
}

/// The edges of `list` that do not end on one of `gone`, in their order.
pub open spec fn not_ending_on(list: Seq<Edge>, gone: Set<anchor::Id>) -> Seq<Edge> {
    list.filter(|edge: Edge| !gone.contains(edge.to))
}

/// The edges that start from `from`; none where the table has no list.
pub open spec fn edges_from(edges: Map<anchor::Id, Seq<Edge>>, from: anchor::Id) -> Seq<Edge> {
    if edges.contains_key(from) {
        edges[from]
    } else {
        Seq::empty()
    }
}

impl AstView {
    /// An AST of nothing, that names `sink_node_id` as its sink.
    pub open spec fn bare(sink_node_id: node::Id) -> AstView {
        AstView {
            nodes: Map::empty(),
            anchors: Map::empty(),
            anchor_to_node: Map::empty(),
            edges: Map::empty(),
            sink_node_id,
        }
    }

    /// The AST with one more node, and with the node's anchors.
    pub open spec fn plus_node(self, id: node::Id, node: ENode) -> AstView {
        AstView {
            nodes: self.nodes.insert(id, node),
            anchors: table::entered(self.anchors, node.anchor_list()),
            anchor_to_node: table::entered(
                self.anchor_to_node,
                table::owned(node.anchor_list(), id),
            ),
            ..self
        }
    }

    /// The AST with one more edge, after those that start from the same anchor.
    pub open spec fn plus_edge(self, from: anchor::Id, to: anchor::Id) -> AstView {
        AstView {
            edges: self.edges.insert(from, edges_from(self.edges, from).push(Edge { to })),
            ..self
        }
    }

    /// The AST with the node `id` replaced, where it has one.
    pub open spec fn with_node_replaced(self, id: node::Id, node: ENode) -> AstView {
        AstView {
            nodes: if self.nodes.contains_key(id) {
                self.nodes.insert(id, node)
            } else {
                self.nodes
            },
            ..self
        }
    }

    /// The lists of edges without those that start from or end on one of `gone`.
    /// A list that nothing is left of is left out.
    pub open spec fn edges_without(self, gone: Set<anchor::Id>) -> Map<anchor::Id, Seq<Edge>> {
        Map::new(
            |from: anchor::Id|
                self.edges.contains_key(from) && !gone.contains(from) && not_ending_on(
                    self.edges[from],
                    gone,
                ).len() > 0,
            |from: anchor::Id| not_ending_on(self.edges[from], gone),
        )
    }

    /// The AST without the node `id`, without its anchors, and without the edges
    /// that start from or end on one of those.
    pub open spec fn minus_node(self, id: node::Id) -> AstView {
        let gone = self.nodes[id].anchor_ids();
        AstView {
            nodes: self.nodes.remove(id),
            anchors: self.anchors.remove_keys(gone),
            anchor_to_node: self.anchor_to_node.remove_keys(gone),
            edges: self.edges_without(gone),
            sink_node_id: self.sink_node_id,
        }
    }

    /// Both ASTs in one, with the sink of the first. Lists of edges that start
    /// from the same anchor are joined, the first AST's edges first.
    pub open spec fn merged_with(self, other: AstView) -> AstView {
        AstView {
            nodes: self.nodes.union_prefer_right(other.nodes),
            anchors: self.anchors.union_prefer_right(other.anchors),
            anchor_to_node: self.anchor_to_node.union_prefer_right(other.anchor_to_node),
            edges: Map::new(
                |from: anchor::Id| self.edges.contains_key(from) || other.edges.contains_key(from),
                |from: anchor::Id| edges_from(self.edges, from) + edges_from(other.edges, from),
            ),
            sink_node_id: self.sink_node_id,
        }
    }

    /// The anchors that feed `anchor` are all anchors of some node of the AST.
    pub open spec fn producers_known(self, anchor: anchor::Id) -> bool {
        forall|from: anchor::Id, i: int|
            self.edges.contains_key(from) && 0 <= i < self.edges[from].len() && (
            #[trigger] self.edges[from][i]).to == anchor ==> self.anchor_to_node.contains_key(from)
    }

    /// One node for each edge of `list` that ends on `anchor`, all of them the
    /// node of `from`.
    pub open spec fn feeding_from(
        self,
        from: anchor::Id,
        list: Seq<Edge>,
        anchor: anchor::Id,
    ) -> Seq<node::Id>
        decreases list.len(),
    {
        if list.len() == 0 {
            Seq::empty()
        } else {
            let before = self.feeding_from(from, list.drop_last(), anchor);
            if list.last().to == anchor {
                before.push(self.anchor_to_node[from])
            } else {
                before
            }
        }
    }

    /// The nodes that feed `anchor`, gathered over the anchors `walk` one after
    /// the other.
    pub open spec fn feeding_along(self, walk: Seq<anchor::Id>, anchor: anchor::Id) -> Seq<node::Id>
        decreases walk.len(),
    {
        if walk.len() == 0 {
            Seq::empty()
        } else {
            self.feeding_along(walk.drop_last(), anchor) + self.feeding_from(
                walk.last(),
                self.edges[walk.last()],
                anchor,
            )
        }
    }

    /// `walk` goes over every list of edges once.
    pub open spec fn is_walk(self, walk: Seq<anchor::Id>) -> bool {
        walk.no_duplicates() && walk.to_set() == self.edges.dom()
    }

    /// `nodes` are the nodes that feed `anchor`, one for each edge that ends
    /// there, in the order of one walk over the lists of edges.
    pub open spec fn are_feeding(self, nodes: Seq<node::Id>, anchor: anchor::Id) -> bool {
        exists|walk: Seq<anchor::Id>| #[trigger]
            self.is_walk(walk) && nodes == self.feeding_along(walk, anchor)
    }

    /// `feeding` are, for each of `inputs`, the nodes that feed it.
    pub open spec fn feed_each<A>(
        self,
        feeding: Seq<Seq<node::Id>>,
        inputs: Seq<(anchor::Id, A)>,
    ) -> bool {
        &&& feeding.len() == inputs.len()
        &&& forall|i: int|
            0 <= i < inputs.len() ==> self.are_feeding(#[trigger] feeding[i], inputs[i].0)
    }

    /// `pairs` are the inputs of `inputs` one after the other, each once for
    /// every edge that ends on it, with the node that edge comes from.
    pub open spec fn are_feeding_inputs<A>(
        self,
        pairs: Seq<(anchor::Id, node::Id)>,
        inputs: Seq<(anchor::Id, A)>,
    ) -> bool {
        exists|feeding: Seq<Seq<node::Id>>| #[trigger]
            self.feed_each(feeding, inputs) && pairs == paired_in_turn(inputs, feeding)
    }
}

/// The nodes of `feeding`, each with the input it feeds, input by input.
pub open spec fn paired_in_turn<A>(
    inputs: Seq<(anchor::Id, A)>,
    feeding: Seq<Seq<node::Id>>,
) -> Seq<(anchor::Id, node::Id)>
    decreases inputs.len(),
{
    if inputs.len() == 0 {
        Seq::empty()
    } else {
        paired_in_turn(inputs.drop_last(), feeding.drop_last()) + paired(
            inputs.last().0,
            feeding.last(),
        )
    }
}

/// Each of `nodes` with the input it feeds.
pub open spec fn paired(input: anchor::Id, nodes: Seq<node::Id>) -> Seq<(anchor::Id, node::Id)> {
    nodes.map_values(|node: node::Id| (input, node))
}

/// A freshly created AST: nothing but its sink.
pub open spec fn only_sink(sink: node::Id, input: anchor::Id) -> AstView {
    AstView::bare(sink).plus_node(sink, ENode::Sink { input_anchor: input })
}

impl Ast {
    /// Create an AST that already contains its terminating `Sink` node (with a
    /// fresh input anchor), pointed to by `sink_node_id`. The id domains are
    /// threaded through so every id stays globally unique.
    pub fn new(
        node_id_domain: IdDomain<node::Id>,
        anchor_id_domain: IdDomain<anchor::Id>,
    ) -> (res: (Self, IdDomain<node::Id>, IdDomain<anchor::Id>))
        requires
            node_id_domain.issued() < usize::MAX,
            anchor_id_domain.issued() < usize::MAX,
        ensures
            res.0@ == only_sink(
                node::Id(node_id_domain.issued() as usize),
                anchor::Id(anchor_id_domain.issued() as usize),
            ),
            res.1.issued() == node_id_domain.issued() + 1,
            res.2.issued() == anchor_id_domain.issued() + 1,
    {
        let (node_id_domain, sink_node_id) = node_id_domain.next_id();
        let (anchor_id_domain, sink_input_anchor_id) = anchor_id_domain.next_id();
        let bare = Ast {
            nodes: HashMap::new(),
            anchors: HashMap::new(),
            anchor_to_node: HashMap::new(),
            edges: HashMap::new(),
            sink_node_id,
        };
        assert(bare@ =~= AstView::bare(sink_node_id));
        let ast = bare.plus_node(sink_node_id, ENode::Sink { input_anchor: sink_input_anchor_id });
        (ast, node_id_domain, anchor_id_domain)
    }

    /// Sub-AST for a Match branch, with the id of its sink.
    pub fn new_pattern_sub_ast(
        node_id_domain: IdDomain<node::Id>,
        anchor_id_domain: IdDomain<anchor::Id>,
    ) -> (res: (IdDomain<node::Id>, IdDomain<anchor::Id>, Self, node::Id))
        requires
            node_id_domain.issued() < usize::MAX,
            anchor_id_domain.issued() < usize::MAX,
        ensures
            res.0.issued() == node_id_domain.issued() + 1,
            res.1.issued() == anchor_id_domain.issued() + 1,
            res.3.0 == node_id_domain.issued(),
            res.2@ == only_sink(res.3, anchor::Id(anchor_id_domain.issued() as usize)),
    {
        let (sub_ast, node_id_domain, anchor_id_domain) = Self::new(
            node_id_domain,
            anchor_id_domain,
        );
        let sink_node_id = sub_ast.sink_node_id;
        (node_id_domain, anchor_id_domain, sub_ast, sink_node_id)
    }

    /// Union another AST's nodes/anchors/edges into this one, keeping this AST's
    /// `sink_node_id` as the root. Node/anchor ids are globally unique across a
    /// (sub-)AST tree, so those maps never collide; edge lists that share a
    /// `from` anchor are concatenated defensively.
    pub fn merged_with(self, other: Self) -> (res: Self)
        ensures
            res@ == self@.merged_with(other@),
    {
        let edges = joined_edges(self.edges, other.edges);
        let res = Ast {
            nodes: table::united(self.nodes, other.nodes),
            anchors: table::united(self.anchors, other.anchors),
            anchor_to_node: table::united(self.anchor_to_node, other.anchor_to_node),
            edges,
            sink_node_id: self.sink_node_id,
        };
        assert(res@ =~= self@.merged_with(other@));
        res
    }

    /// Add an edge from `from` to `to`.
    pub fn plus_edge(&self, from: anchor::Id, to: anchor::Id) -> (res: Self)
        ensures
            res@ == self@.plus_edge(from, to),
    {
        let mut edges = self.edges.clone();
        let mut list: Vec<Edge> = match edges.remove(&from.0) {
            Some(list) => list,
            None => Vec::new(),
        };
        list.push(Edge { to });
        assert(list@ == edges_from(self@.edges, from).push(Edge { to }));
        edges.insert(from.0, list);
        let res = Ast {
            anchors: self.anchors.clone(),
            nodes: self.nodes.clone(),
            anchor_to_node: self.anchor_to_node.clone(),
            sink_node_id: self.sink_node_id,
            edges,
        };
        assert(res@ =~= self@.plus_edge(from, to));
        res
    }

    /// Add a node under `node_id`, and every anchor of it.
    pub fn plus_node(&self, node_id: node::Id, n: ENode) -> (res: Self)
        ensures
            res@ == self@.plus_node(node_id, n),
    {
        let list = n.anchors();
        let anchors = table::with_anchors(&self.anchors, &list);
        let anchor_to_node = table::with_owner(&self.anchor_to_node, &list, node_id);
        proof {
            table::lemma_owned_anchors(list@, n, node_id);
        }
        let mut nodes = self.nodes.clone();
        nodes.insert(node_id.0, n);
        let res = Ast {
            anchors,
            nodes,
            anchor_to_node,
            edges: self.edges.clone(),
            sink_node_id: self.sink_node_id,
        };
        assert(res@ =~= self@.plus_node(node_id, n));
        res
    }

    /// Replace `n_id`'s node with `new_node`. Anchor tables are untouched;
    /// callers are responsible for ensuring the replacement has the same
    /// anchors (used e.g. to update a `Match`'s `patterns` list).
    pub fn with_node_replaced(&self, n_id: &node::Id, new_node: ENode) -> (res: Self)
        ensures
            res@ == self@.with_node_replaced(*n_id, new_node),
    {
        let mut nodes = self.nodes.clone();
        if nodes.contains_key(&n_id.0) {
            nodes.insert(n_id.0, new_node);
        }
        let res = Ast {
            nodes,
            anchors: self.anchors.clone(),
            anchor_to_node: self.anchor_to_node.clone(),
            edges: self.edges.clone(),
            sink_node_id: self.sink_node_id,
        };
        assert(res@ =~= self@.with_node_replaced(*n_id, new_node));
        res
    }

    /// Take a node out, and with it its anchors and every edge that starts from
    /// or ends on one of those.
    pub fn minus_node(&self, n_id: &node::Id) -> (res: Self)
        requires
            self@.nodes.contains_key(*n_id),
        ensures
            res@ == self@.minus_node(*n_id),
    {
        let node = self.nodes.get(&n_id.0).unwrap();
        let gone = node.anchors();
        proof {
            table::lemma_listed_anchors(gone@, *node);
        }
        let ghost ids = table::listed(gone@);
        let keys = table::keys_of(&self.edges);
        let mut edges: HashMap<usize, Vec<Edge>> = HashMap::new();
        let mut i: usize = 0;
        while i < keys.len()
            invariant
                i <= keys.len(),
                ids == table::listed(gone@),
                keys@.to_set() == self.edges@.dom(),
                forall|key: usize| #[trigger]
                    edges@.contains_key(key) <==> (exists|j: int| 0 <= j < i && keys@[j] == key)
                        && !ids.contains(anchor::Id(key)) && not_ending_on(
                        self.edges@[key]@,
                        ids,
                    ).len() > 0,
                forall|key: usize| #[trigger]
                    edges@.contains_key(key) ==> edges@[key]@ == not_ending_on(
                        self.edges@[key]@,
                        ids,
                    ),
            decreases keys.len() - i,
        {
            let from: usize = keys[i];
            assert(keys@[i as int] == from);
            assert(keys@.to_set().contains(from));
            let list = self.edges.get(&from).unwrap();
            if !table::is_listed(&gone, anchor::Id(from)) {
                let kept = kept_edges(list, &gone);
                if kept.len() > 0 {
                    edges.insert(from, kept);
                }
            }
            i = i + 1;
        }
        let mut nodes = self.nodes.clone();
        nodes.remove(&n_id.0);
        let res = Ast {
            nodes,
            anchors: table::without(&self.anchors, &gone),
            anchor_to_node: table::without(&self.anchor_to_node, &gone),
            edges,
            sink_node_id: self.sink_node_id,
        };
        assert forall|key: usize| self.edges@.contains_key(key) <==> exists|j: int|
            0 <= j < keys.len() && keys@[j] == key by {
            assert(self.edges@.contains_key(key) <==> keys@.to_set().contains(key));
        }
        assert(res@ =~= self@.minus_node(*n_id));
        res
    }

    /// The nodes that feed `anchor`, one for each edge that ends there. The
    /// order follows the walk over the table of edges, which is in no
    /// particular one.
    pub fn get_connected_nodes_to_anchor(&self, anchor: anchor::Id) -> (res: Vec<node::Id>)
        requires
            self@.producers_known(anchor),
        ensures
            self@.are_feeding(res@, anchor),
    {
        let keys = table::keys_of(&self.edges);
        let ghost walk = keys@.map_values(|key: usize| anchor::Id(key));
        let mut res: Vec<node::Id> = Vec::new();
        let mut i: usize = 0;
        while i < keys.len()
            invariant
                i <= keys.len(),
                keys@.to_set() == self.edges@.dom(),
                walk == keys@.map_values(|key: usize| anchor::Id(key)),
                self@.producers_known(anchor),
                res@ == self@.feeding_along(walk.take(i as int), anchor),
            decreases keys.len() - i,
        {
            let from: usize = keys[i];
            assert(keys@.to_set().contains(from));
            let list = self.edges.get(&from).unwrap();
            let ghost before = res@;
            assert(self@.edges[anchor::Id(from)] == list@);
            let mut j: usize = 0;
            while j < list.len()
                invariant
                    j <= list.len(),
                    self@.edges.contains_key(anchor::Id(from)),
                    self@.edges[anchor::Id(from)] == list@,
                    self@.producers_known(anchor),
                    res@ == before + self@.feeding_from(
                        anchor::Id(from),
                        list@.take(j as int),
                        anchor,
                    ),
                decreases list.len() - j,
            {
                assert(list@.take(j + 1).drop_last() == list@.take(j as int));
                assert(self@.edges[anchor::Id(from)][j as int] == list@[j as int]);
                if list[j].to == anchor {
                    assert(self@.anchor_to_node.contains_key(anchor::Id(from)));
                    res.push(*self.anchor_to_node.get(&from).unwrap());
                }
                j = j + 1;
            }
            assert(list@.take(j as int) == list@);
            assert(walk.take(i + 1).drop_last() == walk.take(i as int));
            i = i + 1;
        }
        proof {
            assert(walk.take(i as int) == walk);
            self.lemma_keys_walk(keys@);
        }
        res
    }

    /// The keys of the table of edges, as a walk over it.
    proof fn lemma_keys_walk(&self, keys: Seq<usize>)
        requires
            keys.no_duplicates(),
            keys.to_set() == self.edges@.dom(),
        ensures
            self@.is_walk(keys.map_values(|key: usize| anchor::Id(key))),
    {
        let walk = keys.map_values(|key: usize| anchor::Id(key));
        assert forall|id: anchor::Id| walk.to_set().contains(id) <==> self@.edges.dom().contains(
            id,
        ) by {
            if walk.to_set().contains(id) {
                let i = choose|i: int| 0 <= i < walk.len() && walk[i] == id;
                assert(keys.to_set().contains(keys[i]));
            }
            if self@.edges.dom().contains(id) {
                assert(keys.to_set().contains(id.0));
                let i = choose|i: int| 0 <= i < keys.len() && keys[i] == id.0;
                assert(walk[i] == id);
            }
        }
        assert(walk.to_set() =~= self@.edges.dom());
    }

    /// The nodes that feed the inputs of `node_id`, each with the input it
    /// feeds: input by input, in the order of the inputs. Nothing where the AST
    /// has no such node.
    pub fn get_connected_nodes_to_node_input_anchors(
        &self,
        node_id: &node::Id,
    ) -> (res: Vec<(anchor::Id, node::Id)>)
        requires
            self@.nodes.contains_key(*node_id) ==> forall|i: int|
                0 <= i < self@.nodes[*node_id].input_list().len() ==> self@.producers_known(
                    (#[trigger] self@.nodes[*node_id].input_list()[i]).0,
                ),
        ensures
            if self@.nodes.contains_key(*node_id) {
                self@.are_feeding_inputs(res@, self@.nodes[*node_id].input_list())
            } else {
                res@ == Seq::<(anchor::Id, node::Id)>::empty()
            },
    {
        let mut res: Vec<(anchor::Id, node::Id)> = Vec::new();
        if let Some(node) = self.nodes.get(&node_id.0) {
            assert(*node == self@.nodes[*node_id]);
            let inputs = node.input_anchors();
            let ghost list = node.input_list();
            let ghost mut feeding: Seq<Seq<node::Id>> = Seq::empty();
            let mut i: usize = 0;
            while i < inputs.len()
                invariant
                    i <= inputs.len(),
                    list == node::input_views(inputs@),
                    forall|i: int|
                        0 <= i < list.len() ==> self@.producers_known((#[trigger] list[i]).0),
                    self@.feed_each(feeding, list.take(i as int)),
                    res@ == paired_in_turn(list.take(i as int), feeding),
                decreases inputs.len() - i,
            {
                let input = inputs[i].0;
                assert(list[i as int].0 == input);
                let nodes = self.get_connected_nodes_to_anchor(input);
                let ghost before = res@;
                let mut j: usize = 0;
                while j < nodes.len()
                    invariant
                        j <= nodes.len(),
                        res@ == before + paired(input, nodes@.take(j as int)),
                    decreases nodes.len() - j,
                {
                    res.push((input, nodes[j]));
                    assert(paired(input, nodes@.take(j + 1)) == paired(
                        input,
                        nodes@.take(j as int),
                    ).push((input, nodes@[j as int])));
                    j = j + 1;
                }
                assert(nodes@.take(j as int) == nodes@);
                assert(list.take(i + 1).drop_last() == list.take(i as int));
                proof {
                    let grown = feeding.push(nodes@);
                    assert(grown.drop_last() == feeding);
                    feeding = grown;
                }
                i = i + 1;
            }
            assert(list.take(i as int) == list);
        }
        res
    }
}

/// The edges of `list` that do not end on an anchor of `gone`.
fn kept_edges(list: &Vec<Edge>, gone: &Vec<(anchor::Id, EAnchor)>) -> (kept: Vec<Edge>)
    ensures
        kept@ == not_ending_on(list@, table::listed(gone@)),
{
    let mut kept: Vec<Edge> = Vec::new();
    let ghost keeps = |edge: Edge| !table::listed(gone@).contains(edge.to);
    let mut i: usize = 0;
    while i < list.len()
        invariant
            i <= list.len(),
            keeps == (|edge: Edge| !table::listed(gone@).contains(edge.to)),
            kept@ == list@.take(i as int).filter(keeps),
        decreases list.len() - i,
    {
        proof {
            assert(list@.take(i + 1) == list@.take(i as int).push(list@[i as int]));
            list@.take(i as int).lemma_filter_push(list@[i as int], keeps);
        }
        if !table::is_listed(gone, list[i].to) {
            kept.push(list[i]);
        }
        i = i + 1;
    }
    assert(list@.take(i as int) == list@);
    kept
}

/// Both tables of edges in one; lists under the same key are joined.
fn joined_edges(
    edges: HashMap<usize, Vec<Edge>>,
    other: HashMap<usize, Vec<Edge>>,
) -> (res: HashMap<usize, Vec<Edge>>)
    ensures
        forall|key: usize| #[trigger]
            res@.contains_key(key) <==> edges@.contains_key(key) || other@.contains_key(key),
        forall|key: usize| #[trigger]
            res@.contains_key(key) ==> res@[key]@ == edges_from(
                edge_lists(edges@),
                anchor::Id(key),
            ) + edges_from(edge_lists(other@), anchor::Id(key)),
{
    let keys = table::keys_of(&other);
    let mut res = edges;
    let mut rest = other;
    let mut i: usize = 0;
    while i < keys.len()
        invariant
            i <= keys.len(),
            keys@.no_duplicates(),
            keys@.to_set() == other@.dom(),
            forall|key: usize| #[trigger]
                rest@.contains_key(key) <==> exists|j: int| i <= j < keys.len() && keys@[j] == key,
            forall|key: usize| #[trigger]
                rest@.contains_key(key) ==> other@.contains_key(key) && rest@[key] == other@[key],
            forall|key: usize| #[trigger]
                res@.contains_key(key) <==> edges@.contains_key(key) || exists|j: int|
                    0 <= j < i && keys@[j] == key,
            forall|key: usize| #[trigger]
                res@.contains_key(key) ==> res@[key]@ == edges_from(
                    edge_lists(edges@),
                    anchor::Id(key),
                ) + if exists|j: int| 0 <= j < i && keys@[j] == key {
                    other@[key]@
                } else {
                    Seq::<Edge>::empty()
                },
        decreases keys.len() - i,
    {
        let key: usize = keys[i];
        assert(keys@[i as int] == key);
        assert(rest@.contains_key(key));
        assert(!exists|j: int| 0 <= j < i && keys@[j] == key);
        if let Some(mut more) = rest.remove(&key) {
            assert(more@ == other@[key]@);
            let mut list: Vec<Edge> = match res.remove(&key) {
                Some(list) => list,
                None => Vec::new(),
            };
            assert(list@ == edges_from(edge_lists(edges@), anchor::Id(key)));
            list.append(&mut more);
            res.insert(key, list);
        }
        i = i + 1;
    }
    assert forall|key: usize| other@.contains_key(key) <==> exists|j: int|
        0 <= j < keys.len() && keys@[j] == key by {
        assert(other@.contains_key(key) <==> keys@.to_set().contains(key));
    }
    res
}

} // verus!
