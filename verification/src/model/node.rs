//! The nodes of a term graph.

use crate::common::TId;
use crate::model::anchor::{self, EAnchor, EAnchorView, InputAnchor, InputAnchorView};
use crate::model::etype::EType;
use crate::model::function_declaration::FunctionDeclarationId;
use crate::text;
use vstd::prelude::*;

verus! {

/// Names a node. The number is what the tables of a graph are keyed by.
#[derive(Clone, Copy, Debug, Eq, PartialEq, Hash, PartialOrd, Ord, Structural)]
pub struct Id(pub usize);

impl TId for Id {
    open spec fn number(&self) -> nat {
        self.0 as nat
    }

    fn zero() -> (id: Self) {
        Id(0)
    }

    fn next_id(&self) -> (id: Self) {
        Id(self.0 + 1)
    }
}

impl Id {
    /// The id as it is shown to a reader.
    pub fn spelled(&self) -> (text: String)
        ensures
            text@ == "Id("@ + text::decimal_of(self.0 as nat) + ")"@,
    {
        "Id(".to_owned().concat(text::decimal(self.0 as u64).as_str()).concat(")")
    }
}

#[allow(inconsistent_fields)]
#[derive(Clone, Debug)]
pub enum ENode {
    /// The root owner of the layout tree. Not a node kind of the language, but
    /// the layout needs one object that owns the outermost scope.
    Root {},
    Sink { input_anchor: anchor::Id },
    FunctionCall {
        function_declaration_id: FunctionDeclarationId,
        input_anchors: Vec<anchor::Id>,
        output_anchor: anchor::Id,
    },
    Constant { etype: EType, output_anchor: anchor::Id },
    TypeCast {
        /// The type to cast to, or the literal to produce; `None` until one is
        /// chosen.
        etype: Option<EType>,
        input_anchor: anchor::Id,
        output_anchor: anchor::Id,
    },
    Source {
        name: String,
        /// The type every value handed in at this Source will be one of; `None`
        /// only while the node is still being built.
        etype: Option<EType>,
        output_anchor: anchor::Id,
    },
    Match {
        /// The arms, in the order they are checked, and therefore in the order
        /// they are drawn, top to bottom.
        patterns: Vec<Id>,
        input_anchor: anchor::Id,
        output_anchor: anchor::Id,
    },
    /// One arm of a Match. It declares the type the arm matches and carries no
    /// anchor: the branch reads the matched value from its own `BranchSource`.
    Pattern {
        parent_match: Id,
        /// The type this arm matches; `None` until one is chosen.
        etype: Option<EType>,
        sink_node_id: Id,
    },
    /// The single entry point of a Match branch. Its output carries the matched
    /// value, typed by `pattern`'s declared type.
    BranchSource { pattern: Id, output_anchor: anchor::Id },
    /// The declared way a value other than the matched one reaches a branch.
    Tunnel {
        /// The type this Tunnel lets through; `None` until one is chosen.
        etype: Option<EType>,
        input_anchor: anchor::Id,
        output_anchor: anchor::Id,
    },
}

/// Which kind of node a node is.
#[derive(Clone, Copy, Debug, PartialEq, Eq, Structural)]
pub enum NodeKind {
    Root,
    Sink,
    FunctionCall,
    Constant,
    TypeCast,
    Source,
    Match,
    Pattern,
    BranchSource,
    Tunnel,
}

/// The name of a function call's input.
pub open spec fn parameter_name(order_num: nat) -> Seq<char> {
    "param"@ + text::decimal_of(order_num)
}

/// A function call's input, as it stands among the inputs.
pub open spec fn parameter(order_num: nat) -> EAnchorView {
    EAnchorView::Input(InputAnchorView { order_num, name: Some(parameter_name(order_num)) })
}

/// The input of a node that has but one.
pub open spec fn single_input() -> EAnchorView {
    EAnchorView::Input(InputAnchorView { order_num: 0, name: None })
}

/// The inputs of a function call.
pub open spec fn parameters(ids: Seq<anchor::Id>) -> Seq<(anchor::Id, EAnchorView)> {
    Seq::new(ids.len(), |i: int| (ids[i], parameter(i as nat)))
}

/// The values of a list of anchors.
pub open spec fn anchor_views(list: Seq<(anchor::Id, EAnchor)>) -> Seq<(anchor::Id, EAnchorView)> {
    list.map_values(|entry: (anchor::Id, EAnchor)| (entry.0, entry.1@))
}

/// The values of a list of inputs.
pub open spec fn input_views(list: Seq<(anchor::Id, InputAnchor)>) -> Seq<
    (anchor::Id, InputAnchorView),
> {
    list.map_values(|entry: (anchor::Id, InputAnchor)| (entry.0, entry.1@))
}

/// The inputs among a list of anchors, in the order of the list.
pub open spec fn only_inputs(list: Seq<(anchor::Id, EAnchorView)>) -> Seq<
    (anchor::Id, InputAnchorView),
>
    decreases list.len(),
{
    if list.len() == 0 {
        Seq::empty()
    } else {
        let before = only_inputs(list.drop_last());
        match list.last().1 {
            EAnchorView::Input(input) => before.push((list.last().0, input)),
            EAnchorView::Output => before,
        }
    }
}

impl ENode {
    /// The anchors of a node: its inputs in order, then its output.
    pub open spec fn anchor_list(self) -> Seq<(anchor::Id, EAnchorView)> {
        match self {
            ENode::FunctionCall { input_anchors, output_anchor, .. } => parameters(
                input_anchors@,
            ).push((output_anchor, EAnchorView::Output)),
            ENode::Sink { input_anchor } => seq![(input_anchor, single_input())],
            ENode::Constant { output_anchor, .. } => seq![(output_anchor, EAnchorView::Output)],
            ENode::Source { output_anchor, .. } => seq![(output_anchor, EAnchorView::Output)],
            ENode::BranchSource { output_anchor, .. } => seq![
                (output_anchor, EAnchorView::Output),
            ],
            ENode::TypeCast { input_anchor, output_anchor, .. } => seq![
                (input_anchor, single_input()),
                (output_anchor, EAnchorView::Output),
            ],
            ENode::Match { input_anchor, output_anchor, .. } => seq![
                (input_anchor, single_input()),
                (output_anchor, EAnchorView::Output),
            ],
            ENode::Tunnel { input_anchor, output_anchor, .. } => seq![
                (input_anchor, single_input()),
                (output_anchor, EAnchorView::Output),
            ],
            ENode::Pattern { .. } => Seq::empty(),
            ENode::Root {} => Seq::empty(),
        }
    }

    /// The kind of the node.
    pub open spec fn kind_of(self) -> NodeKind {
        match self {
            ENode::Root {} => NodeKind::Root,
            ENode::Sink { .. } => NodeKind::Sink,
            ENode::FunctionCall { .. } => NodeKind::FunctionCall,
            ENode::Constant { .. } => NodeKind::Constant,
            ENode::TypeCast { .. } => NodeKind::TypeCast,
            ENode::Source { .. } => NodeKind::Source,
            ENode::Match { .. } => NodeKind::Match,
            ENode::Pattern { .. } => NodeKind::Pattern,
            ENode::BranchSource { .. } => NodeKind::BranchSource,
            ENode::Tunnel { .. } => NodeKind::Tunnel,
        }
    }

    /// The kind of the node.
    pub fn kind(&self) -> (kind: NodeKind)
        ensures
            kind == self.kind_of(),
    {
        match self {
            ENode::Root {} => NodeKind::Root,
            ENode::Sink { .. } => NodeKind::Sink,
            ENode::FunctionCall { .. } => NodeKind::FunctionCall,
            ENode::Constant { .. } => NodeKind::Constant,
            ENode::TypeCast { .. } => NodeKind::TypeCast,
            ENode::Source { .. } => NodeKind::Source,
            ENode::Match { .. } => NodeKind::Match,
            ENode::Pattern { .. } => NodeKind::Pattern,
            ENode::BranchSource { .. } => NodeKind::BranchSource,
            ENode::Tunnel { .. } => NodeKind::Tunnel,
        }
    }

    /// The ids of a node's anchors.
    pub open spec fn anchor_ids(self) -> Set<anchor::Id> {
        Set::new(|id: anchor::Id| exists|i: int|
            0 <= i < self.anchor_list().len() && #[trigger] self.anchor_list()[i].0 == id)
    }

    /// The inputs of a node, in order.
    pub open spec fn input_list(self) -> Seq<(anchor::Id, InputAnchorView)> {
        only_inputs(self.anchor_list())
    }

    /// Every anchor of the node with what it is: the inputs in order, then the
    /// output. A Pattern and the Root have none.
    pub fn anchors(&self) -> (list: Vec<(anchor::Id, EAnchor)>)
        ensures
            anchor_views(list@) == self.anchor_list(),
    {
        let mut list: Vec<(anchor::Id, EAnchor)> = Vec::new();
        match self {
            ENode::FunctionCall { input_anchors, output_anchor, .. } => {
                let mut i: usize = 0;
                while i < input_anchors.len()
                    invariant
                        i <= input_anchors.len(),
                        anchor_views(list@) == parameters(input_anchors@.take(i as int)),
                    decreases input_anchors.len() - i,
                {
                    let name = "param".to_owned().concat(text::decimal(i as u64).as_str());
                    let input = EAnchor::Input(InputAnchor { order_num: i, name: Some(name) });
                    let ghost before = anchor_views(list@);
                    assert(input@ == parameter(i as nat));
                    list.push((input_anchors[i], input));
                    assert(anchor_views(list@) == before.push(
                        (input_anchors[i as int], parameter(i as nat)),
                    ));
                    assert(anchor_views(list@) == parameters(input_anchors@.take(i + 1)));
                    i = i + 1;
                }
                assert(input_anchors@.take(i as int) == input_anchors@);
                list.push((*output_anchor, EAnchor::Output));
            },
            ENode::Sink { input_anchor } => {
                list.push(
                    (*input_anchor, EAnchor::Input(InputAnchor { order_num: 0, name: None })),
                );
            },
            ENode::Constant { output_anchor, .. }
            | ENode::Source { output_anchor, .. }
            | ENode::BranchSource { output_anchor, .. } => {
                list.push((*output_anchor, EAnchor::Output));
            },
            ENode::TypeCast { input_anchor, output_anchor, .. }
            | ENode::Match { input_anchor, output_anchor, .. }
            | ENode::Tunnel { input_anchor, output_anchor, .. } => {
                list.push(
                    (*input_anchor, EAnchor::Input(InputAnchor { order_num: 0, name: None })),
                );
                list.push((*output_anchor, EAnchor::Output));
            },
            ENode::Pattern { .. } | ENode::Root {} => {},
        }
        assert(anchor_views(list@) == self.anchor_list());
        list
    }

    /// The inputs of the node, in order.
    pub fn input_anchors(&self) -> (list: Vec<(anchor::Id, InputAnchor)>)
        ensures
            input_views(list@) == self.input_list(),
    {
        let all = self.anchors();
        let mut list: Vec<(anchor::Id, InputAnchor)> = Vec::new();
        let mut i: usize = 0;
        while i < all.len()
            invariant
                i <= all.len(),
                input_views(list@) == only_inputs(anchor_views(all@).take(i as int)),
            decreases all.len() - i,
        {
            let ghost before = anchor_views(all@).take(i as int);
            let ghost now = anchor_views(all@).take(i + 1);
            assert(now.drop_last() == before);
            if let EAnchor::Input(input) = &all[i].1 {
                let ghost shorter = input_views(list@);
                list.push((all[i].0, input.clone()));
                assert(input_views(list@) == shorter.push((all[i as int].0, input@)));
            }
            i = i + 1;
        }
        assert(anchor_views(all@).take(i as int) == anchor_views(all@));
        list
    }
}

/// The anchors of a node are the ones it names, the inputs before the output: a
/// call has an input for each that it lists, in that order and numbered in that
/// order, and an output; what only takes has no output, and what only gives no
/// input.
pub proof fn law_which_anchors_a_node_has(node: ENode)
    ensures
        node matches ENode::FunctionCall { input_anchors, output_anchor, .. } ==> {
            &&& node.anchor_list().len() == input_anchors@.len() + 1
            &&& node.anchor_list().last() == (output_anchor, EAnchorView::Output)
            &&& forall|i: int|
                0 <= i < input_anchors@.len() ==> {
                    &&& (#[trigger] node.anchor_list()[i]).0 == input_anchors@[i]
                    &&& node.anchor_list()[i].1 matches EAnchorView::Input(input)
                    &&& input.order_num == i
                }
        },
        node matches ENode::Sink { input_anchor } ==> node.anchor_list().len() == 1
            && node.anchor_list()[0].0 == input_anchor && node.anchor_list()[0].1 is Input,
        node matches ENode::Constant { output_anchor, .. } ==> node.anchor_list() == seq![
            (output_anchor, EAnchorView::Output),
        ],
        node matches ENode::Source { output_anchor, .. } ==> node.anchor_list() == seq![
            (output_anchor, EAnchorView::Output),
        ],
        node matches ENode::BranchSource { output_anchor, .. } ==> node.anchor_list() == seq![
            (output_anchor, EAnchorView::Output),
        ],
        node matches ENode::TypeCast { input_anchor, output_anchor, .. } ==> {
            &&& node.anchor_list().len() == 2
            &&& node.anchor_list()[0].0 == input_anchor && node.anchor_list()[0].1 is Input
            &&& node.anchor_list()[1] == (output_anchor, EAnchorView::Output)
        },
        node matches ENode::Match { input_anchor, output_anchor, .. } ==> {
            &&& node.anchor_list().len() == 2
            &&& node.anchor_list()[0].0 == input_anchor && node.anchor_list()[0].1 is Input
            &&& node.anchor_list()[1] == (output_anchor, EAnchorView::Output)
        },
        node matches ENode::Tunnel { input_anchor, output_anchor, .. } ==> {
            &&& node.anchor_list().len() == 2
            &&& node.anchor_list()[0].0 == input_anchor && node.anchor_list()[0].1 is Input
            &&& node.anchor_list()[1] == (output_anchor, EAnchorView::Output)
        },
        node is Pattern || node is Root ==> node.anchor_list().len() == 0,
{
}

/// The inputs of a node are those of its anchors that are inputs, in their order
/// and with what is known of them.
pub proof fn law_the_inputs_are_the_inputs(node: ENode)
    ensures
        node matches ENode::FunctionCall { input_anchors, .. } ==> {
            &&& node.input_list().len() == input_anchors@.len()
            &&& forall|i: int|
                0 <= i < input_anchors@.len() ==> (#[trigger] node.input_list()[i]).0
                    == input_anchors@[i] && node.input_list()[i].1.order_num == i
                    && node.input_list()[i].1.name is Some
        },
        node matches ENode::Sink { input_anchor } ==> node.input_list().len() == 1
            && node.input_list()[0].0 == input_anchor,
        node matches ENode::TypeCast { input_anchor, .. } ==> node.input_list().len() == 1
            && node.input_list()[0].0 == input_anchor,
        node matches ENode::Match { input_anchor, .. } ==> node.input_list().len() == 1
            && node.input_list()[0].0 == input_anchor,
        node matches ENode::Tunnel { input_anchor, .. } ==> node.input_list().len() == 1
            && node.input_list()[0].0 == input_anchor,
        node is Constant || node is Source || node is BranchSource || node is Pattern || node
            is Root ==> node.input_list().len() == 0,
{
    let list = node.anchor_list();
    match node {
        ENode::FunctionCall { input_anchors, output_anchor, .. } => {
            lemma_parameters_are_inputs(input_anchors@);
            assert(list.drop_last() =~= parameters(input_anchors@));
        },
        ENode::Pattern { .. } => {},
        ENode::Root {} => {},
        _ => {
            reveal_with_fuel(only_inputs, 3);
            if list.len() == 2 {
                assert(list.drop_last().len() == 1);
                assert(list.drop_last().drop_last().len() == 0);
                assert(list.drop_last()[0] == list[0]);
            } else {
                assert(list.drop_last().len() == 0);
            }
        },
    }
}

proof fn lemma_parameters_are_inputs(ids: Seq<anchor::Id>)
    ensures
        only_inputs(parameters(ids)).len() == ids.len(),
        forall|i: int|
            0 <= i < ids.len() ==> (#[trigger] only_inputs(parameters(ids))[i]).0 == ids[i]
                && only_inputs(parameters(ids))[i].1.order_num == i && only_inputs(
                parameters(ids),
            )[i].1.name is Some,
    decreases ids.len(),
{
    if ids.len() > 0 {
        let shorter = ids.drop_last();
        lemma_parameters_are_inputs(shorter);
        assert(parameters(ids).drop_last() =~= parameters(shorter));
        let before = only_inputs(parameters(shorter));
        assert forall|i: int|
            0 <= i < ids.len() implies (#[trigger] only_inputs(parameters(ids))[i]).0 == ids[i]
            && only_inputs(parameters(ids))[i].1.order_num == i && only_inputs(
            parameters(ids),
        )[i].1.name is Some by {
            if i < before.len() {
                assert(only_inputs(parameters(ids))[i] == before[i]);
            }
        }
    }
}

/// The inputs of a call are told apart by their names, which end in their number.
pub proof fn law_inputs_are_told_apart(one: nat, other: nat)
    ensures
        parameter_name(one) == parameter_name(other) <==> one == other,
        parameter_name(one).skip("param"@.len() as int) == text::decimal_of(one),
        parameter(one) matches EAnchorView::Input(input) && input.order_num == one && input.name
            == Some(parameter_name(one)),
        single_input() matches EAnchorView::Input(input) && input.order_num == 0 && input.name
            is None,
{
    let start = "param"@.len() as int;
    assert(parameter_name(one).skip(start) =~= text::decimal_of(one));
    assert(parameter_name(other).skip(start) =~= text::decimal_of(other));
    text::law_a_number_reads_back(one);
    text::law_a_number_reads_back(other);
}

} // verus!
