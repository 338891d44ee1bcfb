//! Anchors: the points of a node an edge can start from or arrive at.

use crate::common::TId;
use crate::text;
use vstd::prelude::*;

verus! {

/// Ordered so a list of anchors can be put in a settled order without anyone
/// reading what is inside one.
///
/// The number is what the tables of a graph are keyed by.
#[derive(Clone, Copy, Debug, Hash, Eq, PartialEq, PartialOrd, Ord, Structural)]
pub struct Id(pub usize);

impl TId for Id {
    open spec fn number(&self) -> nat {
        self.0 as nat
    }

    fn zero() -> (id: Self) {
        Id(0)
    }

    fn next_id(&self) -> (id: Self) {
        Id(self.0 + 1)
    }
}

/// One anchor of a node: one of its inputs, or its output.
#[derive(Debug)]
pub enum EAnchor {
    Input(InputAnchor),
    Output,
}

/// What is known of an input: where it stands among the inputs of its node, and
/// the name it goes by, where it goes by one.
#[derive(Debug)]
pub struct InputAnchor {
    pub order_num: usize,
    pub name: Option<String>,
}

impl Clone for InputAnchor {
    fn clone(&self) -> (res: Self)
        ensures
            res == *self,
    {
        InputAnchor { order_num: self.order_num, name: text::clone_opt_text(&self.name) }
    }
}

impl Clone for EAnchor {
    fn clone(&self) -> (res: Self)
        ensures
            res == *self,
    {
        match self {
            EAnchor::Input(input) => EAnchor::Input(input.clone()),
            EAnchor::Output => EAnchor::Output,
        }
    }
}

/// The mathematical value of an [`EAnchor`].
pub enum EAnchorView {
    Input(InputAnchorView),
    Output,
}

/// The mathematical value of an [`InputAnchor`].
pub struct InputAnchorView {
    pub order_num: nat,
    pub name: Option<Seq<char>>,
}

impl View for InputAnchor {
    type V = InputAnchorView;

    open spec fn view(&self) -> InputAnchorView {
        InputAnchorView { order_num: self.order_num as nat, name: text::opt_text(self.name) }
    }
}

impl View for EAnchor {
    type V = EAnchorView;

    open spec fn view(&self) -> EAnchorView {
        match self {
            EAnchor::Input(input) => EAnchorView::Input(input@),
            EAnchor::Output => EAnchorView::Output,
        }
    }
}

} // verus!
