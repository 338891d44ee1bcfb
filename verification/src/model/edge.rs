//! Edges as an [`Ast`](crate::model::ast::Ast) keeps them.

use crate::model::anchor;
use vstd::prelude::*;

verus! {

/// An edge, seen from the anchor it starts at: all that is left to say is where
/// it ends.
#[derive(Clone, Copy, Debug, PartialEq, Eq, Structural)]
pub struct Edge {
    pub to: anchor::Id,
}

} // verus!
