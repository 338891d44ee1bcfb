//! What the cell under the caret stands for.

use crate::cell::{Cell, CellRole, Placement};
use crate::model::node::{self, ENode, NodeKind};
use std::collections::HashMap;
use vstd::prelude::*;

verus! {

broadcast use vstd::std_specs::hash::group_hash_axioms;

/// Which property of a node one of its cells stands for: one variant per
/// (kind, cell) pair, and none for a cell that names nothing.
///
/// This is the whole editing model. A cell names at most one property, so
/// standing on it and choosing what to change are one act.
#[derive(Clone, Copy, Debug, PartialEq, Eq, Structural)]
pub enum EditTarget {
    /// Printed along the body, so the body is where it is typed.
    SourceName,
    /// Declared on the Source's first cell, in front of the name.
    SourceType,
    /// A Constant's body cell. The value *is* the node.
    ConstantValue,
    /// The cell between a TypeCast's two anchors.
    CastType,
    /// The type a Pattern's arm matches, on the Pattern's one cell.
    PatternType,
    /// The type a Tunnel lets through, on the cell between its two anchors.
    TunnelType,
}

/// What INSERT mode does at the caret. The mode is one key, but it means
/// whatever the addressed cell is.
#[derive(Clone, Copy, Debug, PartialEq, Eq, Structural)]
pub enum InsertTarget {
    /// Build something: the prompt offers node kinds, functions and literals.
    Create,
    /// Change something that already stands there.
    Edit(node::Id, EditTarget),
}

/// The property that a cell in the given role names on a node of the given kind.
///
/// Every row names a `Body` or a `Name` cell, and none of them an anchor: an
/// anchor is where an edge begins, so it cannot also be where a property is
/// answered. A function call names nothing: a different function has a different
/// arity, so the call is deleted and another built.
pub open spec fn property_of(kind: NodeKind, role: CellRole) -> Option<EditTarget> {
    match (kind, role) {
        (NodeKind::Source, CellRole::Body) => Some(EditTarget::SourceType),
        (NodeKind::Source, CellRole::Name) => Some(EditTarget::SourceName),
        (NodeKind::Constant, CellRole::Body) => Some(EditTarget::ConstantValue),
        (NodeKind::TypeCast, CellRole::Body) => Some(EditTarget::CastType),
        (NodeKind::Pattern, CellRole::Body) => Some(EditTarget::PatternType),
        (NodeKind::Tunnel, CellRole::Body) => Some(EditTarget::TunnelType),
        _ => None,
    }
}

/// Which property one cell of a node stands for.
pub fn edit_target_of(node: &ENode, role: CellRole) -> (target: Option<EditTarget>)
    ensures
        target == property_of(node.kind_of(), role),
{
    match (node, role) {
        (ENode::Source { .. }, CellRole::Body) => Some(EditTarget::SourceType),
        (ENode::Source { .. }, CellRole::Name) => Some(EditTarget::SourceName),
        (ENode::Constant { .. }, CellRole::Body) => Some(EditTarget::ConstantValue),
        (ENode::TypeCast { .. }, CellRole::Body) => Some(EditTarget::CastType),
        (ENode::Pattern { .. }, CellRole::Body) => Some(EditTarget::PatternType),
        (ENode::Tunnel { .. }, CellRole::Body) => Some(EditTarget::TunnelType),
        _ => None,
    }
}

/// The node that stands on the cell `local`, with what that cell is for to it.
pub open spec fn cell_addressed(
    placements: Map<usize, Placement>,
    standing: Option<node::Id>,
    local: Cell,
) -> Option<(node::Id, CellRole)> {
    match standing {
        Some(id) => if placements.contains_key(id.0) {
            match placements[id.0].role_of(local.difference(placements[id.0].pos)) {
                Some(role) => Some((id, role)),
                None => None,
            }
        } else {
            None
        },
        None => None,
    }
}

/// The node the caret addresses and which of its cells: `standing` is the node
/// that claims the cell `local` of the scope, and `placements` are the places of
/// the scope's nodes. Whether that cell *names* anything is `insert_target`'s
/// question.
pub fn addressed_cell(
    placements: &HashMap<usize, Placement>,
    standing: Option<node::Id>,
    local: Cell,
) -> (res: Option<(node::Id, CellRole)>)
    requires
        standing matches Some(id) ==> placements@.contains_key(id.0) ==> local.can_subtract(
            placements@[id.0].pos,
        ),
    ensures
        res == cell_addressed(placements@, standing, local),
{
    let id = standing?;
    let placement = match placements.get(&id.0) {
        Some(placement) => placement,
        None => return None,
    };
    match placement.role_at(local.minus(placement.pos)) {
        Some(role) => Some((id, role)),
        None => None,
    }
}

/// What INSERT does on an addressed cell of a scope with the given nodes.
pub open spec fn target_at(
    nodes: Map<usize, ENode>,
    addressed: Option<(node::Id, CellRole)>,
) -> InsertTarget {
    match addressed {
        Some((id, role)) => if nodes.contains_key(id.0) {
            match property_of(nodes[id.0].kind_of(), role) {
                Some(property) => InsertTarget::Edit(id, property),
                None => InsertTarget::Create,
            }
        } else {
            InsertTarget::Create
        },
        None => InsertTarget::Create,
    }
}

/// What INSERT mode does at the caret. A cell that names no property falls back
/// to `Create`: an empty cell, an anchor row, a hole in a multi-column node.
pub fn insert_target(
    nodes: &HashMap<usize, ENode>,
    addressed: Option<(node::Id, CellRole)>,
) -> (target: InsertTarget)
    ensures
        target == target_at(nodes@, addressed),
{
    let (id, role) = match addressed {
        Some(pair) => pair,
        None => return InsertTarget::Create,
    };
    match nodes.get(&id.0) {
        Some(node) => match edit_target_of(node, role) {
            Some(property) => InsertTarget::Edit(id, property),
            None => InsertTarget::Create,
        },
        None => InsertTarget::Create,
    }
}

/// A cell that names a property names it on one kind of node only, and no anchor
/// cell names any.
pub proof fn law_property_tells_the_kind(kind: NodeKind, other: NodeKind, role: CellRole)
    ensures
        property_of(kind, CellRole::Anchor) is None,
        property_of(kind, CellRole::Gap) is None,
        property_of(NodeKind::FunctionCall, role) is None,
        property_of(kind, role) is Some && property_of(kind, role) == property_of(other, role)
            ==> kind == other,
{
}

/// A Source declares its type on its body and its name along it; a constant, a
/// cast, an arm and a Tunnel answer for what they hold on their body. No other cell
/// names anything.
pub proof fn law_which_cell_names_what(kind: NodeKind, role: CellRole)
    ensures
        property_of(kind, role) == Some(EditTarget::SourceName) <==> kind == NodeKind::Source
            && role == CellRole::Name,
        property_of(kind, role) == Some(EditTarget::SourceType) <==> kind == NodeKind::Source
            && role == CellRole::Body,
        property_of(kind, role) == Some(EditTarget::ConstantValue) <==> kind == NodeKind::Constant
            && role == CellRole::Body,
        property_of(kind, role) == Some(EditTarget::CastType) <==> kind == NodeKind::TypeCast
            && role == CellRole::Body,
        property_of(kind, role) == Some(EditTarget::PatternType) <==> kind == NodeKind::Pattern
            && role == CellRole::Body,
        property_of(kind, role) == Some(EditTarget::TunnelType) <==> kind == NodeKind::Tunnel
            && role == CellRole::Body,
{
}

/// INSERT changes a property exactly where the caret's cell names one, and it is a
/// property of the node that the cell belongs to; everywhere else it builds.
pub proof fn law_what_insert_is_about(
    nodes: Map<usize, ENode>,
    placements: Map<usize, Placement>,
    standing: Option<node::Id>,
    local: Cell,
)
    ensures
        target_at(nodes, cell_addressed(placements, standing, local)) matches InsertTarget::Edit(
            id,
            property,
        ) ==> {
            &&& standing == Some(id)
            &&& nodes.contains_key(id.0)
            &&& placements.contains_key(id.0)
            &&& placements[id.0].role_of(local.difference(placements[id.0].pos)) matches Some(role)
            &&& property_of(nodes[id.0].kind_of(), role) == Some(property)
        },
        standing is None ==> target_at(nodes, cell_addressed(placements, standing, local)) is Create,
        standing matches Some(id) ==> nodes.contains_key(id.0) && placements.contains_key(id.0)
            && placements[id.0].role_of(local.difference(placements[id.0].pos)) is Some
            && property_of(
            nodes[id.0].kind_of(),
            placements[id.0].role_of(local.difference(placements[id.0].pos))->0,
        ) is Some ==> target_at(nodes, cell_addressed(placements, standing, local)) is Edit,
{
}

} // verus!
