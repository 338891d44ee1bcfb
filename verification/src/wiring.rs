//! Drawing edges: which pairs of anchors may be joined, and the drag that joins
//! them.

use crate::model::anchor;
use crate::model::node::{self, ENode};
use crate::model::term_graph::{TermGraph, TermGraphView};
use vstd::prelude::*;

verus! {

broadcast use vstd::std_specs::hash::group_hash_axioms;

/// An anchor that can be pointed at.
#[derive(Clone, Copy, Debug, PartialEq, Eq, Structural)]
pub enum EAnchor {
    Input { id: anchor::Id },
    Output { id: anchor::Id },
}

impl EAnchor {
    /// The id of the anchor.
    pub open spec fn id_of(self) -> anchor::Id {
        match self {
            EAnchor::Input { id } => id,
            EAnchor::Output { id } => id,
        }
    }

    /// The id of the anchor.
    pub fn id(&self) -> (id: anchor::Id)
        ensures
            id == self.id_of(),
    {
        match self {
            EAnchor::Input { id } | EAnchor::Output { id } => *id,
        }
    }
}

/// An edge runs from `from` to `to`.
pub open spec fn joined(graph: TermGraphView, from: anchor::Id, to: anchor::Id) -> bool {
    graph.incoming_edge.contains_key(to) && graph.incoming_edge[to] == from
}

/// True if `a` and `b` are already joined by an edge, in either stored
/// direction: whether there is anything to do. Re-dragging a connection that
/// already stands would drop it and put the identical one back.
pub fn anchors_already_connected(graph: &TermGraph, a: &anchor::Id, b: &anchor::Id) -> (res: bool)
    ensures
        res == (joined(graph@, *a, *b) || joined(graph@, *b, *a)),
{
    let forth = match graph.incoming_edge.get(&b.0) {
        Some(from) => *from == *a,
        None => false,
    };
    let back = match graph.incoming_edge.get(&a.0) {
        Some(from) => *from == *b,
        None => false,
    };
    forth || back
}

/// `target` is the input of the Tunnel `node`.
pub open spec fn tunnel_input(node: ENode, target: anchor::Id) -> bool {
    node matches ENode::Tunnel { input_anchor, .. } && input_anchor == target
}

/// Whether `target` is the input of a Tunnel: `node` is the node it belongs to.
/// It is the only anchor in the program with a rule of its own.
pub fn is_tunnel_input(node: Option<&ENode>, target: &anchor::Id) -> (res: bool)
    ensures
        res == (node matches Some(node) && tunnel_input(*node, *target)),
{
    match node {
        Some(ENode::Tunnel { input_anchor, .. }) => *input_anchor == *target,
        _ => false,
    }
}

/// `outer` is the scope that immediately holds `inner`.
pub open spec fn one_level_in(outer: Seq<node::Id>, inner: Seq<node::Id>) -> bool {
    inner.len() == outer.len() + 1 && outer.is_prefix_of(inner)
}

/// An edge may join an output in the scope `source` to an input in the scope
/// `target`: within one scope, or into the Tunnel of a branch from the graph
/// that immediately holds it.
pub open spec fn may_connect(
    source: Seq<node::Id>,
    target: Seq<node::Id>,
    target_is_tunnel_input: bool,
) -> bool {
    if target_is_tunnel_input {
        one_level_in(source, target)
    } else {
        source == target
    }
}

fn same_start(a: &Vec<node::Id>, b: &Vec<node::Id>, len: usize) -> (res: bool)
    requires
        len <= a.len(),
        len <= b.len(),
    ensures
        res == (a@.take(len as int) == b@.take(len as int)),
{
    let mut i: usize = 0;
    while i < len
        invariant
            i <= len,
            len <= a.len(),
            len <= b.len(),
            a@.take(i as int) == b@.take(i as int),
        decreases len - i,
    {
        if a[i] != b[i] {
            proof {
                assert(a@.take(len as int)[i as int] == a@[i as int]);
                assert(b@.take(len as int)[i as int] == b@[i as int]);
            }
            return false;
        }
        assert(a@.take(i + 1) =~= a@.take(i as int).push(a@[i as int]));
        assert(b@.take(i + 1) =~= b@.take(i as int).push(b@[i as int]));
        i = i + 1;
    }
    true
}

/// Whether an edge may join two anchors at all: `source` and `target` are the
/// scopes they stand in, each as the path of owners from the root down, and
/// `None` for an anchor that stands nowhere.
///
/// A value enters a sub-graph through a Tunnel or it does not enter. Within one
/// scope everything goes; the moment the two ends sit in different scopes,
/// exactly one shape is admitted: an output of the immediately enclosing graph
/// reaching the **input** of a Tunnel one level in.
pub fn connection_allowed(
    source: Option<&Vec<node::Id>>,
    target: Option<&Vec<node::Id>>,
    target_is_tunnel_input: bool,
) -> (res: bool)
    ensures
        res == match (source, target) {
            (Some(source), Some(target)) => may_connect(source@, target@, target_is_tunnel_input),
            _ => false,
        },
{
    let (source, target) = match (source, target) {
        (Some(source), Some(target)) => (source, target),
        _ => return false,
    };
    let len: usize = source.len();
    if target_is_tunnel_input {
        if len >= target.len() || target.len() - len != 1 {
            return false;
        }
        let res = same_start(source, target, len);
        proof {
            assert(source@.take(len as int) =~= source@);
            assert(source@.is_prefix_of(target@) <==> target@.take(len as int) =~= source@);
        }
        res
    } else {
        if len != target.len() {
            return false;
        }
        let res = same_start(source, target, len);
        proof {
            assert(source@.take(len as int) =~= source@);
            assert(target@.take(len as int) =~= target@);
        }
        res
    }
}

/// What crosses the boundary of a branch and is refused: onto an ordinary anchor
/// of a branch, out of a branch, from inside a branch into its own Tunnel, and
/// past a level.
pub proof fn law_refused_crossings(
    outer: Seq<node::Id>,
    pattern: node::Id,
    deeper: node::Id,
)
    ensures
        !may_connect(outer, outer.push(pattern), false),
        !may_connect(outer.push(pattern), outer, false),
        !may_connect(outer.push(pattern), outer, true),
        !may_connect(outer.push(pattern), outer.push(pattern), true),
        !may_connect(outer, outer.push(pattern).push(deeper), true),
{
    assert(outer.push(pattern).len() == outer.len() + 1);
}

/// What is admitted: everything within one scope but a Tunnel's input, and a
/// Tunnel's input from the scope around its branch.
pub proof fn law_admitted_connections(outer: Seq<node::Id>, pattern: node::Id)
    ensures
        may_connect(outer, outer, false),
        may_connect(outer, outer.push(pattern), true),
{
    assert(outer.push(pattern).take(outer.len() as int) =~= outer);
}

/// From two branches of one Match nothing can be wired into the other.
pub proof fn law_branches_are_apart(
    outer: Seq<node::Id>,
    one: node::Id,
    other: node::Id,
    tunnel: bool,
)
    requires
        one != other,
    ensures
        !may_connect(outer.push(one), outer.push(other), tunnel),
{
    assert(outer.push(one)[outer.len() as int] == one);
    assert(outer.push(other)[outer.len() as int] == other);
}

/// In-flight drag-to-connect state. Anchor identity is tracked by id, which
/// survives rebuilds.
#[derive(Clone, Copy, Debug, PartialEq, Eq, Structural)]
pub struct DragInfo {
    pub source_anchor_id: anchor::Id,
    /// The drag started on an output. Lets the target check reject same-kind
    /// pairs and lets drag-end store the edge in the direction output to input.
    pub source_is_output: bool,
    pub target_anchor_id: Option<anchor::Id>,
}

/// The drag that is going on, if one is.
#[derive(Clone, Copy, Debug, PartialEq, Eq, Structural)]
pub struct DragState {
    pub active: Option<DragInfo>,
}

/// The two anchors in the direction in which an edge is stored.
pub open spec fn oriented(info: DragInfo, target: anchor::Id) -> (anchor::Id, anchor::Id) {
    if info.source_is_output {
        (info.source_anchor_id, target)
    } else {
        (target, info.source_anchor_id)
    }
}

impl DragInfo {
    /// The two anchors in the direction in which an edge is stored: output to
    /// input, whichever end the drag began on.
    pub fn edge_to(&self, target: anchor::Id) -> (edge: (anchor::Id, anchor::Id))
        ensures
            edge == oriented(*self, target),
    {
        if self.source_is_output {
            (self.source_anchor_id, target)
        } else {
            (target, self.source_anchor_id)
        }
    }
}

/// The drag after a press on what is under the pointer.
pub open spec fn drag_started(
    active: Option<DragInfo>,
    hovered: Option<EAnchor>,
    evaluating: bool,
) -> Option<DragInfo> {
    match hovered {
        Some(anchor) => if evaluating {
            active
        } else {
            Some(
                DragInfo {
                    source_anchor_id: anchor.id_of(),
                    source_is_output: anchor is Output,
                    target_anchor_id: None,
                },
            )
        },
        None => active,
    }
}

/// The drag after the pointer moved, and whether it snapped to what is under it.
pub open spec fn drag_moved(
    active: Option<DragInfo>,
    hovered: Option<EAnchor>,
    connected: bool,
    permitted: bool,
    evaluating: bool,
) -> (Option<DragInfo>, bool) {
    let snapped = !evaluating && active is Some && hovered is Some && snaps(
        active->0,
        hovered->0,
        connected,
        permitted,
    );
    (
        match active {
            Some(info) => if evaluating {
                Some(info)
            } else {
                Some(
                    DragInfo {
                        target_anchor_id: if snapped {
                            Some(hovered->0.id_of())
                        } else {
                            None
                        },
                        ..info
                    },
                )
            },
            None => None,
        },
        snapped,
    )
}

/// The edge a drag asks for when it ends.
pub open spec fn drag_ended(active: Option<DragInfo>) -> Option<(anchor::Id, anchor::Id)> {
    match active {
        Some(info) => match info.target_anchor_id {
            Some(target) => Some(oriented(info, target)),
            None => None,
        },
        None => None,
    }
}

impl DragState {
    /// A press on an anchor starts a drag there, unless an evaluation runs.
    pub fn start(&mut self, hovered: Option<EAnchor>, evaluating: bool)
        ensures
            final(self).active == drag_started(old(self).active, hovered, evaluating),
    {
        if evaluating {
            return;
        }
        if let Some(anchor) = hovered {
            let source_is_output = match anchor {
                EAnchor::Output { .. } => true,
                EAnchor::Input { .. } => false,
            };
            self.active = Some(
                DragInfo {
                    source_anchor_id: anchor.id(),
                    source_is_output,
                    target_anchor_id: None,
                },
            );
        }
    }

    /// The pointer moved: the drag snaps to the anchor under it where that makes
    /// an edge, and to nothing where it does not. `connected` says that the two
    /// are joined already, and `permitted` that an edge may join them. Says
    /// whether it snapped.
    pub fn update(
        &mut self,
        hovered: Option<EAnchor>,
        connected: bool,
        permitted: bool,
        evaluating: bool,
    ) -> (snapped: bool)
        ensures
            (final(self).active, snapped) == drag_moved(
                old(self).active,
                hovered,
                connected,
                permitted,
                evaluating,
            ),
    {
        if evaluating {
            return false;
        }
        let mut info = match self.active {
            Some(info) => info,
            None => return false,
        };
        info.target_anchor_id = None;
        let mut snapped = false;
        if let Some(anchor) = hovered {
            let target = anchor.id();
            let is_output = match anchor {
                EAnchor::Output { .. } => true,
                EAnchor::Input { .. } => false,
            };
            if target != info.source_anchor_id && is_output != info.source_is_output && !connected
                && permitted {
                info.target_anchor_id = Some(target);
                snapped = true;
            }
        }
        self.active = Some(info);
        snapped
    }

    /// The button was let go: the drag ends, and the edge it asks for, if any,
    /// is handed out in the direction it is stored in.
    pub fn end(&mut self) -> (edge: Option<(anchor::Id, anchor::Id)>)
        ensures
            final(self).active is None,
            edge == drag_ended(old(self).active),
    {
        let info = self.active;
        self.active = None;
        match info {
            Some(info) => match info.target_anchor_id {
                Some(target) => Some(info.edge_to(target)),
                None => None,
            },
            None => None,
        }
    }
}

/// A drag snaps to an anchor: it is not the one it began on, it is of the other
/// kind, and an edge may and does not yet join the two.
pub open spec fn snaps(info: DragInfo, anchor: EAnchor, connected: bool, permitted: bool) -> bool {
    &&& anchor.id_of() != info.source_anchor_id
    &&& (anchor is Output) != info.source_is_output
    &&& !connected
    &&& permitted
}

/// An edge is worth recording: it is no loop, it is not there yet, and it may be.
pub open spec fn worth_recording(
    graph: TermGraphView,
    from: anchor::Id,
    to: anchor::Id,
    permitted: bool,
) -> bool {
    from != to && !joined(graph, from, to) && !joined(graph, to, from) && permitted
}

/// Record the edge a drag ended in. Checked once more before it is: between snap
/// and drop everything may have changed. Says whether the graph changed.
pub fn drop_edge(
    graph: &mut TermGraph,
    from: anchor::Id,
    to: anchor::Id,
    permitted: bool,
) -> (changed: bool)
    ensures
        changed == worth_recording(old(graph)@, from, to, permitted),
        final(graph)@ == if changed {
            old(graph)@.plus_edge(from, to)
        } else {
            old(graph)@
        },
{
    if from != to && !anchors_already_connected(graph, &from, &to) && permitted {
        let updated = graph.plus_edge(from, to);
        *graph = updated;
        true
    } else {
        false
    }
}

/// Whichever end a drag begins on, the edge it ends in runs from the output to
/// the input.
pub proof fn law_edges_run_from_output_to_input(output: anchor::Id, input: anchor::Id)
    ensures
        oriented(
            DragInfo {
                source_anchor_id: output,
                source_is_output: true,
                target_anchor_id: Some(input),
            },
            input,
        ) == (output, input),
        oriented(
            DragInfo {
                source_anchor_id: input,
                source_is_output: false,
                target_anchor_id: Some(output),
            },
            output,
        ) == (output, input),
{
}

/// A recorded edge is there, and dropping it a second time changes nothing.
pub proof fn law_dropping_twice_changes_nothing(
    graph: TermGraphView,
    from: anchor::Id,
    to: anchor::Id,
)
    ensures
        joined(graph.plus_edge(from, to), from, to),
        !worth_recording(graph.plus_edge(from, to), from, to, true),
{
}

/// A drag snaps to an anchor of the other kind, that is not the one it began on,
/// where an edge may join the two and none does; and to nothing else.
pub proof fn law_what_a_drag_snaps_to(
    info: DragInfo,
    anchor: EAnchor,
    connected: bool,
    permitted: bool,
)
    ensures
        snaps(info, anchor, connected, permitted) ==> anchor.id_of() != info.source_anchor_id
            && permitted && !connected,
        snaps(info, anchor, connected, permitted) && info.source_is_output ==> anchor is Input,
        snaps(info, anchor, connected, permitted) && !info.source_is_output ==> anchor is Output,
        permitted && !connected && anchor is Input && info.source_is_output && anchor.id_of()
            != info.source_anchor_id ==> snaps(info, anchor, connected, permitted),
        permitted && !connected && anchor is Output && !info.source_is_output && anchor.id_of()
            != info.source_anchor_id ==> snaps(info, anchor, connected, permitted),
        anchor matches EAnchor::Input { id } ==> anchor.id_of() == id,
        anchor matches EAnchor::Output { id } ==> anchor.id_of() == id,
{
}

/// What is dropped is recorded exactly if it is no loop, may be, and is not there
/// yet in either direction; and then it is there, in the direction it was dropped
/// in, and every edge that ends elsewhere is as it was.
pub proof fn law_what_is_recorded(
    graph: TermGraphView,
    from: anchor::Id,
    to: anchor::Id,
    permitted: bool,
    elsewhere: anchor::Id,
)
    ensures
        worth_recording(graph, from, to, permitted) <==> from != to && permitted && !(
        graph.incoming_edge.contains_key(to) && graph.incoming_edge[to] == from) && !(
        graph.incoming_edge.contains_key(from) && graph.incoming_edge[from] == to),
        graph.plus_edge(from, to).incoming_edge.contains_key(to),
        graph.plus_edge(from, to).incoming_edge[to] == from,
        elsewhere != to ==> (graph.plus_edge(from, to).incoming_edge.contains_key(elsewhere)
            <==> graph.incoming_edge.contains_key(elsewhere)),
        elsewhere != to && graph.incoming_edge.contains_key(elsewhere) ==> graph.plus_edge(
            from,
            to,
        ).incoming_edge[elsewhere] == graph.incoming_edge[elsewhere],
        graph.plus_edge(from, to).nodes == graph.nodes,
        graph.plus_edge(from, to).anchors == graph.anchors,
        graph.plus_edge(from, to).anchor_to_node == graph.anchor_to_node,
{
}

/// Two anchors may be joined exactly if they stand in one scope, or the second is
/// the input of a Tunnel in a branch and the first stands in the scope around that
/// branch. Of a Tunnel's anchors only its input is its input.
pub proof fn law_which_scopes_may_be_joined(
    source: Seq<node::Id>,
    target: Seq<node::Id>,
    node: ENode,
    at: anchor::Id,
)
    ensures
        may_connect(source, target, false) <==> source == target,
        may_connect(source, target, true) <==> target.len() > 0 && source == target.drop_last(),
        tunnel_input(node, at) <==> node is Tunnel && node->Tunnel_input_anchor == at,
{
    if may_connect(source, target, true) {
        assert(target.drop_last() =~= target.take(source.len() as int));
    }
    if target.len() > 0 && source == target.drop_last() {
        assert(target.take(source.len() as int) =~= source);
    }
}

/// A drag from one anchor to another that it snaps to asks for the edge between the
/// two, from the output to the input, whichever of them it began on; a drag that is
/// let go where it does not snap asks for none.
pub proof fn law_a_drag_joins_its_two_ends(
    before: Option<DragInfo>,
    output: anchor::Id,
    input: anchor::Id,
    connected: bool,
    permitted: bool,
)
    requires
        output != input,
    ensures
        ({
            let from_output = drag_started(before, Some(EAnchor::Output { id: output }), false);
            let from_input = drag_started(before, Some(EAnchor::Input { id: input }), false);
            let onto_input = drag_moved(
                from_output,
                Some(EAnchor::Input { id: input }),
                connected,
                permitted,
                false,
            );
            let onto_output = drag_moved(
                from_input,
                Some(EAnchor::Output { id: output }),
                connected,
                permitted,
                false,
            );
            let astray = drag_moved(onto_input.0, None, connected, permitted, false);
            &&& onto_input.1 == (permitted && !connected)
            &&& onto_output.1 == (permitted && !connected)
            &&& onto_input.1 ==> drag_ended(onto_input.0) == Some((output, input))
            &&& onto_output.1 ==> drag_ended(onto_output.0) == Some((output, input))
            &&& !onto_input.1 ==> drag_ended(onto_input.0) is None
            &&& !onto_output.1 ==> drag_ended(onto_output.0) is None
            &&& drag_ended(from_output) is None
            &&& !astray.1 && drag_ended(astray.0) is None
        }),
        drag_ended(None) is None,
{
}

/// While an evaluation runs no drag starts and none moves; a press on nothing starts
/// none; and moving the pointer never changes where a drag began.
pub proof fn law_what_leaves_a_drag_alone(
    active: Option<DragInfo>,
    hovered: Option<EAnchor>,
    connected: bool,
    permitted: bool,
    evaluating: bool,
)
    ensures
        drag_started(active, hovered, true) == active,
        drag_started(active, None, evaluating) == active,
        drag_moved(active, hovered, connected, permitted, true) == (active, false),
        drag_moved(None, hovered, connected, permitted, evaluating) == (None::<DragInfo>, false),
        active matches Some(info) ==> {
            &&& drag_moved(active, hovered, connected, permitted, evaluating).0 matches Some(now)
            &&& now.source_anchor_id == info.source_anchor_id
            &&& now.source_is_output == info.source_is_output
        },
{
}

} // verus!
