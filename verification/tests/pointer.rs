use expression_visualizer::cell::Cell;
use expression_visualizer::common::IdDomain;
use expression_visualizer::editor::EditorMode;
use expression_visualizer::keys::Key;
use expression_visualizer::marks::{
    floor_marks, highlight, toggle_look, CaretWatch, FloorMarks, Highlight, ToggleLook,
};
use expression_visualizer::model::anchor;
use expression_visualizer::model::etype::EType;
use expression_visualizer::model::node;
use expression_visualizer::model::node::ENode;
use expression_visualizer::model::term_graph::TermGraph;
use expression_visualizer::picking::{cell_of_node, floor_cell, PickState, Pointer};
use expression_visualizer::removal::{live_anchors, minus_dangling_edges, remove_node};
use expression_visualizer::text_field::TextInput;
use expression_visualizer::wiring::{
    anchors_already_connected, connection_allowed, drop_edge, is_tunnel_input, DragState, EAnchor,
};

fn constant(output: usize) -> ENode {
    ENode::Constant { etype: EType::Int { value: None }, output_anchor: anchor::Id(output) }
}

fn program() -> TermGraph {
    let (graph, _, _) = TermGraph::new(IdDomain::new(), IdDomain::new());
    graph.plus_node(node::Id(1), constant(1))
}

fn still() -> Pointer {
    Pointer {
        over_ui: false,
        node: None,
        floor: Some(Cell::new(1, 0, 2)),
        pressed: false,
        released: false,
        close_to_press: false,
    }
}

#[test]
fn a_connection_stands_in_either_direction() {
    let wired = program().plus_edge(anchor::Id(1), anchor::Id(0));
    assert!(anchors_already_connected(&wired, &anchor::Id(1), &anchor::Id(0)));
    assert!(anchors_already_connected(&wired, &anchor::Id(0), &anchor::Id(1)));
    assert!(!anchors_already_connected(&wired, &anchor::Id(0), &anchor::Id(2)));
}

#[test]
fn a_value_enters_a_branch_through_a_tunnel() {
    let outer: Vec<node::Id> = vec![];
    let branch = vec![node::Id(4)];
    let deeper = vec![node::Id(4), node::Id(8)];
    assert!(connection_allowed(Some(&outer), Some(&outer), false));
    assert!(connection_allowed(Some(&branch), Some(&branch), false));
    assert!(connection_allowed(Some(&outer), Some(&branch), true));
    assert!(connection_allowed(Some(&branch), Some(&deeper), true));
    assert!(!connection_allowed(Some(&outer), Some(&branch), false));
    assert!(!connection_allowed(Some(&branch), Some(&outer), false));
    assert!(!connection_allowed(Some(&branch), Some(&branch), true));
    assert!(!connection_allowed(Some(&outer), Some(&deeper), true));
    assert!(!connection_allowed(Some(&vec![node::Id(5)]), Some(&deeper), true));
    assert!(!connection_allowed(None, Some(&outer), false));
    assert!(!connection_allowed(Some(&outer), None, false));
    let tunnel = ENode::Tunnel {
        etype: None,
        input_anchor: anchor::Id(1),
        output_anchor: anchor::Id(2),
    };
    assert!(is_tunnel_input(Some(&tunnel), &anchor::Id(1)));
    assert!(!is_tunnel_input(Some(&tunnel), &anchor::Id(2)));
    assert!(!is_tunnel_input(None, &anchor::Id(1)));
}

#[test]
fn a_drag_ends_from_output_to_input() {
    let input = EAnchor::Input { id: anchor::Id(0) };
    let output = EAnchor::Output { id: anchor::Id(1) };
    let mut drag = DragState { active: None };
    drag.start(Some(input), true);
    assert!(drag.active.is_none());
    drag.start(Some(input), false);
    assert!(!drag.update(Some(input), false, true, false));
    assert!(!drag.update(Some(EAnchor::Input { id: anchor::Id(7) }), false, true, false));
    assert!(!drag.update(Some(output), true, true, false));
    assert!(!drag.update(Some(output), false, false, false));
    assert!(drag.update(Some(output), false, true, false));
    assert_eq!(drag.end(), Some((anchor::Id(1), anchor::Id(0))));
    assert!(drag.active.is_none());
    assert_eq!(drag.end(), None);
    drag.start(Some(output), false);
    assert!(drag.update(Some(input), false, true, false));
    assert_eq!(drag.end(), Some((anchor::Id(1), anchor::Id(0))));
    drag.start(Some(output), false);
    assert_eq!(drag.end(), None);
}

#[test]
fn dropping_an_edge_twice_changes_nothing() {
    let mut graph = program();
    assert!(!drop_edge(&mut graph, anchor::Id(1), anchor::Id(0), false));
    assert!(!drop_edge(&mut graph, anchor::Id(1), anchor::Id(1), true));
    assert!(drop_edge(&mut graph, anchor::Id(1), anchor::Id(0), true));
    assert!(!drop_edge(&mut graph, anchor::Id(1), anchor::Id(0), true));
    assert_eq!(graph.incoming_edge.len(), 1);
}

#[test]
fn a_click_selects_what_is_under_it() {
    let mut pick = PickState::new();
    assert_eq!(pick.pointer(&Pointer { pressed: true, ..still() }), None);
    assert_eq!(pick.hovered_grid, Some(Cell::new(1, 0, 2)));
    let up = Pointer { released: true, close_to_press: true, ..still() };
    assert_eq!(pick.pointer(&up), Some(Cell::new(1, 0, 2)));
    assert_eq!(pick.pointer(&up), None);
    pick.pointer(&Pointer { pressed: true, ..still() });
    assert_eq!(pick.pointer(&Pointer { close_to_press: false, ..up }), None);
    let on_node = Pointer { node: Some((node::Id(3), Some(Cell::new(9, 0, 9)))), ..still() };
    pick.pointer(&Pointer { pressed: true, ..on_node });
    assert_eq!(pick.hovered_node, Some(node::Id(3)));
    assert_eq!(pick.hovered_grid, None);
    let on_node_up = Pointer { released: true, close_to_press: true, ..on_node };
    assert_eq!(pick.pointer(&on_node_up), Some(Cell::new(9, 0, 9)));
}

#[test]
fn nothing_is_picked_through_the_chrome() {
    let mut pick = PickState::new();
    let over = Pointer { over_ui: true, ..still() };
    pick.pointer(&Pointer { pressed: true, ..over });
    assert_eq!(pick.hovered_grid, None);
    let up = Pointer { released: true, close_to_press: true, ..still() };
    assert_eq!(pick.pointer(&up), None);
    pick.pointer(&Pointer { pressed: true, ..still() });
    pick.forget();
    assert_eq!(pick, PickState::new());
    assert_eq!(pick.pointer(&up), None);
    pick.pointer(&still());
    pick.pointer_left();
    assert_eq!(pick.hovered_grid, None);
}

#[test]
fn a_floor_has_its_last_row() {
    let min = Cell::new(0, 0, 0);
    let max = Cell::new(2, 3, 4);
    assert_eq!(floor_cell(min, max, 2, 0), Some(Cell::new(2, 3, 0)));
    assert_eq!(floor_cell(min, max, 3, 0), None);
    assert_eq!(floor_cell(min, max, 0, -1), None);
    assert_eq!(
        cell_of_node(Some(Cell::new(1, 1, 1)), Cell::new(0, 2, 4)),
        Some(Cell::new(1, 3, 5))
    );
    assert_eq!(cell_of_node(None, Cell::new(0, 2, 4)), None);
}

#[test]
fn a_field_is_typed_into_while_it_has_the_keys() {
    let mut field = TextInput::new(true);
    let keys = vec![
        Key::Character("ab".to_string()),
        Key::Space,
        Key::Character("c".to_string()),
        Key::Home,
        Key::ArrowRight,
        Key::Delete,
        Key::Enter,
    ];
    field.type_keys(&keys);
    assert_eq!(field.edit.text, "a c");
    assert_eq!(field.shown(), "a| c");
    field.refocus(true, false, false, true, false, false);
    assert!(!field.focused);
    assert_eq!(field.shown(), "a c");
    field.type_keys(&keys);
    assert_eq!(field.edit.text, "a c");
}

#[test]
fn a_field_is_given_the_keys_by_a_press() {
    let mut field = TextInput::new(false);
    field.refocus(false, false, true, true, false, false);
    assert!(field.focused);
    field.refocus(false, true, true, false, false, false);
    assert!(!field.focused);
    field.refocus(true, true, true, false, false, true);
    assert!(field.focused);
    field.refocus(true, true, false, false, true, false);
    assert!(!field.focused);
    field.refocus(false, false, true, false, false, true);
    assert!(!field.focused);
}

#[test]
fn marks_follow_pointer_and_caret() {
    let id = node::Id(1);
    let other = node::Id(2);
    assert_eq!(highlight(id, Some(id), Some(id)), Highlight::Hovered);
    assert_eq!(highlight(id, Some(other), Some(id)), Highlight::Selected);
    assert_eq!(highlight(id, None, Some(other)), Highlight::Plain);
    let scope = vec![id];
    assert_eq!(
        floor_marks(false, true, &scope, Some(&scope)),
        FloorMarks { hover: true, border: true }
    );
    assert_eq!(
        floor_marks(true, true, &scope, Some(&scope)),
        FloorMarks { hover: false, border: false }
    );
    assert_eq!(
        floor_marks(false, false, &scope, Some(&vec![])),
        FloorMarks { hover: false, border: false }
    );
    assert_eq!(toggle_look(EditorMode::Insert, EditorMode::Insert, true), ToggleLook::Insert);
    assert_eq!(toggle_look(EditorMode::Normal, EditorMode::Insert, true), ToggleLook::Hot);
    assert_eq!(toggle_look(EditorMode::Normal, EditorMode::Insert, false), ToggleLook::Rest);
    let mut watch = CaretWatch::new();
    assert!(!watch.observe(Cell::new(0, 0, 0)));
    assert!(watch.observe(Cell::new(0, 0, 1)));
    assert!(!watch.observe(Cell::new(0, 0, 1)));
}

#[test]
fn a_removed_node_leaves_no_edge_behind() {
    let (branch, _, _) = TermGraph::new(IdDomain::new(), IdDomain::new());
    let inner = branch.plus_node(node::Id(5), constant(5)).minus_node(&node::Id(0));
    let mut root = program()
        .plus_edge(anchor::Id(1), anchor::Id(0))
        .plus_edge(anchor::Id(5), anchor::Id(9));
    let mut branches = vec![inner];
    assert_eq!(live_anchors(&root, &branches).len(), 3);
    assert_eq!(minus_dangling_edges(&root, &branches).incoming_edge.len(), 1);
    root = root.plus_edge(anchor::Id(5), anchor::Id(0));
    assert!(!remove_node(&mut root, &mut branches, &node::Id(77)));
    assert_eq!(root.incoming_edge.len(), 2);
    assert!(remove_node(&mut root, &mut branches, &node::Id(5)));
    assert!(root.incoming_edge.is_empty());
    assert!(branches[0].nodes.is_empty());
    assert!(remove_node(&mut root, &mut branches, &node::Id(1)));
    assert_eq!(root.nodes.len(), 1);
}

fn nodes_from(first: usize) -> IdDomain<node::Id> {
    let mut domain = IdDomain::new();
    for _ in 0..first {
        domain = domain.next_id().0;
    }
    domain
}

fn anchors_from(first: usize) -> IdDomain<anchor::Id> {
    let mut domain = IdDomain::new();
    for _ in 0..first {
        domain = domain.next_id().0;
    }
    domain
}

fn a_match(arms: &[usize], input: usize) -> ENode {
    ENode::Match {
        patterns: arms.iter().map(|arm| node::Id(*arm)).collect(),
        input_anchor: anchor::Id(input),
        output_anchor: anchor::Id(input + 1),
    }
}

fn an_arm(parent: usize, sink: usize) -> ENode {
    ENode::Pattern { parent_match: node::Id(parent), etype: None, sink_node_id: node::Id(sink) }
}

/// The branch of `pattern`: its Sink is the node `first`, with the anchor `first`.
fn a_branch(first: usize, pattern: usize) -> TermGraph {
    TermGraph::new_pattern_sub_graph(nodes_from(first), anchors_from(first), node::Id(pattern)).2
}

fn node_keys(graph: &TermGraph) -> Vec<usize> {
    let mut keys: Vec<usize> = graph.nodes.keys().copied().collect();
    keys.sort();
    keys
}

fn anchor_keys(graph: &TermGraph) -> Vec<usize> {
    let mut keys: Vec<usize> = graph.anchors.keys().copied().collect();
    keys.sort();
    keys
}

#[test]
fn the_last_arm_takes_its_match() {
    let before = program().plus_edge(anchor::Id(1), anchor::Id(0));
    let grown = || {
        before
            .plus_node(node::Id(20), a_match(&[21], 20))
            .plus_node(node::Id(21), an_arm(20, 30))
    };
    let mut root = grown();
    let mut branches = vec![a_branch(30, 21)];
    assert!(remove_node(&mut root, &mut branches, &node::Id(21)));
    assert_eq!(node_keys(&root), node_keys(&before));
    assert_eq!(anchor_keys(&root), anchor_keys(&before));
    assert_eq!(root.anchor_to_node, before.anchor_to_node);
    assert_eq!(root.incoming_edge, before.incoming_edge);
    assert!(branches.is_empty());

    let mut named = grown().plus_edge(anchor::Id(1), anchor::Id(20));
    let mut arms = vec![a_branch(30, 21)];
    assert!(remove_node(&mut named, &mut arms, &node::Id(20)));
    assert_eq!(node_keys(&named), node_keys(&before));
    assert_eq!(named.incoming_edge, before.incoming_edge);
    assert!(arms.is_empty());
}

#[test]
fn a_match_in_a_branch_goes_with_its_last_arm() {
    let mut root = program()
        .plus_node(node::Id(20), a_match(&[21], 20))
        .plus_node(node::Id(21), an_arm(20, 30));
    let outer = a_branch(30, 21)
        .plus_node(node::Id(40), a_match(&[41], 40))
        .plus_node(node::Id(41), an_arm(40, 50));
    let mut branches = vec![a_branch(50, 41), outer];
    root = root.plus_edge(anchor::Id(31), anchor::Id(40));
    assert!(remove_node(&mut root, &mut branches, &node::Id(41)));
    assert_eq!(branches.len(), 1);
    assert_eq!(node_keys(&branches[0]), vec![30, 31]);
    assert_eq!(node_keys(&root), vec![0, 1, 20, 21]);
    assert!(root.incoming_edge.is_empty());
}

#[test]
fn an_arm_leaves_the_list_of_its_match() {
    let mut root = program()
        .plus_node(node::Id(20), a_match(&[21, 22, 23], 20))
        .plus_node(node::Id(21), an_arm(20, 30))
        .plus_node(node::Id(22), an_arm(20, 40))
        .plus_node(node::Id(23), an_arm(20, 50));
    let mut branches = vec![a_branch(30, 21), a_branch(40, 22), a_branch(50, 23)];
    assert!(remove_node(&mut root, &mut branches, &node::Id(22)));
    assert_eq!(node_keys(&root), vec![0, 1, 20, 21, 23]);
    assert_eq!(anchor_keys(&root), vec![0, 1, 20, 21]);
    assert!(matches!(
        root.nodes.get(&20),
        Some(ENode::Match { patterns, .. }) if *patterns == vec![node::Id(21), node::Id(23)]
    ));
    let ends: Vec<node::Id> = branches.iter().map(|branch| branch.sink_node_id).collect();
    assert_eq!(ends, vec![node::Id(30), node::Id(50)]);
}

#[test]
fn a_match_takes_its_arms_and_what_is_nested_in_them() {
    let mut root = program()
        .plus_node(node::Id(20), a_match(&[21, 22], 20))
        .plus_node(node::Id(21), an_arm(20, 30))
        .plus_node(node::Id(22), an_arm(20, 60))
        .plus_node(node::Id(70), a_match(&[71], 70))
        .plus_node(node::Id(71), an_arm(70, 80))
        .plus_edge(anchor::Id(51), anchor::Id(50))
        .plus_edge(anchor::Id(1), anchor::Id(70));
    let outer = a_branch(30, 21)
        .plus_node(node::Id(40), a_match(&[41], 40))
        .plus_node(node::Id(41), an_arm(40, 50));
    let mut branches = vec![a_branch(50, 41), a_branch(80, 71), outer, a_branch(60, 22)];
    assert!(remove_node(&mut root, &mut branches, &node::Id(20)));
    assert_eq!(node_keys(&root), vec![0, 1, 70, 71]);
    assert_eq!(branches.len(), 1);
    assert_eq!(branches[0].sink_node_id, node::Id(80));
    assert_eq!(root.incoming_edge.len(), 1);
    assert_eq!(root.incoming_edge.get(&70), Some(&anchor::Id(1)));
}

#[test]
fn a_cell_is_kept_inside_its_volume() {
    let min = Cell::new(-1, 0, 0);
    let max = Cell::new(3, 2, 5);
    assert_eq!(Cell::new(1, 1, 1).kept_inside(min, max), Cell::new(1, 1, 1));
    assert_eq!(Cell::new(-4, 7, 5).kept_inside(min, max), Cell::new(-1, 2, 5));
    assert_eq!(Cell::new(9, -1, 6).kept_inside(min, max), Cell::new(3, 0, 5));
}
