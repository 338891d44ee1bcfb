use expression_visualizer::common::IdDomain;
use expression_visualizer::infer;
use expression_visualizer::model::anchor;
use expression_visualizer::model::anchor::EAnchor;
use expression_visualizer::model::ast::Ast;
use expression_visualizer::model::etype::EType;
use expression_visualizer::model::function_declaration::catalogue;
use expression_visualizer::model::node;
use expression_visualizer::model::node::{ENode, NodeKind};
use expression_visualizer::model::term_graph::TermGraph;
use std::collections::HashSet;

fn empty_program() -> TermGraph {
    let (graph, _, _) = TermGraph::new(IdDomain::new(), IdDomain::new());
    graph
}

fn integer(value: &str) -> EType {
    EType::Int { value: Some(value.to_string()) }
}

fn constant(value: &str, output: usize) -> ENode {
    ENode::Constant { etype: integer(value), output_anchor: anchor::Id(output) }
}

#[test]
fn ids_are_counted_up() {
    let domain: IdDomain<node::Id> = IdDomain::new();
    let (domain, first) = domain.next_id();
    let (_, second) = domain.next_id();
    assert_eq!(first, node::Id(0));
    assert_eq!(second, node::Id(1));
    assert_eq!(second.spelled(), "Id(1)");
}

#[test]
fn a_new_program_is_its_sink() {
    let (graph, nodes, anchors) = TermGraph::new(IdDomain::new(), IdDomain::new());
    assert_eq!(graph.nodes.len(), 1);
    assert_eq!(graph.sink_node_id, node::Id(0));
    assert!(matches!(
        graph.nodes.get(&0),
        Some(ENode::Sink { input_anchor }) if *input_anchor == anchor::Id(0)
    ));
    assert_eq!(graph.anchor_to_node.get(&0), Some(&node::Id(0)));
    assert!(graph.incoming_edge.is_empty());
    let (_, next_node) = nodes.next_id();
    let (_, next_anchor) = anchors.next_id();
    assert_eq!(next_node, node::Id(1));
    assert_eq!(next_anchor, anchor::Id(1));
}

#[test]
fn a_new_branch_has_a_sink_and_an_entry() {
    let (_, _, branch, sink, entry) =
        TermGraph::new_pattern_sub_graph(IdDomain::new(), IdDomain::new(), node::Id(9));
    assert_eq!(branch.nodes.len(), 2);
    assert_eq!(branch.sink_node_id, sink);
    assert_ne!(sink, entry);
    assert!(matches!(
        branch.nodes.get(&entry.0),
        Some(ENode::BranchSource { pattern, .. }) if *pattern == node::Id(9)
    ));
}

#[test]
fn an_edge_feeds_its_input() {
    let graph = empty_program()
        .plus_node(node::Id(1), constant("42", 1))
        .plus_edge(anchor::Id(1), anchor::Id(0));
    assert_eq!(graph.source_node_for_input(&anchor::Id(0)), Some(node::Id(1)));
    assert_eq!(
        graph.source_nodes_by_input(&node::Id(0)),
        vec![(anchor::Id(0), node::Id(1))]
    );
    assert_eq!(graph.source_nodes_by_input(&node::Id(7)), vec![]);
}

#[test]
fn an_input_has_one_edge() {
    let graph = empty_program()
        .plus_node(node::Id(1), constant("1", 1))
        .plus_node(node::Id(2), constant("2", 2))
        .plus_edge(anchor::Id(1), anchor::Id(0))
        .plus_edge(anchor::Id(2), anchor::Id(0));
    assert_eq!(graph.incoming_edge.len(), 1);
    assert_eq!(graph.source_node_for_input(&anchor::Id(0)), Some(node::Id(2)));
}

#[test]
fn removing_a_node_takes_its_edges() {
    let wired = empty_program()
        .plus_node(node::Id(1), constant("1", 1))
        .plus_edge(anchor::Id(1), anchor::Id(0));
    let less = wired.minus_node(&node::Id(1));
    assert_eq!(less.nodes.len(), 1);
    assert!(!less.anchors.contains_key(&1));
    assert!(!less.anchor_to_node.contains_key(&1));
    assert!(less.incoming_edge.is_empty());
    assert_eq!(less.source_node_for_input(&anchor::Id(0)), None);
}

#[test]
fn removing_an_added_node_gives_the_graph_back() {
    let before = empty_program();
    let after = before.plus_node(node::Id(1), constant("1", 1)).minus_node(&node::Id(1));
    assert_eq!(after.nodes.len(), before.nodes.len());
    assert_eq!(after.anchors.len(), before.anchors.len());
    assert_eq!(after.anchor_to_node, before.anchor_to_node);
    assert_eq!(after.incoming_edge, before.incoming_edge);
}

#[test]
fn sweeping_keeps_live_edges_alone() {
    let wired = empty_program()
        .plus_node(node::Id(1), constant("1", 1))
        .plus_edge(anchor::Id(1), anchor::Id(0))
        .plus_edge(anchor::Id(5), anchor::Id(6));
    let live: HashSet<usize> = HashSet::from([0, 1]);
    let swept = wired.retaining_edges(&live);
    assert_eq!(swept.incoming_edge.len(), 1);
    assert_eq!(swept.incoming_edge.get(&0), Some(&anchor::Id(1)));
    let nothing: HashSet<usize> = HashSet::new();
    assert!(wired.retaining_edges(&nothing).incoming_edge.is_empty());
}

#[test]
fn replacing_a_node_keeps_its_anchors() {
    let graph = empty_program().plus_node(node::Id(1), constant("1", 1));
    let changed = graph.with_node_replaced(&node::Id(1), constant("2", 1));
    assert!(matches!(
        changed.nodes.get(&1),
        Some(ENode::Constant { etype, .. }) if etype.spelled() == "2"
    ));
    assert_eq!(changed.anchor_to_node.get(&1), Some(&node::Id(1)));
    let untouched = graph.with_node_replaced(&node::Id(8), constant("3", 8));
    assert_eq!(untouched.nodes.len(), 2);
}

#[test]
fn merging_takes_in_the_other_graph() {
    let (nodes, anchors, branch, sink, _) = {
        let (_, nodes, anchors) = TermGraph::new(IdDomain::new(), IdDomain::new());
        TermGraph::new_pattern_sub_graph(nodes, anchors, node::Id(50))
    };
    let merged = empty_program().merged_with(branch);
    assert_eq!(merged.nodes.len(), 3);
    assert_eq!(merged.sink_node_id, node::Id(0));
    assert!(merged.nodes.contains_key(&sink.0));
    let (_, next_node) = nodes.next_id();
    let (_, next_anchor) = anchors.next_id();
    assert!(!merged.nodes.contains_key(&next_node.0));
    assert!(!merged.anchors.contains_key(&next_anchor.0));
}

#[test]
fn a_call_has_its_inputs_in_order() {
    let call = ENode::FunctionCall {
        function_declaration_id:
            expression_visualizer::model::function_declaration::FunctionDeclarationId(0),
        input_anchors: vec![anchor::Id(4), anchor::Id(7)],
        output_anchor: anchor::Id(9),
    };
    let anchors = call.anchors();
    assert_eq!(anchors.len(), 3);
    assert_eq!(anchors[0].0, anchor::Id(4));
    assert!(matches!(
        &anchors[1].1,
        EAnchor::Input(input) if input.order_num == 1 && input.name.as_deref() == Some("param1")
    ));
    assert!(matches!(anchors[2].1, EAnchor::Output));
    let inputs = call.input_anchors();
    assert_eq!(inputs.len(), 2);
    assert_eq!(inputs[1].0, anchor::Id(7));
    assert_eq!(call.kind(), NodeKind::FunctionCall);
}

#[test]
fn a_pattern_has_no_anchors() {
    let pattern = ENode::Pattern {
        parent_match: node::Id(1),
        etype: None,
        sink_node_id: node::Id(2),
    };
    assert!(pattern.anchors().is_empty());
    assert!(pattern.input_anchors().is_empty());
    let tunnel = ENode::Tunnel {
        etype: None,
        input_anchor: anchor::Id(1),
        output_anchor: anchor::Id(2),
    };
    assert_eq!(tunnel.anchors().len(), 2);
    assert_eq!(tunnel.input_anchors().len(), 1);
}

#[test]
fn types_are_spelled() {
    assert_eq!(EType::Bool { value: None }.spelled(), "Bool");
    assert_eq!(EType::Int { value: None }.spelled(), "Integer");
    assert_eq!(EType::String { value: None }.spelled(), "String");
    assert_eq!(EType::Char { value: None }.spelled(), "Char");
    assert_eq!(EType::NoneType { message: None }.spelled(), "None");
    assert_eq!(integer("-3").spelled(), "-3");
    assert_eq!(EType::String { value: Some("hi".to_string()) }.spelled(), "\"hi\"");
    assert_eq!(EType::Char { value: Some("c".to_string()) }.spelled(), "'c'");
    assert_eq!(EType::NoneType { message: Some("why".to_string()) }.spelled(), "why");
}

#[test]
fn the_catalogue_is_complete() {
    let functions = catalogue();
    let names = [
        "+", "-", "*", "/", "mod", "neg", "=", "!=", "<", ">", "<=", ">=", "&&", "||", "!", "len",
        "charAt", "concat", "substr", "min", "max", "abs",
    ];
    assert_eq!(functions.len(), names.len());
    for (row, name) in names.iter().enumerate() {
        assert_eq!(functions[&row].name, *name);
    }
    assert_eq!(functions[&0].inputs[0].name, "summand1");
    assert_eq!(infer::spelled(&functions[&0].output_type), "Integer");
    assert_eq!(infer::spelled(&functions[&3].output_type), "Integer|None");
    assert!(functions[&6].inputs[0].etype.is_none());
    assert_eq!(infer::spelled(functions[&17].inputs[1].etype.as_ref().unwrap()), "Char|String");
    assert_eq!(functions[&18].inputs.len(), 3);
}

#[test]
fn a_tree_walks_its_edges_both_ways() {
    let (tree, _, _) = Ast::new(IdDomain::new(), IdDomain::new());
    let tree = tree
        .plus_node(node::Id(1), constant("1", 1))
        .plus_edge(anchor::Id(1), anchor::Id(0));
    assert_eq!(tree.get_connected_nodes_to_anchor(anchor::Id(0)), vec![node::Id(1)]);
    assert_eq!(
        tree.get_connected_nodes_to_node_input_anchors(&node::Id(0)),
        vec![(anchor::Id(0), node::Id(1))]
    );
    let less = tree.minus_node(&node::Id(1));
    assert!(!less.edges.contains_key(&1));
    assert_eq!(less.get_connected_nodes_to_anchor(anchor::Id(0)), vec![]);
    assert_eq!(less.nodes.len(), 1);
}

#[test]
fn an_output_of_a_tree_has_many_edges() {
    let (tree, _, _) = Ast::new(IdDomain::new(), IdDomain::new());
    let tree = tree
        .plus_node(node::Id(1), constant("1", 1))
        .plus_edge(anchor::Id(1), anchor::Id(0))
        .plus_edge(anchor::Id(1), anchor::Id(5));
    assert_eq!(tree.edges[&1].len(), 2);
    assert_eq!(tree.edges[&1][0].to, anchor::Id(0));
    assert_eq!(tree.edges[&1][1].to, anchor::Id(5));
}

#[test]
fn a_branch_of_a_tree_has_its_sink() {
    let (_, _, branch, sink) = Ast::new_pattern_sub_ast(IdDomain::new(), IdDomain::new());
    assert_eq!(branch.sink_node_id, sink);
    assert_eq!(branch.nodes.len(), 1);
}

#[test]
fn rows_come_from_sums() {
    let sum = infer::EType::SumType(vec![
        infer::EType::Int(Some("1".to_string())),
        infer::EType::SumType(vec![infer::EType::NoneType, infer::EType::Pending]),
        infer::EType::Bool(None),
    ]);
    let leaves = infer::row_leaves(&sum);
    assert_eq!(leaves.len(), 3);
    assert_eq!(infer::spelled(&leaves[0]), "1");
    assert_eq!(infer::spelled(&leaves[1]), "None");
    assert_eq!(infer::spelled(&leaves[2]), "Bool");
    assert!(infer::row_leaves(&infer::EType::Pending).is_empty());
}

#[test]
fn kinds_match_across_literals() {
    let one = infer::EType::Int(Some("1".to_string()));
    let two = infer::EType::Int(Some("2".to_string()));
    let any = infer::EType::Int(None);
    assert!(infer::types_match(&one, &any));
    assert!(infer::types_match(&one, &two));
    assert!(!infer::types_match(&one, &infer::EType::Bool(None)));
    assert!(!infer::types_match(&infer::EType::Pending, &infer::EType::Pending));
    assert!(infer::subsumes(&any, &one));
    assert!(!infer::subsumes(&one, &any));
    assert!(!infer::subsumes(&one, &two));
    assert!(infer::subsumes(&one, &one));
    assert_eq!(infer::leaf_literal(&one).map(String::as_str), Some("1"));
    assert_eq!(infer::leaf_literal(&any), None);
}
