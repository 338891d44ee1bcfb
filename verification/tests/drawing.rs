use expression_visualizer::cell::Cell;
use expression_visualizer::infer::EType;
use expression_visualizer::model::anchor;
use expression_visualizer::model::etype;
use expression_visualizer::model::function_declaration::{catalogue, FunctionDeclarationId};
use expression_visualizer::model::node;
use expression_visualizer::model::node::ENode;
use expression_visualizer::render::links::{
    arms_reached, branch_end, branch_links, cast_links, declared_cell_links, edge_ribbons,
    whole_row_end, CastLeg, Ribbon, RowSpan,
};
use expression_visualizer::render::node::{
    layoutnode_to_rendernode, AnchorFacts, LabelPlace, NodeFacts, RenderBody, Side,
};
use expression_visualizer::render::shell::{ring_segments, shell_quads, GridPoint, Segment};
use expression_visualizer::render::surfaces::{
    floor_footprints, layer_budget, volume_surfaces, LayerBudget, Shell, SurfaceKind,
};
use expression_visualizer::render::{
    build_anchor_strands, declared_type_cell, drawn_rows, label_for_node, leaf_is_drawn_as_line,
    leaf_value_text, ordered_supported_leaves, strand_color, type_letter, type_order, typed_anchor,
    Lettering, StrandColor, StrandShape, StrandText,
};
use std::collections::{HashMap, HashSet};

fn one() -> EType {
    EType::Int(Some("1".to_string()))
}

fn sum(parts: Vec<EType>) -> EType {
    EType::SumType(parts)
}

fn about() -> NodeFacts {
    NodeFacts {
        name_cells: 3,
        offered: None,
        source_index: None,
        output_z: 7,
        is_program_sink: false,
    }
}

fn typed(t: EType) -> AnchorFacts {
    AnchorFacts { anchor_type: Some(t), ..AnchorFacts::nothing() }
}

fn arriving(t: EType) -> AnchorFacts {
    AnchorFacts { incoming_type: Some(t), ..AnchorFacts::nothing() }
}

#[test]
fn kinds_have_letters_colours_and_an_order() {
    let all = [
        (EType::String(None), "s", 4, StrandColor::Rgb(230, 159, 0)),
        (EType::Int(None), "i", 3, StrandColor::Rgb(0, 114, 178)),
        (EType::Char(None), "c", 2, StrandColor::Rgb(0, 158, 115)),
        (EType::Bool(None), "b", 1, StrandColor::Rgb(204, 121, 167)),
        (EType::NoneType, "n", 0, StrandColor::Rgb(213, 94, 0)),
    ];
    for (t, letter, order, color) in all {
        assert_eq!(type_letter(&t), letter);
        assert_eq!(type_order(&t), Some(order));
        assert_eq!(strand_color(&t), color);
    }
    assert_eq!(type_letter(&EType::Pending), "?");
    assert_eq!(type_order(&EType::Pending), None);
    assert_eq!(strand_color(&EType::Pending), StrandColor::Grey);
}

#[test]
fn rows_are_stacked_with_nothing_at_the_bottom() {
    let t = sum(vec![
        EType::NoneType,
        EType::Int(Some("2".to_string())),
        EType::Char(None),
        one(),
        EType::String(None),
    ]);
    let letters: Vec<&str> = ordered_supported_leaves(&t).iter().map(type_letter).collect();
    assert_eq!(letters, vec!["s", "i", "i", "c", "n"]);
    let values: Vec<Option<String>> = ordered_supported_leaves(&t)
        .iter()
        .map(|leaf| leaf_value_text(leaf, None))
        .collect();
    assert_eq!(values[1].as_deref(), Some("2"));
    assert_eq!(values[2].as_deref(), Some("1"));
}

#[test]
fn a_taken_row_keeps_its_place() {
    let t = sum(vec![EType::Char(None), EType::NoneType]);
    assert_eq!(drawn_rows(&t, None).len(), 2);
    let none = drawn_rows(&t, Some(&EType::NoneType));
    assert_eq!(none.len(), 1);
    assert_eq!(none[0].0, 1);
    let taken = EType::Char(Some("b".to_string()));
    let settled = drawn_rows(&t, Some(&taken));
    assert_eq!(settled.len(), 1);
    assert_eq!(settled[0].0, 0);
    assert_eq!(leaf_value_text(&settled[0].1, None).as_deref(), Some("b"));
    assert_eq!(drawn_rows(&t, Some(&one())).len(), 2);
}

#[test]
fn a_value_is_a_line_and_a_type_is_a_band() {
    let pinned = "42".to_string();
    assert!(!leaf_is_drawn_as_line(&EType::Int(None), None));
    assert!(leaf_is_drawn_as_line(&EType::Int(None), Some(&pinned)));
    assert!(leaf_is_drawn_as_line(&one(), None));
    assert!(leaf_is_drawn_as_line(&EType::NoneType, None));
    assert_eq!(leaf_value_text(&EType::NoneType, Some(&pinned)), None);
    assert_eq!(leaf_value_text(&one(), Some(&pinned)).as_deref(), Some("1"));
    assert_eq!(leaf_value_text(&EType::Int(None), Some(&pinned)).as_deref(), Some("42"));
}

#[test]
fn strands_say_what_their_shape_says() {
    let t = sum(vec![EType::Int(None), EType::NoneType]);
    let pinned = "42".to_string();
    let strands = build_anchor_strands(&t, Some(&pinned), None, Lettering::Spelled);
    assert_eq!(strands.len(), 2);
    assert_eq!(strands[0].shape, StrandShape::Line);
    assert_eq!(strands[0].label, Some(("42".to_string(), StrandText::PastTip)));
    assert_eq!(strands[1].row, 1);
    assert_eq!(strands[1].shape, StrandShape::Line);
    assert_eq!(strands[1].label, Some(("n".to_string(), StrandText::Middle)));
    let band = build_anchor_strands(&EType::Bool(None), None, None, Lettering::Spelled);
    assert_eq!(band[0].shape, StrandShape::Band);
    assert_eq!(band[0].label, Some(("b".to_string(), StrandText::Middle)));
    let silent = build_anchor_strands(&EType::Bool(None), None, None, Lettering::Silent);
    assert_eq!(silent[0].label, None);
}

#[test]
fn an_undecided_anchor_is_a_sheet() {
    let idle = typed_anchor(&EType::Pending, None, None, Lettering::Spelled);
    assert!(idle.plain_body);
    assert!(idle.strands.is_empty());
    let known = typed_anchor(&EType::Bool(None), None, None, Lettering::Spelled);
    assert!(!known.plain_body);
    assert!(declared_type_cell(&None, Lettering::Silent).plain_body);
    let literal = etype::EType::Int { value: Some("3".to_string()) };
    let cell = declared_type_cell(&Some(literal), Lettering::Spelled);
    assert_eq!(cell.strands[0].label, Some(("3".to_string(), StrandText::PastTip)));
}

#[test]
fn nodes_have_names_in_a_list() {
    let functions = catalogue();
    let named = |node: ENode| label_for_node(&node, &functions);
    assert_eq!(named(ENode::Sink { input_anchor: anchor::Id(0) }), "sink");
    assert_eq!(
        named(ENode::FunctionCall {
            function_declaration_id: FunctionDeclarationId(15),
            input_anchors: vec![],
            output_anchor: anchor::Id(0),
        }),
        "len"
    );
    assert_eq!(
        named(ENode::Source {
            name: "n".to_string(),
            etype: Some(etype::EType::Int { value: None }),
            output_anchor: anchor::Id(0),
        }),
        "n: Integer"
    );
    assert_eq!(
        named(ENode::TypeCast {
            etype: None,
            input_anchor: anchor::Id(0),
            output_anchor: anchor::Id(1),
        }),
        "?"
    );
    assert_eq!(named(ENode::Root {}), "root");
}

#[test]
fn a_source_is_drawn_with_its_name() {
    let node = ENode::Source {
        name: "size".to_string(),
        etype: Some(etype::EType::Int { value: Some("5".to_string()) }),
        output_anchor: anchor::Id(2),
    };
    let facts = HashMap::from([(
        2,
        AnchorFacts { anchor_literal: Some("5".to_string()), ..AnchorFacts::nothing() },
    )]);
    let known = NodeFacts { source_index: Some(4), offered: Some(one()), ..about() };
    let drawn = layoutnode_to_rendernode(&node, &catalogue(), &facts, &known);
    assert_eq!(
        drawn.body,
        RenderBody::Bar { cells: 3, color: StrandColor::Rgb(0, 114, 178) }
    );
    assert_eq!(drawn.anchors.len(), 1);
    assert_eq!(drawn.anchors[0].0, anchor::Id(2));
    assert_eq!(drawn.anchors[0].1.cell, Cell::new(0, 0, 3));
    assert_eq!(
        drawn.anchors[0].1.drawn.strands[0].label,
        Some(("5".to_string(), StrandText::PastTip))
    );
    let own = drawn.own.unwrap();
    assert_eq!(own.cell, Cell::new(0, 0, -1));
    assert_eq!(own.side, Side::Input);
    assert_eq!(own.drawn.strands[0].label, Some(("1".to_string(), StrandText::PastTip)));
    assert_eq!(drawn.labels[0].text, "[4]");
    assert_eq!(drawn.labels[0].place, LabelPlace::BesideLetter);
    let face = drawn.text_face.unwrap();
    assert_eq!((face.text.as_str(), face.first_z, face.cells), ("size", 0, 3));
}

#[test]
fn a_call_is_drawn_from_inputs_to_output() {
    let node = ENode::FunctionCall {
        function_declaration_id: FunctionDeclarationId(6),
        input_anchors: vec![anchor::Id(1), anchor::Id(2)],
        output_anchor: anchor::Id(3),
    };
    let facts = HashMap::from([
        (1, AnchorFacts { rows: 2, ..arriving(sum(vec![EType::Bool(None), EType::NoneType])) }),
    ]);
    let drawn = layoutnode_to_rendernode(&node, &catalogue(), &facts, &about());
    assert_eq!(
        drawn.body,
        RenderBody::Frustum { width: 2, cells: 3, input_rows: 2, output_rows: 1 }
    );
    assert_eq!(drawn.anchors.len(), 3);
    assert_eq!(drawn.anchors[0].1.drawn.strands.len(), 2);
    assert!(drawn.anchors[1].1.drawn.plain_body);
    assert_eq!(drawn.anchors[1].1.cell, Cell::new(1, 0, 0));
    assert_eq!(drawn.anchors[2].1.cell, Cell::new(0, 0, 4));
    assert_eq!(drawn.anchors[2].1.side, Side::Output);
    assert_eq!(drawn.labels.len(), 2);
    assert_eq!(drawn.labels[1].text, "right");
    assert_eq!(drawn.text_face.unwrap().text, "=");
}

#[test]
fn a_cast_speaks_where_its_output_does_not() {
    let node = ENode::TypeCast {
        etype: Some(etype::EType::Int { value: None }),
        input_anchor: anchor::Id(1),
        output_anchor: anchor::Id(2),
    };
    let idle = layoutnode_to_rendernode(&node, &catalogue(), &HashMap::new(), &about());
    let target = idle.own.unwrap();
    assert_eq!(target.cell, Cell::new(0, 0, 2));
    assert_eq!(target.drawn.strands[0].label, Some(("i".to_string(), StrandText::Middle)));
    let facts = HashMap::from([(2, typed(EType::Int(None)))]);
    let wired = layoutnode_to_rendernode(&node, &catalogue(), &facts, &about());
    assert_eq!(wired.own.unwrap().drawn.strands[0].label, None);
    assert_eq!(wired.anchors[1].1.cell, Cell::new(0, 0, 3));
}

#[test]
fn the_program_ends_on_its_far_side() {
    let node = ENode::Sink { input_anchor: anchor::Id(1) };
    let facts = HashMap::from([(1, arriving(EType::Int(None)))]);
    let branch = layoutnode_to_rendernode(&node, &catalogue(), &facts, &about());
    assert!(branch.own.is_none());
    assert_eq!(branch.anchors[0].1.drawn.strands[0].label, None);
    let program = NodeFacts { is_program_sink: true, ..about() };
    let ended = layoutnode_to_rendernode(&node, &catalogue(), &facts, &program);
    let exit = ended.own.unwrap();
    assert_eq!(exit.cell, Cell::new(0, 0, 1));
    assert_eq!(exit.side, Side::Output);
    assert_eq!(exit.drawn.strands[0].label, Some(("i".to_string(), StrandText::Middle)));
    let open = layoutnode_to_rendernode(&node, &catalogue(), &HashMap::new(), &program);
    assert!(open.own.unwrap().drawn.plain_body);
}

#[test]
fn the_other_kinds_are_their_anchors() {
    let draw = |node: ENode| layoutnode_to_rendernode(&node, &catalogue(), &HashMap::new(), &about());
    let constant = draw(ENode::Constant {
        etype: etype::EType::NoneType { message: None },
        output_anchor: anchor::Id(1),
    });
    assert_eq!(constant.body, RenderBody::Point { color: StrandColor::Rgb(213, 94, 0) });
    assert_eq!(constant.anchors[0].1.cell, Cell::new(0, 0, 1));
    let tunnel = draw(ENode::Tunnel {
        etype: None,
        input_anchor: anchor::Id(1),
        output_anchor: anchor::Id(2),
    });
    assert_eq!(tunnel.anchors[0].1.cell, Cell::new(0, 0, -1));
    assert_eq!(tunnel.anchors[1].1.cell, Cell::new(0, 0, 0));
    let choice = draw(ENode::Match {
        patterns: vec![],
        input_anchor: anchor::Id(1),
        output_anchor: anchor::Id(2),
    });
    assert_eq!(choice.anchors[1].1.cell, Cell::new(0, 0, 7));
    let arm = draw(ENode::Pattern {
        parent_match: node::Id(1),
        etype: None,
        sink_node_id: node::Id(2),
    });
    assert!(arm.anchors.is_empty());
    assert_eq!(arm.own.unwrap().cell, Cell::new(0, 0, 1));
    let entry = draw(ENode::BranchSource { pattern: node::Id(1), output_anchor: anchor::Id(1) });
    assert_eq!(entry.anchors.len(), 1);
}

#[test]
fn an_edge_runs_along_its_rows() {
    let source = typed(sum(vec![EType::Int(None), EType::NoneType]));
    let target = typed(sum(vec![EType::String(None), EType::Int(None), EType::NoneType]));
    let ribbons = edge_ribbons(&source, &target);
    assert_eq!(ribbons.len(), 2);
    assert_eq!(
        ribbons[0],
        Ribbon::Strand {
            start_color: StrandColor::Rgb(0, 114, 178),
            end_color: StrandColor::Rgb(0, 114, 178),
            start: whole_row_end(0, false),
            end: whole_row_end(1, false),
        }
    );
    assert!(matches!(
        ribbons[1],
        Ribbon::Strand { start, end, .. } if start == whole_row_end(1, true) && end == whole_row_end(2, true)
    ));
    let undecided = edge_ribbons(&AnchorFacts::nothing(), &target);
    assert_eq!(
        undecided,
        vec![Ribbon::Pending { start: whole_row_end(0, false), end: whole_row_end(0, false) }]
    );
    let unmatched = edge_ribbons(&typed(EType::Bool(None)), &target);
    assert!(matches!(unmatched[0], Ribbon::Strand { end, .. } if end.row == 0));
}

#[test]
fn an_arm_claims_its_share() {
    let input = arriving(sum(vec![EType::Bool(None), EType::Int(None)]));
    let declared = Some(etype::EType::Bool { value: Some("true".to_string()) });
    let half = RowSpan { top: 0, bottom: 1 };
    let ribbons = declared_cell_links(&input, &declared, &vec![None, Some(half)]);
    assert_eq!(ribbons.len(), 1);
    assert!(matches!(
        ribbons[0],
        Ribbon::Strand { start, end, .. } if start.row == 1 && start.span == half && end.as_line
    ));
    let untyped = declared_cell_links(&input, &None, &vec![None, None]);
    assert_eq!(untyped.len(), 2);
    assert!(untyped.iter().all(|ribbon| matches!(ribbon, Ribbon::Pending { .. })));
    let nothing = declared_cell_links(&AnchorFacts::nothing(), &declared, &vec![]);
    assert_eq!(nothing.len(), 1);
    assert!(declared_cell_links(&input, &declared, &vec![None, None]).is_empty());
}

#[test]
fn a_branch_reaches_the_output() {
    let whole = RowSpan { top: 0, bottom: 2 };
    let sink = arriving(EType::Int(None));
    let output = typed(sum(vec![EType::Int(None), EType::NoneType]));
    let landed = branch_links(&sink, &output, &vec![vec![Some(whole), None]]);
    assert_eq!(landed.len(), 1);
    let open = branch_links(&sink, &AnchorFacts::nothing(), &vec![vec![]]);
    assert_eq!(open.len(), 1);
    assert!(matches!(open[0], Ribbon::Strand { end, .. } if end.row == 0));
    let idle = branch_links(&AnchorFacts::nothing(), &output, &vec![]);
    assert!(matches!(idle[0], Ribbon::Pending { .. }));
}

#[test]
fn a_cast_divides_what_arrives() {
    let whole = RowSpan { top: 0, bottom: 2 };
    let input = arriving(EType::String(None));
    let declared = Some(etype::EType::Int { value: None });
    let partial = typed(sum(vec![EType::Int(None), EType::NoneType]));
    let splits = vec![(Some(whole), Some(whole))];
    let ribbons = cast_links(&input, &declared, &partial, true, &splits);
    let legs: Vec<CastLeg> = ribbons.iter().map(|ribbon| ribbon.leg).collect();
    assert_eq!(legs, vec![CastLeg::ToTarget, CastLeg::ToNone, CastLeg::ToOutput]);
    assert!(matches!(
        ribbons[1].ribbon,
        Ribbon::Strand { end_color: StrandColor::Rgb(213, 94, 0), end, .. } if end == whole_row_end(1, true)
    ));
    let total = cast_links(&input, &declared, &typed(EType::Int(None)), true, &splits);
    assert_eq!(total.len(), 1);
    let fails = cast_links(&input, &declared, &partial, true, &vec![(None, Some(whole))]);
    assert_eq!(fails.len(), 1);
    assert_eq!(fails[0].leg, CastLeg::ToNone);
    let unplaced = cast_links(&input, &declared, &partial, false, &splits);
    assert_eq!(unplaced.len(), 1);
    let open = cast_links(&input, &None, &AnchorFacts::nothing(), true, &vec![(None, None)]);
    assert!(matches!(open[0].ribbon, Ribbon::Pending { .. }));
}

#[test]
fn links_find_their_ends() {
    let nodes = HashMap::from([
        (
            1,
            ENode::Pattern { parent_match: node::Id(9), etype: None, sink_node_id: node::Id(2) },
        ),
        (2, ENode::Sink { input_anchor: anchor::Id(5) }),
    ]);
    let bands: HashSet<usize> = HashSet::from([1, 2]);
    let patterns = vec![node::Id(2), node::Id(1), node::Id(7)];
    assert_eq!(arms_reached(&nodes, &bands, &patterns), vec![node::Id(1)]);
    let placed: HashSet<usize> = HashSet::from([5]);
    assert_eq!(branch_end(&nodes, &placed, node::Id(1)), Some(anchor::Id(5)));
    assert_eq!(branch_end(&nodes, &HashSet::new(), node::Id(1)), None);
    assert_eq!(branch_end(&nodes, &placed, node::Id(2)), None);
}

#[test]
fn the_ring_goes_round() {
    let ring = ring_segments(2, 1);
    assert_eq!(ring.len(), 6);
    assert_eq!(ring[0], Segment { from: (0, 1), to: (1, 1) });
    for n in 0..ring.len() {
        assert_eq!(ring[n].to, ring[(n + 1) % ring.len()].from);
    }
}

#[test]
fn the_shell_is_watertight() {
    let quads = shell_quads(2, 3, 2);
    assert_eq!(quads.len(), 2 * 6 + 10 * 2);
    let mut edges: HashSet<((usize, usize, usize), (usize, usize, usize))> = HashSet::new();
    let name = |p: GridPoint| (p.u, p.v, p.w);
    for q in &quads {
        for (from, to) in [(q.a, q.b), (q.b, q.c), (q.c, q.d), (q.d, q.a)] {
            assert!(edges.insert((name(from), name(to))));
        }
    }
    for (from, to) in &edges {
        assert!(edges.contains(&(*to, *from)));
    }
}

#[test]
fn four_surfaces_frame_a_volume() {
    let open = volume_surfaces(Cell::new(0, 0, 0), Cell::new(3, 1, 4), Shell::Open, true);
    assert_eq!(open.len(), 4);
    assert_eq!(open[0].kind, SurfaceKind::Floor);
    assert_eq!(open[0].center, (4, 4, 5));
    assert_eq!(open[0].size, (4, 0, 5));
    assert_eq!(open[3].center, (4, 2, 10));
    let sealed = volume_surfaces(Cell::new(0, 0, 0), Cell::new(3, 1, 4), Shell::Sealed, false);
    assert_eq!(sealed.len(), 1);
    assert_eq!(sealed[0].kind, SurfaceKind::Body { opaque: true });
    let veiled = volume_surfaces(Cell::new(0, 0, 0), Cell::new(0, 0, 0), Shell::Veil, true);
    assert_eq!(veiled.len(), 5);
    assert_eq!(veiled[0].kind, SurfaceKind::Body { opaque: false });
}

#[test]
fn the_floor_flattens_what_is_wide() {
    let at = |x: i32, z: i32| Cell::new(x, 0, z);
    let wide = (at(0, 0), at(2, 0));
    let deep = (at(5, 0), at(5, 3));
    let footprints = vec![
        (false, Some(wide)),
        (false, Some((at(1, 1), at(1, 1)))),
        (true, Some((at(0, 0), at(9, 9)))),
        (false, None),
        (false, Some(deep)),
    ];
    assert_eq!(floor_footprints(&footprints, 8), (vec![wide, deep], false));
    assert_eq!(floor_footprints(&footprints, 1), (vec![wide], true));
}

#[test]
fn layers_are_budgeted() {
    assert_eq!(
        layer_budget(100, 10, 20_000, Some(2)),
        Some(LayerBudget { per_layer: 8_000, room: 2, in_use: Some(16_000) })
    );
    assert_eq!(
        layer_budget(100, 10, 7_999, None),
        Some(LayerBudget { per_layer: 8_000, room: 0, in_use: None })
    );
    assert_eq!(layer_budget(0, 10, 1, None), None);
}
