use expression_visualizer::caret::{
    absolute_line, caret_delta, cell_text, direction_of_letter, navigation, relative_line,
    relative_path, relative_path_text, scope_of_walk, Arrows, Direction, Move,
};
use expression_visualizer::cell::{Cell, CellRole, Placement};
use expression_visualizer::common::IdDomain;
use expression_visualizer::editor::{
    apply_prompt_action, deletable_at_caret, insert_step, plan_insert, set_node_type,
    set_source_name, Build, Commit, Editor, EditorMode, Inserted, PendingEdit,
};
use expression_visualizer::keys::{ends_batch, room_delta, Key, KeyAction, Room};
use expression_visualizer::model::anchor;
use expression_visualizer::model::etype::EType;
use expression_visualizer::model::function_declaration::{catalogue, FunctionDeclarationId};
use expression_visualizer::model::node;
use expression_visualizer::model::node::ENode;
use expression_visualizer::model::term_graph::TermGraph;
use expression_visualizer::panel::{
    caret_row_address, focused_row, next_property_cell, panel_heading, panel_state, panel_subject,
    property_label, property_text, row_drawings, tab_step, RowAddress, RowDrawing,
};
use expression_visualizer::seed::seed_is_stale;
use expression_visualizer::suggest::{AddKind, CaretPlace, PromptAction, Suggestion, TypeChoice};
use expression_visualizer::target::{
    addressed_cell, edit_target_of, insert_target, EditTarget, InsertTarget,
};
use std::collections::HashMap;

fn source(name: &str, etype: Option<EType>) -> ENode {
    ENode::Source { name: name.to_string(), etype, output_anchor: anchor::Id(3) }
}

fn integer() -> EType {
    EType::Int { value: None }
}

/// A Source named `n` at `(1, 0, 0)`, with its type in front of its name.
fn one_source() -> (HashMap<usize, ENode>, HashMap<usize, Placement>) {
    let nodes = HashMap::from([(1, source("n", Some(integer())))]);
    let placements = HashMap::from([(
        1,
        Placement {
            pos: Cell::new(1, 0, 0),
            cells: vec![
                (Cell::new(0, 0, 0), CellRole::Body),
                (Cell::new(0, 0, 1), CellRole::Name),
                (Cell::new(0, 0, 2), CellRole::Anchor),
            ],
        },
    )]);
    (nodes, placements)
}

fn character(text: &str) -> Key {
    Key::Character(text.to_string())
}

#[test]
fn a_cell_names_a_property() {
    assert_eq!(
        edit_target_of(&source("n", None), CellRole::Body),
        Some(EditTarget::SourceType)
    );
    assert_eq!(
        edit_target_of(&source("n", None), CellRole::Name),
        Some(EditTarget::SourceName)
    );
    assert_eq!(edit_target_of(&source("n", None), CellRole::Anchor), None);
    let sink = ENode::Sink { input_anchor: anchor::Id(0) };
    assert_eq!(edit_target_of(&sink, CellRole::Body), None);
}

#[test]
fn the_caret_addresses_a_cell_of_a_node() {
    let (nodes, placements) = one_source();
    let standing = Some(node::Id(1));
    let addressed = addressed_cell(&placements, standing, Cell::new(1, 0, 1));
    assert_eq!(addressed, Some((node::Id(1), CellRole::Name)));
    assert_eq!(
        insert_target(&nodes, addressed),
        InsertTarget::Edit(node::Id(1), EditTarget::SourceName)
    );
    assert_eq!(addressed_cell(&placements, None, Cell::new(1, 0, 1)), None);
    assert_eq!(addressed_cell(&placements, standing, Cell::new(4, 0, 1)), None);
    assert_eq!(insert_target(&nodes, None), InsertTarget::Create);
    assert_eq!(
        insert_target(&nodes, Some((node::Id(1), CellRole::Anchor))),
        InsertTarget::Create
    );
}

#[test]
fn properties_are_written_as_they_stand() {
    let nodes = HashMap::from([
        (1, source("n", Some(integer()))),
        (
            2,
            ENode::Constant {
                etype: EType::String { value: Some("hi".to_string()) },
                output_anchor: anchor::Id(4),
            },
        ),
    ]);
    assert_eq!(property_text(&nodes, &node::Id(1), EditTarget::SourceName), "n");
    assert_eq!(property_text(&nodes, &node::Id(1), EditTarget::SourceType), "Integer");
    assert_eq!(property_text(&nodes, &node::Id(2), EditTarget::ConstantValue), "\"hi\"");
    assert_eq!(property_text(&nodes, &node::Id(9), EditTarget::SourceName), "");
}

#[test]
fn the_panel_lists_a_nodes_properties() {
    let (nodes, placements) = one_source();
    let functions = catalogue();
    let subject = panel_subject(
        &nodes,
        &functions,
        &placements,
        Cell::new(10, 0, 0),
        Some(node::Id(1)),
    )
    .unwrap();
    assert_eq!(subject.heading, "Source");
    assert_eq!(subject.rows.len(), 2);
    assert_eq!(subject.rows[0].cell, Cell::new(11, 0, 0));
    assert_eq!(subject.rows[0].value, "Integer");
    assert_eq!(subject.rows[1].cell, Cell::new(11, 0, 1));
    assert_eq!(subject.rows[1].value, "n");
    assert_eq!(subject.rows[1].label, property_label(EditTarget::SourceName));
    let here = RowAddress::Property(node::Id(1), EditTarget::SourceName);
    assert_eq!(focused_row(&subject, here), Some(1));
    assert_eq!(tab_step(&subject, here, false), Some(Cell::new(11, 0, 0)));
    assert_eq!(tab_step(&subject, here, true), Some(Cell::new(11, 0, 0)));
    let first = RowAddress::Property(node::Id(1), EditTarget::SourceType);
    assert_eq!(
        next_property_cell(&Some(subject), first),
        Some(Cell::new(11, 0, 1))
    );
    assert!(panel_subject(&nodes, &functions, &placements, Cell::new(0, 0, 0), None).is_none());
}

#[test]
fn one_row_takes_the_prompt() {
    let (nodes, placements) = one_source();
    let subject = panel_subject(
        &nodes,
        &catalogue(),
        &placements,
        Cell::new(0, 0, 0),
        Some(node::Id(1)),
    );
    let here = RowAddress::Property(node::Id(1), EditTarget::SourceName);
    let state = panel_state(&subject, here, true, false);
    assert_eq!(state.focus, Some(1));
    assert!(state.visible);
    assert!(!state.loose_prompt);
    let drawn = row_drawings(subject.as_ref().unwrap(), &state);
    assert_eq!(drawn.len(), 2);
    assert!(matches!(drawn[1], RowDrawing::Prompt));
    assert!(!matches!(drawn[0], RowDrawing::Prompt));
    let busy = panel_state(&subject, here, true, true);
    assert!(!busy.visible);
}

#[test]
fn a_caret_on_no_property_is_a_gap() {
    assert_eq!(
        caret_row_address(InsertTarget::Create, Cell::new(1, 2, 3)),
        RowAddress::ArmGap(Cell::new(1, 2, 3))
    );
    assert_eq!(
        caret_row_address(
            InsertTarget::Edit(node::Id(4), EditTarget::CastType),
            Cell::new(1, 2, 3)
        ),
        RowAddress::Property(node::Id(4), EditTarget::CastType)
    );
}

#[test]
fn a_call_is_headed_by_its_function() {
    let functions = catalogue();
    let call = |row: usize| ENode::FunctionCall {
        function_declaration_id: FunctionDeclarationId(row),
        input_anchors: vec![],
        output_anchor: anchor::Id(0),
    };
    assert_eq!(panel_heading(&functions, &call(16)), "charAt");
    assert_eq!(panel_heading(&functions, &call(99)), "Call");
    assert_eq!(panel_heading(&functions, &ENode::Sink { input_anchor: anchor::Id(1) }), "Sink");
}

#[test]
fn the_insert_key_is_not_typed() {
    let mut editor = Editor::new();
    let action = editor.handle_key(InsertTarget::Create, &character("i"), false, false, false);
    assert_eq!(action, KeyAction::Nothing);
    assert_eq!(editor.mode, EditorMode::Insert);
    assert_eq!(editor.prompt.edit.text, "");
    let action = editor.handle_key(InsertTarget::Create, &character("i"), false, false, false);
    assert_eq!(action, KeyAction::Reselect);
    assert_eq!(editor.prompt.edit.text, "i");
}

#[test]
fn captured_keys_do_nothing() {
    let mut editor = Editor::new();
    let action = editor.handle_key(InsertTarget::Create, &character("i"), false, false, true);
    assert_eq!(action, KeyAction::Nothing);
    assert_eq!(editor.mode, EditorMode::Normal);
}

#[test]
fn space_and_return_make_room_on_an_empty_prompt() {
    let mut editor = Editor::new();
    editor.enter_insert();
    let create = InsertTarget::Create;
    assert_eq!(
        editor.handle_key(create, &Key::Space, false, false, false),
        KeyAction::MakeRoom(Room::Cell)
    );
    assert_eq!(editor.handle_key(create, &Key::Space, true, false, false), KeyAction::Nothing);
    assert_eq!(
        editor.handle_key(create, &Key::Enter, false, false, false),
        KeyAction::MakeRoom(Room::Column)
    );
    assert_eq!(
        editor.handle_key(create, &Key::Enter, false, true, false),
        KeyAction::MakeRoom(Room::Row)
    );
    let edit = InsertTarget::Edit(node::Id(1), EditTarget::SourceName);
    assert_eq!(editor.handle_key(edit, &Key::Space, false, false, false), KeyAction::Reselect);
    assert_eq!(editor.prompt.edit.text, " ");
    assert_eq!(editor.handle_key(edit, &Key::Enter, false, false, false), KeyAction::Commit);
    assert_eq!(
        editor.handle_key(edit, &Key::ArrowDown, false, false, false),
        KeyAction::StepSelection(1)
    );
    assert_eq!(editor.handle_key(edit, &Key::Escape, false, false, false), KeyAction::Leave);
    assert_eq!(
        editor.handle_key(edit, &Key::Tab, false, true, false),
        KeyAction::Tab { back: true }
    );
}

#[test]
fn a_space_is_typed_into_an_open_quote() {
    let mut editor = Editor::new();
    editor.enter_insert();
    let create = InsertTarget::Create;
    editor.handle_key(create, &character("\"a"), false, false, false);
    assert_eq!(editor.handle_key(create, &Key::Space, false, false, false), KeyAction::Reselect);
    assert_eq!(editor.prompt.edit.text, "\"a ");
}

#[test]
fn delete_takes_what_the_caret_stands_on() {
    let mut editor = Editor::new();
    let create = InsertTarget::Create;
    assert_eq!(
        editor.handle_key(create, &Key::Delete, false, false, false),
        KeyAction::DeleteAtCaret
    );
    assert_eq!(editor.handle_key(create, &Key::Delete, true, false, false), KeyAction::Nothing);
    assert!(deletable_at_caret(Some(&source("n", None))));
    assert!(!deletable_at_caret(Some(&ENode::Sink { input_anchor: anchor::Id(0) })));
    assert!(!deletable_at_caret(None));
}

#[test]
fn leaving_drops_an_unfinished_node() {
    let mut editor = Editor::new();
    editor.enter_insert();
    editor.pending = Some(PendingEdit { node: node::Id(4), caret_before: Cell::new(1, 1, 1) });
    editor.caret = Cell::new(1, 1, 3);
    assert!(editor.leave_insert_mode(Some(Cell::new(1, 1, 1))));
    assert_eq!(editor.caret, Cell::new(1, 1, 1));
    assert_eq!(editor.mode, EditorMode::Normal);
    assert!(editor.pending.is_none());
    editor.enter_insert();
    assert!(!editor.leave_insert_mode(None));
    assert_eq!(editor.caret, Cell::new(1, 1, 1));
}

#[test]
fn the_mode_control_is_the_keys() {
    let mut editor = Editor::new();
    editor.handle_mode_toggle(EditorMode::Insert, true, None);
    assert_eq!(editor.mode, EditorMode::Normal);
    editor.handle_mode_toggle(EditorMode::Insert, false, None);
    assert_eq!(editor.mode, EditorMode::Insert);
    editor.handle_mode_toggle(EditorMode::Normal, false, None);
    assert_eq!(editor.mode, EditorMode::Normal);
}

#[test]
fn a_commit_goes_on_to_what_is_owed() {
    let mut editor = Editor::new();
    editor.enter_insert();
    let edit = PendingEdit { node: node::Id(4), caret_before: Cell::new(0, 0, 1) };
    editor.commit_outcome(Inserted::Pending(edit), None);
    assert_eq!(editor.mode, EditorMode::Insert);
    assert!(editor.pending.is_some());
    editor.commit_outcome(Inserted::Done, None);
    assert_eq!(editor.mode, EditorMode::Normal);
    assert!(editor.pending.is_none());
}

#[test]
fn the_highlighted_row_is_what_is_committed() {
    let row = |name: &str, allowed: bool| Suggestion {
        action: PromptAction::SetName(name.to_string()),
        label: name.to_string(),
        detail: String::new(),
        allowed,
    };
    let list = vec![row("a", true), row("b", true)];
    let mut editor = Editor::new();
    editor.step_highlight(&list, 1);
    editor.step_highlight(&list, 1);
    assert!(matches!(
        editor.highlighted_action(&list),
        Some(PromptAction::SetName(name)) if name == "b"
    ));
    editor.step_highlight(&list, 1);
    assert!(editor.highlighted_action(&list).is_none());
}

#[test]
fn room_carries_the_caret() {
    assert_eq!(room_delta(Room::Cell), Cell::new(0, 0, 1));
    assert!(ends_batch(KeyAction::MakeRoom(Room::Cell), true));
    assert!(!ends_batch(KeyAction::Reselect, true));
}

#[test]
fn walking_away_unmakes_an_unfinished_node() {
    let mut editor = Editor::new();
    editor.pending = Some(PendingEdit { node: node::Id(4), caret_before: Cell::new(0, 0, 0) });
    assert_eq!(editor.abandoned(Some((node::Id(4), CellRole::Anchor))), None);
    assert!(editor.pending.is_some());
    assert_eq!(editor.abandoned(None), Some(node::Id(4)));
    assert!(editor.pending.is_none());
    assert_eq!(editor.abandoned(None), None);
}

#[test]
fn the_prompt_opens_on_what_stands_there() {
    let edit = InsertTarget::Edit(node::Id(1), EditTarget::SourceName);
    let mut editor = Editor::new();
    assert!(!editor.seed_prompt(edit, "old".to_string()));
    assert_eq!(editor.prompt.edit.text, "");
    editor.enter_insert();
    assert!(editor.seed_prompt(edit, "old".to_string()));
    assert_eq!(editor.prompt.edit.text, "old");
    assert_eq!(editor.prompt.edit.cursor, 3);
    assert!(!editor.seed_prompt(InsertTarget::Create, String::new()));
    assert!(seed_is_stale(None, EditorMode::Insert, edit));
    assert!(!seed_is_stale(Some((EditorMode::Insert, edit)), EditorMode::Insert, edit));
    assert!(seed_is_stale(Some((EditorMode::Normal, edit)), EditorMode::Insert, edit));
}

#[test]
fn what_is_built_depends_on_the_place() {
    let functions = catalogue();
    let place = Some(CaretPlace {
        is_root_scope: true,
        local: Cell::new(0, 0, 2),
        sink_z: Some(9),
        occupant: None,
    });
    assert!(matches!(
        plan_insert(&place, &functions, &AddKind::FunctionCall(FunctionDeclarationId(18))),
        Some(Build::FunctionCall { function: 18, inputs: 3 })
    ));
    assert!(plan_insert(&place, &functions, &AddKind::FunctionCall(FunctionDeclarationId(99)))
        .is_none());
    assert!(plan_insert(&place, &functions, &AddKind::Source).is_none());
    assert!(plan_insert(&None, &functions, &AddKind::Match).is_none());
    assert!(matches!(
        plan_insert(&place, &functions, &AddKind::Constant(TypeChoice::Bool, None)),
        Some(Build::Constant(EType::Bool { value: None }))
    ));
}

#[test]
fn an_unfinished_node_takes_the_caret_to_what_it_owes() {
    assert_eq!(insert_step(&AddKind::TypeCast), Some(Cell::new(0, 0, 2)));
    assert_eq!(insert_step(&AddKind::Pattern), Some(Cell::new(0, 1, 1)));
    assert_eq!(insert_step(&AddKind::Constant(TypeChoice::Int, None)), None);
    let mut editor = Editor::new();
    let outcome =
        editor.insert_node_kind(&AddKind::TypeCast, Cell::new(0, 0, 2), Some(node::Id(7)));
    assert!(matches!(
        outcome,
        Inserted::Pending(PendingEdit { node: node::Id(7), caret_before }) if caret_before == Cell::new(0, 0, 0)
    ));
    assert_eq!(editor.caret, Cell::new(0, 0, 2));
}

#[test]
fn types_and_names_are_set_in_the_graph() {
    let (graph, _, _) = TermGraph::new(IdDomain::new(), IdDomain::new());
    let mut graph = graph.plus_node(node::Id(1), source("n", None));
    assert!(set_source_name(&mut graph, &node::Id(1), "m"));
    assert!(set_node_type(&mut graph, &node::Id(1), TypeChoice::Char, None));
    assert!(matches!(
        graph.nodes.get(&1),
        Some(ENode::Source { name, etype: Some(EType::Char { value: None }), .. }) if name == "m"
    ));
    assert!(!set_source_name(&mut graph, &node::Id(0), "m"));
    assert!(!set_node_type(&mut graph, &node::Id(0), TypeChoice::Char, None));
    assert!(!set_node_type(&mut graph, &node::Id(9), TypeChoice::Char, None));
}

#[test]
fn a_row_answers_the_cell_it_stands_for() {
    let edit = InsertTarget::Edit(node::Id(3), EditTarget::SourceName);
    assert!(matches!(
        apply_prompt_action(&PromptAction::SetName("x".to_string()), edit),
        Commit::Rename(node::Id(3), name) if name == "x"
    ));
    let cast = InsertTarget::Edit(node::Id(3), EditTarget::CastType);
    assert!(matches!(
        apply_prompt_action(&PromptAction::SetType(TypeChoice::Int, None), cast),
        Commit::Retype(node::Id(3), TypeChoice::Int, None)
    ));
    assert!(matches!(
        apply_prompt_action(&PromptAction::SetType(TypeChoice::Int, None), edit),
        Commit::Nothing
    ));
    assert!(matches!(
        apply_prompt_action(&PromptAction::SetName("x".to_string()), InsertTarget::Create),
        Commit::Nothing
    ));
    assert!(matches!(
        apply_prompt_action(&PromptAction::Create(AddKind::Match), InsertTarget::Create),
        Commit::Build(AddKind::Match)
    ));
}

#[test]
fn the_caret_moves_by_letters_and_arrows() {
    assert_eq!(direction_of_letter("h"), Some(Direction::H));
    assert_eq!(direction_of_letter("L"), Some(Direction::L));
    assert_eq!(direction_of_letter("hl"), None);
    assert_eq!(caret_delta(Direction::J, true), Some(Cell::new(0, 1, 0)));
    assert_eq!(caret_delta(Direction::L, true), None);
    let still = Arrows { up: false, down: false, left: false, right: false };
    let letters = vec!["x".to_string(), "k".to_string()];
    assert_eq!(navigation(still, &letters, false, false, false), Move::Caret(Cell::new(-1, 0, 0)));
    assert_eq!(navigation(still, &letters, false, true, false), Move::Node(Cell::new(-1, 0, 0)));
    assert_eq!(navigation(still, &letters, false, false, true), Move::Stay);
    let right = Arrows { right: true, ..still };
    assert_eq!(navigation(right, &letters, false, false, false), Move::Caret(Cell::new(0, 0, 1)));
}

#[test]
fn the_path_adds_up_to_the_address() {
    assert_eq!(cell_text(Cell::new(-1, 0, 12)), "(-1,0,12)");
    let origins = vec![Cell::new(0, 0, 0), Cell::new(5, 1, 3)];
    let segments = relative_path(&origins, &vec![Some(Cell::new(2, 0, 1))], Cell::new(1, 0, 2));
    assert_eq!(relative_path_text(&segments), "Root(2,0,1) > Match(3,1,2) > Branch(1,0,2)");
    let sum = segments
        .iter()
        .fold(Cell::new(0, 0, 0), |sum, segment| sum.plus(segment.offset));
    assert_eq!(sum, Cell::new(6, 1, 5));
    let plain = relative_path(&origins, &vec![None], Cell::new(1, 0, 2));
    assert_eq!(relative_path_text(&plain), "Root(5,1,3) > Branch(1,0,2)");
    assert_eq!(
        relative_line(Some(&relative_path(&vec![Cell::new(0, 0, 0)], &vec![], Cell::new(3, 4, 5)))),
        "Relative: Root(3,4,5)"
    );
    assert_eq!(relative_line(None), "Relative: \u{2014}");
    assert_eq!(absolute_line(Cell::new(3, 4, 5)), "Absolute: (3,4,5)");
}

#[test]
fn a_walk_names_the_scope_below_the_root() {
    let walk = vec![node::Id(0), node::Id(4)];
    assert_eq!(scope_of_walk(node::Id(0), &walk), vec![node::Id(4)]);
    assert_eq!(scope_of_walk(node::Id(9), &walk), vec![]);
    assert_eq!(scope_of_walk(node::Id(0), &vec![]), vec![]);
}

#[test]
fn moving_the_caret_asks_for_a_new_scene() {
    let mut editor = Editor::new();
    assert!(!editor.move_caret(Cell::new(0, 0, 0)));
    assert!(!editor.rebuild);
    assert!(editor.move_caret(Cell::new(1, 0, 2)));
    assert_eq!(editor.caret, Cell::new(1, 0, 2));
    assert!(editor.rebuild);
    assert!(editor.mode == EditorMode::Normal);
}
