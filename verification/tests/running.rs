use expression_visualizer::cell::Cell;
use expression_visualizer::diagnostics::{
    diagnostic_lines, diagnostics_tallies, heading, Diagnostic, DiagnosticLine, Diagnostics,
    Glyphs, Severity,
};
use expression_visualizer::evaluation::{
    is_evaluating, keyboard_captured, lines, modal_is_open, modal_kind, player_controls, run_mark,
    step_buttons, step_counter, Answer, Control, EvalPhase, EvalState, ModalKind, Snapshot,
};
use expression_visualizer::labels::{answers_at, label_plan, resolved_now};
use expression_visualizer::model::anchor;
use expression_visualizer::model::etype::EType;
use expression_visualizer::model::node;
use expression_visualizer::model::node::ENode;
use expression_visualizer::sources::{sorted_rows, source_labels, SourceRow};
use expression_visualizer::view::{
    apply_view_entry, button_look, chrome_hidden, end_screenshot_mode, menu_caption, menu_click,
    menu_rows, view_entry, ButtonLook, CameraMode, Journey, MenuClick, ViewEntry, ViewState,
};
use std::collections::{HashMap, HashSet};

fn snapshot(values: &[(usize, &str)]) -> Snapshot {
    Snapshot { values: values.iter().map(|(id, text)| (*id, text.to_string())).collect() }
}

fn source(name: &str, etype: Option<EType>) -> ENode {
    ENode::Source { name: name.to_string(), etype, output_anchor: anchor::Id(1) }
}

fn idle() -> EvalState {
    EvalState::default()
}

fn running() -> EvalState {
    let mut eval = idle();
    assert!(!eval.begin_evaluation(false, &vec![]));
    eval
}

fn glyphs() -> Glyphs {
    Glyphs { error: "x".to_string(), warning: "w".to_string(), note: "n".to_string() }
}

fn diagnostic(severity: Severity, message: &str) -> Diagnostic {
    Diagnostic { severity, message: message.to_string(), node: None }
}

#[test]
fn a_run_begins_at_step_nothing() {
    let eval = running();
    assert!(is_evaluating(&eval));
    assert_eq!(step_counter(&eval), "Step 0");
    assert_eq!(run_mark(&eval), (true, 0));
    assert!(eval.current_state().unwrap().values.is_empty());
    assert_eq!(
        player_controls(&eval),
        vec![Control::Counter, Control::Prev, Control::Exit, Control::Next, Control::FullRun]
    );
    assert_eq!(player_controls(&idle()), vec![Control::Evaluate, Control::FullRun]);
    assert_eq!(step_counter(&idle()), "");
    assert_eq!(run_mark(&idle()), (false, 0));
}

#[test]
fn a_blocked_run_unfolds_the_list() {
    let mut eval = idle();
    assert!(eval.begin_evaluation(true, &vec![]));
    assert!(matches!(eval.phase, EvalPhase::Idle));
    assert!(!step_buttons(&eval, &node::Id(0), true).full);
    assert!(step_buttons(&eval, &node::Id(0), false).full);
}

#[test]
fn sources_are_asked_for_first() {
    let mut eval = idle();
    assert!(!eval.begin_evaluation(false, &vec![node::Id(3)]));
    assert!(modal_is_open(&eval));
    assert_eq!(modal_kind(&eval.phase), ModalKind::SourcePrompt);
    let nodes = HashMap::from([(3, source("n", Some(EType::Int { value: None })))]);
    let wrong = vec![Answer {
        node_id: node::Id(3),
        typed: "x".to_string(),
        parsed: Err("not a number".to_string()),
    }];
    eval.submit_answers(&nodes, &wrong);
    assert!(matches!(&eval.phase, EvalPhase::ErrorModal(text) if text == "n: not a number"));
    let right =
        vec![Answer { node_id: node::Id(3), typed: "4".to_string(), parsed: Ok(()) }];
    eval.submit_answers(&nodes, &right);
    assert!(matches!(
        &eval.phase,
        EvalPhase::Running { current: 0, answers, .. } if answers.get(&3).map(String::as_str) == Some("4")
    ));
}

#[test]
fn a_source_without_a_type_is_complained_about() {
    let mut eval = idle();
    eval.begin_evaluation(false, &vec![node::Id(3), node::Id(4)]);
    let nodes = HashMap::from([
        (3, source("a", None)),
        (4, source("b", Some(EType::Bool { value: None }))),
    ]);
    let answers = vec![
        Answer { node_id: node::Id(3), typed: String::new(), parsed: Ok(()) },
        Answer { node_id: node::Id(4), typed: "?".to_string(), parsed: Err("bad".to_string()) },
    ];
    eval.submit_answers(&nodes, &answers);
    assert!(matches!(
        &eval.phase,
        EvalPhase::ErrorModal(text) if text == "a: no type declared\nb: bad"
    ));
    assert_eq!(lines(&vec!["a".to_string(), "b".to_string()]), "a\nb");
}

#[test]
fn steps_grow_the_history() {
    let mut eval = running();
    assert!(eval.take_step(Ok(snapshot(&[(1, "1")]))));
    assert!(!eval.take_step(Ok(snapshot(&[(1, "1")]))));
    assert!(eval.take_step(Ok(snapshot(&[(1, "1"), (0, "1")]))));
    assert_eq!(step_counter(&eval), "Step 2");
    let buttons = step_buttons(&eval, &node::Id(0), false);
    assert!(buttons.prev);
    assert!(!buttons.next);
    eval.press_prev();
    assert_eq!(step_counter(&eval), "Step 1");
    assert!(step_buttons(&eval, &node::Id(0), false).next);
    assert!(eval.take_step(Ok(snapshot(&[(1, "1"), (2, "2")]))));
    assert!(eval.current_state().unwrap().values.contains_key(&2));
    eval.press_prev();
    eval.press_prev();
    eval.press_prev();
    assert_eq!(step_counter(&eval), "Step 0");
}

#[test]
fn an_error_ends_the_run() {
    let mut eval = running();
    assert!(!eval.take_step(Err(vec!["no".to_string(), "way".to_string()])));
    assert!(matches!(&eval.phase, EvalPhase::ErrorModal(text) if text == "no\nway"));
    eval.close();
    assert!(matches!(eval.phase, EvalPhase::Idle));
}

#[test]
fn a_run_to_the_end_stops_at_the_sink() {
    let mut eval = idle();
    assert!(!eval.press_full_run(false, &vec![]));
    assert!(eval.grant_run_to_end());
    assert!(!eval.grant_run_to_end());
    let mut rounds = 0;
    while eval.wants_step(&node::Id(0), rounds, 3) {
        let next = snapshot(&[(rounds + 1, "v")][..]);
        let mut all = next;
        for (id, text) in &eval.current_state().unwrap().values {
            all.values.insert(*id, text.clone());
        }
        if rounds == 1 {
            all.values.insert(0, "v".to_string());
        }
        assert!(eval.take_step(Ok(all)));
        rounds += 1;
    }
    assert_eq!(rounds, 2);
    assert!(!running().wants_step(&node::Id(0), 4, 3));
}

#[test]
fn the_keyboard_is_taken_by_what_is_open() {
    let mut eval = idle();
    assert!(!keyboard_captured(&eval, false));
    assert!(keyboard_captured(&eval, true));
    eval.open_controls();
    assert_eq!(modal_kind(&eval.phase), ModalKind::Controls);
    assert!(keyboard_captured(&eval, false));
    eval.close();
    eval.ask_for_new();
    assert_eq!(modal_kind(&eval.phase), ModalKind::ConfirmNew);
    let mut busy = running();
    busy.open_controls();
    assert!(matches!(busy.phase, EvalPhase::Running { .. }));
}

#[test]
fn labels_show_the_news() {
    let states = vec![
        snapshot(&[]),
        snapshot(&[(1, "1"), (2, "2")]),
        snapshot(&[(1, "1"), (2, "2"), (3, "3")]),
    ];
    assert!(resolved_now(&states, 0).is_empty());
    let mut now = resolved_now(&states, 1);
    now.sort();
    assert_eq!(now, vec![1, 2]);
    assert_eq!(resolved_now(&states, 2), vec![3]);
    let places = HashMap::from([(1, Cell::new(1, 0, 0)), (2, Cell::new(2, 0, 0))]);
    let nobody: HashSet<usize> = HashSet::new();
    let plan = label_plan(&states, 1, &vec![node::Id(1), node::Id(7)], &nobody, &places);
    assert_eq!(plan.standing.len(), 2);
    assert_eq!(plan.standing[0].as_deref(), Some("1"));
    assert_eq!(plan.standing[1], None);
    assert_eq!(plan.added, vec![(node::Id(2), Cell::new(2, 0, 0), "2".to_string())]);
    let hidden: HashSet<usize> = HashSet::from([1, 2]);
    let shut = label_plan(&states, 1, &vec![node::Id(1)], &hidden, &places);
    assert_eq!(shut.standing, vec![None]);
    assert!(shut.added.is_empty());
}

#[test]
fn a_match_answers_behind_its_arms() {
    let choice = ENode::Match {
        patterns: vec![],
        input_anchor: anchor::Id(0),
        output_anchor: anchor::Id(1),
    };
    assert_eq!(answers_at(&choice, 6), Cell::new(0, 0, 6));
    assert_eq!(answers_at(&source("n", None), 6), Cell::new(0, 0, 0));
}

#[test]
fn sources_are_asked_in_order() {
    let row = |index: Option<usize>, id: usize| SourceRow { index, id: node::Id(id) };
    let rows = vec![row(None, 1), row(Some(1), 9), row(Some(0), 5), row(Some(1), 2)];
    let sorted = sorted_rows(&rows);
    assert_eq!(sorted, vec![row(Some(0), 5), row(Some(1), 2), row(Some(1), 9), row(None, 1)]);
    let nodes = HashMap::from([(5, source("", None)), (9, source("b", None))]);
    let labels = source_labels(&nodes, &rows);
    assert_eq!(labels[0], (node::Id(5), "[0]".to_string()));
    assert_eq!(labels[1], (node::Id(2), "[1] ?".to_string()));
    assert_eq!(labels[2], (node::Id(9), "[1] b".to_string()));
    assert_eq!(labels[3], (node::Id(1), "?".to_string()));
}

#[test]
fn views_are_gone_to_and_returned_from() {
    let view = ViewState { mode: CameraMode::Bound, semi_ortho: false, screenshot: false };
    assert_eq!(view_entry(view), ViewEntry::EditOrtho);
    let (free, journey) = apply_view_entry(view, ViewEntry::Explore);
    assert_eq!(journey, Journey::ToFree);
    assert_eq!(view_entry(free), ViewEntry::Explore);
    let (back, journey) = apply_view_entry(free, ViewEntry::EditPersp);
    assert_eq!(journey, Journey::ToBound);
    assert!(back.semi_ortho);
    let (mut shot, journey) = apply_view_entry(back, ViewEntry::Screenshot);
    assert_eq!(journey, Journey::Stay);
    assert_eq!(view_entry(shot), ViewEntry::Screenshot);
    assert!(!end_screenshot_mode(&mut shot, false, true, false, false, false));
    assert!(!end_screenshot_mode(&mut shot, true, false, false, false, false));
    assert!(end_screenshot_mode(&mut shot, true, false, false, true, false));
    assert_eq!(view_entry(shot), ViewEntry::EditPersp);
}

#[test]
fn the_view_menu_folds_on_a_click() {
    assert_eq!(
        menu_click(true, MenuClick::Option(ViewEntry::Explore)),
        (false, Some(ViewEntry::Explore))
    );
    assert_eq!(menu_click(false, MenuClick::Trigger), (true, None));
    assert_eq!(menu_click(true, MenuClick::Popup), (true, None));
    assert_eq!(menu_click(true, MenuClick::Elsewhere), (false, None));
    assert_eq!(menu_click(true, MenuClick::Nowhere), (true, None));
    let view = ViewState { mode: CameraMode::Free, semi_ortho: true, screenshot: false };
    let rows = menu_rows(view);
    assert_eq!(rows.len(), ViewEntry::all().len());
    assert_eq!(rows.iter().filter(|row| row.1).count(), 1);
    assert!(menu_caption(view).contains(ViewEntry::Explore.label()));
    assert!(menu_caption(view).starts_with("View: "));
}

#[test]
fn buttons_look_like_what_they_do() {
    assert_eq!(button_look(false, true), ButtonLook::Off);
    assert_eq!(button_look(true, true), ButtonLook::Hot);
    assert_eq!(button_look(true, false), ButtonLook::Rest);
    assert!(chrome_hidden(true, false));
    assert!(chrome_hidden(false, true));
    assert!(!chrome_hidden(false, false));
}

#[test]
fn tallies_leave_out_what_is_not_there() {
    let list = Diagnostics(vec![
        diagnostic(Severity::Error, "a"),
        diagnostic(Severity::Note, "b"),
        diagnostic(Severity::Error, "c"),
    ]);
    assert_eq!(list.count(Severity::Error), 2);
    assert!(list.blocking());
    assert_eq!(
        diagnostics_tallies(&list, &glyphs()),
        vec![
            (Severity::Error, "x 2 errors".to_string()),
            (Severity::Note, "n 1 note".to_string())
        ]
    );
    let calm = Diagnostics(vec![diagnostic(Severity::Warning, "w")]);
    assert!(!calm.blocking());
    assert_eq!(heading(&vec![], true), "No problems found");
    assert_eq!(heading(&diagnostics_tallies(&calm, &glyphs()), true), "\u{25BE} ");
    assert_eq!(heading(&diagnostics_tallies(&calm, &glyphs()), false), "\u{25B8} ");
}

#[test]
fn rows_that_do_not_fit_are_counted() {
    let list = Diagnostics((0..8).map(|_| diagnostic(Severity::Error, "m")).collect());
    let mut cells = vec![None; 8];
    cells[0] = Some(Cell::new(1, 2, 3));
    let drawn = diagnostic_lines(&list, &cells, &glyphs(), true);
    assert_eq!(drawn.len(), 7);
    assert!(matches!(&drawn[6], DiagnosticLine::More(text) if text == "\u{2026} 2 more"));
    assert!(matches!(
        &drawn[0],
        DiagnosticLine::Row { place, target: Some(_), .. } if place == "x (1, 2, 3)"
    ));
    assert!(diagnostic_lines(&list, &cells, &glyphs(), false).is_empty());
}
