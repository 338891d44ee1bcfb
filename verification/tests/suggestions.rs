use expression_visualizer::cell::Cell;
use expression_visualizer::infer;
use expression_visualizer::model::etype::EType;
use expression_visualizer::model::function_declaration::{
    catalogue, FunctionDeclaration, FunctionDeclarationId,
};
use expression_visualizer::model::node;
use expression_visualizer::model::node::NodeKind;
use expression_visualizer::selection::{
    clamped_selection, first_selection, prompt_lines, prompt_window, step_selection, PromptLine,
    PROMPT_ROWS,
};
use expression_visualizer::suggest::{
    create_candidates, functions_by_name, in_open_quote, kind_allowed, literal_rows,
    literal_type_name, make_etype, prompt_candidates, refuse_none_cast, short_type_name,
    signature_detail, type_choice_label, type_choice_of, type_or_literal_rows, type_rows,
    typed_literal, AddKind, CaretPlace, PromptAction, Suggestion, TypeChoice,
};
use expression_visualizer::target::{EditTarget, InsertTarget};
use expression_visualizer::text::{decimal, is_before, matches_prefix, signed_decimal};
use std::collections::HashMap;

fn labels(rows: &[Suggestion]) -> Vec<String> {
    rows.iter().map(|row| row.label.clone()).collect()
}

fn rows(allowed: &[bool]) -> Vec<Suggestion> {
    allowed
        .iter()
        .enumerate()
        .map(|(i, allowed)| Suggestion {
            action: PromptAction::SetName(i.to_string()),
            label: format!("row{}", i),
            detail: String::new(),
            allowed: *allowed,
        })
        .collect()
}

fn inside(is_root_scope: bool, z: i32) -> CaretPlace {
    CaretPlace { is_root_scope, local: Cell::new(0, 0, z), sink_z: Some(5), occupant: None }
}

#[test]
fn numbers_are_written_in_decimal() {
    assert_eq!(decimal(0), "0");
    assert_eq!(decimal(1203), "1203");
    assert_eq!(decimal(u64::MAX), "18446744073709551615");
    assert_eq!(signed_decimal(-7), "-7");
    assert_eq!(signed_decimal(i32::MIN), "-2147483648");
}

#[test]
fn prefixes_ignore_case() {
    assert!(matches_prefix("TypeCast", "tYP"));
    assert!(matches_prefix("x", ""));
    assert!(!matches_prefix("Type", "types"));
    assert!(!matches_prefix("Type", "yp"));
}

#[test]
fn words_are_ordered_by_their_characters() {
    assert!(is_before("!", "abs"));
    assert!(is_before("substr", "||"));
    assert!(is_before("a", "ab"));
    assert!(!is_before("ab", "ab"));
}

#[test]
fn a_typed_literal_is_recognised() {
    let found = |text: &str| typed_literal(text).map(|(c, raw, closed)| (c, raw, closed));
    assert_eq!(found("42"), Some((TypeChoice::Int, "42".to_string(), false)));
    assert_eq!(found("-4"), Some((TypeChoice::Int, "-4".to_string(), false)));
    assert_eq!(found("-"), None);
    assert_eq!(found("+"), None);
    assert_eq!(found("abs"), None);
    assert_eq!(found(""), None);
    assert_eq!(found("'a"), Some((TypeChoice::Char, "a".to_string(), false)));
    assert_eq!(found("'a'"), Some((TypeChoice::Char, "a".to_string(), true)));
    assert_eq!(found("'''"), Some((TypeChoice::Char, "'".to_string(), true)));
    assert_eq!(found("''"), Some((TypeChoice::Char, String::new(), true)));
    assert_eq!(found("\""), Some((TypeChoice::String, String::new(), false)));
    assert_eq!(found("\"a b\""), Some((TypeChoice::String, "a b".to_string(), true)));
}

#[test]
fn a_quote_is_open_until_it_is_closed() {
    assert!(in_open_quote("\"a"));
    assert!(in_open_quote("'"));
    assert!(!in_open_quote("\"a\""));
    assert!(!in_open_quote("12"));
    assert!(!in_open_quote("abs"));
}

#[test]
fn choices_and_types_agree() {
    let choices = [
        (TypeChoice::String, "String"),
        (TypeChoice::Char, "Char"),
        (TypeChoice::Bool, "Bool"),
        (TypeChoice::Int, "Integer"),
    ];
    for (choice, label) in choices {
        assert_eq!(type_choice_label(choice), label);
        assert_eq!(type_choice_of(&make_etype(choice, None)), choice);
        assert_eq!(make_etype(choice, None).spelled(), label);
    }
    assert_eq!(type_choice_of(&make_etype(TypeChoice::NoneType, None)), TypeChoice::NoneType);
    assert!(matches!(
        make_etype(TypeChoice::Int, Some("3".to_string())),
        EType::Int { value: Some(value) } if value == "3"
    ));
}

#[test]
fn names_are_short_in_a_signature() {
    let functions = catalogue();
    assert_eq!(signature_detail(&functions[&0]), "Int,Int");
    assert_eq!(signature_detail(&functions[&6]), "any,any");
    assert_eq!(signature_detail(&functions[&17]), "Char|String,Char|String");
    assert_eq!(signature_detail(&functions[&18]), "String,Int,Int");
    assert_eq!(short_type_name(&infer::EType::Bool(None)), "Bool");
    assert_eq!(literal_type_name(TypeChoice::Int), "Int");
    assert_eq!(literal_type_name(TypeChoice::Char), "Char");
}

#[test]
fn types_are_filtered_by_what_is_typed() {
    assert_eq!(type_rows("").len(), 5);
    assert_eq!(labels(&type_rows("in")), vec!["Integer"]);
    assert!(type_rows("xyz").is_empty());
    assert!(type_rows("").iter().all(|row| row.allowed));
}

#[test]
fn literals_stand_before_keywords() {
    let found = literal_rows("42", true);
    assert_eq!(labels(&found), vec!["42"]);
    assert_eq!(found[0].detail, "Int");
    assert!(found[0].allowed);
    let quoted = literal_rows("'a", true);
    assert_eq!(labels(&quoted), vec!["'a'"]);
    let refused = literal_rows("'ab", false);
    assert_eq!(labels(&refused), vec!["'ab"]);
    assert!(!refused[0].allowed);
    let words = literal_rows("t", false);
    assert_eq!(labels(&words), vec!["true"]);
    assert_eq!(words[0].detail, "Bool");
    assert_eq!(literal_rows("", false).len(), 3);
}

#[test]
fn a_cast_to_nothing_is_refused() {
    let found = refuse_none_cast(type_or_literal_rows("none", false));
    assert!(!found.is_empty());
    for row in &found {
        assert!(!row.allowed);
        assert_eq!(row.detail, "casts nothing");
    }
    let kept = refuse_none_cast(type_rows("integer"));
    assert!(kept[0].allowed);
    assert_eq!(kept[0].detail, "");
}

#[test]
fn sources_stand_on_the_source_row() {
    assert!(kind_allowed(&inside(true, 0), &AddKind::Source));
    assert!(!kind_allowed(&inside(false, 0), &AddKind::Source));
    assert!(!kind_allowed(&inside(true, 1), &AddKind::Source));
    assert!(kind_allowed(&inside(false, 0), &AddKind::Tunnel));
    assert!(!kind_allowed(&inside(true, 0), &AddKind::Tunnel));
    assert!(kind_allowed(&inside(true, 1), &AddKind::Match));
    assert!(!kind_allowed(&inside(true, 0), &AddKind::Match));
    assert!(!kind_allowed(&inside(true, 5), &AddKind::Match));
}

#[test]
fn an_arm_goes_below_an_arm() {
    let on_arm = CaretPlace {
        is_root_scope: true,
        local: Cell::new(0, 1, 2),
        sink_z: Some(9),
        occupant: Some(NodeKind::Pattern),
    };
    assert!(kind_allowed(&on_arm, &AddKind::Pattern));
    assert!(!kind_allowed(&on_arm, &AddKind::Match));
    assert!(!kind_allowed(&inside(true, 2), &AddKind::Pattern));
}

#[test]
fn functions_are_listed_by_name() {
    let functions = catalogue();
    let order = functions_by_name(&functions);
    let names: Vec<&str> = order.iter().map(|row| functions[row].name.as_str()).collect();
    let mut sorted = names.clone();
    sorted.sort();
    assert_eq!(names, sorted);
    assert_eq!(names.len(), 22);
    assert_eq!(names[0], "!");
    assert_eq!(names[21], "||");
}

#[test]
fn a_free_cell_offers_what_can_be_built() {
    let functions = catalogue();
    let place = Some(inside(true, 1));
    let found = create_candidates(&functions, &place, "ma", false);
    assert_eq!(labels(&found), vec!["Match", "max"]);
    assert!(found.iter().all(|row| row.allowed));
    let nowhere = create_candidates(&functions, &None, "max", false);
    assert_eq!(labels(&nowhere), vec!["max"]);
    assert!(!nowhere[0].allowed);
    let number = create_candidates(&functions, &place, "7", true);
    assert_eq!(labels(&number), vec!["7"]);
    assert!(matches!(
        &number[0].action,
        PromptAction::Create(AddKind::Constant(TypeChoice::Int, Some(value))) if value == "7"
    ));
    let minus = create_candidates(&functions, &place, "-", false);
    assert_eq!(labels(&minus), vec!["-"]);
    assert!(matches!(
        minus[0].action,
        PromptAction::Create(AddKind::FunctionCall(FunctionDeclarationId(1)))
    ));
}

#[test]
fn each_property_has_its_own_list() {
    let functions = catalogue();
    let ask = |target: EditTarget, text: &str| {
        prompt_candidates(
            InsertTarget::Edit(node::Id(1), target),
            &functions,
            &None,
            text,
            true,
        )
    };
    let name = ask(EditTarget::SourceName, "");
    assert_eq!(name.len(), 1);
    assert_eq!(name[0].label, "");
    assert_eq!(name[0].detail, "Name");
    assert!(name[0].allowed);
    assert_eq!(ask(EditTarget::SourceType, "").len(), 5);
    assert_eq!(ask(EditTarget::TunnelType, "").len(), 5);
    assert_eq!(ask(EditTarget::ConstantValue, "").len(), 3);
    assert_eq!(ask(EditTarget::PatternType, "").len(), 8);
    let cast = ask(EditTarget::CastType, "n");
    assert!(cast.iter().all(|row| !row.allowed));
    let arm = ask(EditTarget::PatternType, "n");
    assert!(arm.iter().all(|row| row.allowed));
}

#[test]
fn the_highlight_steps_over_refused_rows() {
    let list = rows(&[true, false, true]);
    assert_eq!(step_selection(&list, None, 1), Some(0));
    assert_eq!(step_selection(&list, None, -1), Some(2));
    assert_eq!(step_selection(&list, Some(0), 1), Some(2));
    assert_eq!(step_selection(&list, Some(2), 1), None);
    assert_eq!(step_selection(&list, Some(0), -1), None);
    assert_eq!(step_selection(&list, Some(9), -1), Some(0));
    assert_eq!(step_selection(&[], None, 1), None);
}

#[test]
fn nothing_typed_is_nothing_chosen() {
    let list = rows(&[false, true]);
    assert_eq!(first_selection("r", &list), Some(1));
    assert_eq!(first_selection("", &list), None);
    assert_eq!(first_selection("r", &rows(&[false])), None);
    let mut unnamed = rows(&[true]);
    unnamed[0].label = String::new();
    assert_eq!(first_selection("", &unnamed), Some(0));
}

#[test]
fn a_stale_highlight_is_clamped() {
    let list = rows(&[true, true]);
    assert_eq!(clamped_selection(&list, Some(5)), Some(1));
    assert_eq!(clamped_selection(&list, None), None);
    assert_eq!(clamped_selection(&[], Some(0)), None);
}

#[test]
fn the_window_follows_the_highlight() {
    assert_eq!(prompt_window(3, 0), 0..3);
    assert_eq!(prompt_window(PROMPT_ROWS, 7), 0..8);
    assert_eq!(prompt_window(20, 0), 0..8);
    assert_eq!(prompt_window(20, 10), 6..14);
    assert_eq!(prompt_window(20, 19), 12..20);
}

#[test]
fn what_the_window_hides_is_said() {
    let list = rows(&[true; 20]);
    let lines = prompt_lines(&list, Some(10));
    assert_eq!(lines.len(), 10);
    assert!(matches!(&lines[0], PromptLine::Hint(text) if text == "\u{2026} 6 more above"));
    assert!(matches!(&lines[9], PromptLine::Hint(text) if text.contains("6 more")));
    assert!(matches!(lines[5], PromptLine::Row { index: 10, highlighted: true, clickable: true }));
    let short = prompt_lines(&rows(&[false]), None);
    assert_eq!(short.len(), 1);
    assert!(matches!(short[0], PromptLine::Row { index: 0, highlighted: false, clickable: false }));
}

#[test]
fn functions_of_one_name_are_listed_by_key() {
    let mut functions = HashMap::new();
    for (key, name) in [(9, "same"), (2, "same"), (5, "other"), (7, "same")] {
        functions.insert(
            key,
            FunctionDeclaration {
                name: name.to_string(),
                inputs: vec![],
                output_type: infer::EType::Int(None),
            },
        );
    }
    assert_eq!(functions_by_name(&functions), vec![5, 2, 7, 9]);
}

#[test]
fn the_caret_greys_rows_and_hides_none() {
    let functions = catalogue();
    for text in ["", "ma", "7", "'x"] {
        let here = create_candidates(&functions, &Some(inside(true, 1)), text, true);
        for place in [None, Some(inside(false, 0)), Some(inside(true, 0))] {
            let there = create_candidates(&functions, &place, text, true);
            assert_eq!(here.len(), there.len());
            for (one, other) in here.iter().zip(there.iter()) {
                assert_eq!(format!("{:?}", one.action), format!("{:?}", other.action));
                assert_eq!(one.label, other.label);
                assert_eq!(one.detail, other.detail);
            }
        }
    }
    let nowhere = create_candidates(&functions, &None, "ma", true);
    assert!(nowhere.iter().all(|row| !row.allowed));
}
