//! What the INSERT prompt offers: the rows of its list, and where in the list
//! the highlight stands.

use crate::cell::Cell;
use crate::infer;
use crate::model::etype::{self, EType, ETypeView};
use crate::model::function_declaration::{
    FunctionDeclaration,
    FunctionDeclarationId,
    FunctionDeclarationView,
    FunctionParameterView,
};
use crate::model::node::{self, NodeKind};
use crate::model::table;
use crate::target::{EditTarget, InsertTarget};
use crate::text;
use std::collections::HashMap;
use vstd::prelude::*;

verus! {

broadcast use vstd::std_specs::hash::group_hash_axioms;

/// The five base types.
#[derive(Clone, Copy, Debug, PartialEq, Eq, Structural)]
pub enum TypeChoice {
    String,
    Char,
    Bool,
    Int,
    NoneType,
}

/// The base types, in list order.
pub open spec fn type_choices() -> Seq<TypeChoice> {
    seq![
        TypeChoice::String,
        TypeChoice::Char,
        TypeChoice::Bool,
        TypeChoice::Int,
        TypeChoice::NoneType,
    ]
}

/// The base type of a declared type.
pub open spec fn choice_of(t: ETypeView) -> TypeChoice {
    match t {
        ETypeView::Bool(_) => TypeChoice::Bool,
        ETypeView::Int(_) => TypeChoice::Int,
        ETypeView::String(_) => TypeChoice::String,
        ETypeView::Char(_) => TypeChoice::Char,
        ETypeView::NoneType(_) => TypeChoice::NoneType,
    }
}

/// What a base type is called in full.
pub open spec fn choice_label(choice: TypeChoice) -> Seq<char> {
    match choice {
        TypeChoice::String => "String"@,
        TypeChoice::Char => "Char"@,
        TypeChoice::Bool => "Bool"@,
        TypeChoice::Int => "Integer"@,
        TypeChoice::NoneType => "None"@,
    }
}

/// The declared type of a base type and, where there is one, a literal. The
/// type `None` has no literal to carry.
pub open spec fn declared_type(choice: TypeChoice, value: Option<Seq<char>>) -> ETypeView {
    match choice {
        TypeChoice::Bool => ETypeView::Bool(value),
        TypeChoice::Int => ETypeView::Int(value),
        TypeChoice::String => ETypeView::String(value),
        TypeChoice::Char => ETypeView::Char(value),
        TypeChoice::NoneType => ETypeView::NoneType(None),
    }
}

pub fn type_choice_of(t: &EType) -> (choice: TypeChoice)
    ensures
        choice == choice_of(t@),
{
    match t {
        EType::Bool { .. } => TypeChoice::Bool,
        EType::Int { .. } => TypeChoice::Int,
        EType::String { .. } => TypeChoice::String,
        EType::Char { .. } => TypeChoice::Char,
        EType::NoneType { .. } => TypeChoice::NoneType,
    }
}

pub fn type_choice_label(choice: TypeChoice) -> (label: &'static str)
    ensures
        label@ == choice_label(choice),
{
    match choice {
        TypeChoice::String => "String",
        TypeChoice::Char => "Char",
        TypeChoice::Bool => "Bool",
        TypeChoice::Int => "Integer",
        TypeChoice::NoneType => "None",
    }
}

pub fn make_etype(choice: TypeChoice, value: Option<String>) -> (t: EType)
    ensures
        t@ == declared_type(choice, text::opt_text(value)),
{
    match choice {
        TypeChoice::Bool => EType::Bool { value },
        TypeChoice::Int => EType::Int { value },
        TypeChoice::String => EType::String { value },
        TypeChoice::Char => EType::Char { value },
        TypeChoice::NoneType => EType::NoneType { message: None },
    }
}

/// Making a type of a choice and asking for the choice again are inverse, and a
/// bare type is spelled by its label.
pub proof fn law_choice_and_type_agree(choice: TypeChoice, value: Option<Seq<char>>)
    ensures
        choice_of(declared_type(choice, value)) == choice,
        declared_type(choice, None).spelling() == choice_label(choice),
        type_choices().contains(choice),
{
    let all = type_choices();
    match choice {
        TypeChoice::String => assert(all[0] == choice),
        TypeChoice::Char => assert(all[1] == choice),
        TypeChoice::Bool => assert(all[2] == choice),
        TypeChoice::Int => assert(all[3] == choice),
        TypeChoice::NoneType => assert(all[4] == choice),
    }
}

/// The node kinds a user action can create.
///
/// Two of them carry what makes them themselves, because the prompt offers one
/// row per possible answer rather than one row per kind: a `FunctionCall` names
/// the function it will call, a `Constant` the value it will hold.
#[derive(Debug)]
pub enum AddKind {
    Constant(TypeChoice, Option<String>),
    Source,
    FunctionCall(FunctionDeclarationId),
    Match,
    Pattern,
    TypeCast,
    Tunnel,
}

/// The mathematical value of an [`AddKind`].
pub enum AddKindView {
    Constant(TypeChoice, Option<Seq<char>>),
    Source,
    FunctionCall(FunctionDeclarationId),
    Match,
    Pattern,
    TypeCast,
    Tunnel,
}

impl View for AddKind {
    type V = AddKindView;

    open spec fn view(&self) -> AddKindView {
        match self {
            AddKind::Constant(choice, value) => AddKindView::Constant(
                *choice,
                text::opt_text(*value),
            ),
            AddKind::Source => AddKindView::Source,
            AddKind::FunctionCall(id) => AddKindView::FunctionCall(*id),
            AddKind::Match => AddKindView::Match,
            AddKind::Pattern => AddKindView::Pattern,
            AddKind::TypeCast => AddKindView::TypeCast,
            AddKind::Tunnel => AddKindView::Tunnel,
        }
    }
}

impl Clone for AddKind {
    fn clone(&self) -> (res: Self)
        ensures
            res == *self,
    {
        match self {
            AddKind::Constant(choice, value) => AddKind::Constant(
                *choice,
                text::clone_opt_text(value),
            ),
            AddKind::Source => AddKind::Source,
            AddKind::FunctionCall(id) => AddKind::FunctionCall(*id),
            AddKind::Match => AddKind::Match,
            AddKind::Pattern => AddKind::Pattern,
            AddKind::TypeCast => AddKind::TypeCast,
            AddKind::Tunnel => AddKind::Tunnel,
        }
    }
}

/// What committing a prompt row does. INSERT means whatever the caret's cell
/// is: on a free cell it builds a node, on a property cell it changes that
/// property.
#[derive(Debug)]
pub enum PromptAction {
    Create(AddKind),
    SetName(String),
    /// A type and, where it is a literal, that literal's text.
    SetType(TypeChoice, Option<String>),
}

/// The mathematical value of a [`PromptAction`].
pub enum PromptActionView {
    Create(AddKindView),
    SetName(Seq<char>),
    SetType(TypeChoice, Option<Seq<char>>),
}

impl View for PromptAction {
    type V = PromptActionView;

    open spec fn view(&self) -> PromptActionView {
        match self {
            PromptAction::Create(kind) => PromptActionView::Create(kind@),
            PromptAction::SetName(name) => PromptActionView::SetName(name@),
            PromptAction::SetType(choice, value) => PromptActionView::SetType(
                *choice,
                text::opt_text(*value),
            ),
        }
    }
}

impl Clone for PromptAction {
    fn clone(&self) -> (res: Self)
        ensures
            res == *self,
    {
        match self {
            PromptAction::Create(kind) => PromptAction::Create(kind.clone()),
            PromptAction::SetName(name) => PromptAction::SetName(name.clone()),
            PromptAction::SetType(choice, value) => PromptAction::SetType(
                *choice,
                text::clone_opt_text(value),
            ),
        }
    }
}

/// One row of the INSERT prompt: what it would do, what it is called, and the
/// muted right column that tells `charAt` from `concat` before the node exists.
#[derive(Debug)]
pub struct Suggestion {
    pub action: PromptAction,
    /// Typed to reach the row, and shown in its left column.
    pub label: String,
    /// The parameter types, empty for a kind that takes none.
    pub detail: String,
    pub allowed: bool,
}

/// The mathematical value of a [`Suggestion`].
pub struct SuggestionView {
    pub action: PromptActionView,
    pub label: Seq<char>,
    pub detail: Seq<char>,
    pub allowed: bool,
}

impl View for Suggestion {
    type V = SuggestionView;

    open spec fn view(&self) -> SuggestionView {
        SuggestionView {
            action: self.action@,
            label: self.label@,
            detail: self.detail@,
            allowed: self.allowed,
        }
    }
}

/// The values of a list of rows.
pub open spec fn row_views(rows: Seq<Suggestion>) -> Seq<SuggestionView> {
    rows.map_values(|row: Suggestion| row@)
}

proof fn lemma_row_pushed(rows: Seq<Suggestion>, row: Suggestion)
    ensures
        row_views(rows.push(row)) == row_views(rows).push(row@),
{
    assert(row_views(rows.push(row)) =~= row_views(rows).push(row@));
}

// ── Literals ──

/// `c` is one of the ten digits.
pub open spec fn is_digit(c: char) -> bool {
    '0' <= c <= '9'
}

/// The text between an opening quote and the closing one, if there is one: at
/// most one matching trailing quote is dropped.
pub open spec fn unquoted(body: Seq<char>, quote: char) -> (Seq<char>, bool) {
    if body.len() > 0 && body.last() == quote {
        (body.drop_last(), true)
    } else {
        (body, false)
    }
}

/// The literal a text spells, if it spells one: its type, the raw text between
/// the quotes, and whether a closing quote has been typed.
pub open spec fn literal_in(text: Seq<char>) -> Option<(TypeChoice, Seq<char>, bool)> {
    if text.len() == 0 {
        None
    } else if text[0] == '\'' {
        let (raw, closed) = unquoted(text.drop_first(), '\'');
        Some((TypeChoice::Char, raw, closed))
    } else if text[0] == '"' {
        let (raw, closed) = unquoted(text.drop_first(), '"');
        Some((TypeChoice::String, raw, closed))
    } else if is_digit(text[0]) {
        Some((TypeChoice::Int, text, false))
    } else if (text[0] == '-' || text[0] == '+') && text.len() > 1 {
        Some((TypeChoice::Int, text, false))
    } else {
        None
    }
}

/// The value of a typed literal.
pub open spec fn literal_view(literal: Option<(TypeChoice, String, bool)>) -> Option<
    (TypeChoice, Seq<char>, bool),
> {
    match literal {
        Some((choice, raw, closed)) => Some((choice, raw@, closed)),
        None => None,
    }
}

/// The literal the prompt text spells, if it spells one: its type, the raw text
/// between the quotes, and whether a closing quote has been typed.
///
/// The closing quote is optional, so the raw text drops a leading quote and *at
/// most one* matching trailing one. That makes `'''` the apostrophe and `''`
/// nothing at all. A bare `-` or `+` is not a number, it is the name of a
/// function, and the list has to keep offering it.
pub fn typed_literal(text: &str) -> (literal: Option<(TypeChoice, String, bool)>)
    ensures
        literal_view(literal) == literal_in(text@),
{
    let len: usize = text.unicode_len();
    if len == 0 {
        return None;
    }
    let first = text.get_char(0);
    let choice = if first == '\'' {
        TypeChoice::Char
    } else if first == '"' {
        TypeChoice::String
    } else if '0' <= first && first <= '9' {
        return Some((TypeChoice::Int, text.to_owned(), false));
    } else if (first == '-' || first == '+') && len > 1 {
        return Some((TypeChoice::Int, text.to_owned(), false));
    } else {
        return None;
    };
    assert(text@.drop_first() == text@.subrange(1, len as int));
    let closed = len > 1 && text.get_char(len - 1) == first;
    let raw = if closed {
        text.substring_char(1, len - 1)
    } else {
        text.substring_char(1, len)
    };
    assert(closed ==> raw@ == text@.drop_first().drop_last());
    Some((choice, raw.to_owned(), closed))
}

/// A space typed now would stand between quotes.
pub open spec fn quote_is_open(text: Seq<char>) -> bool {
    literal_in(text) matches Some((choice, raw, closed)) && (choice == TypeChoice::Char || choice
        == TypeChoice::String) && !closed
}

/// Whether `Space` writes a space instead of making room: inside a quote that
/// has not been closed yet, and only there.
pub fn in_open_quote(text: &str) -> (res: bool)
    ensures
        res == quote_is_open(text@),
{
    match typed_literal(text) {
        Some((TypeChoice::Char, _, closed)) => !closed,
        Some((TypeChoice::String, _, closed)) => !closed,
        _ => false,
    }
}

/// Whatever is typed behind an opening quote, without one of its own, is the
/// literal; and closing the quote does not change which literal it is.
pub proof fn law_closing_quote_is_optional(body: Seq<char>, quote: char)
    requires
        quote == '\'' || quote == '"',
        body.len() == 0 || body.last() != quote,
    ensures
        literal_in(seq![quote] + body) matches Some((choice, raw, closed)) && raw == body && !closed
            && literal_in(seq![quote] + body.push(quote)) == Some((choice, body, true)),
        quote_is_open(seq![quote] + body),
        !quote_is_open(seq![quote] + body.push(quote)),
{
    assert((seq![quote] + body).drop_first() =~= body);
    assert((seq![quote] + body.push(quote)).drop_first() =~= body.push(quote));
    assert(body.push(quote).drop_last() =~= body);
}

/// No declared function and no node kind is mistaken for a literal, but the bare
/// signs are left to the functions of that name.
pub proof fn law_signs_alone_are_names(sign: char)
    requires
        sign == '-' || sign == '+',
    ensures
        literal_in(seq![sign]) is None,
{
}

// ── Type names ──

/// A type as the suggestion list spells it: `Int` for an integer, the members of
/// a sum with bars between them, and every other type in full.
pub open spec fn short_name(t: infer::ETypeView) -> Seq<char>
    decreases t,
{
    match t {
        infer::ETypeView::Int(_) => "Int"@,
        infer::ETypeView::SumType(parts) => text::joined(short_names(parts), "|"@),
        other => infer::full_name(other),
    }
}

/// The names of several types.
pub open spec fn short_names(types: Seq<infer::ETypeView>) -> Seq<Seq<char>>
    decreases types,
{
    if types.len() == 0 {
        Seq::empty()
    } else {
        short_names(types.drop_last()).push(short_name(types.last()))
    }
}

/// A type as the suggestion list spells it. Elsewhere an integer is written in
/// full, which is the right word where it has room; a row that has to fit
/// `Char|String,Char|String` beside a name does not.
pub fn short_type_name(t: &infer::EType) -> (name: String)
    ensures
        name@ == short_name(t@),
    decreases t,
{
    match t {
        infer::EType::Int(_) => "Int".to_owned(),
        infer::EType::SumType(parts) => {
            let mut name = String::new();
            let ghost views = infer::views(parts@);
            let mut i: usize = 0;
            while i < parts.len()
                invariant
                    i <= parts.len(),
                    *t == infer::EType::SumType(*parts),
                    views == infer::views(parts@),
                    name@ == text::joined(short_names(views.take(i as int)), "|"@),
                decreases parts.len() - i,
            {
                proof {
                    assert(decreases_to!(t => t->SumType_0));
                    assert(decreases_to!(t->SumType_0 => parts@));
                    assert(decreases_to!(parts@ => parts@[i as int]));
                    infer::lemma_views(parts@);
                    lemma_short_names(views.take(i as int));
                    assert(views.take(i + 1).drop_last() == views.take(i as int));
                    assert(short_names(views.take(i + 1)).drop_last() == short_names(
                        views.take(i as int),
                    ));
                }
                let part = short_type_name(&parts[i]);
                if i > 0 {
                    name = name.concat("|");
                }
                name = name.concat(part.as_str());
                assert(name@ == text::joined(short_names(views.take(i + 1)), "|"@));
                i = i + 1;
            }
            proof {
                infer::lemma_views(parts@);
                assert(views.take(i as int) == views);
            }
            name
        },
        other => infer::spelled(other),
    }
}

proof fn lemma_short_names(types: Seq<infer::ETypeView>)
    ensures
        short_names(types).len() == types.len(),
    decreases types.len(),
{
    if types.len() > 0 {
        lemma_short_names(types.drop_last());
    }
}

/// A literal's type, as the list's right column spells it.
pub open spec fn literal_type(choice: TypeChoice) -> Seq<char> {
    short_name(infer::carried(declared_type(choice, None)))
}

/// A literal's type for the list's right column.
pub fn literal_type_name(choice: TypeChoice) -> (name: String)
    ensures
        name@ == literal_type(choice),
{
    short_type_name(&infer::graph_type_to_eval_type(&make_etype(choice, None)))
}

/// What a parameter takes, as the list spells it. An unconstrained one has no
/// name in the type language, so it is said in prose.
pub open spec fn parameter_detail(parameter: FunctionParameterView) -> Seq<char> {
    match parameter.etype {
        Some(t) => short_name(t),
        None => "any"@,
    }
}

/// The parameter types of a declared function.
pub open spec fn signature(declaration: FunctionDeclarationView) -> Seq<char> {
    text::joined(
        declaration.inputs.map_values(|parameter: FunctionParameterView| parameter_detail(parameter)),
        ","@,
    )
}

/// The parameter types of a declared function, for the prompt's muted right
/// column. Inputs only: the output type is what the finished node's own output
/// anchor shows.
pub fn signature_detail(declaration: &FunctionDeclaration) -> (detail: String)
    ensures
        detail@ == signature(declaration@),
{
    let mut detail = String::new();
    let ghost details = declaration@.inputs.map_values(
        |parameter: FunctionParameterView| parameter_detail(parameter),
    );
    let mut i: usize = 0;
    while i < declaration.inputs.len()
        invariant
            i <= declaration.inputs.len(),
            details.len() == declaration.inputs.len(),
            details == declaration@.inputs.map_values(
                |parameter: FunctionParameterView| parameter_detail(parameter),
            ),
            detail@ == text::joined(details.take(i as int), ","@),
        decreases declaration.inputs.len() - i,
    {
        assert(declaration@.inputs[i as int] == declaration.inputs@[i as int]@);
        let part = match &declaration.inputs[i].etype {
            Some(t) => short_type_name(t),
            None => "any".to_owned(),
        };
        assert(part@ == details[i as int]);
        if i > 0 {
            detail = detail.concat(",");
        }
        detail = detail.concat(part.as_str());
        assert(details.take(i + 1).drop_last() == details.take(i as int));
        assert(detail@ == text::joined(details.take(i + 1), ","@));
        i = i + 1;
    }
    assert(details.take(i as int) == details);
    detail
}

// ── Rows that set a property ──

/// The row that declares a base type.
pub open spec fn type_row(choice: TypeChoice) -> SuggestionView {
    SuggestionView {
        action: PromptActionView::SetType(choice, None),
        label: choice_label(choice),
        detail: Seq::empty(),
        allowed: true,
    }
}

/// The base types whose names begin with `text`, as rows that declare one.
pub open spec fn type_rows_for(text: Seq<char>) -> Seq<SuggestionView> {
    type_choices().filter(
        |choice: TypeChoice| text::begins_with(choice_label(choice), text),
    ).map_values(|choice: TypeChoice| type_row(choice))
}

/// The five base types, as rows that declare one.
pub fn type_rows(text: &str) -> (rows: Vec<Suggestion>)
    ensures
        row_views(rows@) == type_rows_for(text@),
{
    let choices = vec![
        TypeChoice::String,
        TypeChoice::Char,
        TypeChoice::Bool,
        TypeChoice::Int,
        TypeChoice::NoneType,
    ];
    let ghost offered = |choice: TypeChoice| text::begins_with(choice_label(choice), text@);
    let ghost as_row = |choice: TypeChoice| type_row(choice);
    let mut rows: Vec<Suggestion> = Vec::new();
    let mut i: usize = 0;
    while i < choices.len()
        invariant
            i <= choices.len(),
            offered == (|choice: TypeChoice| text::begins_with(choice_label(choice), text@)),
            as_row == (|choice: TypeChoice| type_row(choice)),
            row_views(rows@) == choices@.take(i as int).filter(offered).map_values(as_row),
        decreases choices.len() - i,
    {
        let choice = choices[i];
        proof {
            assert(choices@.take(i + 1) == choices@.take(i as int).push(choice));
            choices@.take(i as int).lemma_filter_push(choice, offered);
        }
        if text::matches_prefix(type_choice_label(choice), text) {
            let row = Suggestion {
                action: PromptAction::SetType(choice, None),
                label: type_choice_label(choice).to_owned(),
                detail: String::new(),
                allowed: true,
            };
            proof {
                lemma_row_pushed(rows@, row);
                let kept = choices@.take(i as int).filter(offered);
                assert(kept.push(choice).map_values(as_row) =~= kept.map_values(as_row).push(
                    type_row(choice),
                ));
            }
            rows.push(row);
        }
        i = i + 1;
    }
    assert(choices@.take(i as int) == type_choices());
    rows
}

/// A value that is written as a word: its type and, where it has one, its text.
pub struct Keyword {
    pub label: &'static str,
    pub choice: TypeChoice,
    pub value: Option<&'static str>,
}

/// The mathematical value of a [`Keyword`].
pub struct KeywordView {
    pub label: Seq<char>,
    pub choice: TypeChoice,
    pub value: Option<Seq<char>>,
}

impl View for Keyword {
    type V = KeywordView;

    open spec fn view(&self) -> KeywordView {
        KeywordView {
            label: self.label@,
            choice: self.choice,
            value: match self.value {
                Some(value) => Some(value@),
                None => None,
            },
        }
    }
}

/// The three values that are written as a word instead of as a shape, in list
/// order. `none` carries no value because it *has* none.
pub open spec fn keywords() -> Seq<KeywordView> {
    seq![
        KeywordView { label: "true"@, choice: TypeChoice::Bool, value: Some("true"@) },
        KeywordView { label: "false"@, choice: TypeChoice::Bool, value: Some("false"@) },
        KeywordView {
            label: etype::NONE_LITERAL@,
            choice: TypeChoice::NoneType,
            value: None,
        },
    ]
}

fn literal_keywords() -> (list: Vec<Keyword>)
    ensures
        list@.map_values(|keyword: Keyword| keyword@) == keywords(),
{
    let list = vec![
        Keyword { label: "true", choice: TypeChoice::Bool, value: Some("true") },
        Keyword { label: "false", choice: TypeChoice::Bool, value: Some("false") },
        Keyword { label: etype::NONE_LITERAL, choice: TypeChoice::NoneType, value: None },
    ];
    assert(list@.map_values(|keyword: Keyword| keyword@) == keywords());
    list
}

/// What the typed literal is offered as: the way its type writes it while it can
/// be read as a value, which puts the quotes back on, and the typed text while
/// it cannot.
pub open spec fn literal_label(
    text: Seq<char>,
    choice: TypeChoice,
    raw: Seq<char>,
    parses: bool,
) -> Seq<char> {
    if parses {
        declared_type(choice, Some(raw)).spelling()
    } else {
        text
    }
}

/// The row for the literal the text spells, if it spells one.
pub open spec fn typed_row_for(text: Seq<char>, parses: bool) -> Seq<SuggestionView> {
    match literal_in(text) {
        Some((choice, raw, _)) => seq![
            SuggestionView {
                action: PromptActionView::SetType(choice, Some(raw)),
                label: literal_label(text, choice, raw, parses),
                detail: literal_type(choice),
                allowed: parses,
            },
        ],
        None => Seq::empty(),
    }
}

/// The row for a value that is written as a word.
pub open spec fn keyword_row(keyword: KeywordView) -> SuggestionView {
    SuggestionView {
        action: PromptActionView::SetType(keyword.choice, keyword.value),
        label: keyword.label,
        detail: literal_type(keyword.choice),
        allowed: true,
    }
}

/// The rows for the values that are written as a word and begin with `text`.
pub open spec fn keyword_rows_for(text: Seq<char>) -> Seq<SuggestionView> {
    keywords().filter(
        |keyword: KeywordView| text::begins_with(keyword.label, text),
    ).map_values(|keyword: KeywordView| keyword_row(keyword))
}

/// The literal the text spells, if any, and those that are written as a word.
pub open spec fn literal_rows_for(text: Seq<char>, parses: bool) -> Seq<SuggestionView> {
    typed_row_for(text, parses) + keyword_rows_for(text)
}

/// The label of a typed literal.
fn label_of_literal(text: &str, choice: TypeChoice, raw: &String, parses: bool) -> (label: String)
    ensures
        label@ == literal_label(text@, choice, raw@, parses),
{
    if parses {
        make_etype(choice, Some(raw.clone())).spelled()
    } else {
        text.to_owned()
    }
}

/// The literal the text spells, if any, and the three that are written as a
/// word, as rows that *set* a property rather than build a node.
///
/// `parses` says whether the typed literal can be read as a value of its type.
pub fn literal_rows(text: &str, parses: bool) -> (rows: Vec<Suggestion>)
    ensures
        row_views(rows@) == literal_rows_for(text@, parses),
{
    let mut rows: Vec<Suggestion> = Vec::new();
    if let Some((choice, raw, _)) = typed_literal(text) {
        let label = label_of_literal(text, choice, &raw, parses);
        let row = Suggestion {
            action: PromptAction::SetType(choice, Some(raw)),
            label,
            detail: literal_type_name(choice),
            allowed: parses,
        };
        proof {
            lemma_row_pushed(rows@, row);
        }
        rows.push(row);
    }
    assert(row_views(rows@) == typed_row_for(text@, parses));
    let words = literal_keywords();
    let ghost views = words@.map_values(|keyword: Keyword| keyword@);
    let ghost offered = |keyword: KeywordView| text::begins_with(keyword.label, text@);
    let ghost as_row = |keyword: KeywordView| keyword_row(keyword);
    let mut i: usize = 0;
    while i < words.len()
        invariant
            i <= words.len(),
            views == words@.map_values(|keyword: Keyword| keyword@),
            offered == (|keyword: KeywordView| text::begins_with(keyword.label, text@)),
            as_row == (|keyword: KeywordView| keyword_row(keyword)),
            row_views(rows@) == typed_row_for(text@, parses) + views.take(i as int).filter(
                offered,
            ).map_values(as_row),
        decreases words.len() - i,
    {
        proof {
            assert(views.take(i + 1) == views.take(i as int).push(views[i as int]));
            views.take(i as int).lemma_filter_push(views[i as int], offered);
        }
        if text::matches_prefix(words[i].label, text) {
            let value = match words[i].value {
                Some(value) => Some(value.to_owned()),
                None => None,
            };
            let row = Suggestion {
                action: PromptAction::SetType(words[i].choice, value),
                label: words[i].label.to_owned(),
                detail: literal_type_name(words[i].choice),
                allowed: true,
            };
            proof {
                lemma_row_pushed(rows@, row);
                let kept = views.take(i as int).filter(offered);
                assert(row@ == keyword_row(views[i as int]));
                assert(kept.push(views[i as int]).map_values(as_row) =~= kept.map_values(
                    as_row,
                ).push(keyword_row(views[i as int])));
                assert(typed_row_for(text@, parses) + kept.map_values(as_row).push(row@) =~= (
                typed_row_for(text@, parses) + kept.map_values(as_row)).push(row@));
            }
            rows.push(row);
        }
        i = i + 1;
    }
    assert(views.take(i as int) == keywords());
    rows
}

/// Literals first, base types after them.
pub open spec fn type_or_literal_rows_for(text: Seq<char>, parses: bool) -> Seq<SuggestionView> {
    literal_rows_for(text, parses) + type_rows_for(text)
}

/// A base type or a literal, in one list: what a TypeCast's and a Pattern's cell
/// can both be set to.
pub fn type_or_literal_rows(text: &str, parses: bool) -> (rows: Vec<Suggestion>)
    ensures
        row_views(rows@) == type_or_literal_rows_for(text@, parses),
{
    let mut rows = literal_rows(text, parses);
    let mut types = type_rows(text);
    let ghost all = rows@ + types@;
    rows.append(&mut types);
    assert(row_views(all) =~= literal_rows_for(text@, parses) + type_rows_for(text@));
    rows
}

/// A row with `none` as its type is greyed; every other one stays as it is.
pub open spec fn without_none_cast(row: SuggestionView) -> SuggestionView {
    match row.action {
        PromptActionView::SetType(TypeChoice::NoneType, _) => SuggestionView {
            allowed: false,
            detail: "casts nothing"@,
            ..row
        },
        _ => row,
    }
}

/// Refuse `none` as a cast target.
///
/// A cast to `none` would ignore whatever flows in and hand back a fixed
/// `none`, which is a Constant spelled the long way round. Greyed rather than
/// dropped: the prefix filters and the legality only greys.
pub fn refuse_none_cast(rows: Vec<Suggestion>) -> (res: Vec<Suggestion>)
    ensures
        row_views(res@) == row_views(rows@).map_values(
            |row: SuggestionView| without_none_cast(row),
        ),
{
    let mut res: Vec<Suggestion> = Vec::new();
    let ghost all = row_views(rows@);
    let ghost refused = |row: SuggestionView| without_none_cast(row);
    let mut i: usize = 0;
    while i < rows.len()
        invariant
            i <= rows.len(),
            all == row_views(rows@),
            refused == (|row: SuggestionView| without_none_cast(row)),
            row_views(res@) == all.take(i as int).map_values(refused),
        decreases rows.len() - i,
    {
        let old_row = &rows[i];
        let refuse = match &old_row.action {
            PromptAction::SetType(TypeChoice::NoneType, _) => true,
            _ => false,
        };
        let row = Suggestion {
            action: old_row.action.clone(),
            label: old_row.label.clone(),
            detail: if refuse {
                "casts nothing".to_owned()
            } else {
                old_row.detail.clone()
            },
            allowed: old_row.allowed && !refuse,
        };
        proof {
            lemma_row_pushed(res@, row);
            assert(row@ == without_none_cast(all[i as int]));
            assert(all.take(i + 1).map_values(refused) =~= all.take(i as int).map_values(
                refused,
            ).push(row@));
        }
        res.push(row);
        i = i + 1;
    }
    assert(all.take(i as int) == all);
    res
}

// ── Rows that build a node ──

/// The cell the caret stands on, as far as it decides what can be built there.
#[derive(Clone, Copy, Debug)]
pub struct CaretPlace {
    /// The scope is the program's own, and not a branch of a Match.
    pub is_root_scope: bool,
    /// The caret in the coordinates of its scope.
    pub local: Cell,
    /// The scope's last row, which belongs to its Sink.
    pub sink_z: Option<i32>,
    /// What kind of node claims the cell, if one does.
    pub occupant: Option<NodeKind>,
}

/// A node of the given kind may come into being at the given place.
///
/// The scope's last Z row belongs to its Sink alone. A Pattern needs the cell of
/// another Pattern, below which it goes. A Source stands on the root scope's
/// source row and a Tunnel on a branch's; everything else stands behind it.
pub open spec fn is_allowed(place: CaretPlace, kind: AddKindView) -> bool {
    let before_sink = match place.sink_z {
        Some(z) => place.local.z < z,
        None => true,
    };
    let free = place.occupant is None;
    let on_source_row = place.local.z == 0 && place.local.y == 0;
    before_sink && match kind {
        AddKindView::Pattern => place.occupant == Some(NodeKind::Pattern),
        AddKindView::Source => free && place.is_root_scope && on_source_row,
        AddKindView::Tunnel => free && !place.is_root_scope && on_source_row,
        _ => free && place.local.z != 0,
    }
}

/// May a node of this kind come into being at `place`?
///
/// The single source for both the greying of the suggestions and what `Enter`
/// accepts.
pub fn kind_allowed(place: &CaretPlace, kind: &AddKind) -> (res: bool)
    ensures
        res == is_allowed(*place, kind@),
{
    if let Some(z) = place.sink_z {
        if place.local.z >= z {
            return false;
        }
    }
    match kind {
        AddKind::Pattern => match place.occupant {
            Some(NodeKind::Pattern) => true,
            _ => false,
        },
        AddKind::Source => {
            place.occupant.is_none() && place.is_root_scope && place.local.z == 0 && place.local.y
                == 0
        },
        AddKind::Tunnel => {
            place.occupant.is_none() && !place.is_root_scope && place.local.z == 0 && place.local.y
                == 0
        },
        _ => place.occupant.is_none() && place.local.z != 0,
    }
}

/// Nothing may be built on the sink's row or behind it; what already stands
/// somewhere is only ever built on for the sake of another arm; and a Source and
/// a Tunnel are never both at home in one place.
pub proof fn law_where_nodes_go(place: CaretPlace, kind: AddKindView)
    ensures
        place.sink_z matches Some(z) ==> place.local.z >= z ==> !is_allowed(place, kind),
        is_allowed(place, kind) && place.occupant is Some ==> kind == AddKindView::Pattern,
        !(is_allowed(place, AddKindView::Source) && is_allowed(place, AddKindView::Tunnel)),
        is_allowed(place, AddKindView::Source) ==> place.is_root_scope,
        is_allowed(place, AddKindView::Tunnel) ==> !place.is_root_scope,
{
}

/// The kind may be built where the caret stands, which is nowhere if the caret
/// stands in no scope.
pub open spec fn caret_allows(place: Option<CaretPlace>, kind: AddKindView) -> bool {
    match place {
        Some(place) => is_allowed(place, kind),
        None => false,
    }
}

fn allowed_at(place: &Option<CaretPlace>, kind: &AddKind) -> (res: bool)
    ensures
        res == caret_allows(*place, kind@),
{
    match place {
        Some(place) => kind_allowed(place, kind),
        None => false,
    }
}

/// A node that can be built, before it is known whether it may be built here.
pub struct Offer {
    pub kind: AddKind,
    pub label: String,
    pub detail: String,
}

/// The mathematical value of an [`Offer`].
pub struct OfferView {
    pub kind: AddKindView,
    pub label: Seq<char>,
    pub detail: Seq<char>,
}

impl View for Offer {
    type V = OfferView;

    open spec fn view(&self) -> OfferView {
        OfferView { kind: self.kind@, label: self.label@, detail: self.detail@ }
    }
}

/// The values of a list of offers.
pub open spec fn offer_views(offers: Seq<Offer>) -> Seq<OfferView> {
    offers.map_values(|offer: Offer| offer@)
}

/// A kind that names itself.
pub open spec fn named_kind(kind: AddKindView, label: Seq<char>) -> OfferView {
    OfferView { kind, label, detail: Seq::empty() }
}

/// The kinds that name themselves, in list order.
pub open spec fn node_kinds() -> Seq<OfferView> {
    seq![
        named_kind(AddKindView::Source, "Source"@),
        named_kind(AddKindView::Match, "Match"@),
        named_kind(AddKindView::Pattern, "Pattern"@),
        named_kind(AddKindView::TypeCast, "TypeCast"@),
        named_kind(AddKindView::Tunnel, "Tunnel"@),
    ]
}

/// A constant that is written as a word.
pub open spec fn keyword_offer(keyword: KeywordView) -> OfferView {
    OfferView {
        kind: AddKindView::Constant(keyword.choice, keyword.value),
        label: keyword.label,
        detail: literal_type(keyword.choice),
    }
}

/// A call of a declared function.
pub open spec fn function_offer(
    functions: Map<usize, FunctionDeclaration>,
    key: usize,
) -> OfferView {
    OfferView {
        kind: AddKindView::FunctionCall(FunctionDeclarationId(key)),
        label: functions[key]@.name,
        detail: signature(functions[key]@),
    }
}

/// Everything that can be built and has a name: the node kinds, the constants
/// that are written as a word, and the functions in the order of `order`.
pub open spec fn offers_for(
    functions: Map<usize, FunctionDeclaration>,
    order: Seq<usize>,
) -> Seq<OfferView> {
    node_kinds() + keywords().map_values(|keyword: KeywordView| keyword_offer(keyword))
        + order.map_values(|key: usize| function_offer(functions, key))
}

/// The function `a` stands before the function `b`: by name, and where two have
/// one name, by key.
pub open spec fn comes_before(
    functions: Map<usize, FunctionDeclaration>,
    a: usize,
    b: usize,
) -> bool {
    text::precedes(functions[a]@.name, functions[b]@.name) || (functions[a]@.name
        == functions[b]@.name && a < b)
}

/// `order` holds every function once, sorted by name.
pub open spec fn is_by_name(order: Seq<usize>, functions: Map<usize, FunctionDeclaration>) -> bool {
    &&& order.to_set() == functions.dom()
    &&& sorted_by_name(order, functions)
}

/// Every function of `order` stands before those behind it.
pub open spec fn sorted_by_name(
    order: Seq<usize>,
    functions: Map<usize, FunctionDeclaration>,
) -> bool {
    forall|i: int, j: int|
        #![trigger order[i], order[j]]
        0 <= i < j < order.len() ==> comes_before(functions, order[i], order[j])
}

/// The functions sorted by name. There is one such order, see
/// [`law_order_by_name_is_determined`].
pub open spec fn by_name(functions: Map<usize, FunctionDeclaration>) -> Seq<usize> {
    choose|order: Seq<usize>| #[trigger] is_by_name(order, functions)
}

proof fn lemma_comes_before(functions: Map<usize, FunctionDeclaration>, a: usize, b: usize)
    ensures
        comes_before(functions, a, b) ==> !comes_before(functions, b, a),
        a != b ==> comes_before(functions, a, b) || comes_before(functions, b, a),
        !comes_before(functions, a, a),
{
    let one = functions[a]@.name;
    let other = functions[b]@.name;
    if text::precedes(one, other) {
        text::lemma_precedes_asymmetric(one, other);
    }
    if text::precedes(one, one) {
        text::lemma_precedes_asymmetric(one, one);
    }
    if !text::precedes(one, other) && !text::precedes(other, one) {
        text::lemma_precedes_total(one, other);
    }
}

proof fn lemma_comes_before_transitive(
    functions: Map<usize, FunctionDeclaration>,
    a: usize,
    b: usize,
    c: usize,
)
    requires
        comes_before(functions, a, b),
        comes_before(functions, b, c),
    ensures
        comes_before(functions, a, c),
{
    let one = functions[a]@.name;
    let two = functions[b]@.name;
    let three = functions[c]@.name;
    if text::precedes(one, two) && text::precedes(two, three) {
        text::lemma_precedes_transitive(one, two, three);
    }
}

/// There is one order by name: however the table is walked, the list comes out
/// the same.
pub proof fn law_order_by_name_is_determined(
    functions: Map<usize, FunctionDeclaration>,
    one: Seq<usize>,
    other: Seq<usize>,
)
    requires
        is_by_name(one, functions),
        is_by_name(other, functions),
    ensures
        one == other,
        one.no_duplicates(),
        one == by_name(functions),
{
    lemma_one_order(functions, one, other);
    let chosen = by_name(functions);
    assert(is_by_name(chosen, functions));
    lemma_one_order(functions, one, chosen);
    assert forall|i: int, j: int| 0 <= i < one.len() && 0 <= j < one.len() && i != j implies one[i]
        != one[j] by {
        lemma_comes_before(functions, one[i], one[i]);
        if i < j {
            assert(comes_before(functions, one[i], one[j]));
        } else {
            assert(comes_before(functions, one[j], one[i]));
        }
    }
}

proof fn lemma_one_order(
    functions: Map<usize, FunctionDeclaration>,
    one: Seq<usize>,
    other: Seq<usize>,
)
    requires
        sorted_by_name(one, functions),
        sorted_by_name(other, functions),
        one.to_set() == other.to_set(),
    ensures
        one == other,
    decreases one.len(),
{
    if one.len() == 0 {
        if other.len() > 0 {
            assert(other.to_set().contains(other[0]));
            assert(one.to_set().contains(other[0]));
        }
        assert(one =~= other);
    } else {
        assert(one.to_set().contains(one.last()));
        assert(other.to_set().contains(one.last()));
        assert(other.contains(one.last()));
        let i = choose|i: int| 0 <= i < other.len() && other[i] == one.last();
        assert(other.to_set().contains(other.last()));
        assert(one.to_set().contains(other.last()));
        assert(one.contains(other.last()));
        let j = choose|j: int| 0 <= j < one.len() && one[j] == other.last();
        if i < other.len() - 1 {
            assert(comes_before(functions, other[i], other[other.len() - 1]));
            lemma_comes_before(functions, one.last(), other.last());
            if j < one.len() - 1 {
                assert(comes_before(functions, one[j], one[one.len() - 1]));
            }
        }
        let first = one.drop_last();
        let second = other.drop_last();
        assert(one.last() == other.last());
        assert forall|k: usize| first.to_set().contains(k) == second.to_set().contains(k) by {
            if first.contains(k) {
                lemma_not_the_last(functions, one, k);
                assert(one.to_set().contains(k));
                assert(other.contains(k));
                let at = choose|at: int| 0 <= at < other.len() && other[at] == k;
                assert(second[at] == k);
            }
            if second.contains(k) {
                lemma_not_the_last(functions, other, k);
                assert(other.to_set().contains(k));
                assert(one.contains(k));
                let at = choose|at: int| 0 <= at < one.len() && one[at] == k;
                assert(first[at] == k);
            }
        }
        assert(first.to_set() =~= second.to_set());
        lemma_one_order(functions, first, second);
        assert(one =~= first.push(one.last()));
        assert(other =~= second.push(other.last()));
    }
}

proof fn lemma_not_the_last(
    functions: Map<usize, FunctionDeclaration>,
    order: Seq<usize>,
    key: usize,
)
    requires
        sorted_by_name(order, functions),
        order.len() > 0,
        order.drop_last().contains(key),
    ensures
        key != order.last(),
        order.contains(key),
{
    let shorter = order.drop_last();
    let at = choose|at: int| 0 <= at < shorter.len() && shorter[at] == key;
    assert(order[at] == key);
    assert(comes_before(functions, order[at], order[order.len() - 1]));
    lemma_comes_before(functions, key, key);
}

/// The keys of the declared functions, sorted by name. The table has no order of
/// its own, so an as-it-comes walk would reshuffle the list between frames.
pub fn functions_by_name(functions: &HashMap<usize, FunctionDeclaration>) -> (order: Vec<usize>)
    ensures
        order@ == by_name(functions@),
        is_by_name(order@, functions@),
        order@.no_duplicates(),
{
    let keys = table::keys_of(functions);
    let mut order: Vec<usize> = Vec::new();
    let mut i: usize = 0;
    while i < keys.len()
        invariant
            i <= keys.len(),
            keys@.no_duplicates(),
            keys@.to_set() == functions@.dom(),
            order@.to_set() == keys@.take(i as int).to_set(),
            sorted_by_name(order@, functions@),
        decreases keys.len() - i,
    {
        let key: usize = keys[i];
        proof {
            assert(keys@.to_set().contains(key));
            assert forall|j: int| 0 <= j < order.len() implies functions@.contains_key(
                #[trigger] order@[j],
            ) by {
                assert(order@.to_set().contains(order@[j]));
                assert(keys@.take(i as int).to_set().contains(order@[j]));
                let k = choose|k: int|
                    0 <= k < keys@.take(i as int).len() && keys@.take(i as int)[k] == order@[j];
                assert(keys@[k] == order@[j]);
                assert(keys@.to_set().contains(order@[j]));
            }
        }
        let mut at: usize = 0;
        while at < order.len() && is_earlier(functions, order[at], key)
            invariant
                at <= order.len(),
                forall|j: int|
                    0 <= j < order.len() ==> functions@.contains_key(#[trigger] order@[j]),
                functions@.contains_key(key),
                forall|j: int|
                    0 <= j < at ==> comes_before(functions@, #[trigger] order@[j], key),
            decreases order.len() - at,
        {
            at = at + 1;
        }
        let ghost before = order@;
        order.insert(at, key);
        proof {
            let done = keys@.take(i as int);
            assert(keys@.take(i + 1) =~= done.push(key));
            assert(done.push(key).to_set() =~= done.to_set().insert(key)) by {
                lemma_push_set(done, key);
            }
            assert(!before.contains(key)) by {
                if before.contains(key) {
                    assert(before.to_set().contains(key));
                    assert(done.to_set().contains(key));
                    let k = choose|k: int| 0 <= k < done.len() && done[k] == key;
                    assert(keys@[k] == keys@[i as int]);
                }
            }
            if at < before.len() {
                assert(before[at as int] != key);
                lemma_comes_before(functions@, before[at as int], key);
            }
            lemma_insert_by_name(before, functions@, at as int, key);
            lemma_insert_set(before, at as int, key);
        }
        i = i + 1;
    }
    assert(keys@.take(i as int) == keys@);
    proof {
        law_order_by_name_is_determined(functions@, order@, order@);
    }
    order
}

fn is_earlier(functions: &HashMap<usize, FunctionDeclaration>, a: usize, b: usize) -> (res: bool)
    requires
        functions@.contains_key(a),
        functions@.contains_key(b),
    ensures
        res == comes_before(functions@, a, b),
{
    let one = functions.get(&a).unwrap().name.as_str();
    let other = functions.get(&b).unwrap().name.as_str();
    if text::is_before(one, other) {
        return true;
    }
    if text::is_before(other, one) {
        proof {
            lemma_comes_before(functions@, b, a);
        }
        return false;
    }
    proof {
        text::lemma_precedes_total(one@, other@);
    }
    a < b
}

proof fn lemma_push_set(keys: Seq<usize>, key: usize)
    ensures
        keys.push(key).to_set() == keys.to_set().insert(key),
{
    let grown = keys.push(key);
    assert forall|k: usize| grown.to_set().contains(k) <==> keys.to_set().insert(key).contains(
        k,
    ) by {
        if grown.to_set().contains(k) {
            let j = choose|j: int| 0 <= j < grown.len() && grown[j] == k;
            if j < keys.len() {
                assert(keys[j] == k);
            }
        }
        if keys.to_set().contains(k) {
            let j = choose|j: int| 0 <= j < keys.len() && keys[j] == k;
            assert(grown[j] == k);
        }
        assert(grown[keys.len() as int] == key);
    }
    assert(grown.to_set() =~= keys.to_set().insert(key));
}

proof fn lemma_insert_set(keys: Seq<usize>, at: int, key: usize)
    requires
        0 <= at <= keys.len(),
    ensures
        keys.insert(at, key).to_set() == keys.to_set().insert(key),
{
    let grown = keys.insert(at, key);
    assert forall|k: usize| grown.to_set().contains(k) <==> keys.to_set().insert(key).contains(
        k,
    ) by {
        if grown.to_set().contains(k) {
            let j = choose|j: int| 0 <= j < grown.len() && grown[j] == k;
            if j < at {
                assert(keys[j] == k);
            } else if j > at {
                assert(keys[j - 1] == k);
            }
        }
        if keys.to_set().contains(k) {
            let j = choose|j: int| 0 <= j < keys.len() && keys[j] == k;
            if j < at {
                assert(grown[j] == k);
            } else {
                assert(grown[j + 1] == k);
            }
        }
        assert(grown[at] == key);
    }
    assert(grown.to_set() =~= keys.to_set().insert(key));
}

proof fn lemma_insert_by_name(
    order: Seq<usize>,
    functions: Map<usize, FunctionDeclaration>,
    at: int,
    key: usize,
)
    requires
        0 <= at <= order.len(),
        sorted_by_name(order, functions),
        forall|j: int| 0 <= j < at ==> comes_before(functions, #[trigger] order[j], key),
        at < order.len() ==> comes_before(functions, key, order[at]),
    ensures
        sorted_by_name(order.insert(at, key), functions),
{
    let grown = order.insert(at, key);
    assert forall|i: int, j: int|
        #![trigger grown[i], grown[j]]
        0 <= i < j < grown.len() implies comes_before(functions, grown[i], grown[j]) by {
        let p = if i < at { i } else { i - 1 };
        let q = if j < at { j } else { j - 1 };
        if i != at && j != at {
            assert(grown[i] == order[p] && grown[j] == order[q]);
        } else if j == at {
            assert(grown[i] == order[i]);
        } else {
            assert(grown[j] == order[q]);
            if q > at {
                assert(comes_before(functions, order[at], order[q]));
                lemma_comes_before_transitive(functions, key, order[at], order[q]);
            }
        }
    }
}

/// An offer as a row of the list.
pub open spec fn create_row(offer: OfferView, place: Option<CaretPlace>) -> SuggestionView {
    SuggestionView {
        action: PromptActionView::Create(offer.kind),
        label: offer.label,
        detail: offer.detail,
        allowed: caret_allows(place, offer.kind),
    }
}

/// The row that builds a constant of the literal the text spells, if it spells
/// one.
pub open spec fn typed_constant_row_for(
    place: Option<CaretPlace>,
    text: Seq<char>,
    parses: bool,
) -> Seq<SuggestionView> {
    match literal_in(text) {
        Some((choice, raw, _)) => {
            let kind = AddKindView::Constant(choice, Some(raw));
            seq![
                SuggestionView {
                    action: PromptActionView::Create(kind),
                    label: literal_label(text, choice, raw, parses),
                    detail: literal_type(choice),
                    allowed: parses && caret_allows(place, kind),
                },
            ]
        },
        None => Seq::empty(),
    }
}

/// The rows that build a node: the typed literal first, then everything whose
/// name begins with the text.
pub open spec fn create_rows_for(
    functions: Map<usize, FunctionDeclaration>,
    order: Seq<usize>,
    place: Option<CaretPlace>,
    text: Seq<char>,
    parses: bool,
) -> Seq<SuggestionView> {
    typed_constant_row_for(place, text, parses) + offers_for(functions, order).filter(
        |offer: OfferView| text::begins_with(offer.label, text),
    ).map_values(|offer: OfferView| create_row(offer, place))
}

fn offer_of(kind: AddKind, label: &str) -> (offer: Offer)
    ensures
        offer@ == named_kind(kind@, label@),
{
    Offer { kind, label: label.to_owned(), detail: String::new() }
}

proof fn lemma_offer_pushed(offers: Seq<Offer>, offer: Offer)
    ensures
        offer_views(offers.push(offer)) == offer_views(offers).push(offer@),
{
    assert(offer_views(offers.push(offer)) =~= offer_views(offers).push(offer@));
}

/// Everything that can be built and has a name.
fn all_offers(
    functions: &HashMap<usize, FunctionDeclaration>,
    order: &Vec<usize>,
) -> (offers: Vec<Offer>)
    requires
        forall|i: int| 0 <= i < order.len() ==> functions@.contains_key(#[trigger] order@[i]),
    ensures
        offer_views(offers@) == offers_for(functions@, order@),
{
    let mut offers = vec![
        offer_of(AddKind::Source, "Source"),
        offer_of(AddKind::Match, "Match"),
        offer_of(AddKind::Pattern, "Pattern"),
        offer_of(AddKind::TypeCast, "TypeCast"),
        offer_of(AddKind::Tunnel, "Tunnel"),
    ];
    assert(offer_views(offers@) =~= node_kinds());
    let words = literal_keywords();
    let ghost views = words@.map_values(|keyword: Keyword| keyword@);
    let ghost as_offer = |keyword: KeywordView| keyword_offer(keyword);
    let mut i: usize = 0;
    while i < words.len()
        invariant
            i <= words.len(),
            views == words@.map_values(|keyword: Keyword| keyword@),
            as_offer == (|keyword: KeywordView| keyword_offer(keyword)),
            offer_views(offers@) == node_kinds() + views.take(i as int).map_values(as_offer),
        decreases words.len() - i,
    {
        let value = match words[i].value {
            Some(value) => Some(value.to_owned()),
            None => None,
        };
        let offer = Offer {
            kind: AddKind::Constant(words[i].choice, value),
            label: words[i].label.to_owned(),
            detail: literal_type_name(words[i].choice),
        };
        proof {
            lemma_offer_pushed(offers@, offer);
            assert(offer@ == keyword_offer(views[i as int]));
            assert(node_kinds() + views.take(i + 1).map_values(as_offer) =~= (node_kinds()
                + views.take(i as int).map_values(as_offer)).push(offer@));
        }
        offers.push(offer);
        i = i + 1;
    }
    assert(views.take(i as int) == keywords());
    let ghost named = node_kinds() + keywords().map_values(as_offer);
    let ghost as_call = |key: usize| function_offer(functions@, key);
    let mut j: usize = 0;
    while j < order.len()
        invariant
            j <= order.len(),
            forall|i: int| 0 <= i < order.len() ==> functions@.contains_key(#[trigger] order@[i]),
            as_call == (|key: usize| function_offer(functions@, key)),
            offer_views(offers@) == named + order@.take(j as int).map_values(as_call),
        decreases order.len() - j,
    {
        let key: usize = order[j];
        let declaration = functions.get(&key).unwrap();
        let offer = Offer {
            kind: AddKind::FunctionCall(FunctionDeclarationId(key)),
            label: declaration.name.clone(),
            detail: signature_detail(declaration),
        };
        proof {
            lemma_offer_pushed(offers@, offer);
            assert(offer@ == function_offer(functions@, key));
            assert(named + order@.take(j + 1).map_values(as_call) =~= (named + order@.take(
                j as int,
            ).map_values(as_call)).push(offer@));
        }
        offers.push(offer);
        j = j + 1;
    }
    assert(order@.take(j as int) == order@);
    offers
}

/// What the prompt offers on a cell that names nothing: the node kinds, the
/// literals and every declared function, each with whether it may be created
/// where the caret stands.
///
/// The typed literal is not prefix-filtered: it *is* the text. It leads the list
/// because it is the most literal reading of what stands there. `parses` says
/// whether it can be read as a value of its type.
pub fn create_candidates(
    functions: &HashMap<usize, FunctionDeclaration>,
    place: &Option<CaretPlace>,
    text: &str,
    parses: bool,
) -> (rows: Vec<Suggestion>)
    ensures
        row_views(rows@) == create_rows_for(
            functions@,
            by_name(functions@),
            *place,
            text@,
            parses,
        ),
{
    let mut rows: Vec<Suggestion> = Vec::new();
    if let Some((choice, raw, _)) = typed_literal(text) {
        let label = label_of_literal(text, choice, &raw, parses);
        let kind = AddKind::Constant(choice, Some(raw));
        let allowed = parses && allowed_at(place, &kind);
        let row = Suggestion {
            action: PromptAction::Create(kind),
            label,
            detail: literal_type_name(choice),
            allowed,
        };
        proof {
            lemma_row_pushed(rows@, row);
        }
        rows.push(row);
    }
    let ghost typed = typed_constant_row_for(*place, text@, parses);
    assert(row_views(rows@) == typed);
    let order = functions_by_name(functions);
    assert forall|i: int| 0 <= i < order.len() implies functions@.contains_key(
        #[trigger] order@[i],
    ) by {
        assert(order@.to_set().contains(order@[i]));
    }
    let offers = all_offers(functions, &order);
    let ghost views = offer_views(offers@);
    let ghost named = |offer: OfferView| text::begins_with(offer.label, text@);
    let ghost as_row = |offer: OfferView| create_row(offer, *place);
    let mut i: usize = 0;
    while i < offers.len()
        invariant
            i <= offers.len(),
            views == offer_views(offers@),
            named == (|offer: OfferView| text::begins_with(offer.label, text@)),
            as_row == (|offer: OfferView| create_row(offer, *place)),
            row_views(rows@) == typed + views.take(i as int).filter(named).map_values(as_row),
        decreases offers.len() - i,
    {
        proof {
            assert(views.take(i + 1) == views.take(i as int).push(views[i as int]));
            views.take(i as int).lemma_filter_push(views[i as int], named);
        }
        if text::matches_prefix(offers[i].label.as_str(), text) {
            let row = Suggestion {
                allowed: allowed_at(place, &offers[i].kind),
                action: PromptAction::Create(offers[i].kind.clone()),
                label: offers[i].label.clone(),
                detail: offers[i].detail.clone(),
            };
            proof {
                lemma_row_pushed(rows@, row);
                let kept = views.take(i as int).filter(named);
                assert(row@ == create_row(views[i as int], *place));
                assert(typed + kept.push(views[i as int]).map_values(as_row) =~= (typed
                    + kept.map_values(as_row)).push(row@));
            }
            rows.push(row);
        }
        i = i + 1;
    }
    assert(views.take(i as int) == views);
    rows
}

/// The one row of a prompt that names something: the text itself. An empty name
/// is a name, so the row is always allowed.
pub open spec fn name_row_for(text: Seq<char>) -> SuggestionView {
    SuggestionView {
        action: PromptActionView::SetName(text),
        label: text,
        detail: "Name"@,
        allowed: true,
    }
}

/// What the prompt offers for `target` while `text` is typed.
pub open spec fn candidates_for(
    target: InsertTarget,
    functions: Map<usize, FunctionDeclaration>,
    place: Option<CaretPlace>,
    text: Seq<char>,
    parses: bool,
) -> Seq<SuggestionView> {
    match target {
        InsertTarget::Create => create_rows_for(
            functions,
            by_name(functions),
            place,
            text,
            parses,
        ),
        InsertTarget::Edit(_, EditTarget::SourceName) => seq![name_row_for(text)],
        InsertTarget::Edit(_, EditTarget::SourceType) => type_rows_for(text),
        InsertTarget::Edit(_, EditTarget::TunnelType) => type_rows_for(text),
        InsertTarget::Edit(_, EditTarget::ConstantValue) => literal_rows_for(text, parses),
        InsertTarget::Edit(_, EditTarget::CastType) => type_or_literal_rows_for(
            text,
            parses,
        ).map_values(|row: SuggestionView| without_none_cast(row)),
        InsertTarget::Edit(_, EditTarget::PatternType) => type_or_literal_rows_for(text, parses),
    }
}

/// Two rows say the same: they differ at most in whether they are allowed.
pub open spec fn same_row(one: SuggestionView, other: SuggestionView) -> bool {
    one.action == other.action && one.label == other.label && one.detail == other.detail
}

/// The prefix filters, the caret only greys: wherever the caret stands, the same
/// text offers the same rows in the same order, and they differ at most in whether
/// they are allowed.
pub proof fn law_the_caret_only_greys(
    target: InsertTarget,
    functions: Map<usize, FunctionDeclaration>,
    here: Option<CaretPlace>,
    there: Option<CaretPlace>,
    text: Seq<char>,
    parses: bool,
)
    ensures
        candidates_for(target, functions, here, text, parses).len() == candidates_for(
            target,
            functions,
            there,
            text,
            parses,
        ).len(),
        forall|i: int|
            #![trigger candidates_for(target, functions, here, text, parses)[i]]
            #![trigger candidates_for(target, functions, there, text, parses)[i]]
            0 <= i < candidates_for(target, functions, here, text, parses).len() ==> same_row(
                candidates_for(target, functions, here, text, parses)[i],
                candidates_for(target, functions, there, text, parses)[i],
            ),
        target is Edit ==> candidates_for(target, functions, here, text, parses) == candidates_for(
            target,
            functions,
            there,
            text,
            parses,
        ),
{
    let one = candidates_for(target, functions, here, text, parses);
    let other = candidates_for(target, functions, there, text, parses);
    if target is Create {
        let typed_here = typed_constant_row_for(here, text, parses);
        let typed_there = typed_constant_row_for(there, text, parses);
        assert(typed_here.len() == typed_there.len());
        let kept = offers_for(functions, by_name(functions)).filter(
            |offer: OfferView| text::begins_with(offer.label, text),
        );
        assert(one =~= typed_here + kept.map_values(|offer: OfferView| create_row(offer, here)));
        assert(other =~= typed_there + kept.map_values(
            |offer: OfferView| create_row(offer, there),
        ));
        assert forall|i: int| 0 <= i < one.len() implies same_row(one[i], other[i]) by {
            if i >= typed_here.len() {
                let k = i - typed_here.len();
                assert(one[i] == create_row(kept[k], here));
                assert(other[i] == create_row(kept[k], there));
            } else {
                assert(one[i] == typed_here[i] && other[i] == typed_there[i]);
            }
        }
    }
}

/// The suggestions the prompt currently offers, which is a question about the
/// caret's cell first and about the typed text second. Each cell names one
/// property, so each answers with the rows that property can take.
///
/// The prefix filters, the legality only greys.
pub fn prompt_candidates(
    target: InsertTarget,
    functions: &HashMap<usize, FunctionDeclaration>,
    place: &Option<CaretPlace>,
    text: &str,
    parses: bool,
) -> (rows: Vec<Suggestion>)
    ensures
        row_views(rows@) == candidates_for(target, functions@, *place, text@, parses),
{
    match target {
        InsertTarget::Create => create_candidates(functions, place, text, parses),
        InsertTarget::Edit(_, EditTarget::SourceName) => {
            let rows = vec![
                Suggestion {
                    action: PromptAction::SetName(text.to_owned()),
                    label: text.to_owned(),
                    detail: "Name".to_owned(),
                    allowed: true,
                },
            ];
            assert(row_views(rows@) == seq![name_row_for(text@)]);
            rows
        },
        InsertTarget::Edit(_, EditTarget::SourceType) => type_rows(text),
        InsertTarget::Edit(_, EditTarget::TunnelType) => type_rows(text),
        InsertTarget::Edit(_, EditTarget::ConstantValue) => literal_rows(text, parses),
        InsertTarget::Edit(_, EditTarget::CastType) => refuse_none_cast(
            type_or_literal_rows(text, parses),
        ),
        InsertTarget::Edit(_, EditTarget::PatternType) => type_or_literal_rows(text, parses),
    }
}

/// An item of a list that was filtered and then changed item by item comes from
/// an item that was let through.
proof fn lemma_let_through<A, B>(
    list: Seq<A>,
    keep: spec_fn(A) -> bool,
    change: spec_fn(A) -> B,
    k: int,
) -> (j: int)
    requires
        0 <= k < list.filter(keep).map_values(change).len(),
    ensures
        0 <= j < list.len(),
        keep(list[j]),
        list.filter(keep).map_values(change)[k] == change(list[j]),
{
    let kept = list.filter(keep);
    list.lemma_filter_pred(keep, k);
    assert(kept.contains(kept[k]));
    list.lemma_filter_contains_rev(keep, kept[k]);
    choose|j: int| 0 <= j < list.len() && list[j] == kept[k]
}

/// And every item that is let through is in it.
proof fn lemma_all_let_through<A, B>(
    list: Seq<A>,
    keep: spec_fn(A) -> bool,
    change: spec_fn(A) -> B,
    j: int,
) -> (k: int)
    requires
        0 <= j < list.len(),
        keep(list[j]),
    ensures
        0 <= k < list.filter(keep).map_values(change).len(),
        list.filter(keep).map_values(change)[k] == change(list[j]),
{
    let kept = list.filter(keep);
    list.lemma_filter_contains(keep, j);
    choose|k: int| 0 <= k < kept.len() && kept[k] == list[j]
}

/// A value that is written as a word is the value the word says: a word for a
/// truth value stands for the literal that is spelled like it, and the word that
/// carries no literal is the one for the absence of a value. Both truth values
/// have a word.
pub proof fn law_a_word_means_what_it_says(i: int)
    requires
        0 <= i < keywords().len(),
    ensures
        ({
            let word = keywords()[i];
            &&& word.choice == TypeChoice::Bool || word.choice == TypeChoice::NoneType
            &&& word.choice == TypeChoice::Bool ==> word.value == Some(word.label)
                && declared_type(word.choice, word.value).spelling() == word.label
            &&& word.choice == TypeChoice::NoneType ==> word.value is None && word.label
                == seq!['n', 'o', 'n', 'e']
        }),
        exists|j: int|
            0 <= j < keywords().len() && (#[trigger] keywords()[j]).value == Some(
                seq!['t', 'r', 'u', 'e'],
            ),
        exists|j: int|
            0 <= j < keywords().len() && (#[trigger] keywords()[j]).value == Some(
                seq!['f', 'a', 'l', 's', 'e'],
            ),
        exists|j: int| 0 <= j < keywords().len() && (#[trigger] keywords()[j]).value is None,
{
    reveal_strlit("true");
    reveal_strlit("false");
    reveal_strlit("none");
    assert("true"@ =~= seq!['t', 'r', 'u', 'e']);
    assert("false"@ =~= seq!['f', 'a', 'l', 's', 'e']);
    assert("none"@ =~= seq!['n', 'o', 'n', 'e']);
    assert(keywords()[0].value == Some("true"@));
    assert(keywords()[1].value == Some("false"@));
    assert(keywords()[2].value is None);
}

/// The literal a text spells is spelled like the text, but for a closing quote
/// that has not been typed yet; so it is of the type whose quotes, or whose
/// digits, were typed.
pub proof fn law_a_literal_spells_what_was_typed(text: Seq<char>)
    ensures
        literal_in(text) matches Some((choice, raw, closed)) ==> {
            let spelled = declared_type(choice, Some(raw)).spelling();
            &&& choice == TypeChoice::Int || choice == TypeChoice::Char || choice
                == TypeChoice::String
            &&& choice == TypeChoice::Int ==> spelled == text && !closed
            &&& choice != TypeChoice::Int ==> {
                &&& closed ==> spelled == text
                &&& !closed ==> spelled == text.push(text[0])
            }
        },
        literal_in(text) is None <==> text.len() == 0 || !(text[0] == '\'' || text[0] == '"' || '0'
            <= text[0] <= '9' || ((text[0] == '-' || text[0] == '+') && text.len() > 1)),
{
    reveal_strlit("\"");
    reveal_strlit("'");
    assert("\""@ =~= seq!['"']);
    assert("'"@ =~= seq!['\'']);
    if let Some((choice, raw, closed)) = literal_in(text) {
        let spelled = declared_type(choice, Some(raw)).spelling();
        if choice != TypeChoice::Int {
            assert(spelled =~= seq![text[0]] + raw + seq![text[0]]);
            if closed {
                assert(raw =~= text.subrange(1, text.len() - 1));
                assert(text.drop_first().last() == text.last());
                assert(spelled =~= text);
            } else {
                assert(raw =~= text.subrange(1, text.len() as int));
                assert(spelled =~= text.push(text[0]));
            }
        }
    }
}

/// What a row that carries a type is called: with a literal it is spelled like the
/// literal, and only while that literal is typed and cannot be read it is the text
/// itself; without one it is the name of the type, or the word for the absence of a
/// value.
pub open spec fn is_called(
    label: Seq<char>,
    choice: TypeChoice,
    value: Option<Seq<char>>,
    text: Seq<char>,
    parses: bool,
) -> bool {
    match value {
        Some(raw) => label == declared_type(choice, value).spelling() || (!parses && label == text
            && (literal_in(text) == Some((choice, raw, true)) || literal_in(text) == Some(
            (choice, raw, false),
        ))),
        None => label == declared_type(choice, None).spelling() || (choice == TypeChoice::NoneType
            && label == seq!['n', 'o', 'n', 'e']),
    }
}

proof fn lemma_literal_row_called(text: Seq<char>, parses: bool, i: int)
    requires
        0 <= i < literal_rows_for(text, parses).len(),
    ensures
        ({
            let row = literal_rows_for(text, parses)[i];
            &&& row.action matches PromptActionView::SetType(choice, value)
            &&& is_called(row.label, choice, value, text, parses)
            &&& value is Some || choice == TypeChoice::NoneType
            &&& parses ==> row.allowed
            &&& i > 0 || literal_in(text) is None ==> text::begins_with(row.label, text)
                && row.allowed
        }),
{
    let typed = typed_row_for(text, parses);
    if i >= typed.len() {
        let keep = |keyword: KeywordView| text::begins_with(keyword.label, text);
        let change = |keyword: KeywordView| keyword_row(keyword);
        let k = i - typed.len();
        assert(literal_rows_for(text, parses)[i] == keyword_rows_for(text)[k]);
        let j = lemma_let_through(keywords(), keep, change, k);
        law_a_word_means_what_it_says(j);
    } else {
        assert(literal_rows_for(text, parses)[i] == typed[i]);
    }
}

proof fn lemma_type_row_called(text: Seq<char>, i: int)
    requires
        0 <= i < type_rows_for(text).len(),
    ensures
        ({
            let row = type_rows_for(text)[i];
            &&& row.action matches PromptActionView::SetType(choice, value)
            &&& value is None
            &&& row.label == declared_type(choice, None).spelling()
            &&& row.allowed
            &&& text::begins_with(row.label, text)
        }),
{
    let keep = |choice: TypeChoice| text::begins_with(choice_label(choice), text);
    let change = |choice: TypeChoice| type_row(choice);
    let j = lemma_let_through(type_choices(), keep, change, i);
    law_choice_and_type_agree(type_choices()[j], None);
}

proof fn lemma_type_or_literal_row_called(text: Seq<char>, parses: bool, i: int)
    requires
        0 <= i < type_or_literal_rows_for(text, parses).len(),
    ensures
        ({
            let row = type_or_literal_rows_for(text, parses)[i];
            &&& row.action matches PromptActionView::SetType(choice, value)
            &&& is_called(row.label, choice, value, text, parses)
            &&& parses ==> row.allowed
            &&& i > 0 || literal_in(text) is None ==> text::begins_with(row.label, text)
                && row.allowed
        }),
{
    let first = literal_rows_for(text, parses);
    if i < first.len() {
        assert(type_or_literal_rows_for(text, parses)[i] == first[i]);
        lemma_literal_row_called(text, parses, i);
    } else {
        let k = i - first.len();
        assert(type_or_literal_rows_for(text, parses)[i] == type_rows_for(text)[k]);
        lemma_type_row_called(text, k);
    }
}

/// A row that sets a property does what it says: it carries the type, and the
/// literal, that it is called by. A Source and a Tunnel are offered types and no
/// literals, a constant literals and no types, and a cast and an arm both; a cast
/// to the absence of a value is the one row that is never allowed. A name is
/// whatever was typed.
pub proof fn law_a_property_row_does_what_it_says(
    property: EditTarget,
    id: node::Id,
    functions: Map<usize, FunctionDeclaration>,
    place: Option<CaretPlace>,
    text: Seq<char>,
    parses: bool,
    i: int,
)
    requires
        0 <= i < candidates_for(
            InsertTarget::Edit(id, property),
            functions,
            place,
            text,
            parses,
        ).len(),
    ensures
        ({
            let row = candidates_for(
                InsertTarget::Edit(id, property),
                functions,
                place,
                text,
                parses,
            )[i];
            &&& property == EditTarget::SourceName ==> row.action == PromptActionView::SetName(text)
                && row.label == text && row.allowed
            &&& property != EditTarget::SourceName ==> {
                &&& row.action matches PromptActionView::SetType(choice, value)
                &&& is_called(row.label, choice, value, text, parses)
                &&& property == EditTarget::SourceType || property == EditTarget::TunnelType
                    ==> value is None && row.label == declared_type(choice, None).spelling()
                &&& property == EditTarget::ConstantValue ==> value is Some || choice
                    == TypeChoice::NoneType && row.label != declared_type(choice, None).spelling()
                &&& property == EditTarget::CastType && choice == TypeChoice::NoneType
                    ==> !row.allowed
                &&& parses && !(property == EditTarget::CastType && choice == TypeChoice::NoneType)
                    ==> row.allowed
                &&& i > 0 || literal_in(text) is None ==> text::begins_with(row.label, text)
            }
        }),
{
    let rows = candidates_for(InsertTarget::Edit(id, property), functions, place, text, parses);
    match property {
        EditTarget::SourceName => {},
        EditTarget::SourceType => {
            lemma_type_row_called(text, i);
        },
        EditTarget::TunnelType => {
            lemma_type_row_called(text, i);
        },
        EditTarget::ConstantValue => {
            lemma_literal_row_called(text, parses, i);
            lemma_constant_row_is_a_literal(text, parses, i);
        },
        EditTarget::CastType => {
            let plain = type_or_literal_rows_for(text, parses);
            assert(rows[i] == without_none_cast(plain[i]));
            lemma_type_or_literal_row_called(text, parses, i);
        },
        EditTarget::PatternType => {
            lemma_type_or_literal_row_called(text, parses, i);
        },
    }
}

proof fn lemma_constant_row_is_a_literal(text: Seq<char>, parses: bool, i: int)
    requires
        0 <= i < literal_rows_for(text, parses).len(),
    ensures
        ({
            let row = literal_rows_for(text, parses)[i];
            row.action matches PromptActionView::SetType(choice, value) && (value is Some
                || row.label == seq!['n', 'o', 'n', 'e'] && row.label != declared_type(
                choice,
                None,
            ).spelling())
        }),
{
    let typed = typed_row_for(text, parses);
    if i >= typed.len() {
        let keep = |keyword: KeywordView| text::begins_with(keyword.label, text);
        let change = |keyword: KeywordView| keyword_row(keyword);
        let k = i - typed.len();
        assert(literal_rows_for(text, parses)[i] == keyword_rows_for(text)[k]);
        let j = lemma_let_through(keywords(), keep, change, k);
        law_a_word_means_what_it_says(j);
        reveal_strlit("None");
        assert(seq!['n', 'o', 'n', 'e'][0] != "None"@[0]);
    } else {
        assert(literal_rows_for(text, parses)[i] == typed[i]);
    }
}

/// A row that builds a node does what it says: a call is called like the function
/// it will call and shows that function's parameters, a constant is spelled like
/// the literal it will hold, and every other kind is called by its own name. A row
/// is allowed exactly where its node may come into being, save a literal that
/// cannot be read.
pub proof fn law_a_create_row_does_what_it_says(
    functions: Map<usize, FunctionDeclaration>,
    order: Seq<usize>,
    place: Option<CaretPlace>,
    text: Seq<char>,
    parses: bool,
    i: int,
)
    requires
        is_by_name(order, functions),
        0 <= i < candidates_for(InsertTarget::Create, functions, place, text, parses).len(),
    ensures
        ({
            let row = candidates_for(InsertTarget::Create, functions, place, text, parses)[i];
            &&& row.action matches PromptActionView::Create(kind)
            &&& i > 0 || literal_in(text) is None ==> text::begins_with(row.label, text)
            &&& row.allowed ==> place is Some && is_allowed(place->0, kind)
            &&& parses && place is Some && is_allowed(place->0, kind) ==> row.allowed
            &&& match kind {
                AddKindView::Constant(choice, value) => {
                    &&& is_called(row.label, choice, value, text, parses)
                    &&& value is Some || row.label == seq!['n', 'o', 'n', 'e']
                },
                AddKindView::FunctionCall(id) => {
                    &&& functions.contains_key(id.0)
                    &&& row.label == functions[id.0]@.name
                    &&& row.detail == signature(functions[id.0]@)
                },
                AddKindView::Source => row.label == "Source"@,
                AddKindView::Match => row.label == "Match"@,
                AddKindView::Pattern => row.label == "Pattern"@,
                AddKindView::TypeCast => row.label == "TypeCast"@,
                AddKindView::Tunnel => row.label == "Tunnel"@,
            }
        }),
{
    law_order_by_name_is_determined(functions, order, order);
    let rows = candidates_for(InsertTarget::Create, functions, place, text, parses);
    let typed = typed_constant_row_for(place, text, parses);
    if i < typed.len() {
        assert(rows[i] == typed[i]);
    } else {
        let offers = offers_for(functions, order);
        let keep = |offer: OfferView| text::begins_with(offer.label, text);
        let change = |offer: OfferView| create_row(offer, place);
        let k = i - typed.len();
        assert(rows[i] == offers.filter(keep).map_values(change)[k]);
        let j = lemma_let_through(offers, keep, change, k);
        assert(node_kinds().len() == 5 && keywords().len() == 3);
        if j < 5 {
            assert(offers[j] == node_kinds()[j]);
        } else if j < 8 {
            assert(offers[j] == keyword_offer(keywords()[j - 5]));
            law_a_word_means_what_it_says(j - 5);
        } else {
            assert(offers[j] == function_offer(functions, order[j - 8]));
            assert(order.contains(order[j - 8]));
            assert(order.to_set().contains(order[j - 8]));
        }
    }
}

/// Everything whose name begins with the text is offered where a node can be
/// built: every declared function, every kind of node that has a name, and every
/// value that is written as a word. The literal that is typed leads the list.
pub proof fn law_everything_that_begins_so_is_offered(
    functions: Map<usize, FunctionDeclaration>,
    order: Seq<usize>,
    place: Option<CaretPlace>,
    text: Seq<char>,
    parses: bool,
)
    requires
        is_by_name(order, functions),
    ensures
        ({
            let rows = candidates_for(InsertTarget::Create, functions, place, text, parses);
            &&& forall|key: usize| #[trigger]
                functions.contains_key(key) && text::begins_with(functions[key]@.name, text)
                    ==> exists|i: int|
                    0 <= i < rows.len() && (#[trigger] rows[i]).action == PromptActionView::Create(
                        AddKindView::FunctionCall(FunctionDeclarationId(key)),
                    )
            &&& forall|j: int|
                0 <= j < keywords().len() && text::begins_with((#[trigger] keywords()[j]).label, text)
                    ==> exists|i: int|
                    0 <= i < rows.len() && (#[trigger] rows[i]).action == PromptActionView::Create(
                        AddKindView::Constant(keywords()[j].choice, keywords()[j].value),
                    )
            &&& text::begins_with("Source"@, text) ==> exists|i: int|
                0 <= i < rows.len() && (#[trigger] rows[i]).action == PromptActionView::Create(
                    AddKindView::Source,
                )
            &&& text::begins_with("Match"@, text) ==> exists|i: int|
                0 <= i < rows.len() && (#[trigger] rows[i]).action == PromptActionView::Create(
                    AddKindView::Match,
                )
            &&& text::begins_with("Pattern"@, text) ==> exists|i: int|
                0 <= i < rows.len() && (#[trigger] rows[i]).action == PromptActionView::Create(
                    AddKindView::Pattern,
                )
            &&& text::begins_with("TypeCast"@, text) ==> exists|i: int|
                0 <= i < rows.len() && (#[trigger] rows[i]).action == PromptActionView::Create(
                    AddKindView::TypeCast,
                )
            &&& text::begins_with("Tunnel"@, text) ==> exists|i: int|
                0 <= i < rows.len() && (#[trigger] rows[i]).action == PromptActionView::Create(
                    AddKindView::Tunnel,
                )
            &&& literal_in(text) matches Some((choice, raw, _)) ==> rows.len() > 0 && rows[0].action
                == PromptActionView::Create(AddKindView::Constant(choice, Some(raw)))
        }),
{
    law_order_by_name_is_determined(functions, order, order);
    let rows = candidates_for(InsertTarget::Create, functions, place, text, parses);
    let typed = typed_constant_row_for(place, text, parses);
    let offers = offers_for(functions, order);
    let keep = |offer: OfferView| text::begins_with(offer.label, text);
    let change = |offer: OfferView| create_row(offer, place);
    assert(rows == typed + offers.filter(keep).map_values(change));
    assert(node_kinds().len() == 5 && keywords().len() == 3);
    assert forall|j: int| 0 <= j < offers.len() && text::begins_with(
        (#[trigger] offers[j]).label,
        text,
    ) implies exists|i: int|
        0 <= i < rows.len() && (#[trigger] rows[i]).action == PromptActionView::Create(
            offers[j].kind,
        ) by {
        let k = lemma_all_let_through(offers, keep, change, j);
        assert(rows[typed.len() + k] == change(offers[j]));
    }
    assert forall|key: usize| #[trigger]
        functions.contains_key(key) && text::begins_with(
            functions[key]@.name,
            text,
        ) implies exists|i: int|
        0 <= i < rows.len() && (#[trigger] rows[i]).action == PromptActionView::Create(
            AddKindView::FunctionCall(FunctionDeclarationId(key)),
        ) by {
        assert(order.to_set().contains(key));
        let at = choose|at: int| 0 <= at < order.len() && order[at] == key;
        assert(offers[8 + at] == function_offer(functions, key));
    }
    assert forall|j: int|
        0 <= j < keywords().len() && text::begins_with(
            (#[trigger] keywords()[j]).label,
            text,
        ) implies exists|i: int|
        0 <= i < rows.len() && (#[trigger] rows[i]).action == PromptActionView::Create(
            AddKindView::Constant(keywords()[j].choice, keywords()[j].value),
        ) by {
        assert(offers[5 + j] == keyword_offer(keywords()[j]));
    }
    assert(offers[0] == node_kinds()[0]);
    assert(offers[1] == node_kinds()[1]);
    assert(offers[2] == node_kinds()[2]);
    assert(offers[3] == node_kinds()[3]);
    assert(offers[4] == node_kinds()[4]);
}

/// Every type and every literal whose name begins with the text is offered for the
/// properties that take them, and the literal that is typed leads the list.
pub proof fn law_every_answer_is_offered(
    property: EditTarget,
    id: node::Id,
    functions: Map<usize, FunctionDeclaration>,
    place: Option<CaretPlace>,
    text: Seq<char>,
    parses: bool,
)
    ensures
        ({
            let rows = candidates_for(
                InsertTarget::Edit(id, property),
                functions,
                place,
                text,
                parses,
            );
            let takes_types = property != EditTarget::SourceName && property
                != EditTarget::ConstantValue;
            let takes_literals = property == EditTarget::ConstantValue || property
                == EditTarget::CastType || property == EditTarget::PatternType;
            &&& property == EditTarget::SourceName ==> rows.len() == 1
            &&& takes_types ==> forall|choice: TypeChoice|
                text::begins_with(#[trigger] choice_label(choice), text) ==> exists|i: int|
                    0 <= i < rows.len() && (#[trigger] rows[i]).action == PromptActionView::SetType(
                        choice,
                        None,
                    )
            &&& takes_literals ==> forall|j: int|
                0 <= j < keywords().len() && text::begins_with((#[trigger] keywords()[j]).label, text)
                    ==> exists|i: int|
                    0 <= i < rows.len() && (#[trigger] rows[i]).action == PromptActionView::SetType(
                        keywords()[j].choice,
                        keywords()[j].value,
                    )
            &&& takes_literals ==> (literal_in(text) matches Some((choice, raw, _)) ==> rows.len()
                > 0 && rows[0].action == PromptActionView::SetType(choice, Some(raw)))
        }),
{
    let rows = candidates_for(InsertTarget::Edit(id, property), functions, place, text, parses);
    let takes_types = property != EditTarget::SourceName && property != EditTarget::ConstantValue;
    let takes_literals = property == EditTarget::ConstantValue || property == EditTarget::CastType
        || property == EditTarget::PatternType;
    let typed = typed_row_for(text, parses);
    let words = keyword_rows_for(text);
    let types = type_rows_for(text);
    if takes_types {
        let start: int = if takes_literals {
            (typed.len() + words.len()) as int
        } else {
            0
        };
        assert forall|choice: TypeChoice|
            text::begins_with(#[trigger] choice_label(choice), text) implies exists|i: int|
            0 <= i < rows.len() && (#[trigger] rows[i]).action == PromptActionView::SetType(
                choice,
                None,
            ) by {
            let keep = |choice: TypeChoice| text::begins_with(choice_label(choice), text);
            let change = |choice: TypeChoice| type_row(choice);
            law_choice_and_type_agree(choice, None);
            let j = choose|j: int| 0 <= j < type_choices().len() && type_choices()[j] == choice;
            let k = lemma_all_let_through(type_choices(), keep, change, j);
            assert(types[k] == type_row(choice));
            assert(rows[start + k].action == types[k].action);
        }
    }
    if takes_literals {
        assert forall|j: int|
            0 <= j < keywords().len() && text::begins_with(
                (#[trigger] keywords()[j]).label,
                text,
            ) implies exists|i: int|
            0 <= i < rows.len() && (#[trigger] rows[i]).action == PromptActionView::SetType(
                keywords()[j].choice,
                keywords()[j].value,
            ) by {
            let keep = |keyword: KeywordView| text::begins_with(keyword.label, text);
            let change = |keyword: KeywordView| keyword_row(keyword);
            let k = lemma_all_let_through(keywords(), keep, change, j);
            assert(words[k] == keyword_row(keywords()[j]));
            assert(rows[typed.len() + k].action == words[k].action);
        }
        if literal_in(text) is Some {
            assert(typed.len() == 1);
            assert(rows[0].action == typed[0].action);
        }
    }
}

/// Where each kind of node may stand: a Source on the source row of the program's
/// own scope, a Tunnel on that of a branch, another arm on an arm, and everything
/// else on a free cell behind the source row; always before the row of the Sink.
pub proof fn law_where_each_kind_goes(place: CaretPlace, kind: AddKindView)
    requires
        place.sink_z matches Some(z) ==> place.local.z < z,
    ensures
        kind is Source ==> (is_allowed(place, kind) <==> place.occupant is None
            && place.is_root_scope && place.local.z == 0 && place.local.y == 0),
        kind is Tunnel ==> (is_allowed(place, kind) <==> place.occupant is None
            && !place.is_root_scope && place.local.z == 0 && place.local.y == 0),
        kind is Pattern ==> (is_allowed(place, kind) <==> place.occupant == Some(
            NodeKind::Pattern,
        )),
        kind is Constant || kind is FunctionCall || kind is Match || kind is TypeCast ==> (
        is_allowed(place, kind) <==> place.occupant is None && place.local.z != 0),
{
}

/// Where the items of a filtered list come from: `from` names their places in the
/// list, in order.
proof fn lemma_filter_keeps_the_order<A>(list: Seq<A>, keep: spec_fn(A) -> bool) -> (from: Seq<int>)
    ensures
        from.len() == list.filter(keep).len(),
        forall|k: int, l: int| 0 <= k < l < from.len() ==> from[k] < from[l],
        forall|k: int|
            0 <= k < from.len() ==> 0 <= #[trigger] from[k] < list.len() && list.filter(keep)[k]
                == list[from[k]],
    decreases list.len(),
{
    reveal(Seq::filter);
    if list.len() == 0 {
        Seq::empty()
    } else {
        let shorter = list.drop_last();
        let before = lemma_filter_keeps_the_order(shorter, keep);
        let from = if keep(list.last()) {
            before.push(list.len() - 1)
        } else {
            before
        };
        assert forall|k: int| 0 <= k < from.len() implies 0 <= #[trigger] from[k] < list.len()
            && list.filter(keep)[k] == list[from[k]] by {
            if k < before.len() {
                assert(from[k] == before[k]);
                assert(shorter[before[k]] == list[before[k]]);
            }
        }
        from
    }
}

/// Where a row stands in the list: the kinds that name themselves lead, the values
/// that are written as a word follow, and the functions come last.
pub open spec fn part_of_the_list(kind: AddKindView) -> int {
    match kind {
        AddKindView::Constant(_, _) => 1,
        AddKindView::FunctionCall(_) => 2,
        _ => 0,
    }
}

/// Behind the literal that is typed the list goes from the kinds over the values to
/// the functions, and the functions stand in the order of their names.
pub proof fn law_the_list_is_in_order(
    functions: Map<usize, FunctionDeclaration>,
    order: Seq<usize>,
    place: Option<CaretPlace>,
    text: Seq<char>,
    parses: bool,
    i: int,
    j: int,
)
    requires
        is_by_name(order, functions),
        i < j < candidates_for(InsertTarget::Create, functions, place, text, parses).len(),
        if literal_in(text) is Some {
            1 <= i
        } else {
            0 <= i
        },
    ensures
        ({
            let rows = candidates_for(InsertTarget::Create, functions, place, text, parses);
            &&& rows[i].action matches PromptActionView::Create(above)
            &&& rows[j].action matches PromptActionView::Create(below)
            &&& part_of_the_list(above) <= part_of_the_list(below)
            &&& above is FunctionCall && below is FunctionCall ==> text::precedes(
                rows[i].label,
                rows[j].label,
            ) || rows[i].label == rows[j].label
        }),
{
    law_order_by_name_is_determined(functions, order, order);
    let rows = candidates_for(InsertTarget::Create, functions, place, text, parses);
    let typed = typed_constant_row_for(place, text, parses);
    let offers = offers_for(functions, order);
    let keep = |offer: OfferView| text::begins_with(offer.label, text);
    let change = |offer: OfferView| create_row(offer, place);
    let from = lemma_filter_keeps_the_order(offers, keep);
    let kept = offers.filter(keep);
    assert(rows == typed + kept.map_values(change));
    assert(node_kinds().len() == 5 && keywords().len() == 3);
    let k = i - typed.len();
    let l = j - typed.len();
    let p = from[k];
    let q = from[l];
    assert(rows[i] == change(offers[p]));
    assert(rows[j] == change(offers[q]));
    assert(p < q);
    assert(offers[p] == if p < 5 {
        node_kinds()[p]
    } else if p < 8 {
        keyword_offer(keywords()[p - 5])
    } else {
        function_offer(functions, order[p - 8])
    });
    assert(offers[q] == if q < 5 {
        node_kinds()[q]
    } else if q < 8 {
        keyword_offer(keywords()[q - 5])
    } else {
        function_offer(functions, order[q - 8])
    });
    if p >= 8 {
        assert(comes_before(functions, order[p - 8], order[q - 8]));
    }
}

/// The right column says what type a literal is of, and what a function takes: one
/// word for each parameter, with commas between them, and the word for any value
/// where a parameter takes any. An integer is called by its short name there, and a
/// sum by its members with bars between them.
pub proof fn law_what_the_right_column_says(
    declaration: FunctionDeclarationView,
    inputs: Seq<FunctionParameterView>,
    parameter: FunctionParameterView,
    t: infer::ETypeView,
    parts: Seq<infer::ETypeView>,
    part: infer::ETypeView,
)
    ensures
        declaration.inputs.len() == 0 ==> signature(declaration).len() == 0,
        declaration.inputs == seq![parameter] ==> signature(declaration) == parameter_detail(
            parameter,
        ),
        inputs.len() > 0 && declaration.inputs == inputs.push(parameter) ==> signature(declaration)
            == signature(FunctionDeclarationView { inputs, ..declaration }) + seq![',']
            + parameter_detail(parameter),
        parameter.etype is None ==> parameter_detail(parameter) == seq!['a', 'n', 'y'],
        parameter.etype == Some(t) ==> parameter_detail(parameter) == short_name(t),
        t is Int ==> short_name(t) == seq!['I', 'n', 't'],
        t.kind() is Some && !(t is Int) ==> short_name(t) == infer::full_name(t),
        parts.len() > 0 ==> short_name(infer::ETypeView::SumType(parts.push(part))) == short_name(
            infer::ETypeView::SumType(parts),
        ) + seq!['|'] + short_name(part),
        short_name(infer::ETypeView::SumType(seq![part])) == short_name(part),
{
    reveal_strlit("any");
    reveal_strlit("Int");
    reveal_strlit(",");
    reveal_strlit("|");
    assert("any"@ =~= seq!['a', 'n', 'y']);
    assert("Int"@ =~= seq!['I', 'n', 't']);
    assert(","@ =~= seq![',']);
    assert("|"@ =~= seq!['|']);
    let detail = |parameter: FunctionParameterView| parameter_detail(parameter);
    assert(seq![parameter].map_values(detail) =~= seq![parameter_detail(parameter)]);
    assert(inputs.push(parameter).map_values(detail) =~= inputs.map_values(detail).push(
        parameter_detail(parameter),
    ));
    text::law_how_texts_are_joined(inputs.map_values(detail), parameter_detail(parameter), ","@);
    assert(parts.push(part).drop_last() =~= parts);
    lemma_short_names(parts);
    assert(short_names(parts.push(part)) =~= short_names(parts).push(short_name(part)));
    text::law_how_texts_are_joined(short_names(parts), short_name(part), "|"@);
    assert(seq![part].drop_last() =~= Seq::<infer::ETypeView>::empty());
    assert(short_names(seq![part].drop_last()) =~= Seq::<Seq<char>>::empty());
    assert(short_names(seq![part]) =~= seq![short_name(part)]);
}

/// A row that carries a literal says in its right column what type the literal is of;
/// a row that declares a type has said it all; and a cast to the absence of a value
/// says there why it is not allowed.
pub proof fn law_what_stands_beside_a_property_row(
    property: EditTarget,
    id: node::Id,
    functions: Map<usize, FunctionDeclaration>,
    place: Option<CaretPlace>,
    text: Seq<char>,
    parses: bool,
    i: int,
)
    requires
        property != EditTarget::SourceName,
        0 <= i < candidates_for(
            InsertTarget::Edit(id, property),
            functions,
            place,
            text,
            parses,
        ).len(),
    ensures
        ({
            let row = candidates_for(
                InsertTarget::Edit(id, property),
                functions,
                place,
                text,
                parses,
            )[i];
            &&& row.action matches PromptActionView::SetType(choice, value)
            &&& value is Some ==> row.detail == short_name(
                infer::carried(declared_type(choice, None)),
            )
            &&& value is None && choice != TypeChoice::NoneType ==> row.detail.len() == 0
            &&& property == EditTarget::CastType && choice == TypeChoice::NoneType ==> row.detail
                == "casts nothing"@
        }),
{
    let rows = candidates_for(InsertTarget::Edit(id, property), functions, place, text, parses);
    let types = type_rows_for(text);
    let typed = typed_row_for(text, parses);
    let words = keyword_rows_for(text);
    let keep_type = |choice: TypeChoice| text::begins_with(choice_label(choice), text);
    let as_type = |choice: TypeChoice| type_row(choice);
    let keep_word = |keyword: KeywordView| text::begins_with(keyword.label, text);
    let as_word = |keyword: KeywordView| keyword_row(keyword);
    if property == EditTarget::SourceType || property == EditTarget::TunnelType {
        let j = lemma_let_through(type_choices(), keep_type, as_type, i);
    } else {
        let plain = if property == EditTarget::ConstantValue {
            literal_rows_for(text, parses)
        } else {
            type_or_literal_rows_for(text, parses)
        };
        assert(property == EditTarget::CastType ==> rows[i] == without_none_cast(plain[i]));
        assert(property != EditTarget::CastType ==> rows[i] == plain[i]);
        if i < typed.len() {
            assert(plain[i] == typed[i]);
        } else if i < typed.len() + words.len() {
            let k = i - typed.len();
            assert(plain[i] == words[k]);
            let j = lemma_let_through(keywords(), keep_word, as_word, k);
            law_a_word_means_what_it_says(j);
        } else {
            let k = i - typed.len() - words.len();
            assert(plain[i] == types[k]);
            let j = lemma_let_through(type_choices(), keep_type, as_type, k);
        }
    }
}

/// Of the types on offer for a cast only `none` is refused. The refused row stays in
/// the list, under its name and with its action, and says why.
pub proof fn law_only_none_is_no_cast(row: SuggestionView, choice: TypeChoice, value: Option<Seq<char>>)
    ensures
        without_none_cast(row).label == row.label,
        without_none_cast(row).action == row.action,
        row.action == PromptActionView::SetType(choice, value) && choice == TypeChoice::NoneType
            ==> !without_none_cast(row).allowed && without_none_cast(row).detail
            == "casts nothing"@,
        row.action == PromptActionView::SetType(choice, value) && choice != TypeChoice::NoneType
            ==> without_none_cast(row) == row,
        !(row.action is SetType) ==> without_none_cast(row) == row,
{
}

} // verus!
