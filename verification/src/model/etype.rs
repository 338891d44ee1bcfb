//! The types a node of the graph can declare.

use crate::text;
use vstd::prelude::*;

verus! {

/// The literal that stands for the one value of the type `None`.
pub const NONE_LITERAL: &'static str = "none";

/// A declared type, or the literal it is narrowed to.
#[derive(Debug)]
pub enum EType {
    Bool { value: Option<String> },
    Int { value: Option<String> },
    String { value: Option<String> },
    Char { value: Option<String> },
    NoneType { message: Option<String> },
}

/// The mathematical value of an [`EType`].
pub enum ETypeView {
    Bool(Option<Seq<char>>),
    Int(Option<Seq<char>>),
    String(Option<Seq<char>>),
    Char(Option<Seq<char>>),
    NoneType(Option<Seq<char>>),
}

impl View for EType {
    type V = ETypeView;

    open spec fn view(&self) -> ETypeView {
        match self {
            EType::Bool { value } => ETypeView::Bool(text::opt_text(*value)),
            EType::Int { value } => ETypeView::Int(text::opt_text(*value)),
            EType::String { value } => ETypeView::String(text::opt_text(*value)),
            EType::Char { value } => ETypeView::Char(text::opt_text(*value)),
            EType::NoneType { message } => ETypeView::NoneType(text::opt_text(*message)),
        }
    }
}

impl ETypeView {
    /// How the type is written: its name, or the literal it is narrowed to. A
    /// string stands in double quotes and a character in single ones.
    pub open spec fn spelling(self) -> Seq<char> {
        match self {
            ETypeView::Bool(Some(value)) => value,
            ETypeView::Bool(None) => "Bool"@,
            ETypeView::Int(Some(value)) => value,
            ETypeView::Int(None) => "Integer"@,
            ETypeView::String(Some(value)) => "\""@ + value + "\""@,
            ETypeView::String(None) => "String"@,
            ETypeView::Char(Some(value)) => "'"@ + value + "'"@,
            ETypeView::Char(None) => "Char"@,
            ETypeView::NoneType(Some(message)) => message,
            ETypeView::NoneType(None) => "None"@,
        }
    }
}

impl Clone for EType {
    fn clone(&self) -> (res: Self)
        ensures
            res == *self,
    {
        match self {
            EType::Bool { value } => EType::Bool { value: text::clone_opt_text(value) },
            EType::Int { value } => EType::Int { value: text::clone_opt_text(value) },
            EType::String { value } => EType::String { value: text::clone_opt_text(value) },
            EType::Char { value } => EType::Char { value: text::clone_opt_text(value) },
            EType::NoneType { message } => EType::NoneType { message: text::clone_opt_text(message) },
        }
    }
}

impl EType {
    /// The type as it is shown to a reader.
    pub fn spelled(&self) -> (text: String)
        ensures
            text@ == self@.spelling(),
    {
        match self {
            EType::Bool { value: Some(value) } => value.clone(),
            EType::Bool { value: None } => "Bool".to_owned(),
            EType::Int { value: Some(value) } => value.clone(),
            EType::Int { value: None } => "Integer".to_owned(),
            EType::String { value: Some(value) } => {
                "\"".to_owned().concat(value.as_str()).concat("\"")
            },
            EType::String { value: None } => "String".to_owned(),
            EType::Char { value: Some(value) } => {
                "'".to_owned().concat(value.as_str()).concat("'")
            },
            EType::Char { value: None } => "Char".to_owned(),
            EType::NoneType { message: Some(message) } => message.clone(),
            EType::NoneType { message: None } => "None".to_owned(),
        }
    }
}

/// A type without a literal is written by its name, and no two types alike. A
/// literal is written as it is, a string between double quotes and a character
/// between single ones.
pub proof fn law_how_a_type_is_written(value: Seq<char>)
    ensures
        ETypeView::Bool(Some(value)).spelling() == value,
        ETypeView::Int(Some(value)).spelling() == value,
        ETypeView::String(Some(value)).spelling() == seq!['"'] + value + seq!['"'],
        ETypeView::Char(Some(value)).spelling() == seq!['\''] + value + seq!['\''],
        ETypeView::NoneType(Some(value)).spelling() == value,
        ETypeView::Bool(None).spelling()[0] == 'B',
        ETypeView::Int(None).spelling()[0] == 'I',
        ETypeView::String(None).spelling()[0] == 'S',
        ETypeView::Char(None).spelling()[0] == 'C',
        ETypeView::NoneType(None).spelling()[0] == 'N',
{
    reveal_strlit("\"");
    reveal_strlit("'");
    reveal_strlit("Bool");
    reveal_strlit("Integer");
    reveal_strlit("String");
    reveal_strlit("Char");
    reveal_strlit("None");
    assert("\""@ =~= seq!['"']);
    assert("'"@ =~= seq!['\'']);
}

} // verus!
