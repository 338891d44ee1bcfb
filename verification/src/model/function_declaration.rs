//! The functions a call in the graph can name.

use crate::infer::{self, EType, ETypeView};
use std::collections::HashMap;
use vstd::prelude::*;

verus! {

broadcast use vstd::std_specs::hash::group_hash_axioms;

/// Names a declared function: the row it stands on in the catalogue.
#[derive(Clone, Copy, Debug, Eq, PartialEq, Hash, Structural)]
pub struct FunctionDeclarationId(pub usize);

/// A function: what it is called, what it takes, and what it gives.
#[derive(Clone)]
pub struct FunctionDeclaration {
    pub name: String,
    pub inputs: Vec<FunctionParameterDeclaration>,
    pub output_type: EType,
}

/// One parameter of a function.
#[derive(Clone)]
pub struct FunctionParameterDeclaration {
    pub name: String,
    /// The type this parameter accepts, or `None` when it accepts any value.
    ///
    /// `None` is the *absence of a constraint*, not the type of that name: `=`
    /// and `!=` compare two values of any kinds, and the language has no top
    /// type to say that with.
    pub etype: Option<EType>,
}

/// The mathematical value of a [`FunctionDeclaration`].
pub struct FunctionDeclarationView {
    pub name: Seq<char>,
    pub inputs: Seq<FunctionParameterView>,
    pub output_type: ETypeView,
}

/// The mathematical value of a [`FunctionParameterDeclaration`].
pub struct FunctionParameterView {
    pub name: Seq<char>,
    pub etype: Option<ETypeView>,
}

impl View for FunctionParameterDeclaration {
    type V = FunctionParameterView;

    open spec fn view(&self) -> FunctionParameterView {
        FunctionParameterView {
            name: self.name@,
            etype: match self.etype {
                Some(t) => Some(t@),
                None => None,
            },
        }
    }
}

impl View for FunctionDeclaration {
    type V = FunctionDeclarationView;

    open spec fn view(&self) -> FunctionDeclarationView {
        FunctionDeclarationView {
            name: self.name@,
            inputs: parameter_views(self.inputs@),
            output_type: self.output_type@,
        }
    }
}

/// The values of a list of parameters.
pub open spec fn parameter_views(parameters: Seq<FunctionParameterDeclaration>) -> Seq<
    FunctionParameterView,
> {
    parameters.map_values(|parameter: FunctionParameterDeclaration| parameter@)
}

/// A function of the defined set.
pub open spec fn declared(
    name: Seq<char>,
    inputs: Seq<FunctionParameterView>,
    output_type: ETypeView,
) -> FunctionDeclarationView {
    FunctionDeclarationView { name, inputs, output_type }
}

/// A parameter that takes values of one type.
pub open spec fn typed(name: Seq<char>, etype: ETypeView) -> FunctionParameterView {
    FunctionParameterView { name, etype: Some(etype) }
}

/// A parameter that takes any value.
pub open spec fn unconstrained(name: Seq<char>) -> FunctionParameterView {
    FunctionParameterView { name, etype: None }
}

/// Two parameters that take integers.
pub open spec fn two_integers(first: Seq<char>, second: Seq<char>) -> Seq<FunctionParameterView> {
    seq![typed(first, ETypeView::Int(None)), typed(second, ETypeView::Int(None))]
}

/// The type of a function that may fail: the failure is a value that travels
/// along an edge, which is what makes the caller match it out.
pub open spec fn or_none_type(t: ETypeView) -> ETypeView {
    ETypeView::SumType(seq![t, ETypeView::NoneType])
}

/// A character or a string.
pub open spec fn text_type() -> ETypeView {
    ETypeView::SumType(seq![ETypeView::Char(None), ETypeView::String(None)])
}

/// The defined function set, row by row.
pub open spec fn defined_functions() -> Seq<FunctionDeclarationView> {
    seq![
        // Arithmetic
        declared("+"@, two_integers("summand1"@, "summand2"@), ETypeView::Int(None)),
        declared("-"@, two_integers("minuend"@, "subtrahend"@), ETypeView::Int(None)),
        declared("*"@, two_integers("factor1"@, "factor2"@), ETypeView::Int(None)),
        declared("/"@, two_integers("dividend"@, "divisor"@), or_none_type(ETypeView::Int(None))),
        declared("mod"@, two_integers("dividend"@, "divisor"@), or_none_type(ETypeView::Int(None))),
        declared("neg"@, seq![typed("number"@, ETypeView::Int(None))], ETypeView::Int(None)),
        // Comparison. `=` and `!=` are total over every pair of values, so
        // they constrain neither parameter.
        declared("="@, seq![unconstrained("left"@), unconstrained("right"@)], ETypeView::Bool(None)),
        declared("!="@, seq![unconstrained("left"@), unconstrained("right"@)], ETypeView::Bool(None)),
        declared("<"@, two_integers("left"@, "right"@), ETypeView::Bool(None)),
        declared(">"@, two_integers("left"@, "right"@), ETypeView::Bool(None)),
        declared("<="@, two_integers("left"@, "right"@), ETypeView::Bool(None)),
        declared(">="@, two_integers("left"@, "right"@), ETypeView::Bool(None)),
        // Logic. Neither `&&` nor `||` short-circuits.
        declared("&&"@, seq![typed("left"@, ETypeView::Bool(None)), typed("right"@, ETypeView::Bool(None))], ETypeView::Bool(None)),
        declared("||"@, seq![typed("left"@, ETypeView::Bool(None)), typed("right"@, ETypeView::Bool(None))], ETypeView::Bool(None)),
        declared("!"@, seq![typed("operand"@, ETypeView::Bool(None))], ETypeView::Bool(None)),
        // String
        declared("len"@, seq![typed("str"@, ETypeView::String(None))], ETypeView::Int(None)),
        declared("charAt"@, seq![typed("str"@, ETypeView::String(None)), typed("i"@, ETypeView::Int(None))], or_none_type(ETypeView::Char(None))),
        declared("concat"@, seq![typed("left"@, text_type()), typed("right"@, text_type())], ETypeView::String(None)),
        declared("substr"@, seq![typed("str"@, ETypeView::String(None)), typed("begin"@, ETypeView::Int(None)), typed("length"@, ETypeView::Int(None))], or_none_type(ETypeView::String(None))),
        // Math
        declared("min"@, two_integers("left"@, "right"@), ETypeView::Int(None)),
        declared("max"@, two_integers("left"@, "right"@), ETypeView::Int(None)),
        declared("abs"@, seq![typed("number"@, ETypeView::Int(None))], ETypeView::Int(None)),
    ]
}

fn pair(first: EType, second: EType) -> (t: EType)
    ensures
        t@ == ETypeView::SumType(seq![first@, second@]),
{
    let mut parts: Vec<EType> = Vec::new();
    proof {
        infer::lemma_views_push(parts@, first);
        infer::lemma_views_push(parts@.push(first), second);
    }
    parts.push(first);
    parts.push(second);
    assert(infer::views(parts@) == seq![first@, second@]);
    EType::SumType(parts)
}

fn or_none(t: EType) -> (res: EType)
    ensures
        res@ == or_none_type(t@),
{
    pair(t, EType::NoneType)
}

fn text() -> (res: EType)
    ensures
        res@ == text_type(),
{
    pair(EType::Char(None), EType::String(None))
}

fn parameter(name: &str, etype: Option<EType>) -> (res: FunctionParameterDeclaration)
    ensures
        etype matches Some(t) ==> res@ == typed(name@, t@),
        etype is None ==> res@ == unconstrained(name@),
{
    FunctionParameterDeclaration { name: name.to_owned(), etype }
}

fn int2(first: &str, second: &str) -> (res: Vec<FunctionParameterDeclaration>)
    ensures
        parameter_views(res@) == two_integers(first@, second@),
{
    let res = vec![
        parameter(first, Some(EType::Int(None))),
        parameter(second, Some(EType::Int(None))),
    ];
    assert(parameter_views(res@) == two_integers(first@, second@));
    res
}

/// The catalogue holds exactly the rows of `rows`, each under its index.
pub open spec fn holds_rows(
    functions: Map<usize, FunctionDeclaration>,
    rows: Seq<FunctionDeclarationView>,
) -> bool {
    &&& forall|row: usize| #[trigger] functions.contains_key(row) <==> row < rows.len()
    &&& forall|row: usize|
        row < rows.len() ==> (#[trigger] functions[row])@ == rows[row as int]
}

fn declaration(
    name: &str,
    inputs: Vec<FunctionParameterDeclaration>,
    output_type: EType,
) -> (res: FunctionDeclaration)
    ensures
        res@ == declared(name@, parameter_views(inputs@), output_type@),
{
    FunctionDeclaration { name: name.to_owned(), inputs, output_type }
}

fn one(parameter: FunctionParameterDeclaration) -> (res: Vec<FunctionParameterDeclaration>)
    ensures
        parameter_views(res@) == seq![parameter@],
{
    let res = vec![parameter];
    assert(parameter_views(res@) == seq![parameter@]);
    res
}

fn two(
    first: FunctionParameterDeclaration,
    second: FunctionParameterDeclaration,
) -> (res: Vec<FunctionParameterDeclaration>)
    ensures
        parameter_views(res@) == seq![first@, second@],
{
    let res = vec![first, second];
    assert(parameter_views(res@) == seq![first@, second@]);
    res
}

fn three(
    first: FunctionParameterDeclaration,
    second: FunctionParameterDeclaration,
    third: FunctionParameterDeclaration,
) -> (res: Vec<FunctionParameterDeclaration>)
    ensures
        parameter_views(res@) == seq![first@, second@, third@],
{
    let res = vec![first, second, third];
    assert(parameter_views(res@) == seq![first@, second@, third@]);
    res
}

fn rows() -> (rows: Vec<FunctionDeclaration>)
    ensures
        rows@.map_values(|row: FunctionDeclaration| row@) == defined_functions(),
{
    let rows = vec![
        // Arithmetic
        declaration("+", int2("summand1", "summand2"), EType::Int(None)),
        declaration("-", int2("minuend", "subtrahend"), EType::Int(None)),
        declaration("*", int2("factor1", "factor2"), EType::Int(None)),
        declaration("/", int2("dividend", "divisor"), or_none(EType::Int(None))),
        declaration("mod", int2("dividend", "divisor"), or_none(EType::Int(None))),
        declaration("neg", one(parameter("number", Some(EType::Int(None)))), EType::Int(None)),
        // Comparison. `=` and `!=` are total over every pair of values, so
        // they constrain neither parameter.
        declaration("=", two(parameter("left", None), parameter("right", None)), EType::Bool(None)),
        declaration("!=", two(parameter("left", None), parameter("right", None)), EType::Bool(None)),
        declaration("<", int2("left", "right"), EType::Bool(None)),
        declaration(">", int2("left", "right"), EType::Bool(None)),
        declaration("<=", int2("left", "right"), EType::Bool(None)),
        declaration(">=", int2("left", "right"), EType::Bool(None)),
        // Logic. Neither `&&` nor `||` short-circuits.
        declaration("&&", two(parameter("left", Some(EType::Bool(None))), parameter("right", Some(EType::Bool(None)))), EType::Bool(None)),
        declaration("||", two(parameter("left", Some(EType::Bool(None))), parameter("right", Some(EType::Bool(None)))), EType::Bool(None)),
        declaration("!", one(parameter("operand", Some(EType::Bool(None)))), EType::Bool(None)),
        // String
        declaration("len", one(parameter("str", Some(EType::String(None)))), EType::Int(None)),
        declaration("charAt", two(parameter("str", Some(EType::String(None))), parameter("i", Some(EType::Int(None)))), or_none(EType::Char(None))),
        declaration("concat", two(parameter("left", Some(text())), parameter("right", Some(text()))), EType::String(None)),
        declaration("substr", three(parameter("str", Some(EType::String(None))), parameter("begin", Some(EType::Int(None))), parameter("length", Some(EType::Int(None)))), or_none(EType::String(None))),
        // Math
        declaration("min", int2("left", "right"), EType::Int(None)),
        declaration("max", int2("left", "right"), EType::Int(None)),
        declaration("abs", one(parameter("number", Some(EType::Int(None)))), EType::Int(None)),
    ];
    assert(rows@.map_values(|row: FunctionDeclaration| row@) == defined_functions());
    rows
}

/// The defined function set.
///
/// A declaration's id is its row index, so ids stay stable as long as rows are
/// appended rather than inserted. The table is keyed by the number of the id.
pub fn catalogue() -> (functions: HashMap<usize, FunctionDeclaration>)
    ensures
        holds_rows(functions@, defined_functions()),
{
    let mut rows = rows();
    let ghost defined = defined_functions();
    let ghost all = rows@;
    let mut functions: HashMap<usize, FunctionDeclaration> = HashMap::new();
    while rows.len() > 0
        invariant
            all.map_values(|row: FunctionDeclaration| row@) == defined,
            rows.len() <= all.len(),
            rows@ == all.take(rows.len() as int),
            forall|row: usize| #[trigger]
                functions@.contains_key(row) <==> rows.len() <= row < defined.len(),
            forall|row: usize|
                rows.len() <= row < defined.len() ==> (#[trigger] functions@[row])@
                    == defined[row as int],
        decreases rows.len(),
    {
        if let Some(row) = rows.pop() {
            assert(row == all[rows.len() as int]);
            functions.insert(rows.len(), row);
        }
    }
    functions
}

/// What can fail says so in its type, next to what it gives otherwise: a value of
/// such a function is of the type it gives or the absence of one, and of no other.
pub proof fn law_what_can_fail_says_so(t: ETypeView)
    requires
        t.kind() is Some,
    ensures
        or_none_type(t).leaves() == seq![t, ETypeView::NoneType],
        text_type().leaves() == seq![ETypeView::Char(None), ETypeView::String(None)],
{
    let failing = seq![t, ETypeView::NoneType];
    reveal_with_fuel(infer::leaves_of_all, 3);
    assert(failing.drop_last() =~= seq![t]);
    assert(seq![t].drop_last() =~= Seq::<ETypeView>::empty());
    assert(infer::leaves_of_all(failing) =~= seq![t, ETypeView::NoneType]);
    let texts = seq![ETypeView::Char(None), ETypeView::String(None)];
    assert(texts.drop_last() =~= seq![ETypeView::Char(None)]);
    assert(seq![ETypeView::Char(None)].drop_last() =~= Seq::<ETypeView>::empty());
    assert(infer::leaves_of_all(texts) =~= texts);
}

/// No two functions share a name.
pub proof fn law_functions_are_told_apart(i: int, j: int)
    requires
        0 <= i < defined_functions().len(),
        0 <= j < defined_functions().len(),
    ensures
        defined_functions()[i].name == defined_functions()[j].name <==> i == j,
{
    reveal_strlit("+");
    reveal_strlit("-");
    reveal_strlit("*");
    reveal_strlit("/");
    reveal_strlit("mod");
    reveal_strlit("neg");
    reveal_strlit("=");
    reveal_strlit("!=");
    reveal_strlit("<");
    reveal_strlit(">");
    reveal_strlit("<=");
    reveal_strlit(">=");
    reveal_strlit("&&");
    reveal_strlit("||");
    reveal_strlit("!");
    reveal_strlit("len");
    reveal_strlit("charAt");
    reveal_strlit("concat");
    reveal_strlit("substr");
    reveal_strlit("min");
    reveal_strlit("max");
    reveal_strlit("abs");
    let one = defined_functions()[i].name;
    let other = defined_functions()[j].name;
    assert("+"@.len() == 1 && "+"@[0] == '+');
    assert("-"@.len() == 1 && "-"@[0] == '-');
    assert("*"@.len() == 1 && "*"@[0] == '*');
    assert("/"@.len() == 1 && "/"@[0] == '/');
    assert("mod"@.len() == 3 && "mod"@[0] == 'm' && "mod"@[1] == 'o');
    assert("neg"@.len() == 3 && "neg"@[0] == 'n' && "neg"@[1] == 'e');
    assert("="@.len() == 1 && "="@[0] == '=');
    assert("!="@.len() == 2 && "!="@[0] == '!' && "!="@[1] == '=');
    assert("<"@.len() == 1 && "<"@[0] == '<');
    assert(">"@.len() == 1 && ">"@[0] == '>');
    assert("<="@.len() == 2 && "<="@[0] == '<' && "<="@[1] == '=');
    assert(">="@.len() == 2 && ">="@[0] == '>' && ">="@[1] == '=');
    assert("&&"@.len() == 2 && "&&"@[0] == '&' && "&&"@[1] == '&');
    assert("||"@.len() == 2 && "||"@[0] == '|' && "||"@[1] == '|');
    assert("!"@.len() == 1 && "!"@[0] == '!');
    assert("len"@.len() == 3 && "len"@[0] == 'l' && "len"@[1] == 'e');
    assert("charAt"@.len() == 6 && "charAt"@[0] == 'c' && "charAt"@[1] == 'h');
    assert("concat"@.len() == 6 && "concat"@[0] == 'c' && "concat"@[1] == 'o');
    assert("substr"@.len() == 6 && "substr"@[0] == 's' && "substr"@[1] == 'u');
    assert("min"@.len() == 3 && "min"@[0] == 'm' && "min"@[1] == 'i');
    assert("max"@.len() == 3 && "max"@[0] == 'm' && "max"@[1] == 'a');
    assert("abs"@.len() == 3 && "abs"@[0] == 'a' && "abs"@[1] == 'b');
    if one == other {
        assert(one.len() == other.len() && one[0] == other[0] && one[1] == other[1]);
    }
}

/// Every parameter of the function takes values of the type `t`.
pub open spec fn takes_only(f: FunctionDeclarationView, t: ETypeView) -> bool {
    forall|k: int| 0 <= k < f.inputs.len() ==> (#[trigger] f.inputs[k]).etype == Some(t)
}

/// Arithmetic gives a number, a comparison and a connective give a truth value, and
/// what can fail gives the value or the absence of one.
pub proof fn law_what_the_functions_give(i: int)
    requires
        0 <= i < defined_functions().len(),
    ensures
        ({
            let f = defined_functions()[i];
            &&& (f.name == "+"@
                || f.name == "-"@
                || f.name == "*"@
                || f.name == "neg"@
                || f.name == "len"@
                || f.name == "min"@
                || f.name == "max"@
                || f.name == "abs"@) <==> f.output_type == ETypeView::Int(None)
            &&& (f.name == "="@
                || f.name == "!="@
                || f.name == "<"@
                || f.name == ">"@
                || f.name == "<="@
                || f.name == ">="@
                || f.name == "&&"@
                || f.name == "||"@
                || f.name == "!"@) <==> f.output_type == ETypeView::Bool(None)
            &&& (f.name == "/"@
                || f.name == "mod"@) <==> f.output_type == or_none_type(ETypeView::Int(None))
            &&& (f.name == "charAt"@) <==> f.output_type == or_none_type(ETypeView::Char(None))
            &&& (f.name == "substr"@) <==> f.output_type == or_none_type(ETypeView::String(None))
            &&& (f.name == "concat"@) <==> f.output_type == ETypeView::String(None)
        }),
{
    law_functions_are_told_apart(i, 0);
    law_functions_are_told_apart(i, 1);
    law_functions_are_told_apart(i, 2);
    law_functions_are_told_apart(i, 3);
    law_functions_are_told_apart(i, 4);
    law_functions_are_told_apart(i, 5);
    law_functions_are_told_apart(i, 6);
    law_functions_are_told_apart(i, 7);
    law_functions_are_told_apart(i, 8);
    law_functions_are_told_apart(i, 9);
    law_functions_are_told_apart(i, 10);
    law_functions_are_told_apart(i, 11);
    law_functions_are_told_apart(i, 12);
    law_functions_are_told_apart(i, 13);
    law_functions_are_told_apart(i, 14);
    law_functions_are_told_apart(i, 15);
    law_functions_are_told_apart(i, 16);
    law_functions_are_told_apart(i, 17);
    law_functions_are_told_apart(i, 18);
    law_functions_are_told_apart(i, 19);
    law_functions_are_told_apart(i, 20);
    law_functions_are_told_apart(i, 21);
}

/// Arithmetic and the comparisons of size take numbers, the connectives take truth
/// values, and equality takes any two values.
pub proof fn law_what_the_functions_take(i: int)
    requires
        0 <= i < defined_functions().len(),
    ensures
        ({
            let f = defined_functions()[i];
            &&& (f.name == "neg"@
                || f.name == "!"@
                || f.name == "len"@
                || f.name == "abs"@) <==> f.inputs.len() == 1
            &&& (f.name == "+"@
                || f.name == "-"@
                || f.name == "*"@
                || f.name == "/"@
                || f.name == "mod"@
                || f.name == "="@
                || f.name == "!="@
                || f.name == "<"@
                || f.name == ">"@
                || f.name == "<="@
                || f.name == ">="@
                || f.name == "&&"@
                || f.name == "||"@
                || f.name == "charAt"@
                || f.name == "concat"@
                || f.name == "min"@
                || f.name == "max"@) <==> f.inputs.len() == 2
            &&& (f.name == "substr"@) <==> f.inputs.len() == 3
            &&& (f.name == "="@
                || f.name == "!="@) <==> f.inputs[0].etype is None
            &&& (f.name == "+"@
                || f.name == "-"@
                || f.name == "*"@
                || f.name == "/"@
                || f.name == "mod"@
                || f.name == "neg"@
                || f.name == "<"@
                || f.name == ">"@
                || f.name == "<="@
                || f.name == ">="@
                || f.name == "min"@
                || f.name == "max"@
                || f.name == "abs"@) <==> takes_only(f, ETypeView::Int(None))
            &&& (f.name == "&&"@
                || f.name == "||"@
                || f.name == "!"@) <==> takes_only(f, ETypeView::Bool(None))
            &&& (f.name == "concat"@) <==> takes_only(f, text_type())
            &&& (f.name == "len"@) <==> takes_only(f, ETypeView::String(None))
            &&& f.name == "charAt"@ ==> f.inputs[0].etype == Some(ETypeView::String(None))
                && f.inputs[1].etype == Some(ETypeView::Int(None))
            &&& f.name == "substr"@ ==> f.inputs[0].etype == Some(ETypeView::String(None))
                && f.inputs[1].etype == Some(ETypeView::Int(None)) && f.inputs[2].etype == Some(
                ETypeView::Int(None),
            )
            &&& f.name == "="@ || f.name == "!="@ ==> f.inputs[1].etype is None
        }),
{
    law_functions_are_told_apart(i, 0);
    law_functions_are_told_apart(i, 1);
    law_functions_are_told_apart(i, 2);
    law_functions_are_told_apart(i, 3);
    law_functions_are_told_apart(i, 4);
    law_functions_are_told_apart(i, 5);
    law_functions_are_told_apart(i, 6);
    law_functions_are_told_apart(i, 7);
    law_functions_are_told_apart(i, 8);
    law_functions_are_told_apart(i, 9);
    law_functions_are_told_apart(i, 10);
    law_functions_are_told_apart(i, 11);
    law_functions_are_told_apart(i, 12);
    law_functions_are_told_apart(i, 13);
    law_functions_are_told_apart(i, 14);
    law_functions_are_told_apart(i, 15);
    law_functions_are_told_apart(i, 16);
    law_functions_are_told_apart(i, 17);
    law_functions_are_told_apart(i, 18);
    law_functions_are_told_apart(i, 19);
    law_functions_are_told_apart(i, 20);
    law_functions_are_told_apart(i, 21);
    let f = defined_functions()[i];
    assert(f.inputs.len() > 0);
    let first = f.inputs[0];
    assert(f.inputs.len() > 1 ==> f.inputs[1] == f.inputs[1]);
}

/// What the parameters of each function are called, in the order in which a call takes
/// them.
pub proof fn law_what_the_parameters_are_called(i: int)
    requires
        0 <= i < defined_functions().len(),
    ensures
        ({
            let f = defined_functions()[i];
            &&& (f.name == "+"@) ==> f.inputs[0].name == "summand1"@
                && f.inputs[1].name == "summand2"@
            &&& (f.name == "-"@) ==> f.inputs[0].name == "minuend"@
                && f.inputs[1].name == "subtrahend"@
            &&& (f.name == "*"@) ==> f.inputs[0].name == "factor1"@
                && f.inputs[1].name == "factor2"@
            &&& (f.name == "/"@ || f.name == "mod"@) ==> f.inputs[0].name == "dividend"@
                && f.inputs[1].name == "divisor"@
            &&& (f.name == "neg"@ || f.name == "abs"@) ==> f.inputs[0].name == "number"@
            &&& (f.name == "="@ || f.name == "!="@ || f.name == "<"@ || f.name == ">"@ || f.name == "<="@ || f.name == ">="@ || f.name == "&&"@ || f.name == "||"@ || f.name == "concat"@ || f.name == "min"@ || f.name == "max"@) ==> f.inputs[0].name == "left"@
                && f.inputs[1].name == "right"@
            &&& (f.name == "!"@) ==> f.inputs[0].name == "operand"@
            &&& (f.name == "len"@) ==> f.inputs[0].name == "str"@
            &&& (f.name == "charAt"@) ==> f.inputs[0].name == "str"@
                && f.inputs[1].name == "i"@
            &&& (f.name == "substr"@) ==> f.inputs[0].name == "str"@
                && f.inputs[1].name == "begin"@
                && f.inputs[2].name == "length"@
        }),
{
    law_functions_are_told_apart(i, 0);
    law_functions_are_told_apart(i, 1);
    law_functions_are_told_apart(i, 2);
    law_functions_are_told_apart(i, 3);
    law_functions_are_told_apart(i, 4);
    law_functions_are_told_apart(i, 5);
    law_functions_are_told_apart(i, 6);
    law_functions_are_told_apart(i, 7);
    law_functions_are_told_apart(i, 8);
    law_functions_are_told_apart(i, 9);
    law_functions_are_told_apart(i, 10);
    law_functions_are_told_apart(i, 11);
    law_functions_are_told_apart(i, 12);
    law_functions_are_told_apart(i, 13);
    law_functions_are_told_apart(i, 14);
    law_functions_are_told_apart(i, 15);
    law_functions_are_told_apart(i, 16);
    law_functions_are_told_apart(i, 17);
    law_functions_are_told_apart(i, 18);
    law_functions_are_told_apart(i, 19);
    law_functions_are_told_apart(i, 20);
    law_functions_are_told_apart(i, 21);
}

} // verus!
