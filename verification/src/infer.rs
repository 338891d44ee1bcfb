//! Types as they are inferred: what an anchor of the graph carries.

use crate::model::etype;
use crate::text;
use vstd::prelude::*;

verus! {

/// The type of a value, or the literal the value is known to be.
#[derive(Debug)]
pub enum EType {
    Bool(Option<String>),
    Int(Option<String>),
    String(Option<String>),
    Char(Option<String>),
    /// The type whose one value is its own name.
    NoneType,
    /// A value that is of one of several types.
    SumType(Vec<EType>),
    /// Nothing is known yet.
    Pending,
}

/// The mathematical value of an [`EType`].
pub enum ETypeView {
    Bool(Option<Seq<char>>),
    Int(Option<Seq<char>>),
    String(Option<Seq<char>>),
    Char(Option<Seq<char>>),
    NoneType,
    SumType(Seq<ETypeView>),
    Pending,
}

impl EType {
    pub open spec fn view(&self) -> ETypeView
        decreases self,
    {
        match self {
            EType::Bool(value) => ETypeView::Bool(text::opt_text(*value)),
            EType::Int(value) => ETypeView::Int(text::opt_text(*value)),
            EType::String(value) => ETypeView::String(text::opt_text(*value)),
            EType::Char(value) => ETypeView::Char(text::opt_text(*value)),
            EType::NoneType => ETypeView::NoneType,
            EType::SumType(parts) => ETypeView::SumType(views(parts@)),
            EType::Pending => ETypeView::Pending,
        }
    }
}

/// The values of a list of types.
pub open spec fn views(types: Seq<EType>) -> Seq<ETypeView>
    decreases types,
{
    if types.len() == 0 {
        Seq::empty()
    } else {
        views(types.drop_last()).push(types.last().view())
    }
}

/// The values of a list of types, one by one.
pub proof fn lemma_views(types: Seq<EType>)
    ensures
        views(types).len() == types.len(),
        forall|i: int| 0 <= i < types.len() ==> #[trigger] views(types)[i] == types[i].view(),
    decreases types.len(),
{
    if types.len() > 0 {
        lemma_views(types.drop_last());
    }
}

/// `views` of a list that grew by one.
pub proof fn lemma_views_push(types: Seq<EType>, t: EType)
    ensures
        views(types.push(t)) == views(types).push(t.view()),
{
    assert(types.push(t).drop_last() == types);
}

/// The kinds a value can be of. A literal is of the kind of its type.
#[derive(Clone, Copy, Debug, PartialEq, Eq, Structural)]
pub enum Kind {
    Bool,
    Int,
    String,
    Char,
    NoneType,
}

impl ETypeView {
    /// The kind of a single type; a sum and what is undecided have none.
    pub open spec fn kind(self) -> Option<Kind> {
        match self {
            ETypeView::Bool(_) => Some(Kind::Bool),
            ETypeView::Int(_) => Some(Kind::Int),
            ETypeView::String(_) => Some(Kind::String),
            ETypeView::Char(_) => Some(Kind::Char),
            ETypeView::NoneType => Some(Kind::NoneType),
            ETypeView::SumType(_) => None,
            ETypeView::Pending => None,
        }
    }

    /// The literal a single type is narrowed to.
    pub open spec fn literal(self) -> Option<Seq<char>> {
        match self {
            ETypeView::Bool(value) => value,
            ETypeView::Int(value) => value,
            ETypeView::String(value) => value,
            ETypeView::Char(value) => value,
            _ => None,
        }
    }

    /// The single types a value of this type can be of, in the order in which
    /// they are written.
    pub open spec fn leaves(self) -> Seq<ETypeView>
        decreases self,
    {
        match self {
            ETypeView::SumType(parts) => leaves_of_all(parts),
            ETypeView::Pending => Seq::empty(),
            leaf => seq![leaf],
        }
    }
}

/// The leaves of several types, one after the other.
pub open spec fn leaves_of_all(types: Seq<ETypeView>) -> Seq<ETypeView>
    decreases types,
{
    if types.len() == 0 {
        Seq::empty()
    } else {
        leaves_of_all(types.drop_last()) + types.last().leaves()
    }
}

/// Every leaf is a single type.
pub proof fn lemma_leaves_have_a_kind(t: ETypeView)
    ensures
        forall|i: int| 0 <= i < t.leaves().len() ==> (#[trigger] t.leaves()[i]).kind() is Some,
    decreases t,
{
    if let ETypeView::SumType(parts) = t {
        lemma_leaves_of_all_have_a_kind(parts);
    }
}

proof fn lemma_leaves_of_all_have_a_kind(types: Seq<ETypeView>)
    ensures
        forall|i: int|
            0 <= i < leaves_of_all(types).len() ==> (#[trigger] leaves_of_all(
                types,
            )[i]).kind() is Some,
    decreases types,
{
    if types.len() > 0 {
        lemma_leaves_of_all_have_a_kind(types.drop_last());
        lemma_leaves_have_a_kind(types.last());
    }
}

impl Clone for EType {
    fn clone(&self) -> (res: Self)
        ensures
            res@ == self@,
        decreases self,
    {
        match self {
            EType::Bool(value) => EType::Bool(text::clone_opt_text(value)),
            EType::Int(value) => EType::Int(text::clone_opt_text(value)),
            EType::String(value) => EType::String(text::clone_opt_text(value)),
            EType::Char(value) => EType::Char(text::clone_opt_text(value)),
            EType::NoneType => EType::NoneType,
            EType::SumType(parts) => {
                let mut copies: Vec<EType> = Vec::new();
                let mut i: usize = 0;
                while i < parts.len()
                    invariant
                        i <= parts.len(),
                        *self == EType::SumType(*parts),
                        views(copies@) == views(parts@.take(i as int)),
                    decreases parts.len() - i,
                {
                    proof {
                        assert(decreases_to!(self => self->SumType_0));
                        assert(decreases_to!(self->SumType_0 => parts@));
                        assert(decreases_to!(parts@ => parts@[i as int]));
                    }
                    let copy = parts[i].clone();
                    proof {
                        lemma_views_push(copies@, copy);
                        lemma_views_push(parts@.take(i as int), parts[i as int]);
                        assert(parts@.take(i as int).push(parts[i as int]) == parts@.take(i + 1));
                    }
                    copies.push(copy);
                    i = i + 1;
                }
                assert(parts@.take(i as int) == parts@);
                EType::SumType(copies)
            },
            EType::Pending => EType::Pending,
        }
    }
}

/// What an anchor carries of a type declared on a node.
pub open spec fn carried(t: etype::ETypeView) -> ETypeView {
    match t {
        etype::ETypeView::Bool(value) => ETypeView::Bool(value),
        etype::ETypeView::Int(value) => ETypeView::Int(value),
        etype::ETypeView::String(value) => ETypeView::String(value),
        etype::ETypeView::Char(value) => ETypeView::Char(value),
        etype::ETypeView::NoneType(_) => ETypeView::NoneType,
    }
}

/// The declared type `t`, as the type of a value.
pub fn graph_type_to_eval_type(t: &etype::EType) -> (res: EType)
    ensures
        res@ == carried(t@),
{
    match t {
        etype::EType::Bool { value } => EType::Bool(text::clone_opt_text(value)),
        etype::EType::Int { value } => EType::Int(text::clone_opt_text(value)),
        etype::EType::String { value } => EType::String(text::clone_opt_text(value)),
        etype::EType::Char { value } => EType::Char(text::clone_opt_text(value)),
        etype::EType::NoneType { .. } => EType::NoneType,
    }
}

/// The kind of a single type; `None` for a sum and for what is undecided.
pub fn kind_of(t: &EType) -> (kind: Option<Kind>)
    ensures
        kind == t@.kind(),
{
    match t {
        EType::Bool(_) => Some(Kind::Bool),
        EType::Int(_) => Some(Kind::Int),
        EType::String(_) => Some(Kind::String),
        EType::Char(_) => Some(Kind::Char),
        EType::NoneType => Some(Kind::NoneType),
        EType::SumType(_) => None,
        EType::Pending => None,
    }
}

/// Whether two single types are of one kind. A literal counts as its type, and
/// what is of no kind of its own matches nothing.
pub fn types_match(a: &EType, b: &EType) -> (res: bool)
    ensures
        res == (a@.kind() is Some && a@.kind() == b@.kind()),
{
    match (kind_of(a), kind_of(b)) {
        (Some(a), Some(b)) => a == b,
        _ => false,
    }
}

/// A row admits a leaf: it is of the leaf's kind, and where it is a literal it is
/// the leaf's.
pub open spec fn admits(row: ETypeView, leaf: ETypeView) -> bool {
    row.kind() is Some && row.kind() == leaf.kind() && (row.literal() is None || row.literal()
        == leaf.literal())
}

/// Whether the single type `row` admits the single type `leaf`. Asked rather
/// than the kind because a row may be a literal: a `1` belongs on the `1` row of
/// a `1|2`, not merely on some row of its kind.
pub fn subsumes(row: &EType, leaf: &EType) -> (res: bool)
    ensures
        res == admits(row@, leaf@),
{
    if !types_match(row, leaf) {
        return false;
    }
    match (leaf_literal(row), leaf_literal(leaf)) {
        (None, _) => true,
        (Some(wanted), Some(found)) => *wanted == *found,
        (Some(_), None) => false,
    }
}

/// The literal a single type is narrowed to.
pub fn leaf_literal(leaf: &EType) -> (value: Option<&String>)
    ensures
        match value {
            Some(value) => leaf@.literal() == Some(value@),
            None => leaf@.literal() is None,
        },
{
    match leaf {
        EType::Bool(value) | EType::Int(value) | EType::String(value) | EType::Char(value) => {
            value.as_ref()
        },
        _ => None,
    }
}

/// The single types that claim a row of an anchor of type `t`.
pub fn row_leaves(t: &EType) -> (leaves: Vec<EType>)
    ensures
        views(leaves@) == t@.leaves(),
    decreases t,
{
    match t {
        EType::SumType(parts) => {
            let mut leaves: Vec<EType> = Vec::new();
            let mut i: usize = 0;
            while i < parts.len()
                invariant
                    i <= parts.len(),
                    *t == EType::SumType(*parts),
                    views(leaves@) == leaves_of_all(views(parts@.take(i as int))),
                decreases parts.len() - i,
            {
                proof {
                    assert(decreases_to!(t => t->SumType_0));
                    assert(decreases_to!(t->SumType_0 => parts@));
                    assert(decreases_to!(parts@ => parts@[i as int]));
                }
                let mut more = row_leaves(&parts[i]);
                proof {
                    lemma_views(leaves@);
                    lemma_views(more@);
                    lemma_views(leaves@ + more@);
                    let prefix = parts@.take(i as int);
                    let grown = parts@.take(i + 1);
                    assert(grown.drop_last() == prefix);
                    assert(views(grown).drop_last() == views(prefix));
                    assert(views(leaves@ + more@) == views(leaves@) + views(more@));
                }
                leaves.append(&mut more);
                i = i + 1;
            }
            assert(parts@.take(i as int) == parts@);
            leaves
        },
        EType::Pending => Vec::new(),
        leaf => {
            let mut leaves: Vec<EType> = Vec::new();
            let copy = leaf.clone();
            proof {
                lemma_views_push(leaves@, copy);
            }
            leaves.push(copy);
            leaves
        },
    }
}

/// How a type is written in full: its name, or the literal it is narrowed to. A
/// string stands in double quotes and a character in single ones; the members of
/// a sum have bars between them.
pub open spec fn full_name(t: ETypeView) -> Seq<char>
    decreases t,
{
    match t {
        ETypeView::Bool(value) => etype::ETypeView::Bool(value).spelling(),
        ETypeView::Int(value) => etype::ETypeView::Int(value).spelling(),
        ETypeView::String(value) => etype::ETypeView::String(value).spelling(),
        ETypeView::Char(value) => etype::ETypeView::Char(value).spelling(),
        ETypeView::NoneType => "None"@,
        ETypeView::SumType(parts) => text::joined(full_names(parts), "|"@),
        ETypeView::Pending => "Pending"@,
    }
}

/// The names of several types.
pub open spec fn full_names(types: Seq<ETypeView>) -> Seq<Seq<char>>
    decreases types,
{
    if types.len() == 0 {
        Seq::empty()
    } else {
        full_names(types.drop_last()).push(full_name(types.last()))
    }
}

proof fn lemma_full_names(types: Seq<ETypeView>)
    ensures
        full_names(types).len() == types.len(),
    decreases types.len(),
{
    if types.len() > 0 {
        lemma_full_names(types.drop_last());
    }
}

/// The type as it is shown to a reader.
pub fn spelled(t: &EType) -> (name: String)
    ensures
        name@ == full_name(t@),
    decreases t,
{
    match t {
        EType::Bool(value) => etype::EType::Bool { value: text::clone_opt_text(value) }.spelled(),
        EType::Int(value) => etype::EType::Int { value: text::clone_opt_text(value) }.spelled(),
        EType::String(value) => etype::EType::String {
            value: text::clone_opt_text(value),
        }.spelled(),
        EType::Char(value) => etype::EType::Char { value: text::clone_opt_text(value) }.spelled(),
        EType::NoneType => "None".to_owned(),
        EType::SumType(parts) => {
            let mut name = String::new();
            let ghost views = views(parts@);
            let mut i: usize = 0;
            while i < parts.len()
                invariant
                    i <= parts.len(),
                    *t == EType::SumType(*parts),
                    views == self::views(parts@),
                    name@ == text::joined(full_names(views.take(i as int)), "|"@),
                decreases parts.len() - i,
            {
                proof {
                    assert(decreases_to!(t => t->SumType_0));
                    assert(decreases_to!(t->SumType_0 => parts@));
                    assert(decreases_to!(parts@ => parts@[i as int]));
                    lemma_views(parts@);
                    lemma_full_names(views.take(i as int));
                    assert(views.take(i + 1).drop_last() == views.take(i as int));
                    assert(full_names(views.take(i + 1)).drop_last() == full_names(
                        views.take(i as int),
                    ));
                }
                let part = spelled(&parts[i]);
                if i > 0 {
                    name = name.concat("|");
                }
                name = name.concat(part.as_str());
                assert(name@ == text::joined(full_names(views.take(i + 1)), "|"@));
                i = i + 1;
            }
            proof {
                lemma_views(parts@);
                assert(views.take(i as int) == views);
            }
            name
        },
        EType::Pending => "Pending".to_owned(),
    }
}

/// A value of a sum can be of every single type that its parts can be of, and of
/// no other; what is undecided can be of none, and a single type is itself.
pub proof fn law_what_a_value_can_be_of(t: ETypeView, parts: Seq<ETypeView>, leaf: ETypeView)
    ensures
        t.kind() is Some ==> t.leaves() == seq![t],
        ETypeView::Pending.leaves().len() == 0,
        ETypeView::SumType(parts).leaves().contains(leaf) <==> exists|i: int|
            0 <= i < parts.len() && (#[trigger] parts[i]).leaves().contains(leaf),
{
    lemma_leaves_of_all(parts, leaf);
}

proof fn lemma_leaves_of_all(parts: Seq<ETypeView>, leaf: ETypeView)
    ensures
        leaves_of_all(parts).contains(leaf) <==> exists|i: int|
            0 <= i < parts.len() && (#[trigger] parts[i]).leaves().contains(leaf),
    decreases parts.len(),
{
    if parts.len() > 0 {
        let shorter = parts.drop_last();
        let last = parts.len() - 1;
        lemma_leaves_of_all(shorter, leaf);
        let before = leaves_of_all(shorter);
        let more = parts.last().leaves();
        let all = leaves_of_all(parts);
        assert(all == before + more);
        if all.contains(leaf) {
            let k = choose|k: int| 0 <= k < all.len() && all[k] == leaf;
            if k < before.len() {
                assert(before[k] == leaf);
                let i = choose|i: int|
                    0 <= i < shorter.len() && (#[trigger] shorter[i]).leaves().contains(leaf);
                assert(parts[i] == shorter[i]);
            } else {
                assert(more[k - before.len()] == leaf);
                assert(parts[last].leaves().contains(leaf));
            }
        }
        if exists|i: int| 0 <= i < parts.len() && (#[trigger] parts[i]).leaves().contains(leaf) {
            let i = choose|i: int|
                0 <= i < parts.len() && (#[trigger] parts[i]).leaves().contains(leaf);
            if i < last {
                assert(shorter[i] == parts[i]);
                let k = choose|k: int| 0 <= k < before.len() && before[k] == leaf;
                assert(all[k] == leaf);
            } else {
                let k = choose|k: int| 0 <= k < more.len() && more[k] == leaf;
                assert(all[before.len() + k] == leaf);
            }
        }
    }
}

/// A row that is no literal admits every value of its kind, a row that is one
/// admits that literal and nothing else, and no row admits what is of another
/// kind. Every single type admits itself.
pub proof fn law_what_a_row_admits(row: ETypeView, leaf: ETypeView)
    ensures
        row.kind() is Some ==> admits(row, row),
        admits(row, leaf) ==> row.kind() is Some && row.kind() == leaf.kind(),
        row.kind() is Some && row.kind() == leaf.kind() && row.literal() is None ==> admits(
            row,
            leaf,
        ),
        row.literal() is Some ==> (admits(row, leaf) <==> row == leaf),
{
}

/// An anchor carries what its node declares: the same kind of type, narrowed to the
/// same literal.
pub proof fn law_what_is_carried(t: etype::ETypeView)
    ensures
        t is Bool <==> carried(t) is Bool,
        t is Int <==> carried(t) is Int,
        t is String <==> carried(t) is String,
        t is Char <==> carried(t) is Char,
        t is NoneType <==> carried(t) is NoneType,
        !(t is NoneType) ==> full_name(carried(t)) == t.spelling(),
        etype::ETypeView::NoneType(None).spelling() == full_name(ETypeView::NoneType),
{
}

/// A single type is written as it is declared, and a sum by its members, in their
/// order and with bars between them.
pub proof fn law_how_a_sum_is_written(parts: Seq<ETypeView>, part: ETypeView, value: Option<Seq<char>>)
    ensures
        full_name(ETypeView::SumType(seq![part])) == full_name(part),
        parts.len() > 0 ==> full_name(ETypeView::SumType(parts.push(part))) == full_name(
            ETypeView::SumType(parts),
        ) + seq!['|'] + full_name(part),
        full_name(ETypeView::Bool(value)) == etype::ETypeView::Bool(value).spelling(),
        full_name(ETypeView::Int(value)) == etype::ETypeView::Int(value).spelling(),
        full_name(ETypeView::String(value)) == etype::ETypeView::String(value).spelling(),
        full_name(ETypeView::Char(value)) == etype::ETypeView::Char(value).spelling(),
{
    reveal_strlit("|");
    assert("|"@ =~= seq!['|']);
    assert(parts.push(part).drop_last() =~= parts);
    lemma_full_names(parts);
    assert(full_names(parts.push(part)) =~= full_names(parts).push(full_name(part)));
    text::law_how_texts_are_joined(full_names(parts), full_name(part), "|"@);
    assert(seq![part].drop_last() =~= Seq::<ETypeView>::empty());
    assert(full_names(seq![part].drop_last()) =~= Seq::<Seq<char>>::empty());
    assert(full_names(seq![part]) =~= seq![full_name(part)]);
}

} // verus!
