//! The rows of the values modal: one for each Source.

use crate::model::node::{self, ENode};
use crate::text;
use std::collections::HashMap;
use vstd::prelude::*;

verus! {

broadcast use vstd::std_specs::hash::group_hash_axioms;

/// A Source that is asked for: its index in the lateral order, where it has one,
/// and its id.
#[derive(Clone, Copy, Debug, PartialEq, Eq, Structural)]
pub struct SourceRow {
    pub index: Option<usize>,
    pub id: node::Id,
}

/// The number a row is sorted by. A row without an index comes last.
pub open spec fn rank(row: SourceRow) -> usize {
    match row.index {
        Some(index) => index,
        None => usize::MAX,
    }
}

/// `a` stands before `b`: by index, and where that does not decide, by id.
pub open spec fn stands_before(a: SourceRow, b: SourceRow) -> bool {
    rank(a) < rank(b) || (rank(a) == rank(b) && a.id.0 < b.id.0)
}

/// No row stands behind one that it should stand before.
pub open spec fn rows_sorted(rows: Seq<SourceRow>) -> bool {
    forall|i: int, j: int|
        0 <= i < j < rows.len() ==> !stands_before(#[trigger] rows[j], #[trigger] rows[i])
}

fn is_before(a: &SourceRow, b: &SourceRow) -> (res: bool)
    ensures
        res == stands_before(*a, *b),
{
    let a_rank: usize = match a.index {
        Some(index) => index,
        None => usize::MAX,
    };
    let b_rank: usize = match b.index {
        Some(index) => index,
        None => usize::MAX,
    };
    a_rank < b_rank || (a_rank == b_rank && a.id.0 < b.id.0)
}

/// The rows in the order in which they are asked: by index, and where that does
/// not decide, by id.
pub fn sorted_rows(rows: &Vec<SourceRow>) -> (sorted: Vec<SourceRow>)
    ensures
        rows_sorted(sorted@),
        sorted@.to_multiset() == rows@.to_multiset(),
{
    broadcast use vstd::seq_lib::group_to_multiset_ensures;

    let mut sorted: Vec<SourceRow> = Vec::new();
    let mut i: usize = 0;
    while i < rows.len()
        invariant
            i <= rows.len(),
            rows_sorted(sorted@),
            sorted@.to_multiset() == rows@.take(i as int).to_multiset(),
        decreases rows.len() - i,
    {
        let row = rows[i];
        let mut at: usize = 0;
        while at < sorted.len() && !is_before(&row, &sorted[at])
            invariant
                at <= sorted.len(),
                forall|j: int| 0 <= j < at ==> !stands_before(row, #[trigger] sorted@[j]),
            decreases sorted.len() - at,
        {
            at = at + 1;
        }
        let ghost before = sorted@;
        sorted.insert(at, row);
        proof {
            lemma_insert_sorted(before, at as int, row);
            lemma_insert_multiset(before, at as int, row);
            assert(rows@.take(i + 1) =~= rows@.take(i as int).push(row));
            assert(rows@.take(i as int).push(row).to_multiset() =~= rows@.take(
                i as int,
            ).to_multiset().insert(row)) by {
                broadcast use vstd::seq_lib::group_to_multiset_ensures;

            }
        }
        i = i + 1;
    }
    assert(rows@.take(i as int) == rows@);
    sorted
}

proof fn lemma_insert_sorted(rows: Seq<SourceRow>, at: int, row: SourceRow)
    requires
        0 <= at <= rows.len(),
        rows_sorted(rows),
        forall|j: int| 0 <= j < at ==> !stands_before(row, #[trigger] rows[j]),
        at < rows.len() ==> stands_before(row, rows[at]),
    ensures
        rows_sorted(rows.insert(at, row)),
{
    let grown = rows.insert(at, row);
    assert forall|i: int, j: int| 0 <= i < j < grown.len() implies !stands_before(
        #[trigger] grown[j],
        #[trigger] grown[i],
    ) by {
        if i == at {
            assert(grown[j] == rows[j - 1]);
            if j - 1 > at {
                assert(!stands_before(rows[j - 1], rows[at]));
            }
        } else if j == at {
            assert(grown[i] == rows[i]);
        } else {
            let p = if i < at { i } else { i - 1 };
            let q = if j < at { j } else { j - 1 };
            assert(grown[i] == rows[p] && grown[j] == rows[q]);
        }
    }
}

proof fn lemma_insert_multiset(rows: Seq<SourceRow>, at: int, row: SourceRow)
    requires
        0 <= at <= rows.len(),
    ensures
        rows.insert(at, row).to_multiset() == rows.to_multiset().insert(row),
{
    broadcast use vstd::seq_lib::group_to_multiset_ensures;

}

/// What a row is called: the index it is asked by, and the name behind it where
/// there is one. The index leads, because a name may be empty and two Sources
/// may carry the same one.
pub open spec fn row_label(index: Option<usize>, name: Seq<char>) -> Seq<char> {
    match index {
        Some(index) => if name.len() == 0 {
            "["@ + text::decimal_of(index as nat) + "]"@
        } else {
            "["@ + text::decimal_of(index as nat) + "] "@ + name
        },
        None => name,
    }
}

/// The name of the Source `id`; a question mark for what is no Source.
pub open spec fn source_name(nodes: Map<usize, ENode>, id: node::Id) -> Seq<char> {
    if nodes.contains_key(id.0) {
        match nodes[id.0] {
            ENode::Source { name, .. } => name@,
            _ => "?"@,
        }
    } else {
        "?"@
    }
}

fn name_of(nodes: &HashMap<usize, ENode>, id: &node::Id) -> (name: String)
    ensures
        name@ == source_name(nodes@, *id),
{
    match nodes.get(&id.0) {
        Some(ENode::Source { name, .. }) => name.clone(),
        _ => "?".to_owned(),
    }
}

fn label_of(index: Option<usize>, name: &String) -> (label: String)
    ensures
        label@ == row_label(index, name@),
{
    match index {
        Some(index) => if name.as_str().is_empty() {
            "[".to_owned().concat(text::decimal(index as u64).as_str()).concat("]")
        } else {
            "[".to_owned().concat(text::decimal(index as u64).as_str()).concat("] ").concat(
                name.as_str(),
            )
        },
        None => name.clone(),
    }
}

/// The rows of the values modal, in the order they are asked in, each with what
/// it is called.
pub fn source_labels(
    nodes: &HashMap<usize, ENode>,
    rows: &Vec<SourceRow>,
) -> (labels: Vec<(node::Id, String)>)
    ensures
        exists|sorted: Seq<SourceRow>| #[trigger]
            rows_sorted(sorted) && sorted.to_multiset() == rows@.to_multiset() && labels@.len()
                == sorted.len() && forall|i: int|
                0 <= i < sorted.len() ==> (#[trigger] labels@[i]).0 == sorted[i].id
                    && labels@[i].1@ == row_label(
                    sorted[i].index,
                    source_name(nodes@, sorted[i].id),
                ),
{
    let sorted = sorted_rows(rows);
    let mut labels: Vec<(node::Id, String)> = Vec::new();
    let mut i: usize = 0;
    while i < sorted.len()
        invariant
            i <= sorted.len(),
            labels.len() == i,
            forall|j: int|
                0 <= j < i ==> (#[trigger] labels@[j]).0 == sorted@[j].id && labels@[j].1@
                    == row_label(sorted@[j].index, source_name(nodes@, sorted@[j].id)),
        decreases sorted.len() - i,
    {
        let name = name_of(nodes, &sorted[i].id);
        labels.push((sorted[i].id, label_of(sorted[i].index, &name)));
        i = i + 1;
    }
    labels
}

/// Sorting rows with different ids leaves no choice: two sorted lists of the
/// same rows are the same list.
pub proof fn law_order_is_determined(a: Seq<SourceRow>, b: Seq<SourceRow>)
    requires
        rows_sorted(a),
        rows_sorted(b),
        a.to_multiset() == b.to_multiset(),
        forall|i: int, j: int|
            0 <= i < j < a.len() ==> (#[trigger] a[i]).id != (#[trigger] a[j]).id,
    ensures
        a == b,
    decreases a.len(),
{
    broadcast use vstd::seq_lib::group_to_multiset_ensures;

    assert(a.len() == b.len()) by {
        assert(a.to_multiset().len() == a.len());
        assert(b.to_multiset().len() == b.len());
    }
    if a.len() > 0 {
        let last = a.last();
        assert(a.to_multiset().count(last) > 0);
        assert(b.to_multiset().count(last) > 0);
        assert(b.contains(last));
        let at = choose|at: int| 0 <= at < b.len() && b[at] == last;
        let end = b.last();
        assert(b.to_multiset().count(end) > 0);
        assert(a.to_multiset().count(end) > 0);
        assert(a.contains(end));
        let k = choose|k: int| 0 <= k < a.len() && a[k] == end;
        if k < a.len() - 1 {
            assert(a[k].id != a[a.len() - 1].id);
            assert(!stands_before(a[a.len() - 1], a[k]));
            assert(at != b.len() - 1);
            assert(!stands_before(b[b.len() - 1], b[at]));
        }
        assert(end == last);
        let shorter_a = a.drop_last();
        let shorter_b = b.drop_last();
        assert(a =~= shorter_a.push(last));
        assert(b =~= shorter_b.push(last));
        assert(shorter_a.to_multiset() =~= a.to_multiset().remove(last));
        assert(shorter_b.to_multiset() =~= b.to_multiset().remove(last));
        assert forall|i: int, j: int| 0 <= i < j < shorter_a.len() implies (
        #[trigger] shorter_a[i]).id != (#[trigger] shorter_a[j]).id by {
            assert(a[i].id != a[j].id);
        }
        law_order_is_determined(shorter_a, shorter_b);
    }
}

/// Sources are asked for by their index, the lesser first; one without an index
/// comes after every one that has one below the greatest there is; and where the
/// index does not decide, the lesser id comes first.
pub proof fn law_who_is_asked_first(a: SourceRow, b: SourceRow)
    ensures
        a.index matches Some(i) ==> b.index matches Some(j) ==> i < j ==> stands_before(a, b),
        a.index matches Some(i) ==> i < usize::MAX && b.index is None ==> stands_before(a, b),
        a.index == b.index && a.id.0 < b.id.0 ==> stands_before(a, b),
        stands_before(a, b) ==> !stands_before(b, a),
        a.id != b.id ==> stands_before(a, b) || stands_before(b, a),
{
}

/// A row is called by its index in square brackets, with its name behind it where
/// it has one; without an index it is called by its name alone. What is no Source
/// is called by a question mark.
pub proof fn law_what_a_row_is_called(
    nodes: Map<usize, ENode>,
    id: node::Id,
    index: usize,
    name: Seq<char>,
)
    ensures
        row_label(None, name) == name,
        row_label(Some(index), Seq::empty()) == seq!['['] + text::decimal_of(index as nat) + seq![
            ']',
        ],
        name.len() > 0 ==> row_label(Some(index), name) == seq!['['] + text::decimal_of(
            index as nat,
        ) + seq![']', ' '] + name,
        nodes.contains_key(id.0) ==> (nodes[id.0] matches ENode::Source { name: called, .. }
            ==> source_name(nodes, id) == called@),
        !nodes.contains_key(id.0) || !(nodes[id.0] is Source) ==> source_name(nodes, id) == seq!['?'],
{
    reveal_strlit("[");
    reveal_strlit("]");
    reveal_strlit("] ");
    reveal_strlit("?");
    assert("["@ =~= seq!['[']);
    assert("]"@ =~= seq![']']);
    assert("] "@ =~= seq![']', ' ']);
    assert("?"@ =~= seq!['?']);
}

} // verus!
