//! The values that float over the nodes while a program runs.

use crate::cell::Cell;
use crate::evaluation::{self, Snapshot};
use crate::model::node::{self, ENode};
use crate::model::table;
use std::collections::{HashMap, HashSet};
use vstd::prelude::*;

verus! {

broadcast use vstd::std_specs::hash::group_hash_axioms;

/// The nodes that the step on screen resolved: the difference to the snapshot
/// behind it. The first has nothing behind it, and there the difference is the
/// whole of it.
pub open spec fn resolved_at(states: Seq<Map<usize, String>>, current: nat) -> Set<usize> {
    if current == 0 {
        states[0].dom()
    } else {
        states[current as int].dom().difference(states[current - 1].dom())
    }
}

/// What the step on screen resolved, rather than everything the run knows by
/// now. A snapshot is cumulative, so the whole history stands in every one; the
/// difference to the one behind is exactly the frontier that the press resolved.
pub fn resolved_now(states: &Vec<Snapshot>, current: usize) -> (ids: Vec<usize>)
    requires
        current < states.len(),
    ensures
        ids@.no_duplicates(),
        ids@.to_set() == resolved_at(evaluation::snapshot_views(states@), current as nat),
{
    let all = table::keys_of(&states[current].values);
    let ghost views = evaluation::snapshot_views(states@);
    let ghost wanted = resolved_at(views, current as nat);
    if current == 0 {
        return all;
    }
    let mut ids: Vec<usize> = Vec::new();
    let mut i: usize = 0;
    while i < all.len()
        invariant
            0 < current < states.len(),
            i <= all.len(),
            all@.no_duplicates(),
            all@.to_set() == states@[current as int]@.dom(),
            ids@.no_duplicates(),
            forall|id: usize| #[trigger]
                ids@.contains(id) <==> all@.take(i as int).contains(id) && !states@[current
                    - 1]@.contains_key(id),
        decreases all.len() - i,
    {
        let ghost before = ids@;
        let key: usize = all[i];
        assert(all@.take(i + 1) =~= all@.take(i as int).push(key));
        proof {
            if all@.take(i as int).contains(key) {
                let j = choose|j: int|
                    0 <= j < i && #[trigger] all@.take(i as int)[j] == key;
                assert(all@[j] == key);
            }
            lemma_push_contains(all@.take(i as int), key);
            lemma_push_contains(before, key);
        }
        if !states[current - 1].values.contains_key(&key) {
            ids.push(key);
        }
        i = i + 1;
    }
    proof {
        assert(all@.take(i as int) =~= all@);
        assert forall|id: usize| ids@.to_set().contains(id) == wanted.contains(id) by {
            assert(ids@.to_set().contains(id) == ids@.contains(id));
            assert(all@.to_set().contains(id) == all@.contains(id));
        }
        assert(ids@.to_set() =~= wanted);
    }
    ids
}

proof fn lemma_push_contains(list: Seq<usize>, key: usize)
    ensures
        forall|id: usize| #[trigger]
            list.push(key).contains(id) <==> list.contains(id) || id == key,
        list.no_duplicates() && !list.contains(key) ==> list.push(key).no_duplicates(),
{
    let grown = list.push(key);
    assert forall|id: usize| #[trigger] grown.contains(id) <==> list.contains(id) || id == key by {
        if list.contains(id) {
            let j = choose|j: int| 0 <= j < list.len() && list[j] == id;
            assert(grown[j] == id);
        }
        if id == key {
            assert(grown[list.len() as int] == id);
        }
    }
}

/// How far from its own cell a node answers. A Match hands its value out behind
/// its arms, `output_z` cells further on, and its own cell is the entry in front
/// of them: written there, the answer to a large Match would appear at the far
/// end of the run from the branch that produced it. Every other node answers
/// where it stands.
pub open spec fn answer_offset(node: ENode, output_z: i32) -> Cell {
    if node is Match {
        Cell { x: 0, y: 0, z: output_z }
    } else {
        Cell { x: 0, y: 0, z: 0 }
    }
}

/// How far from its own cell a node answers.
pub fn answers_at(node: &ENode, output_z: i32) -> (offset: Cell)
    ensures
        offset == answer_offset(*node, output_z),
{
    match node {
        ENode::Match { .. } => Cell::new(0, 0, output_z),
        _ => Cell::new(0, 0, 0),
    }
}

/// What becomes of the labels: for each standing one the text it shows from now
/// on, or `None` where it goes; and the labels that are put up.
pub struct LabelPlan {
    pub standing: Vec<Option<String>>,
    pub added: Vec<(node::Id, Cell, String)>,
}

/// A standing label stays: the step on screen resolved its node, and the node is
/// not inside a volume that is closed.
pub open spec fn stays(resolved: Set<usize>, hidden: Set<usize>, id: node::Id) -> bool {
    resolved.contains(id.0) && !hidden.contains(id.0)
}

/// A label is put up: its node is resolved by the step on screen, has a place,
/// is not hidden, and has no label that stays.
pub open spec fn is_put_up(
    resolved: Set<usize>,
    hidden: Set<usize>,
    places: Map<usize, Cell>,
    standing: Seq<node::Id>,
    id: node::Id,
) -> bool {
    stays(resolved, hidden, id) && places.contains_key(id.0) && !standing.contains(id)
}

fn stands(standing: &Vec<node::Id>, id: node::Id) -> (res: bool)
    ensures
        res == standing@.contains(id),
{
    let mut i: usize = 0;
    while i < standing.len()
        invariant
            i <= standing.len(),
            forall|j: int| 0 <= j < i ==> standing@[j] != id,
        decreases standing.len() - i,
    {
        if standing[i] == id {
            return true;
        }
        i = i + 1;
    }
    false
}

fn is_in(ids: &Vec<usize>, id: usize) -> (res: bool)
    ensures
        res == ids@.to_set().contains(id),
{
    let mut i: usize = 0;
    while i < ids.len()
        invariant
            i <= ids.len(),
            forall|j: int| 0 <= j < i ==> ids@[j] != id,
        decreases ids.len() - i,
    {
        if ids[i] == id {
            assert(ids@.contains(id));
            return true;
        }
        i = i + 1;
    }
    assert(!ids@.contains(id));
    false
}

/// The labels of the step on screen. `standing` are the nodes of the labels that
/// are up, `hidden` the nodes inside closed volumes, `places` where each node
/// answers.
pub fn label_plan(
    states: &Vec<Snapshot>,
    current: usize,
    standing: &Vec<node::Id>,
    hidden: &HashSet<usize>,
    places: &HashMap<usize, Cell>,
) -> (plan: LabelPlan)
    requires
        current < states.len(),
    ensures
        plan.standing.len() == standing.len(),
        forall|i: int|
            0 <= i < standing.len() ==> match #[trigger] plan.standing@[i] {
                Some(text) => stays(
                    resolved_at(evaluation::snapshot_views(states@), current as nat),
                    hidden@,
                    standing@[i],
                ) && text@ == states@[current as int]@[standing@[i].0]@,
                None => !stays(
                    resolved_at(evaluation::snapshot_views(states@), current as nat),
                    hidden@,
                    standing@[i],
                ),
            },
        forall|i: int|
            0 <= i < plan.added.len() ==> is_put_up(
                resolved_at(evaluation::snapshot_views(states@), current as nat),
                hidden@,
                places@,
                standing@,
                (#[trigger] plan.added@[i]).0,
            ) && plan.added@[i].1 == places@[plan.added@[i].0.0] && plan.added@[i].2@
                == states@[current as int]@[plan.added@[i].0.0]@,
        forall|id: node::Id| #[trigger]
            is_put_up(
                resolved_at(evaluation::snapshot_views(states@), current as nat),
                hidden@,
                places@,
                standing@,
                id,
            ) ==> exists|i: int|
                0 <= i < plan.added.len() && (#[trigger] plan.added@[i]).0 == id,
        forall|i: int, j: int|
            0 <= i < j < plan.added.len() ==> (#[trigger] plan.added@[i]).0 != (
            #[trigger] plan.added@[j]).0,
{
    let ids = resolved_now(states, current);
    let ghost resolved = resolved_at(evaluation::snapshot_views(states@), current as nat);
    let values = &states[current].values;
    let mut fates: Vec<Option<String>> = Vec::new();
    let mut i: usize = 0;
    while i < standing.len()
        invariant
            current < states.len(),
            values@ == states@[current as int]@,
            ids@.to_set() == resolved,
            resolved.subset_of(values@.dom()),
            i <= standing.len(),
            fates.len() == i,
            forall|j: int|
                0 <= j < i ==> match #[trigger] fates@[j] {
                    Some(text) => stays(resolved, hidden@, standing@[j]) && text@
                        == values@[standing@[j].0]@,
                    None => !stays(resolved, hidden@, standing@[j]),
                },
        decreases standing.len() - i,
    {
        let id = standing[i];
        let fate = if is_in(&ids, id.0) && !hidden.contains(&id.0) {
            match values.get(&id.0) {
                Some(text) => Some(text.clone()),
                None => None,
            }
        } else {
            None
        };
        fates.push(fate);
        i = i + 1;
    }
    let mut added: Vec<(node::Id, Cell, String)> = Vec::new();
    let mut k: usize = 0;
    while k < ids.len()
        invariant
            current < states.len(),
            values@ == states@[current as int]@,
            ids@.to_set() == resolved,
            ids@.no_duplicates(),
            resolved.subset_of(values@.dom()),
            k <= ids.len(),
            forall|j: int|
                0 <= j < added.len() ==> is_put_up(
                    resolved,
                    hidden@,
                    places@,
                    standing@,
                    (#[trigger] added@[j]).0,
                ) && added@[j].1 == places@[added@[j].0.0] && added@[j].2@
                    == values@[added@[j].0.0]@ && ids@.take(k as int).contains(added@[j].0.0),
            forall|j: int|
                0 <= j < k && is_put_up(
                    resolved,
                    hidden@,
                    places@,
                    standing@,
                    node::Id(#[trigger] ids@[j]),
                ) ==> exists|m: int|
                    0 <= m < added.len() && (#[trigger] added@[m]).0 == node::Id(ids@[j]),
            forall|a: int, b: int|
                0 <= a < b < added.len() ==> (#[trigger] added@[a]).0 != (#[trigger] added@[b]).0,
        decreases ids.len() - k,
    {
        let number: usize = ids[k];
        let id = node::Id(number);
        let ghost before = added@;
        proof {
            assert(ids@.to_set().contains(number)) by {
                assert(ids@.contains(number));
            }
            assert(ids@.take(k + 1) =~= ids@.take(k as int).push(number));
            lemma_push_contains(ids@.take(k as int), number);
            if ids@.take(k as int).contains(number) {
                let j = choose|j: int|
                    0 <= j < k && #[trigger] ids@.take(k as int)[j] == number;
                assert(ids@[j] == number);
            }
        }
        if !hidden.contains(&number) && !stands(standing, id) {
            if let Some(place) = places.get(&number) {
                if let Some(text) = values.get(&number) {
                    added.push((id, *place, text.clone()));
                    assert(added@[before.len() as int].0 == id);
                }
            }
        }
        proof {
            assert forall|j: int|
                0 <= j < k + 1 && is_put_up(
                    resolved,
                    hidden@,
                    places@,
                    standing@,
                    node::Id(#[trigger] ids@[j]),
                ) implies exists|m: int|
                0 <= m < added.len() && (#[trigger] added@[m]).0 == node::Id(ids@[j]) by {
                if j < k {
                    let m = choose|m: int|
                        0 <= m < before.len() && (#[trigger] before[m]).0 == node::Id(ids@[j]);
                    assert(added@[m] == before[m]);
                }
            }
        }
        k = k + 1;
    }
    let plan = LabelPlan { standing: fates, added };
    proof {
        assert(ids@.take(k as int) =~= ids@);
        assert forall|id: node::Id| #[trigger]
            is_put_up(resolved, hidden@, places@, standing@, id) implies exists|i: int|
            0 <= i < plan.added.len() && (#[trigger] plan.added@[i]).0 == id by {
            assert(ids@.to_set().contains(id.0));
            let j = choose|j: int| 0 <= j < ids.len() && ids@[j] == id.0;
            assert(node::Id(ids@[j]) == id);
            let m = choose|m: int|
                0 <= m < plan.added.len() && (#[trigger] plan.added@[m]).0 == node::Id(ids@[j]);
            assert(plan.added@[m].0 == id);
        }
    }
    plan
}

/// A label is up only for what the step on screen resolved: a node that the step
/// before it knew already has none, and neither has one that is not known yet.
pub proof fn law_labels_are_the_news(
    states: Seq<Map<usize, String>>,
    current: nat,
    hidden: Set<usize>,
    id: node::Id,
)
    requires
        current < states.len(),
    ensures
        stays(resolved_at(states, current), hidden, id) ==> states[current as int].contains_key(
            id.0,
        ),
        current > 0 && states[current - 1].contains_key(id.0) ==> !stays(
            resolved_at(states, current),
            hidden,
            id,
        ),
        hidden.contains(id.0) ==> !stays(resolved_at(states, current), hidden, id),
{
}

/// What a step resolved is what is known at it and was not known at the one before;
/// the first has nothing before it.
pub proof fn law_what_a_step_resolved(states: Seq<Map<usize, String>>, current: nat, key: usize)
    requires
        current < states.len(),
    ensures
        current == 0 ==> (resolved_at(states, current).contains(key) <==> states[0].contains_key(
            key,
        )),
        current > 0 ==> (resolved_at(states, current).contains(key)
            <==> states[current as int].contains_key(key) && !states[current
            - 1].contains_key(key)),
{
}

/// A label is up for every node that the step resolved and that is not hidden: it
/// stays where it stood, or it is put up where the node has a place. Nothing is put
/// up twice.
pub proof fn law_every_news_has_a_label(
    resolved: Set<usize>,
    hidden: Set<usize>,
    places: Map<usize, Cell>,
    standing: Seq<node::Id>,
    id: node::Id,
)
    ensures
        resolved.contains(id.0) && !hidden.contains(id.0) ==> stays(resolved, hidden, id),
        resolved.contains(id.0) && !hidden.contains(id.0) && places.contains_key(id.0)
            && !standing.contains(id) ==> is_put_up(resolved, hidden, places, standing, id),
        standing.contains(id) ==> !is_put_up(resolved, hidden, places, standing, id),
        !places.contains_key(id.0) ==> !is_put_up(resolved, hidden, places, standing, id),
        !resolved.contains(id.0) || hidden.contains(id.0) ==> !stays(resolved, hidden, id)
            && !is_put_up(resolved, hidden, places, standing, id),
{
}

/// A Match answers behind its arms, straight along the last axis, and every other
/// node where it stands.
pub proof fn law_where_a_node_answers(node: ENode, output_z: i32)
    ensures
        answer_offset(node, output_z).x == 0,
        answer_offset(node, output_z).y == 0,
        node is Match ==> answer_offset(node, output_z).z == output_z,
        !(node is Match) ==> answer_offset(node, output_z).z == 0,
{
}

} // verus!
