//! Tables keyed by the number of an id.

use crate::model::anchor::{self, EAnchor, EAnchorView};
use crate::model::node::{self, ENode};
use std::collections::HashMap;
use vstd::prelude::*;
use vstd::std_specs::iter::IteratorSpec;

verus! {

broadcast use {
    vstd::std_specs::hash::group_hash_axioms,
    vstd::map_lib::group_map_union,
};

/// A table of nodes' things, by the ids of the nodes.
pub open spec fn by_node<V>(table: Map<usize, V>) -> Map<node::Id, V> {
    Map::new(|id: node::Id| table.contains_key(id.0), |id: node::Id| table[id.0])
}

/// A table of anchors' things, by the ids of the anchors.
pub open spec fn by_anchor<V>(table: Map<usize, V>) -> Map<anchor::Id, V> {
    Map::new(|id: anchor::Id| table.contains_key(id.0), |id: anchor::Id| table[id.0])
}

/// A set of anchors, by their ids.
pub open spec fn anchor_set(numbers: Set<usize>) -> Set<anchor::Id> {
    Set::new(|id: anchor::Id| numbers.contains(id.0))
}

/// What the anchors of a table are.
pub open spec fn anchor_kinds(table: Map<usize, EAnchor>) -> Map<anchor::Id, EAnchorView> {
    Map::new(|id: anchor::Id| table.contains_key(id.0), |id: anchor::Id| table[id.0]@)
}

/// The ids that stand in a list of anchors.
pub open spec fn listed<A>(list: Seq<(anchor::Id, A)>) -> Set<anchor::Id> {
    Set::new(|id: anchor::Id| exists|i: int| 0 <= i < list.len() && #[trigger] list[i].0 == id)
}

/// Enter every pair of `list`, one after the other. Where an id is entered more
/// than once the last entry stays.
pub open spec fn entered<V>(table: Map<anchor::Id, V>, list: Seq<(anchor::Id, V)>) -> Map<
    anchor::Id,
    V,
>
    decreases list.len(),
{
    if list.len() == 0 {
        table
    } else {
        entered(table, list.drop_last()).insert(list.last().0, list.last().1)
    }
}

/// What entering a list does: the ids of the list are added, and no other entry
/// changes.
pub proof fn lemma_entered<V>(table: Map<anchor::Id, V>, list: Seq<(anchor::Id, V)>)
    ensures
        entered(table, list).dom() == table.dom().union(listed(list)),
        forall|id: anchor::Id|
            !listed(list).contains(id) && table.contains_key(id) ==> #[trigger] entered(
                table,
                list,
            )[id] == table[id],
        forall|id: anchor::Id|
            listed(list).contains(id) ==> exists|i: int|
                0 <= i < list.len() && #[trigger] list[i].0 == id && entered(table, list)[id]
                    == list[i].1,
    decreases list.len(),
{
    if list.len() == 0 {
        assert(entered(table, list).dom() =~= table.dom().union(listed(list)));
    } else {
        let shorter = list.drop_last();
        lemma_entered(table, shorter);
        assert forall|id: anchor::Id| #[trigger]
            listed(list).contains(id) <==> listed(shorter).contains(id) || id == list.last().0 by {
            if listed(list).contains(id) && id != list.last().0 {
                let i = choose|i: int| 0 <= i < list.len() && #[trigger] list[i].0 == id;
                assert(shorter[i].0 == id);
            }
            if listed(shorter).contains(id) {
                let i = choose|i: int| 0 <= i < shorter.len() && #[trigger] shorter[i].0 == id;
                assert(list[i].0 == id);
            }
            if id == list.last().0 {
                assert(list[list.len() - 1].0 == id);
            }
        }
        assert(entered(table, list).dom() =~= table.dom().union(listed(list)));
        assert forall|id: anchor::Id| listed(list).contains(id) implies exists|i: int|
            0 <= i < list.len() && #[trigger] list[i].0 == id && entered(table, list)[id]
                == list[i].1 by {
            if id == list.last().0 {
                assert(list[list.len() - 1].0 == id);
            } else {
                assert(listed(shorter).contains(id));
                let i = choose|i: int|
                    0 <= i < shorter.len() && #[trigger] shorter[i].0 == id && entered(
                        table,
                        shorter,
                    )[id] == shorter[i].1;
                assert(list[i].0 == id);
            }
        }
    }
}

/// The anchors of `list`, each with the node they belong to.
pub open spec fn owned<A>(list: Seq<(anchor::Id, A)>, owner: node::Id) -> Seq<
    (anchor::Id, node::Id),
> {
    list.map_values(|entry: (anchor::Id, A)| (entry.0, owner))
}

/// The keys of a table, in no particular order.
pub fn keys_of<V>(table: &HashMap<usize, V>) -> (keys: Vec<usize>)
    ensures
        keys@.no_duplicates(),
        keys@.to_set() == table@.dom(),
{
    let mut keys: Vec<usize> = Vec::new();
    let walk = table.keys();
    let ghost all = walk.remaining().unref();
    for key in iter: walk
        invariant
            iter.seq().unref() == all,
            all.no_duplicates(),
            keys@ == all.take(iter.index() as int),
    {
        assert(all[iter.index() as int] == *key);
        keys.push(*key);
        assert(keys@ == all.take(iter.index() + 1));
    }
    assert(all.take(all.len() as int) == all);
    keys
}

/// The keys of the anchors that stand in a list.
pub open spec fn listed_keys<A>(list: Seq<(anchor::Id, A)>) -> Set<usize> {
    Set::new(|key: usize| listed(list).contains(anchor::Id(key)))
}

/// Whether `id` stands in `list`.
pub fn is_listed<A>(list: &Vec<(anchor::Id, A)>, id: anchor::Id) -> (res: bool)
    ensures
        res == listed(list@).contains(id),
{
    let mut i: usize = 0;
    while i < list.len()
        invariant
            i <= list.len(),
            forall|j: int| 0 <= j < i ==> #[trigger] list@[j].0 != id,
        decreases list.len() - i,
    {
        if list[i].0 == id {
            return true;
        }
        i = i + 1;
    }
    false
}

/// Both tables in one. Where both hold a key, `other`'s entry stays.
pub fn united<V>(table: HashMap<usize, V>, other: HashMap<usize, V>) -> (res: HashMap<usize, V>)
    ensures
        res@ == table@.union_prefer_right(other@),
{
    let keys = keys_of(&other);
    let mut res = table;
    let mut rest = other;
    let mut i: usize = 0;
    while i < keys.len()
        invariant
            i <= keys.len(),
            keys@.no_duplicates(),
            keys@.to_set() == other@.dom(),
            forall|key: usize| #[trigger]
                rest@.contains_key(key) <==> exists|j: int| i <= j < keys.len() && keys@[j] == key,
            forall|key: usize| #[trigger]
                rest@.contains_key(key) ==> other@.contains_key(key) && rest@[key] == other@[key],
            forall|key: usize| #[trigger]
                res@.contains_key(key) <==> table@.contains_key(key) || exists|j: int|
                    0 <= j < i && keys@[j] == key,
            forall|key: usize| #[trigger]
                res@.contains_key(key) ==> res@[key] == if exists|j: int|
                    0 <= j < i && keys@[j] == key {
                    other@[key]
                } else {
                    table@[key]
                },
        decreases keys.len() - i,
    {
        let key: usize = keys[i];
        assert(keys@[i as int] == key);
        assert(rest@.contains_key(key));
        if let Some(value) = rest.remove(&key) {
            res.insert(key, value);
        }
        i = i + 1;
    }
    assert forall|key: usize| other@.contains_key(key) <==> exists|j: int|
        0 <= j < keys.len() && keys@[j] == key by {
        assert(other@.contains_key(key) <==> keys@.to_set().contains(key));
    }
    assert(res@ == table@.union_prefer_right(other@));
    res
}

/// The table without the entries of the anchors in `list`.
pub fn without<V: Clone, A>(
    table: &HashMap<usize, V>,
    list: &Vec<(anchor::Id, A)>,
) -> (res: HashMap<usize, V>)
    ensures
        res@ == table@.remove_keys(listed_keys(list@)),
{
    let mut res = table.clone();
    let mut i: usize = 0;
    while i < list.len()
        invariant
            i <= list.len(),
            forall|key: usize| #[trigger]
                res@.contains_key(key) <==> table@.contains_key(key) && !listed(
                    list@.take(i as int),
                ).contains(anchor::Id(key)),
            forall|key: usize| #[trigger] res@.contains_key(key) ==> res@[key] == table@[key],
        decreases list.len() - i,
    {
        res.remove(&list[i].0.0);
        proof {
            lemma_listed_grows(list@, i as int);
        }
        i = i + 1;
    }
    assert(list@.take(i as int) == list@);
    assert(res@ == table@.remove_keys(listed_keys(list@)));
    res
}

/// One more entry of a list is one more id that is listed.
proof fn lemma_listed_grows<A>(list: Seq<(anchor::Id, A)>, i: int)
    requires
        0 <= i < list.len(),
    ensures
        forall|id: anchor::Id| #[trigger]
            listed(list.take(i + 1)).contains(id) <==> listed(list.take(i)).contains(id) || id
                == list[i].0,
{
    let now = list.take(i + 1);
    let before = list.take(i);
    assert forall|id: anchor::Id| #[trigger]
        listed(now).contains(id) <==> listed(before).contains(id) || id == list[i].0 by {
        if listed(now).contains(id) && id != list[i].0 {
            let j = choose|j: int| 0 <= j < now.len() && #[trigger] now[j].0 == id;
            assert(before[j].0 == id);
        }
        if listed(before).contains(id) {
            let j = choose|j: int| 0 <= j < before.len() && #[trigger] before[j].0 == id;
            assert(now[j].0 == id);
        }
        if id == list[i].0 {
            assert(now[i].0 == id);
        }
    }
}

/// The table of anchors with every anchor of `list` entered.
pub fn with_anchors(
    table: &HashMap<usize, EAnchor>,
    list: &Vec<(anchor::Id, EAnchor)>,
) -> (res: HashMap<usize, EAnchor>)
    ensures
        anchor_kinds(res@) == entered(anchor_kinds(table@), node::anchor_views(list@)),
{
    let mut res = table.clone();
    let ghost kinds = node::anchor_views(list@);
    let mut i: usize = 0;
    while i < list.len()
        invariant
            i <= list.len(),
            kinds == node::anchor_views(list@),
            anchor_kinds(res@) == entered(anchor_kinds(table@), kinds.take(i as int)),
        decreases list.len() - i,
    {
        let ghost before = anchor_kinds(res@);
        res.insert(list[i].0.0, list[i].1.clone());
        proof {
            assert(kinds.take(i + 1).drop_last() == kinds.take(i as int));
            assert(anchor_kinds(res@) =~= before.insert(list@[i as int].0, list@[i as int].1@));
        }
        i = i + 1;
    }
    assert(kinds.take(i as int) == kinds);
    res
}

/// The table of owners with `owner` entered for every anchor of `list`.
pub fn with_owner<A>(
    table: &HashMap<usize, node::Id>,
    list: &Vec<(anchor::Id, A)>,
    owner: node::Id,
) -> (res: HashMap<usize, node::Id>)
    ensures
        by_anchor(res@) == entered(by_anchor(table@), owned(list@, owner)),
{
    let mut res = table.clone();
    let ghost owners = owned(list@, owner);
    let mut i: usize = 0;
    while i < list.len()
        invariant
            i <= list.len(),
            owners == owned(list@, owner),
            by_anchor(res@) == entered(by_anchor(table@), owners.take(i as int)),
        decreases list.len() - i,
    {
        let ghost before = by_anchor(res@);
        res.insert(list[i].0.0, owner);
        proof {
            assert(owners.take(i + 1).drop_last() == owners.take(i as int));
            assert(by_anchor(res@) =~= before.insert(list@[i as int].0, owner));
        }
        i = i + 1;
    }
    assert(owners.take(i as int) == owners);
    res
}

/// The ids in the list of a node's anchors are the node's anchor ids.
pub proof fn lemma_listed_anchors(list: Seq<(anchor::Id, EAnchor)>, node: ENode)
    requires
        node::anchor_views(list) == node.anchor_list(),
    ensures
        listed(list) == node.anchor_ids(),
{
    assert forall|id: anchor::Id| listed(list).contains(id) <==> node.anchor_ids().contains(
        id,
    ) by {
        if listed(list).contains(id) {
            let i = choose|i: int| 0 <= i < list.len() && #[trigger] list[i].0 == id;
            assert(node::anchor_views(list)[i].0 == id);
            assert(node.anchor_list()[i].0 == id);
        }
        if node.anchor_ids().contains(id) {
            let i = choose|i: int|
                0 <= i < node.anchor_list().len() && #[trigger] node.anchor_list()[i].0 == id;
            assert(node::anchor_views(list)[i].0 == list[i].0);
        }
    }
    assert(listed(list) =~= node.anchor_ids());
}

/// The owners of a node's anchors, by the list the node gives of them.
pub proof fn lemma_owned_anchors(list: Seq<(anchor::Id, EAnchor)>, node: ENode, owner: node::Id)
    requires
        node::anchor_views(list) == node.anchor_list(),
    ensures
        owned(list, owner) == owned(node.anchor_list(), owner),
{
    assert forall|i: int| 0 <= i < list.len() implies #[trigger] list[i].0
        == node.anchor_list()[i].0 by {
        assert(node::anchor_views(list)[i].0 == list[i].0);
    }
    assert(owned(list, owner) =~= owned(node.anchor_list(), owner));
}

} // verus!
