//! Finding one's way in the host tree: following a path down from a node,
//! and finding the place of a node among its siblings.

use vstd::prelude::*;
use bevy::ecs::world::World;
use crate::error::ReconcileError;
use crate::host::all_live;
use crate::host::child_entities;
use crate::host::children_of;
use crate::host::exists_in;
use crate::host::insert_children;
use crate::host::inserted;
use crate::host::is_live;
use crate::host::parent_entity;
use crate::host::parent_of;
use crate::host::without;

verus! {

/// The node that `path` leads to from `start`: each index of the path picks
/// a child of the node reached so far. Nothing where a node on the way has no
/// child at the index.
pub open spec fn child_at_path(world: World, start: u64, path: Seq<u8>) -> Option<u64>
    decreases path.len(),
{
    if path.len() == 0 {
        Some(start)
    } else {
        match child_at_path(world, start, path.drop_last()) {
            Some(node) => if (path.last() as int) < children_of(world, node).len() {
                Some(children_of(world, node)[path.last() as int])
            } else {
                None
            },
            None => None,
        }
    }
}

/// Follows `path` from `start`: each index picks a child of the node reached
/// so far.
pub fn follow_path(world: &World, start: u64, path: &Vec<u8>) -> (found: Option<u64>)
    ensures
        found == child_at_path(*world, start, path@),
{
    let mut current: u64 = start;
    let mut i: usize = 0;
    while i < path.len()
        invariant
            i <= path@.len(),
            child_at_path(*world, start, path@.take(i as int)) == Some(current),
        decreases path@.len() - i,
    {
        let children = child_entities(world, current);
        let index: usize = path[i] as usize;
        proof {
            assert(path@.take(i + 1).drop_last() =~= path@.take(i as int));
        }
        if index < children.len() {
            current = children[index];
        } else {
            proof {
                lemma_path_stays_lost(*world, start, path@, i + 1);
            }
            return None;
        }
        i += 1;
    }
    proof {
        assert(path@.take(i as int) =~= path@);
    }
    Some(current)
}

/// A path that is lost after some of its indices is lost after all of them.
pub proof fn lemma_path_stays_lost(world: World, start: u64, path: Seq<u8>, n: int)
    requires
        0 <= n <= path.len(),
        child_at_path(world, start, path.take(n)).is_none(),
    ensures
        child_at_path(world, start, path).is_none(),
    decreases path.len() - n,
{
    if n < path.len() {
        assert(path.take(n + 1).drop_last() =~= path.take(n));
        lemma_path_stays_lost(world, start, path, n + 1);
    } else {
        assert(path.take(n) =~= path);
    }
}

/// Whether every one of `nodes` is in the host tree.
pub fn all_exist(world: &World, nodes: &Vec<u64>) -> (all: bool)
    ensures
        all == all_live(*world, nodes@),
{
    let mut i: usize = 0;
    while i < nodes.len()
        invariant
            i <= nodes@.len(),
            forall|k: int| 0 <= k < i ==> is_live(*world, #[trigger] nodes@[k]),
        decreases nodes@.len() - i,
    {
        if !exists_in(world, nodes[i]) {
            return false;
        }
        i += 1;
    }
    true
}

/// Whether `place` is where `node` stands first in `list`.
pub open spec fn is_place_of(list: Seq<u64>, node: u64, place: int) -> bool {
    &&& 0 <= place < list.len()
    &&& list[place] == node
    &&& forall|i: int| 0 <= i < place ==> list[i] != node
}

/// Where `node` stands first in `list`.
pub open spec fn place_of(list: Seq<u64>, node: u64) -> int {
    choose|place: int| is_place_of(list, node, place)
}

/// A node has one first place in a list.
pub proof fn lemma_one_place(list: Seq<u64>, node: u64, place: int)
    requires
        is_place_of(list, node, place),
    ensures
        place_of(list, node) == place,
{
    let chosen = place_of(list, node);
    if chosen < place {
    } else if place < chosen {
    }
}

/// Where `node` stands first in `list`, if it stands in it.
pub fn find(list: &Vec<u64>, node: u64) -> (place: Option<usize>)
    ensures
        match place {
            Some(place) => is_place_of(list@, node, place as int) && place_of(list@, node) == place,
            None => !list@.contains(node),
        },
{
    let mut i: usize = 0;
    while i < list.len()
        invariant
            i <= list@.len(),
            forall|k: int| 0 <= k < i ==> list@[k] != node,
        decreases list@.len() - i,
    {
        if list[i] == node {
            proof {
                lemma_one_place(list@, node, i as int);
            }
            return Some(i);
        }
        i += 1;
    }
    None
}

/// Whether `node` is among `nodes`.
pub fn holds(nodes: &Vec<u64>, node: u64) -> (found: bool)
    ensures
        found == nodes@.contains(node),
{
    let mut i: usize = 0;
    while i < nodes.len()
        invariant
            i <= nodes@.len(),
            forall|k: int| 0 <= k < i ==> nodes@[k] != node,
        decreases nodes@.len() - i,
    {
        if nodes[i] == node {
            return true;
        }
        i += 1;
    }
    false
}

/// How many of the first `place` members of `list` are not among `gone`.
pub open spec fn kept_before(list: Seq<u64>, gone: Seq<u64>, place: int) -> int {
    without(list.take(place), gone).len() as int
}

/// How many of the first `place` members of `list` are not among `gone`.
pub fn count_kept(list: &Vec<u64>, gone: &Vec<u64>, place: usize) -> (count: usize)
    requires
        place <= list@.len(),
    ensures
        count == kept_before(list@, gone@, place as int),
        count <= without(list@, gone@).len(),
{
    let mut count: usize = 0;
    let mut i: usize = 0;
    proof {
        Seq::<u64>::empty().lemma_filter_len(|c: u64| !gone@.contains(c));
    }
    while i < place
        invariant
            i <= place <= list@.len(),
            count <= i,
            count == without(list@.take(i as int), gone@).len(),
        decreases place - i,
    {
        proof {
            assert(list@.take(i + 1) =~= list@.take(i as int).push(list@[i as int]));
            list@.take(i as int).lemma_filter_push(list@[i as int], |c: u64| !gone@.contains(c));
        }
        if !holds(gone, list[i]) {
            count += 1;
        }
        i += 1;
    }
    proof {
        list@.lemma_filter_take_len(|c: u64| !gone@.contains(c), place as int);
    }
    count
}

/// A list that holds none of `gone` stays whole without them.
pub proof fn lemma_kept_whole(list: Seq<u64>, gone: Seq<u64>)
    requires
        forall|i: int| 0 <= i < list.len() ==> !gone.contains(#[trigger] list[i]),
    ensures
        without(list, gone) == list,
    decreases list.len(),
{
    let keeps = |c: u64| !gone.contains(c);
    if list.len() == 0 {
        list.lemma_filter_len(keeps);
    } else {
        lemma_kept_whole(list.drop_last(), gone);
        list.drop_last().lemma_filter_push(list.last(), keeps);
        assert(list.drop_last().push(list.last()) =~= list);
    }
}

/// A list without a node is at least as long as the list was up to the place
/// where the node stood first.
pub proof fn lemma_place_survives(list: Seq<u64>, node: u64, place: int)
    requires
        is_place_of(list, node, place),
    ensures
        place <= without(list, seq![node]).len(),
{
    let keeps = |c: u64| !seq![node].contains(c);
    list.lemma_filter_take_len(keeps, place);
    lemma_kept_whole(list.take(place), seq![node]);
}

/// Why `nodes` cannot be placed beside `target`, if they cannot.
pub open spec fn beside_error(world: World, target: u64, nodes: Seq<u64>) -> Option<ReconcileError> {
    if parent_of(world, target).is_none() {
        Some(ReconcileError::MissingParent)
    } else if !is_live(world, parent_of(world, target).unwrap()) {
        Some(ReconcileError::MissingParent)
    } else if !children_of(world, parent_of(world, target).unwrap()).contains(target) {
        Some(ReconcileError::MissingParent)
    } else if !all_live(world, nodes) {
        Some(ReconcileError::MissingNode)
    } else {
        None
    }
}

/// `post` is `pre` with `nodes` moved to the place right before `target` among
/// its siblings, or right after it. Where some of `nodes` were siblings of
/// `target` already, they leave their old places first.
pub open spec fn placed_beside(pre: World, post: World, target: u64, nodes: Seq<u64>, after: bool) -> bool {
    let parent = parent_of(pre, target).unwrap();
    let list = children_of(pre, parent);
    let place = place_of(list, target) + if after {
        1int
    } else {
        0int
    };
    inserted(pre, post, parent, kept_before(list, nodes, place), nodes)
}

/// Moves `nodes` to the place right before `target` among its siblings, or
/// right after it.
pub(crate) fn place_beside(world: &mut World, target: u64, nodes: &Vec<u64>, after: bool) -> (done: Result<
    (),
    ReconcileError,
>)
    ensures
        match done {
            Ok(_) => beside_error(*old(world), target, nodes@).is_none() && placed_beside(
                *old(world),
                *final(world),
                target,
                nodes@,
                after,
            ),
            Err(error) => beside_error(*old(world), target, nodes@) == Some(error) && *final(world)
                == *old(world),
        },
{
    let parent = match parent_entity(world, target) {
        Some(parent) => parent,
        None => {
            return Err(ReconcileError::MissingParent);
        },
    };
    if !exists_in(world, parent) {
        return Err(ReconcileError::MissingParent);
    }
    let list = child_entities(world, parent);
    let place = match find(&list, target) {
        Some(place) => place,
        None => {
            return Err(ReconcileError::MissingParent);
        },
    };
    if !all_exist(world, nodes) {
        return Err(ReconcileError::MissingNode);
    }
    let place = if after {
        place + 1
    } else {
        place
    };
    let index = count_kept(&list, nodes, place);
    insert_children(world, parent, index, nodes);
    Ok(())
}

/// The parent of `target` and the place of `target` among its children,
/// where it has a parent that lists it.
pub(crate) fn slot_of(world: &World, target: u64) -> (slot: Option<(u64, usize)>)
    ensures
        match slot {
            Some((parent, place)) => {
                &&& beside_error(*world, target, Seq::empty()).is_none()
                &&& parent_of(*world, target) == Some(parent)
                &&& is_place_of(children_of(*world, parent), target, place as int)
                &&& place_of(children_of(*world, parent), target) == place
            },
            None => beside_error(*world, target, Seq::empty()).is_some(),
        },
{
    let parent = match parent_entity(world, target) {
        Some(parent) => parent,
        None => {
            return None;
        },
    };
    if !exists_in(world, parent) {
        return None;
    }
    let list = child_entities(world, parent);
    match find(&list, target) {
        Some(place) => Some((parent, place)),
        None => None,
    }
}

} // verus!
