//! The host scene graph: a `bevy` world, seen through the entities that exist
//! in it and the `Parent` and `Children` components that tie them together.
//!
//! Nodes are named by the bits of their entity. Everything this module states
//! about a world is stated over three uninterpreted functions of it; the
//! functions that touch the world say how those three change.

use vstd::prelude::*;
use bevy::ecs::entity::Entity;
use bevy::ecs::world::World;
use bevy::hierarchy::BuildWorldChildren;
use bevy::hierarchy::Children;
use bevy::hierarchy::DespawnRecursiveExt;
use bevy::hierarchy::Parent;

verus! {

/// `bevy::ecs::world::World`, which holds the host tree.
#[verifier::external_type_specification]
#[verifier::external_body]
pub struct ExWorld(World);

/// The bits of `Entity::PLACEHOLDER`: index `u32::MAX`, generation zero.
pub const UNASSIGNED: u64 = 0xFFFF_FFFF;

/// The entities that exist in a world, each by its bits. An entity that was
/// only reserved, and that the world has yet to bring into being, does not
/// exist yet.
pub uninterp spec fn live_nodes(world: World) -> Set<u64>;

/// For each existing entity that has a `Children` component, the entities that
/// the component lists, in its order.
pub uninterp spec fn child_lists(world: World) -> Map<u64, Seq<u64>>;

/// For each existing entity that has a `Parent` component, the entity that the
/// component names.
pub uninterp spec fn parent_links(world: World) -> Map<u64, u64>;

/// Whether `node` exists in the world.
pub open spec fn is_live(world: World, node: u64) -> bool {
    live_nodes(world).contains(node)
}

/// The children that `node` lists; none where it lists none.
pub open spec fn children_of(world: World, node: u64) -> Seq<u64> {
    if child_lists(world).contains_key(node) {
        child_lists(world)[node]
    } else {
        Seq::empty()
    }
}

/// The parent that `node` names, if it names one.
pub open spec fn parent_of(world: World, node: u64) -> Option<u64> {
    if parent_links(world).contains_key(node) {
        Some(parent_links(world)[node])
    } else {
        None
    }
}

/// `list` without every occurrence of the members of `gone`.
pub open spec fn without(list: Seq<u64>, gone: Seq<u64>) -> Seq<u64> {
    list.filter(|c: u64| !gone.contains(c))
}

/// `list` with `nodes` put in at `index`.
pub open spec fn spliced(list: Seq<u64>, index: int, nodes: Seq<u64>) -> Seq<u64> {
    list.take(index) + nodes + list.skip(index)
}

/// Every member of `nodes` exists in the world.
pub open spec fn all_live(world: World, nodes: Seq<u64>) -> bool {
    forall|i: int| 0 <= i < nodes.len() ==> is_live(world, #[trigger] nodes[i])
}

/// `post` is `pre` with one more entity, `node`, that has neither parent nor
/// children. Entities that were reserved in `pre` may have come into being as
/// well; they have neither parent nor children either.
pub open spec fn spawned(pre: World, post: World, node: u64) -> bool {
    &&& !is_live(pre, node)
    &&& is_live(post, node)
    &&& live_nodes(pre).subset_of(live_nodes(post))
    &&& child_lists(post) == child_lists(pre)
    &&& parent_links(post) == parent_links(pre)
    &&& !child_lists(post).contains_key(node)
    &&& !parent_links(post).contains_key(node)
}

/// The children that `node` lists once `child` has been made the last child of
/// `parent`.
pub open spec fn children_after_adopt(pre: World, parent: u64, child: u64, node: u64) -> Seq<u64> {
    if node == parent {
        without(children_of(pre, parent), seq![child]).push(child)
    } else if parent_of(pre, child) == Some(node) {
        without(children_of(pre, node), seq![child])
    } else {
        children_of(pre, node)
    }
}

/// `post` is `pre` with `child` moved to the end of `parent`'s children.
pub open spec fn adopted(pre: World, post: World, parent: u64, child: u64) -> bool {
    &&& live_nodes(post) == live_nodes(pre)
    &&& parent_links(post) == parent_links(pre).insert(child, parent)
    &&& forall|node: u64| #[trigger]
        children_of(post, node) == children_after_adopt(pre, parent, child, node)
}

/// The children that `node` lists once `nodes` have been put in among
/// `parent`'s children at `index`.
pub open spec fn children_after_insert(
    pre: World,
    parent: u64,
    index: int,
    nodes: Seq<u64>,
    node: u64,
) -> Seq<u64> {
    if node == parent {
        spliced(without(children_of(pre, parent), nodes), index, nodes)
    } else {
        children_of(pre, node).filter(
            |c: u64| !(nodes.contains(c) && parent_of(pre, c) == Some(node)),
        )
    }
}

/// `post` is `pre` with `nodes` moved under `parent`, at `index` among the
/// children that `parent` had besides them.
pub open spec fn inserted(pre: World, post: World, parent: u64, index: int, nodes: Seq<u64>) -> bool {
    &&& live_nodes(post) == live_nodes(pre)
    &&& forall|node: u64| #[trigger]
        parent_of(post, node) == if nodes.contains(node) {
            Some(parent)
        } else {
            parent_of(pre, node)
        }
    &&& forall|node: u64| #[trigger]
        children_of(post, node) == children_after_insert(pre, parent, index, nodes, node)
}

/// `post` is `pre` without `node` and without everything below it: `node` is
/// struck from its parent's children, then `node` goes, and with each entity
/// that goes the entities that it lists as children. Nothing else goes, and
/// what stays keeps its parent and its children.
pub open spec fn subtree_removed(pre: World, post: World, node: u64) -> bool {
    &&& !is_live(post, node)
    &&& forall|above: u64, below: u64|
        is_live(pre, above) && !is_live(post, above) && is_live(pre, below)
            && #[trigger] children_of(pre, above).contains(below) ==> !is_live(post, below)
    &&& forall|gone: u64|
        is_live(pre, gone) && !#[trigger] is_live(post, gone) && gone != node ==> exists|above: u64|
            is_live(pre, above) && !is_live(post, above) && #[trigger] children_of(
                pre,
                above,
            ).contains(gone)
    &&& forall|kept: u64| #[trigger]
        is_live(post, kept) ==> parent_of(post, kept) == parent_of(pre, kept)
    &&& forall|kept: u64|
        is_live(post, kept) ==> #[trigger] children_of(post, kept) == if parent_of(pre, node)
            == Some(kept) {
            without(children_of(pre, kept), seq![node])
        } else {
            children_of(pre, kept)
        }
}

/// `World::get_entity`, asked whether it finds anything: whether the entity
/// exists.
#[verifier::external_body]
pub(crate) fn exists_in(world: &World, node: u64) -> (found: bool)
    ensures
        found == live_nodes(*world).contains(node),
{
    world.get_entity(Entity::from_bits(node)).is_some()
}

/// `World::get` of the `Parent` component: the parent that an entity names.
/// An entity that does not exist names none.
#[verifier::external_body]
pub(crate) fn parent_entity(world: &World, node: u64) -> (parent: Option<u64>)
    ensures
        parent == if parent_links(*world).contains_key(node) {
            Some(parent_links(*world)[node])
        } else {
            None
        },
{
    world.get::<Parent>(Entity::from_bits(node)).map(|p| p.get().to_bits())
}

/// `World::get` of the `Children` component: the children that an entity
/// lists, in order; nothing for an entity that does not exist or has no such
/// component.
#[verifier::external_body]
pub(crate) fn child_list(world: &World, node: u64) -> (children: Option<Vec<u64>>)
    ensures
        children.is_some() == child_lists(*world).contains_key(node),
        children.is_some() ==> children.unwrap()@ == child_lists(*world)[node],
{
    world.get::<Children>(Entity::from_bits(node)).map(|list| list.iter().map(|c| c.to_bits()).collect())
}

/// The children that `node` lists, in order; none where it lists none.
pub fn child_entities(world: &World, node: u64) -> (children: Vec<u64>)
    ensures
        children@ == children_of(*world, node),
{
    match child_list(world, node) {
        Some(children) => children,
        None => Vec::new(),
    }
}

/// `World::spawn_empty`: a new entity without components, so without parent
/// and children. It is none of the entities that existed before, and those
/// stay as they are.
#[verifier::external_body]
pub(crate) fn spawn_empty(world: &mut World) -> (node: u64)
    ensures
        spawned(*old(world), *final(world), node),
{
    world.spawn_empty().id().to_bits()
}

/// `BuildWorldChildren::add_child` on the parent: the child gets the parent as
/// its `Parent`, leaves the children of the parent that it named before, and
/// becomes the last child of the new one. Both entities must exist.
#[verifier::external_body]
pub(crate) fn add_child(world: &mut World, parent: u64, child: u64)
    requires
        is_live(*old(world), parent),
        is_live(*old(world), child),
    ensures
        adopted(*old(world), *final(world), parent, child),
{
    world.entity_mut(Entity::from_bits(parent)).add_child(Entity::from_bits(child));
}

/// `BuildWorldChildren::insert_children` on the parent: each of `nodes` gets the
/// parent as its `Parent` and leaves the children of the parent that it named
/// before; the new parent's list loses every occurrence of them, and then
/// takes the whole of `nodes` at `index`. All the entities must exist, and
/// `index` must not lie beyond what is left of the list.
#[verifier::external_body]
pub(crate) fn insert_children(world: &mut World, parent: u64, index: usize, nodes: &Vec<u64>)
    requires
        is_live(*old(world), parent),
        all_live(*old(world), nodes@),
        index <= without(children_of(*old(world), parent), nodes@).len(),
    ensures
        inserted(*old(world), *final(world), parent, index as int, nodes@),
{
    let entities: Vec<Entity> = nodes.iter().map(|bits| Entity::from_bits(*bits)).collect();
    world.entity_mut(Entity::from_bits(parent)).insert_children(index, &entities);
}

/// `DespawnRecursiveExt::despawn_recursive` on the entity, which must exist:
/// its parent's list loses it, and it goes with everything that the lists of
/// children lead to from it. What stays keeps its parent and its other
/// children.
#[verifier::external_body]
pub(crate) fn despawn_recursive(world: &mut World, node: u64)
    requires
        is_live(*old(world), node),
    ensures
        subtree_removed(*old(world), *final(world), node),
{
    world.entity_mut(Entity::from_bits(node)).despawn_recursive();
}

} // verus!
