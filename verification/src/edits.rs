//! The edits that the diffing engine hands over, and what each of them does
//! to the interpreter's state and to the host tree.

use vstd::prelude::*;
use bevy::ecs::world::World;
use crate::attributes::AttributeValue;
use crate::attributes::StyleValue;
use crate::attributes::default_style;
use crate::attributes::field_named;
use crate::contents::ContentView;
use crate::contents::empty_content;
use crate::contents::root_content;
use crate::contents::text_content;
use crate::element_map::assigned;
use crate::element_map::lookup;
use crate::error::ReconcileError;
use crate::host::adopted;
use crate::host::all_live;
use crate::host::children_of;
use crate::host::inserted;
use crate::host::is_live;
use crate::host::live_nodes;
use crate::host::parent_of;
use crate::host::spawned;
use crate::host::subtree_removed;
use crate::instantiate::built;
use crate::instantiate::steps_of;
use crate::instantiate::with_made;
use crate::node::RootShape;
use crate::node::walked;
use crate::template::Template;
use crate::tree::beside_error;
use crate::tree::child_at_path;
use crate::tree::kept_before;
use crate::tree::place_of;
use crate::tree::placed_beside;

verus! {

/// One edit.
#[derive(Debug)]
pub enum Mutation {
    /// Takes `m` operands and makes them the last children of the node `id`, in
    /// the order in which they were pushed.
    AppendChildren { id: usize, m: usize },
    /// Gives `id` to the node that `path` leads to from the top operand.
    AssignId { path: Vec<u8>, id: usize },
    /// Makes an empty node, gives it `id` and pushes it.
    CreatePlaceholder { id: usize },
    /// Makes a text node that holds `value`, gives it `id` and pushes it.
    CreateTextNode { value: String, id: usize },
    /// Gives `id` to the node that `path` leads to from the top operand and
    /// makes it a text node that holds `value`.
    HydrateText { path: Vec<u8>, value: String, id: usize },
    /// Makes the nodes of the root `index` of the template `name`, gives `id`
    /// to the root and pushes it.
    LoadTemplate { name: String, index: usize, id: usize },
    /// Takes `m` operands and puts them where the node `id` is, which goes with
    /// everything below it.
    ReplaceWith { id: usize, m: usize },
    /// Takes `m` operands and puts them where the node is that `path` leads to
    /// from the operand below them, which goes with everything below it.
    ReplacePlaceholder { path: Vec<u8>, m: usize },
    /// Takes `m` operands and puts them right after the node `id`.
    InsertAfter { id: usize, m: usize },
    /// Takes `m` operands and puts them right before the node `id`.
    InsertBefore { id: usize, m: usize },
    /// Sets the style attribute `name` of the node `id`.
    SetAttribute { name: String, value: AttributeValue, id: usize },
    /// Makes `value` the text of the node `id`.
    SetText { value: String, id: usize },
    /// The node `id` goes, with everything below it.
    Remove { id: usize },
    /// Pushes the node `id`.
    PushRoot { id: usize },
}

/// What the diffing engine hands over for one pass: the templates that it met
/// for the first time, and the edits.
#[derive(Debug)]
pub struct Mutations {
    pub templates: Vec<Template>,
    pub edits: Vec<Mutation>,
}

/// The interpreter's state.
pub struct DataView {
    /// The catalog: the compiled roots of each template, by name.
    pub catalog: Map<Seq<char>, Seq<RootShape>>,
    /// The identifier map.
    pub ids: Seq<u64>,
    /// The operand stack, top last.
    pub stack: Seq<u64>,
    /// What the nodes hold.
    pub contents: Map<u64, ContentView>,
}

/// The top `m` operands, in the order in which they were pushed.
pub open spec fn operands(stack: Seq<u64>, m: int) -> Seq<u64> {
    stack.subrange(stack.len() - m, stack.len() as int)
}

/// The stack below its top `m` operands.
pub open spec fn below_operands(stack: Seq<u64>, m: int) -> Seq<u64> {
    stack.take(stack.len() - m)
}

/// `post` is `pre` after each of `nodes` in turn was made the last child of
/// `parent`.
pub open spec fn adopted_in_turn(pre: World, post: World, parent: u64, nodes: Seq<u64>) -> bool
    decreases nodes.len(),
{
    if nodes.len() == 0 {
        post == pre
    } else {
        exists|mid: World|
            adopted_in_turn(pre, mid, parent, nodes.drop_last()) && #[trigger] adopted(
                mid,
                post,
                parent,
                nodes.last(),
            )
    }
}

/// What a node holds once `SetText` has written `text` to it: a text node
/// holds the text in one part, whatever parts it had; another node is left as
/// it is.
pub open spec fn content_with_text(content: ContentView, text: Seq<char>) -> ContentView {
    if content.text.is_some() {
        ContentView { text: Some(seq![text]), ..content }
    } else {
        content
    }
}

/// Writing the same text twice with `SetText` comes to writing it once, and a
/// text node then holds that text in one part, however many parts it had.
pub proof fn lemma_set_text_twice(content: ContentView, text: Seq<char>)
    ensures
        content_with_text(content_with_text(content, text), text) == content_with_text(
            content,
            text,
        ),
        content.text.is_some() ==> content_with_text(content, text).text == Some(seq![text]),
        content.text.is_none() ==> content_with_text(content, text) == content,
{
}

/// What a text node holds once `HydrateText` has written `text` to it: the
/// text is its first part, and the parts after the first stay.
pub open spec fn content_hydrated(content: ContentView, text: Seq<char>) -> ContentView {
    if content.text.unwrap().len() == 0 {
        ContentView { text: Some(seq![text]), ..content }
    } else {
        ContentView { text: Some(content.text.unwrap().update(0, text)), ..content }
    }
}

/// The style record of a node, or one at its defaults where the node has none
/// yet.
pub open spec fn style_or_default(contents: Map<u64, ContentView>, node: u64) -> Seq<Option<StyleValue>> {
    if contents.contains_key(node) && contents[node].style.is_some() {
        contents[node].style.unwrap()
    } else {
        default_style()
    }
}

/// What a node holds, or nothing where the table has no entry for it.
pub open spec fn content_or_empty(contents: Map<u64, ContentView>, node: u64) -> ContentView {
    if contents.contains_key(node) {
        contents[node]
    } else {
        empty_content()
    }
}

/// What a field is set to by an attribute value that the field takes.
pub open spec fn field_value(value: AttributeValue) -> Option<StyleValue> {
    match value {
        AttributeValue::Any(typed) => Some(typed),
        _ => None,
    }
}

/// Why `edit` cannot be applied in the state `data` to the tree `world`, if it
/// cannot. The first reason that holds, in the order written, is the one.
pub open spec fn edit_error(data: DataView, world: World, edit: Mutation) -> Option<ReconcileError> {
    match edit {
        Mutation::AppendChildren { id, m } => {
            if m > data.stack.len() {
                Some(ReconcileError::StackUnderflow)
            } else if lookup(data.ids, id as int).is_none() {
                Some(ReconcileError::UnmappedId)
            } else if !is_live(world, lookup(data.ids, id as int).unwrap()) || !all_live(
                world,
                operands(data.stack, m as int),
            ) {
                Some(ReconcileError::MissingNode)
            } else {
                None
            }
        },
        Mutation::AssignId { path, id } => {
            if data.stack.len() == 0 {
                Some(ReconcileError::StackUnderflow)
            } else if child_at_path(world, data.stack.last(), path@).is_none() {
                Some(ReconcileError::BadPath)
            } else {
                None
            }
        },
        Mutation::CreatePlaceholder { id } => None,
        Mutation::CreateTextNode { value, id } => None,
        Mutation::HydrateText { path, value, id } => {
            if data.stack.len() == 0 {
                Some(ReconcileError::StackUnderflow)
            } else if child_at_path(world, data.stack.last(), path@).is_none() {
                Some(ReconcileError::BadPath)
            } else if !is_text(data.contents, child_at_path(world, data.stack.last(), path@).unwrap())
                && !is_live(world, child_at_path(world, data.stack.last(), path@).unwrap()) {
                Some(ReconcileError::MissingNode)
            } else {
                None
            }
        },
        Mutation::LoadTemplate { name, index, id } => {
            if !data.catalog.contains_key(name@) || index >= data.catalog[name@].len() {
                Some(ReconcileError::UnknownTemplate)
            } else {
                None
            }
        },
        Mutation::ReplaceWith { id, m } => {
            if m > data.stack.len() {
                Some(ReconcileError::StackUnderflow)
            } else if lookup(data.ids, id as int).is_none() {
                Some(ReconcileError::UnmappedId)
            } else if !is_live(world, lookup(data.ids, id as int).unwrap()) {
                Some(ReconcileError::MissingNode)
            } else {
                beside_error(
                    world,
                    lookup(data.ids, id as int).unwrap(),
                    operands(data.stack, m as int),
                )
            }
        },
        Mutation::ReplacePlaceholder { path, m } => {
            if m >= data.stack.len() {
                Some(ReconcileError::StackUnderflow)
            } else if child_at_path(
                world,
                below_operands(data.stack, m as int).last(),
                path@,
            ).is_none() {
                Some(ReconcileError::BadPath)
            } else if !is_live(
                world,
                child_at_path(world, below_operands(data.stack, m as int).last(), path@).unwrap(),
            ) {
                Some(ReconcileError::MissingNode)
            } else {
                beside_error(
                    world,
                    child_at_path(world, below_operands(data.stack, m as int).last(), path@).unwrap(),
                    operands(data.stack, m as int),
                )
            }
        },
        Mutation::InsertAfter { id, m } => {
            if m > data.stack.len() {
                Some(ReconcileError::StackUnderflow)
            } else if lookup(data.ids, id as int).is_none() {
                Some(ReconcileError::UnmappedId)
            } else {
                beside_error(
                    world,
                    lookup(data.ids, id as int).unwrap(),
                    operands(data.stack, m as int),
                )
            }
        },
        Mutation::InsertBefore { id, m } => {
            if m > data.stack.len() {
                Some(ReconcileError::StackUnderflow)
            } else if lookup(data.ids, id as int).is_none() {
                Some(ReconcileError::UnmappedId)
            } else {
                beside_error(
                    world,
                    lookup(data.ids, id as int).unwrap(),
                    operands(data.stack, m as int),
                )
            }
        },
        Mutation::SetAttribute { name, value, id } => {
            if lookup(data.ids, id as int).is_none() {
                Some(ReconcileError::UnmappedId)
            } else if field_named(name@).is_none() {
                Some(ReconcileError::UnknownAttribute)
            } else if !is_live(world, lookup(data.ids, id as int).unwrap()) {
                Some(ReconcileError::MissingNode)
            } else {
                match value {
                    AttributeValue::Absent => None,
                    AttributeValue::Any(typed) => if typed.kind == field_named(name@).unwrap().kind_of() {
                        None
                    } else {
                        Some(ReconcileError::InvalidAttributeValue)
                    },
                    AttributeValue::Plain => Some(ReconcileError::InvalidAttributeValue),
                }
            }
        },
        Mutation::SetText { value, id } => {
            if lookup(data.ids, id as int).is_none() {
                Some(ReconcileError::UnmappedId)
            } else {
                None
            }
        },
        Mutation::Remove { id } => {
            if lookup(data.ids, id as int).is_none() {
                Some(ReconcileError::UnmappedId)
            } else if !is_live(world, lookup(data.ids, id as int).unwrap()) {
                Some(ReconcileError::MissingNode)
            } else {
                None
            }
        },
        Mutation::PushRoot { id } => {
            if lookup(data.ids, id as int).is_none() {
                Some(ReconcileError::UnmappedId)
            } else {
                None
            }
        },
    }
}

/// Whether the table says that `node` is a text node.
pub open spec fn is_text(contents: Map<u64, ContentView>, node: u64) -> bool {
    contents.contains_key(node) && contents[node].text.is_some()
}

/// `post` is `pre` with `nodes` put where `target` was, and without `target`
/// and everything below it.
pub open spec fn replaced(pre: World, post: World, target: u64, nodes: Seq<u64>) -> bool {
    exists|mid: World| #[trigger]
        placed_beside(pre, mid, target, nodes, false) && subtree_removed(mid, post, target)
}

/// `post` is `pre` with the new node `fresh` in the place of `target`, which
/// went with everything below it. Where `target` had no parent that listed
/// it, `fresh` has none either.
pub open spec fn respawned(pre: World, post: World, target: u64, fresh: u64) -> bool {
    exists|gone: World, made: World| #[trigger]
        subtree_removed(pre, gone, target) && #[trigger] spawned(gone, made, fresh) && if beside_error(
            pre,
            target,
            Seq::empty(),
        ).is_none() && is_live(gone, parent_of(pre, target).unwrap()) {
            inserted(
                made,
                post,
                parent_of(pre, target).unwrap(),
                kept_before(
                    children_of(made, parent_of(pre, target).unwrap()),
                    seq![fresh],
                    place_of(children_of(pre, parent_of(pre, target).unwrap()), target),
                ),
                seq![fresh],
            )
        } else {
            post == made
        }
}

/// What `edit` does where it can be applied: `after` and `post` are the state
/// and the tree that it leaves of `data` and `pre`.
pub open spec fn edit_effect(data: DataView, pre: World, edit: Mutation, after: DataView, post: World) -> bool {
    match edit {
        Mutation::AppendChildren { id, m } => {
            &&& after == DataView { stack: below_operands(data.stack, m as int), ..data }
            &&& adopted_in_turn(
                pre,
                post,
                lookup(data.ids, id as int).unwrap(),
                operands(data.stack, m as int),
            )
        },
        Mutation::AssignId { path, id } => {
            &&& post == pre
            &&& after == DataView {
                ids: assigned(
                    data.ids,
                    id as int,
                    child_at_path(pre, data.stack.last(), path@).unwrap(),
                ),
                ..data
            }
        },
        Mutation::CreatePlaceholder { id } => {
            &&& after.stack.len() > 0
            &&& spawned(pre, post, after.stack.last())
            &&& after == DataView {
                ids: assigned(data.ids, id as int, after.stack.last()),
                stack: data.stack.push(after.stack.last()),
                contents: data.contents.insert(after.stack.last(), empty_content()),
                ..data
            }
        },
        Mutation::CreateTextNode { value, id } => {
            &&& after.stack.len() > 0
            &&& spawned(pre, post, after.stack.last())
            &&& after == DataView {
                ids: assigned(data.ids, id as int, after.stack.last()),
                stack: data.stack.push(after.stack.last()),
                contents: data.contents.insert(after.stack.last(), text_content(value@)),
                ..data
            }
        },
        Mutation::HydrateText { path, value, id } => {
            let target = child_at_path(pre, data.stack.last(), path@).unwrap();
            if is_text(data.contents, target) {
                &&& post == pre
                &&& after == DataView {
                    ids: assigned(data.ids, id as int, target),
                    contents: data.contents.insert(
                        target,
                        content_hydrated(data.contents[target], value@),
                    ),
                    ..data
                }
            } else {
                exists|fresh: u64| #[trigger]
                    respawned(pre, post, target, fresh) && after == DataView {
                        ids: assigned(data.ids, id as int, target),
                        contents: data.contents.insert(fresh, text_content(value@)).restrict(
                            live_nodes(post),
                        ),
                        ..data
                    }
            }
        },
        Mutation::LoadTemplate { name, index, id } => {
            let shape = data.catalog[name@][index as int];
            &&& after.stack.len() > 0
            &&& exists|made: Seq<u64>| #[trigger]
                built(pre, post, after.stack.last(), made, walked(steps_of(shape)).parents) && after
                    == DataView {
                    ids: assigned(data.ids, id as int, after.stack.last()),
                    stack: data.stack.push(after.stack.last()),
                    contents: with_made(
                        data.contents.insert(after.stack.last(), root_content(shape)),
                        made,
                        walked(steps_of(shape)).shapes,
                    ),
                    ..data
                }
        },
        Mutation::ReplaceWith { id, m } => {
            &&& replaced(
                pre,
                post,
                lookup(data.ids, id as int).unwrap(),
                operands(data.stack, m as int),
            )
            &&& after == DataView {
                stack: below_operands(data.stack, m as int),
                contents: data.contents.restrict(live_nodes(post)),
                ..data
            }
        },
        Mutation::ReplacePlaceholder { path, m } => {
            &&& replaced(
                pre,
                post,
                child_at_path(pre, below_operands(data.stack, m as int).last(), path@).unwrap(),
                operands(data.stack, m as int),
            )
            &&& after == DataView {
                stack: below_operands(data.stack, m as int),
                contents: data.contents.restrict(live_nodes(post)),
                ..data
            }
        },
        Mutation::InsertAfter { id, m } => {
            &&& placed_beside(
                pre,
                post,
                lookup(data.ids, id as int).unwrap(),
                operands(data.stack, m as int),
                true,
            )
            &&& after == DataView { stack: below_operands(data.stack, m as int), ..data }
        },
        Mutation::InsertBefore { id, m } => {
            &&& placed_beside(
                pre,
                post,
                lookup(data.ids, id as int).unwrap(),
                operands(data.stack, m as int),
                false,
            )
            &&& after == DataView { stack: below_operands(data.stack, m as int), ..data }
        },
        Mutation::SetAttribute { name, value, id } => {
            let node = lookup(data.ids, id as int).unwrap();
            &&& post == pre
            &&& after == DataView {
                contents: data.contents.insert(
                    node,
                    ContentView {
                        style: Some(
                            style_or_default(data.contents, node).update(
                                field_named(name@).unwrap().slot(),
                                field_value(value),
                            ),
                        ),
                        ..content_or_empty(data.contents, node)
                    },
                ),
                ..data
            }
        },
        Mutation::SetText { value, id } => {
            let node = lookup(data.ids, id as int).unwrap();
            &&& post == pre
            &&& after == if data.contents.contains_key(node) {
                DataView {
                    contents: data.contents.insert(
                        node,
                        content_with_text(data.contents[node], value@),
                    ),
                    ..data
                }
            } else {
                data
            }
        },
        Mutation::Remove { id } => {
            &&& subtree_removed(pre, post, lookup(data.ids, id as int).unwrap())
            &&& after == DataView { contents: data.contents.restrict(live_nodes(post)), ..data }
        },
        Mutation::PushRoot { id } => {
            &&& post == pre
            &&& after == DataView {
                stack: data.stack.push(lookup(data.ids, id as int).unwrap()),
                ..data
            }
        },
    }
}

/// What applying `edit` came to: turned down with `done`'s error and nothing
/// changed, or applied.
pub open spec fn edit_outcome(
    data: DataView,
    pre: World,
    edit: Mutation,
    done: Result<(), ReconcileError>,
    after: DataView,
    post: World,
) -> bool {
    match done {
        Ok(_) => edit_error(data, pre, edit).is_none() && edit_effect(data, pre, edit, after, post),
        Err(error) => edit_error(data, pre, edit) == Some(error) && after == data && post == pre,
    }
}

/// `after` and `post` are what `edits`, applied in order and none of them
/// turned down, leave of `data` and `pre`.
pub open spec fn edits_applied(
    data: DataView,
    pre: World,
    edits: Seq<Mutation>,
    after: DataView,
    post: World,
) -> bool
    decreases edits.len(),
{
    if edits.len() == 0 {
        after == data && post == pre
    } else {
        exists|between: DataView, mid: World|
            edits_applied(data, pre, edits.drop_last(), between, mid) && #[trigger] edit_outcome(
                between,
                mid,
                edits.last(),
                Ok(()),
                after,
                post,
            )
    }
}

/// By how much an edit changes the height of the operand stack.
pub open spec fn stack_change(edit: Mutation) -> int {
    match edit {
        Mutation::AppendChildren { m, .. } => -(m as int),
        Mutation::ReplaceWith { m, .. } => -(m as int),
        Mutation::ReplacePlaceholder { m, .. } => -(m as int),
        Mutation::InsertAfter { m, .. } => -(m as int),
        Mutation::InsertBefore { m, .. } => -(m as int),
        Mutation::CreatePlaceholder { .. } => 1,
        Mutation::CreateTextNode { .. } => 1,
        Mutation::LoadTemplate { .. } => 1,
        Mutation::PushRoot { .. } => 1,
        _ => 0,
    }
}

/// By how much a run of edits changes the height of the operand stack.
pub open spec fn stack_changes(edits: Seq<Mutation>) -> int
    decreases edits.len(),
{
    if edits.len() == 0 {
        0
    } else {
        stack_changes(edits.drop_last()) + stack_change(edits.last())
    }
}

} // verus!
