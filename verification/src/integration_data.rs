//! The interpreter: the catalog, the identifier map, the operand stack and
//! what the nodes hold, and the edits applied to them and to the host tree.

use vstd::prelude::*;
use bevy::ecs::world::World;
use crate::attributes::AttributeValue;
use crate::attributes::Style;
use crate::attributes::StyleField;
use crate::attributes::StyleValue;
use crate::contents::ContentView;
use crate::contents::Contents;
use crate::contents::NodeContent;
use crate::edits::DataView;
use crate::edits::Mutation;
use crate::edits::Mutations;
use crate::edits::adopted_in_turn;
use crate::edits::below_operands;
use crate::edits::content_hydrated;
use crate::edits::content_or_empty;
use crate::edits::content_with_text;
use crate::edits::edit_effect;
use crate::edits::edit_error;
use crate::edits::edit_outcome;
use crate::edits::edits_applied;
use crate::edits::field_value;
use crate::edits::is_text;
use crate::edits::operands;
use crate::edits::replaced;
use crate::edits::respawned;
use crate::edits::stack_change;
use crate::edits::stack_changes;
use crate::edits::style_or_default;
use crate::element_map::ElementMap;
use crate::element_map::assigned;
use crate::element_map::lookup;
use crate::error::ReconcileError;
use crate::host::add_child;
use crate::host::adopted;
use crate::host::all_live;
use crate::host::child_entities;
use crate::host::children_of;
use crate::host::despawn_recursive;
use crate::host::exists_in;
use crate::host::insert_children;
use crate::host::is_live;
use crate::host::live_nodes;
use crate::host::spawn_empty;
use crate::instantiate::instantiate;
use crate::node::RootShape;
use crate::template::Template;
use crate::template_map::TemplateMap;
use crate::template_map::all_supported;
use crate::template_map::root_shapes;
use crate::tree::all_exist;
use crate::tree::beside_error;
use crate::tree::count_kept;
use crate::tree::follow_path;
use crate::tree::lemma_place_survives;
use crate::tree::place_beside;
use crate::tree::slot_of;

verus! {

/// The interpreter's state.
pub struct IntegrationData {
    template_map: TemplateMap,
    element_map: ElementMap,
    stack: Vec<u64>,
    contents: Contents,
}

impl View for IntegrationData {
    type V = DataView;

    closed spec fn view(&self) -> DataView {
        DataView {
            catalog: self.template_map@,
            ids: self.element_map@,
            stack: self.stack@,
            contents: self.contents@,
        }
    }
}

impl Default for IntegrationData {
    fn default() -> (data: Self)
        ensures
            data.wf(),
            data@.catalog == Map::<Seq<char>, Seq<RootShape>>::empty(),
            data@.ids == Seq::<u64>::empty(),
            data@.stack == Seq::<u64>::empty(),
            data@.contents == Map::<u64, ContentView>::empty(),
    {
        IntegrationData {
            template_map: TemplateMap::default(),
            element_map: ElementMap::default(),
            stack: Vec::new(),
            contents: Contents::default(),
        }
    }
}

/// The top `m` members of `stack`, in order.
fn top_of(stack: &Vec<u64>, m: usize) -> (top: Vec<u64>)
    requires
        m <= stack@.len(),
    ensures
        top@ == operands(stack@, m as int),
{
    let mut top: Vec<u64> = Vec::with_capacity(m);
    let start: usize = stack.len() - m;
    let mut i: usize = 0;
    while i < m
        invariant
            i <= m <= stack@.len(),
            start + m == stack.len(),
            top@ == stack@.subrange(start as int, start + i),
        decreases m - i,
    {
        top.push(stack[start + i]);
        i += 1;
    }
    top
}

/// The catalog after each of `templates` was added in turn.
pub open spec fn catalog_with(
    catalog: Map<Seq<char>, Seq<RootShape>>,
    templates: Seq<Template>,
) -> Map<Seq<char>, Seq<RootShape>>
    decreases templates.len(),
{
    if templates.len() == 0 {
        catalog
    } else {
        catalog_with(catalog, templates.drop_last()).insert(
            templates.last().name@,
            root_shapes(templates.last().roots@),
        )
    }
}

/// Whether every tag in every one of `templates` is supported.
pub open spec fn templates_supported(templates: Seq<Template>) -> bool {
    forall|i: int| 0 <= i < templates.len() ==> all_supported((#[trigger] templates[i]).roots@)
}

/// An edit that is applied changes the height of the operand stack by what
/// the edit says, whatever else it does.
pub proof fn lemma_edit_moves_stack(data: DataView, pre: World, edit: Mutation, after: DataView, post: World)
    requires
        edit_error(data, pre, edit).is_none(),
        edit_effect(data, pre, edit, after, post),
    ensures
        after.stack.len() == data.stack.len() + stack_change(edit),
{
}

/// A run of edits that are all applied changes the height of the operand
/// stack by the sum of what they say. A run whose changes sum to nothing
/// leaves a stack that was empty before it empty.
pub proof fn lemma_edits_move_stack(
    data: DataView,
    pre: World,
    edits: Seq<Mutation>,
    after: DataView,
    post: World,
)
    requires
        edits_applied(data, pre, edits, after, post),
    ensures
        after.stack.len() == data.stack.len() + stack_changes(edits),
        stack_changes(edits) == 0 && data.stack.len() == 0 ==> after.stack.len() == 0,
    decreases edits.len(),
{
    if edits.len() > 0 {
        let (between, mid) = choose|between: DataView, mid: World|
            edits_applied(data, pre, edits.drop_last(), between, mid) && #[trigger] edit_outcome(
                between,
                mid,
                edits.last(),
                Ok(()),
                after,
                post,
            );
        lemma_edits_move_stack(data, pre, edits.drop_last(), between, mid);
        lemma_edit_moves_stack(between, mid, edits.last(), after, post);
    }
}

impl IntegrationData {
    /// The catalog holds only roots that can be instantiated, and the table
    /// of what the nodes hold has one entry for a node at most.
    pub closed spec fn wf(&self) -> bool {
        self.template_map.sound() && self.contents.wf()
    }

    /// The node that `id` stands for, if it was assigned one.
    pub fn node(&self, id: usize) -> (node: Option<u64>)
        ensures
            node == lookup(self@.ids, id as int),
    {
        self.element_map.get(id)
    }

    /// The operand stack, top last.
    pub fn operand_stack(&self) -> (stack: &Vec<u64>)
        ensures
            stack@ == self@.stack,
    {
        &self.stack
    }

    /// What `node` holds, if the interpreter made it or wrote to it.
    pub fn content(&self, node: u64) -> (content: Option<&NodeContent>)
        requires
            self.wf(),
        ensures
            match content {
                Some(content) => self@.contents.contains_key(node) && self@.contents[node]
                    == content@,
                None => !self@.contents.contains_key(node),
            },
    {
        self.contents.get(node)
    }

    /// The nodes that the interpreter made or wrote to, each once.
    pub fn nodes(&self) -> (nodes: Vec<u64>)
        requires
            self.wf(),
        ensures
            nodes@.no_duplicates(),
            forall|node: u64| nodes@.contains(node) == self@.contents.contains_key(node),
    {
        self.contents.nodes()
    }

    /// The catalog of compiled templates.
    pub fn templates(&self) -> (catalog: &TemplateMap)
        ensures
            catalog@ == self@.catalog,
    {
        &self.template_map
    }

    /// Makes `root` the node that id zero stands for, and pushes it: the edits
    /// of the first pass hang their nodes below it.
    pub fn set_root(&mut self, root: u64)
        requires
            old(self).wf(),
        ensures
            final(self).wf(),
            final(self)@ == (DataView {
                ids: assigned(old(self)@.ids, 0, root),
                stack: old(self)@.stack.push(root),
                ..old(self)@
            }),
    {
        self.element_map.set(0, root);
        self.stack.push(root);
    }

    /// Gives `id` to the node that `path` leads to from the top operand.
    pub fn assign_id(&mut self, world: &mut World, path: &Vec<u8>, id: usize) -> (done: Result<
        (),
        ReconcileError,
    >)
        requires
            old(self).wf(),
        ensures
            final(self).wf(),
            edit_outcome(
                old(self)@,
                *old(world),
                Mutation::AssignId { path: *path, id },
                done,
                final(self)@,
                *final(world),
            ),
    {
        if self.stack.len() == 0 {
            return Err(ReconcileError::StackUnderflow);
        }
        let top: u64 = self.stack[self.stack.len() - 1];
        match follow_path(world, top, path) {
            Some(child) => {
                self.element_map.set(id, child);
                Ok(())
            },
            None => Err(ReconcileError::BadPath),
        }
    }

    /// Makes an empty node, gives it `id` and pushes it.
    pub fn create_placeholder(&mut self, world: &mut World, id: usize) -> (done: Result<
        (),
        ReconcileError,
    >)
        requires
            old(self).wf(),
        ensures
            final(self).wf(),
            done.is_ok(),
            edit_outcome(
                old(self)@,
                *old(world),
                Mutation::CreatePlaceholder { id },
                done,
                final(self)@,
                *final(world),
            ),
    {
        let entity = spawn_empty(world);
        self.element_map.set(id, entity);
        self.stack.push(entity);
        self.contents.put(entity, NodeContent::empty());
        Ok(())
    }

    /// Makes a text node that holds `value`, gives it `id` and pushes it.
    pub fn create_text_node(&mut self, world: &mut World, value: &String, id: usize) -> (done: Result<
        (),
        ReconcileError,
    >)
        requires
            old(self).wf(),
        ensures
            final(self).wf(),
            done.is_ok(),
            edit_outcome(
                old(self)@,
                *old(world),
                Mutation::CreateTextNode { value: *value, id },
                done,
                final(self)@,
                *final(world),
            ),
    {
        let entity = spawn_empty(world);
        self.element_map.set(id, entity);
        self.stack.push(entity);
        self.contents.put(entity, NodeContent::text(value.as_str()));
        Ok(())
    }

    /// The node `id` goes, with everything below it.
    pub fn remove(&mut self, world: &mut World, id: usize) -> (done: Result<(), ReconcileError>)
        requires
            old(self).wf(),
        ensures
            final(self).wf(),
            edit_outcome(
                old(self)@,
                *old(world),
                Mutation::Remove { id },
                done,
                final(self)@,
                *final(world),
            ),
    {
        let entity = match self.element_map.get(id) {
            Some(entity) => entity,
            None => {
                return Err(ReconcileError::UnmappedId);
            },
        };
        if !exists_in(world, entity) {
            return Err(ReconcileError::MissingNode);
        }
        despawn_recursive(world, entity);
        self.contents.sweep(world);
        Ok(())
    }

    /// Pushes the node `id`.
    pub fn push_root(&mut self, world: &mut World, id: usize) -> (done: Result<(), ReconcileError>)
        requires
            old(self).wf(),
        ensures
            final(self).wf(),
            edit_outcome(
                old(self)@,
                *old(world),
                Mutation::PushRoot { id },
                done,
                final(self)@,
                *final(world),
            ),
    {
        match self.element_map.get(id) {
            Some(entity) => {
                self.stack.push(entity);
                Ok(())
            },
            None => Err(ReconcileError::UnmappedId),
        }
    }

    /// Takes `m` operands and makes them the last children of the node `id`, in
    /// the order in which they were pushed.
    pub fn append_children(&mut self, world: &mut World, id: usize, m: usize) -> (done: Result<
        (),
        ReconcileError,
    >)
        requires
            old(self).wf(),
        ensures
            final(self).wf(),
            edit_outcome(
                old(self)@,
                *old(world),
                Mutation::AppendChildren { id, m },
                done,
                final(self)@,
                *final(world),
            ),
    {
        if m > self.stack.len() {
            return Err(ReconcileError::StackUnderflow);
        }
        let parent = match self.element_map.get(id) {
            Some(parent) => parent,
            None => {
                return Err(ReconcileError::UnmappedId);
            },
        };
        let children = top_of(&self.stack, m);
        if !exists_in(world, parent) || !all_exist(world, &children) {
            return Err(ReconcileError::MissingNode);
        }
        self.stack.truncate(self.stack.len() - m);
        let mut i: usize = 0;
        while i < children.len()
            invariant
                i <= children@.len(),
                live_nodes(*world) == live_nodes(*old(world)),
                is_live(*world, parent),
                all_live(*world, children@),
                adopted_in_turn(*old(world), *world, parent, children@.take(i as int)),
            decreases children@.len() - i,
        {
            let ghost before = *world;
            add_child(world, parent, children[i]);
            proof {
                let next = children@.take(i + 1);
                assert(next.drop_last() =~= children@.take(i as int));
                assert(adopted(before, *world, parent, next.last()));
            }
            i += 1;
        }
        proof {
            assert(children@.take(i as int) =~= children@);
        }
        Ok(())
    }

    /// Sets the style attribute `name` of the node `id` to `value`, or back
    /// to its default where `value` is absent. A node without a style record
    /// gets one, with the other fields at their defaults.
    pub fn set_attribute(
        &mut self,
        world: &mut World,
        name: &String,
        value: AttributeValue,
        id: usize,
    ) -> (done: Result<(), ReconcileError>)
        requires
            old(self).wf(),
        ensures
            final(self).wf(),
            edit_outcome(
                old(self)@,
                *old(world),
                Mutation::SetAttribute { name: *name, value, id },
                done,
                final(self)@,
                *final(world),
            ),
    {
        let entity = match self.element_map.get(id) {
            Some(entity) => entity,
            None => {
                return Err(ReconcileError::UnmappedId);
            },
        };
        let field = match StyleField::from_name(name.as_str()) {
            Some(field) => field,
            None => {
                return Err(ReconcileError::UnknownAttribute);
            },
        };
        if !exists_in(world, entity) {
            return Err(ReconcileError::MissingNode);
        }
        let field_value: Option<StyleValue> = match value {
            AttributeValue::Absent => None,
            AttributeValue::Any(typed) => {
                if typed.kind == field.kind() {
                    Some(typed)
                } else {
                    return Err(ReconcileError::InvalidAttributeValue);
                }
            },
            AttributeValue::Plain => {
                return Err(ReconcileError::InvalidAttributeValue);
            },
        };
        let content = match self.contents.take(entity) {
            Some(content) => content,
            None => NodeContent::empty(),
        };
        let NodeContent { element, text, style } = content;
        let mut style = match style {
            Some(style) => style,
            None => Style::default(),
        };
        style.set(field, field_value);
        self.contents.put(entity, NodeContent { element, text, style: Some(style) });
        proof {
            assert(self@.contents =~= old(self)@.contents.insert(
                entity,
                ContentView {
                    style: Some(
                        style_or_default(old(self)@.contents, entity).update(
                            field.slot(),
                            field_value,
                        ),
                    ),
                    ..content_or_empty(old(self)@.contents, entity)
                },
            ));
        }
        Ok(())
    }

    /// Makes `value` the text of the node `id`. Whatever parts the text had,
    /// it has one afterwards. A node that is not a text node is left as it is.
    pub fn set_text(&mut self, world: &mut World, value: &String, id: usize) -> (done: Result<
        (),
        ReconcileError,
    >)
        requires
            old(self).wf(),
        ensures
            final(self).wf(),
            edit_outcome(
                old(self)@,
                *old(world),
                Mutation::SetText { value: *value, id },
                done,
                final(self)@,
                *final(world),
            ),
    {
        let entity = match self.element_map.get(id) {
            Some(entity) => entity,
            None => {
                return Err(ReconcileError::UnmappedId);
            },
        };
        match self.contents.take(entity) {
            Some(content) => {
                let NodeContent { element, text, style } = content;
                let text = match text {
                    Some(_) => {
                        let mut parts: Vec<String> = Vec::new();
                        parts.push(value.clone());
                        assert(parts@.map_values(|part: String| part@) =~= seq![value@]);
                        Some(parts)
                    },
                    None => None,
                };
                self.contents.put(entity, NodeContent { element, text, style });
                proof {
                    assert(self@.contents =~= old(self)@.contents.insert(
                        entity,
                        content_with_text(old(self)@.contents[entity], value@),
                    ));
                }
            },
            None => {
                assert(self@.contents =~= old(self)@.contents);
            },
        }
        Ok(())
    }

    /// Takes `m` operands and puts them right after the node `id`, or right
    /// before it.
    fn insert_beside(&mut self, world: &mut World, id: usize, m: usize, after: bool) -> (done: Result<
        (),
        ReconcileError,
    >)
        requires
            old(self).wf(),
        ensures
            final(self).wf(),
            edit_outcome(
                old(self)@,
                *old(world),
                if after {
                    Mutation::InsertAfter { id, m }
                } else {
                    Mutation::InsertBefore { id, m }
                },
                done,
                final(self)@,
                *final(world),
            ),
    {
        if m > self.stack.len() {
            return Err(ReconcileError::StackUnderflow);
        }
        let old_node = match self.element_map.get(id) {
            Some(old_node) => old_node,
            None => {
                return Err(ReconcileError::UnmappedId);
            },
        };
        let to_insert = top_of(&self.stack, m);
        match place_beside(world, old_node, &to_insert, after) {
            Ok(_) => {
                self.stack.truncate(self.stack.len() - m);
                Ok(())
            },
            Err(error) => Err(error),
        }
    }

    /// Takes `m` operands and puts them right after the node `id`.
    pub fn insert_after(&mut self, world: &mut World, id: usize, m: usize) -> (done: Result<
        (),
        ReconcileError,
    >)
        requires
            old(self).wf(),
        ensures
            final(self).wf(),
            edit_outcome(
                old(self)@,
                *old(world),
                Mutation::InsertAfter { id, m },
                done,
                final(self)@,
                *final(world),
            ),
    {
        self.insert_beside(world, id, m, true)
    }

    /// Takes `m` operands and puts them right before the node `id`.
    pub fn insert_before(&mut self, world: &mut World, id: usize, m: usize) -> (done: Result<
        (),
        ReconcileError,
    >)
        requires
            old(self).wf(),
        ensures
            final(self).wf(),
            edit_outcome(
                old(self)@,
                *old(world),
                Mutation::InsertBefore { id, m },
                done,
                final(self)@,
                *final(world),
            ),
    {
        self.insert_beside(world, id, m, false)
    }

    /// Puts the top `m` operands where `target` is, which goes with everything
    /// below it, and takes the operands off the stack.
    fn replace_node(&mut self, world: &mut World, target: u64, m: usize) -> (done: Result<
        (),
        ReconcileError,
    >)
        requires
            old(self).wf(),
            m <= old(self)@.stack.len(),
            is_live(*old(world), target),
        ensures
            final(self).wf(),
            match done {
                Ok(_) => {
                    &&& beside_error(*old(world), target, operands(old(self)@.stack, m as int)).is_none()
                    &&& replaced(
                        *old(world),
                        *final(world),
                        target,
                        operands(old(self)@.stack, m as int),
                    )
                    &&& final(self)@ == (DataView {
                        stack: below_operands(old(self)@.stack, m as int),
                        contents: old(self)@.contents.restrict(live_nodes(*final(world))),
                        ..old(self)@
                    })
                },
                Err(error) => {
                    &&& beside_error(*old(world), target, operands(old(self)@.stack, m as int))
                        == Some(error)
                    &&& final(self)@ == old(self)@
                    &&& *final(world) == *old(world)
                },
            },
    {
        let to_replace = top_of(&self.stack, m);
        match place_beside(world, target, &to_replace, false) {
            Ok(_) => {
                despawn_recursive(world, target);
                self.stack.truncate(self.stack.len() - m);
                self.contents.sweep(world);
                Ok(())
            },
            Err(error) => Err(error),
        }
    }

    /// Takes `m` operands and puts them where the node `id` is, which goes with
    /// everything below it.
    pub fn replace_with(&mut self, world: &mut World, id: usize, m: usize) -> (done: Result<
        (),
        ReconcileError,
    >)
        requires
            old(self).wf(),
        ensures
            final(self).wf(),
            edit_outcome(
                old(self)@,
                *old(world),
                Mutation::ReplaceWith { id, m },
                done,
                final(self)@,
                *final(world),
            ),
    {
        if m > self.stack.len() {
            return Err(ReconcileError::StackUnderflow);
        }
        let old_node = match self.element_map.get(id) {
            Some(old_node) => old_node,
            None => {
                return Err(ReconcileError::UnmappedId);
            },
        };
        if !exists_in(world, old_node) {
            return Err(ReconcileError::MissingNode);
        }
        self.replace_node(world, old_node, m)
    }

    /// Takes `m` operands and puts them where the node is that `path` leads to
    /// from the operand below them, which goes with everything below it.
    pub fn replace_placeholder(&mut self, world: &mut World, path: &Vec<u8>, m: usize) -> (done:
        Result<(), ReconcileError>)
        requires
            old(self).wf(),
        ensures
            final(self).wf(),
            edit_outcome(
                old(self)@,
                *old(world),
                Mutation::ReplacePlaceholder { path: *path, m },
                done,
                final(self)@,
                *final(world),
            ),
    {
        if m >= self.stack.len() {
            return Err(ReconcileError::StackUnderflow);
        }
        let top: u64 = self.stack[self.stack.len() - m - 1];
        let child = match follow_path(world, top, path) {
            Some(child) => child,
            None => {
                return Err(ReconcileError::BadPath);
            },
        };
        if !exists_in(world, child) {
            return Err(ReconcileError::MissingNode);
        }
        self.replace_node(world, child, m)
    }

    /// Gives `id` to the node that `path` leads to from the top operand and
    /// makes it a text node that holds `value`. A text node has its text
    /// overwritten. Any other node goes, with everything below it, and a new
    /// text node takes its place among its siblings; what the old node held
    /// besides is lost, its style record too.
    pub fn hydrate_text(
        &mut self,
        world: &mut World,
        path: &Vec<u8>,
        value: &String,
        id: usize,
    ) -> (done: Result<(), ReconcileError>)
        requires
            old(self).wf(),
        ensures
            final(self).wf(),
            edit_outcome(
                old(self)@,
                *old(world),
                Mutation::HydrateText { path: *path, value: *value, id },
                done,
                final(self)@,
                *final(world),
            ),
    {
        if self.stack.len() == 0 {
            return Err(ReconcileError::StackUnderflow);
        }
        let top: u64 = self.stack[self.stack.len() - 1];
        let entity = match follow_path(world, top, path) {
            Some(entity) => entity,
            None => {
                return Err(ReconcileError::BadPath);
            },
        };
        let is_text = match self.contents.get(entity) {
            Some(content) => content.text.is_some(),
            None => false,
        };
        if is_text {
            self.element_map.set(id, entity);
            let content = self.contents.take(entity).unwrap();
            let NodeContent { element, text, style } = content;
            let mut parts = text.unwrap();
            let ghost before = parts@.map_values(|part: String| part@);
            if parts.len() == 0 {
                parts.push(value.clone());
                assert(parts@.map_values(|part: String| part@) =~= seq![value@]);
            } else {
                parts[0] = value.clone();
                assert(parts@.map_values(|part: String| part@) =~= before.update(0, value@));
            }
            self.contents.put(entity, NodeContent { element, text: Some(parts), style });
            proof {
                assert(self@.contents =~= old(self)@.contents.insert(
                    entity,
                    content_hydrated(old(self)@.contents[entity], value@),
                ));
            }
            return Ok(());
        }
        if !exists_in(world, entity) {
            return Err(ReconcileError::MissingNode);
        }
        self.element_map.set(id, entity);
        let slot = slot_of(world, entity);
        despawn_recursive(world, entity);
        let ghost gone = *world;
        let parent_stays = match slot {
            Some((parent, _)) => exists_in(world, parent),
            None => false,
        };
        let fresh = spawn_empty(world);
        match slot {
            Some((parent, place)) => {
                if parent_stays {
                    let list = child_entities(world, parent);
                    let mut nodes: Vec<u64> = Vec::new();
                    nodes.push(fresh);
                    proof {
                        lemma_place_survives(
                            children_of(*old(world), parent),
                            entity,
                            place as int,
                        );
                        assert(list@ == children_of(gone, parent));
                    }
                    let index = count_kept(&list, &nodes, place);
                    insert_children(world, parent, index, &nodes);
                }
            },
            None => {},
        }
        self.contents.put(fresh, NodeContent::text(value.as_str()));
        self.contents.sweep(world);
        proof {
            assert(respawned(*old(world), *world, entity, fresh));
        }
        Ok(())
    }

    /// Makes the nodes of the root `index` of the template `name`: the root,
    /// and below it the nodes of its child sequence, each below the node where
    /// the walk over the sequence stands. Gives `id` to the root and pushes it.
    pub fn load_template(&mut self, world: &mut World, name: &String, index: usize, id: usize) -> (done:
        Result<(), ReconcileError>)
        requires
            old(self).wf(),
        ensures
            final(self).wf(),
            edit_outcome(
                old(self)@,
                *old(world),
                Mutation::LoadTemplate { name: *name, index, id },
                done,
                final(self)@,
                *final(world),
            ),
    {
        let root = match self.template_map.get(name.as_str(), index) {
            Some(root) => root,
            None => {
                return Err(ReconcileError::UnknownTemplate);
            },
        };
        let (entity, made) = instantiate(world, &mut self.contents, root);
        self.element_map.set(id, entity);
        self.stack.push(entity);
        Ok(())
    }

    /// Applies one edit. An edit that cannot be applied is turned down and
    /// changes nothing.
    pub fn apply(&mut self, world: &mut World, edit: &Mutation) -> (done: Result<(), ReconcileError>)
        requires
            old(self).wf(),
        ensures
            final(self).wf(),
            edit_outcome(old(self)@, *old(world), *edit, done, final(self)@, *final(world)),
    {
        match edit {
            Mutation::AppendChildren { id, m } => self.append_children(world, *id, *m),
            Mutation::AssignId { path, id } => self.assign_id(world, path, *id),
            Mutation::CreatePlaceholder { id } => self.create_placeholder(world, *id),
            Mutation::CreateTextNode { value, id } => self.create_text_node(world, value, *id),
            Mutation::HydrateText { path, value, id } => self.hydrate_text(world, path, value, *id),
            Mutation::LoadTemplate { name, index, id } => self.load_template(
                world,
                name,
                *index,
                *id,
            ),
            Mutation::ReplaceWith { id, m } => self.replace_with(world, *id, *m),
            Mutation::ReplacePlaceholder { path, m } => self.replace_placeholder(world, path, *m),
            Mutation::InsertAfter { id, m } => self.insert_after(world, *id, *m),
            Mutation::InsertBefore { id, m } => self.insert_before(world, *id, *m),
            Mutation::SetAttribute { name, value, id } => self.set_attribute(
                world,
                name,
                *value,
                *id,
            ),
            Mutation::SetText { value, id } => self.set_text(world, value, *id),
            Mutation::Remove { id } => self.remove(world, *id),
            Mutation::PushRoot { id } => self.push_root(world, *id),
        }
    }

    /// One pass: adds the announced templates to the catalog, then applies the
    /// edits in order. The pass stops at the first template or edit that is
    /// turned down, with what came before it done.
    pub fn update_dom(&mut self, world: &mut World, mutations: Mutations) -> (done: Result<
        (),
        ReconcileError,
    >)
        requires
            old(self).wf(),
        ensures
            final(self).wf(),
            match done {
                Ok(_) => {
                    &&& templates_supported(mutations.templates@)
                    &&& edits_applied(
                        DataView {
                            catalog: catalog_with(old(self)@.catalog, mutations.templates@),
                            ..old(self)@
                        },
                        *old(world),
                        mutations.edits@,
                        final(self)@,
                        *final(world),
                    )
                    &&& final(self)@.stack.len() == old(self)@.stack.len() + stack_changes(
                        mutations.edits@,
                    )
                },
                Err(error) => if templates_supported(mutations.templates@) {
                    exists|applied: int|
                        0 <= applied < mutations.edits@.len() && edits_applied(
                            DataView {
                                catalog: catalog_with(old(self)@.catalog, mutations.templates@),
                                ..old(self)@
                            },
                            *old(world),
                            mutations.edits@.take(applied),
                            final(self)@,
                            *final(world),
                        ) && #[trigger] edit_error(
                            final(self)@,
                            *final(world),
                            mutations.edits@[applied],
                        ) == Some(error)
                } else {
                    &&& error == ReconcileError::UnsupportedTag
                    &&& *final(world) == *old(world)
                    &&& exists|added: int|
                        0 <= added < mutations.templates@.len() && templates_supported(
                            mutations.templates@.take(added),
                        ) && !all_supported((#[trigger] mutations.templates@[added]).roots@)
                            && final(self)@ == (DataView {
                            catalog: catalog_with(
                                old(self)@.catalog,
                                mutations.templates@.take(added),
                            ),
                            ..old(self)@
                        })
                },
            },
    {
        let mut t: usize = 0;
        while t < mutations.templates.len()
            invariant
                t <= mutations.templates@.len(),
                self.wf(),
                *world == *old(world),
                templates_supported(mutations.templates@.take(t as int)),
                self@ == (DataView {
                    catalog: catalog_with(old(self)@.catalog, mutations.templates@.take(t as int)),
                    ..old(self)@
                }),
            decreases mutations.templates@.len() - t,
        {
            let ghost taken = mutations.templates@.take(t as int);
            let ghost next = mutations.templates@.take(t + 1);
            proof {
                assert(next.drop_last() =~= taken);
            }
            match self.template_map.add(&mutations.templates[t]) {
                Ok(_) => {
                    proof {
                        assert forall|i: int| 0 <= i < next.len() implies all_supported(
                            (#[trigger] next[i]).roots@,
                        ) by {
                            if i < t {
                            }
                        }
                    }
                },
                Err(error) => {
                    return Err(error);
                },
            }
            t += 1;
        }
        proof {
            assert(mutations.templates@.take(t as int) =~= mutations.templates@);
        }
        let ghost start = self@;
        let mut i: usize = 0;
        while i < mutations.edits.len()
            invariant
                i <= mutations.edits@.len(),
                self.wf(),
                templates_supported(mutations.templates@),
                start == (DataView {
                    catalog: catalog_with(old(self)@.catalog, mutations.templates@),
                    ..old(self)@
                }),
                edits_applied(start, *old(world), mutations.edits@.take(i as int), self@, *world),
            decreases mutations.edits@.len() - i,
        {
            let ghost between = self@;
            let ghost mid = *world;
            let ghost next = mutations.edits@.take(i + 1);
            proof {
                assert(next.drop_last() =~= mutations.edits@.take(i as int));
            }
            match self.apply(world, &mutations.edits[i]) {
                Ok(_) => {
                    proof {
                        assert(edit_outcome(between, mid, next.last(), Ok(()), self@, *world));
                    }
                },
                Err(error) => {
                    return Err(error);
                },
            }
            i += 1;
        }
        proof {
            assert(mutations.edits@.take(i as int) =~= mutations.edits@);
            lemma_edits_move_stack(start, *old(world), mutations.edits@, self@, *world);
        }
        Ok(())
    }
}

} // verus!
