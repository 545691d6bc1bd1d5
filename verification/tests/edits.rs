use bevy::ecs::entity::Entity;
use bevy::ecs::world::World;
use bevy::hierarchy::{BuildWorldChildren, Children, Parent};
use bevy_ui_dioxus::attributes::{AttributeValue, StyleField, StyleValue, ValueKind};
use bevy_ui_dioxus::edits::{Mutation, Mutations};
use bevy_ui_dioxus::error::ReconcileError;
use bevy_ui_dioxus::integration_data::IntegrationData;
use bevy_ui_dioxus::tree::follow_path;
use bevy_ui_dioxus::node::Element;
use bevy_ui_dioxus::nodes::{ButtonNode, ImageNode, SimpleNode};
use bevy_ui_dioxus::template::{Template, TemplateNode};

fn kids(world: &World, node: u64) -> Vec<u64> {
    match world.get::<Children>(Entity::from_bits(node)) {
        Some(list) => list.iter().map(|c| c.to_bits()).collect(),
        None => Vec::new(),
    }
}

fn parent(world: &World, node: u64) -> Option<u64> {
    world.get::<Parent>(Entity::from_bits(node)).map(|p| p.get().to_bits())
}

fn alive(world: &World, node: u64) -> bool {
    world.get_entity(Entity::from_bits(node)).is_some()
}

fn started(world: &mut World) -> (IntegrationData, u64) {
    let root = world.spawn_empty().id().to_bits();
    let mut data = IntegrationData::default();
    data.set_root(root);
    (data, root)
}

fn run(data: &mut IntegrationData, world: &mut World, edits: Vec<Mutation>) -> Result<(), ReconcileError> {
    data.update_dom(world, Mutations { templates: vec![], edits })
}

fn text(data: &IntegrationData, node: u64) -> Option<Vec<String>> {
    data.content(node).and_then(|content| content.text.clone())
}

fn element(tag: &str, children: Vec<TemplateNode>) -> TemplateNode {
    TemplateNode::Element { tag: tag.to_string(), children }
}

fn words(value: &str) -> TemplateNode {
    TemplateNode::Text { text: value.to_string() }
}

/// A root with three placeholder children, ids 1, 2 and 3.
fn with_three(world: &mut World) -> (IntegrationData, u64, [u64; 3]) {
    let (mut data, root) = started(world);
    let done = run(
        &mut data,
        world,
        vec![
            Mutation::CreatePlaceholder { id: 1 },
            Mutation::CreatePlaceholder { id: 2 },
            Mutation::CreatePlaceholder { id: 3 },
            Mutation::AppendChildren { id: 0, m: 3 },
        ],
    );
    assert_eq!(done, Ok(()));
    let nodes = [data.node(1).unwrap(), data.node(2).unwrap(), data.node(3).unwrap()];
    assert_eq!(kids(world, root), nodes.to_vec());
    (data, root, nodes)
}

#[test]
fn new_interpreter_is_empty() {
    let data = IntegrationData::default();
    assert_eq!(data.node(0), None);
    assert!(data.operand_stack().is_empty());
    assert!(data.nodes().is_empty());
    assert!(data.templates().get("any", 0).is_none());
}

#[test]
fn set_root_maps_id_zero_and_pushes() {
    let mut world = World::new();
    let (data, root) = started(&mut world);
    assert_eq!(data.node(0), Some(root));
    assert_eq!(data.operand_stack(), &vec![root]);
    assert!(data.content(root).is_none());
}

#[test]
fn empty_pass_changes_nothing() {
    let mut world = World::new();
    let (mut data, root) = started(&mut world);
    assert_eq!(run(&mut data, &mut world, vec![]), Ok(()));
    assert_eq!(data.operand_stack(), &vec![root]);
    assert_eq!(world.entities().len(), 1);
}

#[test]
fn create_placeholder_makes_an_empty_node() {
    let mut world = World::new();
    let (mut data, root) = started(&mut world);
    assert_eq!(data.create_placeholder(&mut world, 4), Ok(()));
    let node = data.node(4).unwrap();
    assert_ne!(node, root);
    assert!(alive(&world, node));
    assert_eq!(parent(&world, node), None);
    assert_eq!(kids(&world, node), Vec::<u64>::new());
    assert_eq!(data.operand_stack(), &vec![root, node]);
    let content = data.content(node).unwrap();
    assert!(content.element.is_none() && content.text.is_none() && content.style.is_none());
    assert_eq!(data.node(1), None);
    assert_eq!(data.node(3), None);
}

#[test]
fn create_text_node_holds_its_text_in_one_part() {
    let mut world = World::new();
    let (mut data, root) = started(&mut world);
    assert_eq!(data.create_text_node(&mut world, &"Counter: 5".to_string(), 1), Ok(()));
    let node = data.node(1).unwrap();
    assert_eq!(text(&data, node), Some(vec!["Counter: 5".to_string()]));
    assert!(data.content(node).unwrap().style.is_some());
    assert_eq!(data.operand_stack(), &vec![root, node]);
}

#[test]
fn push_root_pushes_the_mapped_node_again() {
    let mut world = World::new();
    let (mut data, root) = started(&mut world);
    assert_eq!(data.push_root(&mut world, 0), Ok(()));
    assert_eq!(data.operand_stack(), &vec![root, root]);
    assert_eq!(data.push_root(&mut world, 1), Err(ReconcileError::UnmappedId));
    assert_eq!(data.operand_stack(), &vec![root, root]);
}

#[test]
fn append_children_keeps_push_order() {
    let mut world = World::new();
    let (_data, root, nodes) = with_three(&mut world);
    assert_eq!(parent(&world, nodes[0]), Some(root));
    assert_eq!(parent(&world, nodes[2]), Some(root));
}

#[test]
fn append_children_moves_a_node_from_its_old_parent() {
    let mut world = World::new();
    let (mut data, root, nodes) = with_three(&mut world);
    let done = run(
        &mut data,
        &mut world,
        vec![Mutation::PushRoot { id: 3 }, Mutation::AppendChildren { id: 1, m: 1 }],
    );
    assert_eq!(done, Ok(()));
    assert_eq!(kids(&world, root), vec![nodes[0], nodes[1]]);
    assert_eq!(kids(&world, nodes[0]), vec![nodes[2]]);
    assert_eq!(parent(&world, nodes[2]), Some(nodes[0]));
}

#[test]
fn append_children_of_a_child_moves_it_to_the_end() {
    let mut world = World::new();
    let (mut data, root, nodes) = with_three(&mut world);
    let done = run(
        &mut data,
        &mut world,
        vec![Mutation::PushRoot { id: 1 }, Mutation::AppendChildren { id: 0, m: 1 }],
    );
    assert_eq!(done, Ok(()));
    assert_eq!(kids(&world, root), vec![nodes[1], nodes[2], nodes[0]]);
}

#[test]
fn append_children_errors() {
    let mut world = World::new();
    let (mut data, root) = started(&mut world);
    assert_eq!(data.append_children(&mut world, 0, 2), Err(ReconcileError::StackUnderflow));
    assert_eq!(data.append_children(&mut world, 9, 1), Err(ReconcileError::UnmappedId));
    assert_eq!(data.create_placeholder(&mut world, 1), Ok(()));
    let one = data.node(1).unwrap();
    world.despawn(Entity::from_bits(one));
    assert_eq!(data.append_children(&mut world, 0, 1), Err(ReconcileError::MissingNode));
    assert_eq!(data.append_children(&mut world, 1, 0), Err(ReconcileError::MissingNode));
    assert_eq!(data.operand_stack(), &vec![root, one]);
    assert_eq!(kids(&world, root), Vec::<u64>::new());
}

#[test]
fn append_no_children_is_allowed() {
    let mut world = World::new();
    let (mut data, root) = started(&mut world);
    assert_eq!(data.append_children(&mut world, 0, 0), Ok(()));
    assert_eq!(data.operand_stack(), &vec![root]);
    assert_eq!(kids(&world, root), Vec::<u64>::new());
}

#[test]
fn path_picks_a_child_at_each_index() {
    let mut world = World::new();
    let (mut data, root, nodes) = with_three(&mut world);
    let done = run(
        &mut data,
        &mut world,
        vec![
            Mutation::CreatePlaceholder { id: 4 },
            Mutation::CreatePlaceholder { id: 5 },
            Mutation::AppendChildren { id: 2, m: 2 },
        ],
    );
    assert_eq!(done, Ok(()));
    let five = data.node(5).unwrap();
    assert_eq!(follow_path(&world, root, &vec![]), Some(root));
    assert_eq!(follow_path(&world, root, &vec![2]), Some(nodes[2]));
    assert_eq!(follow_path(&world, root, &vec![1, 1]), Some(five));
    assert_eq!(follow_path(&world, root, &vec![3]), None);
    assert_eq!(follow_path(&world, root, &vec![1, 2]), None);
    assert_eq!(follow_path(&world, root, &vec![0, 0]), None);
    assert_eq!(follow_path(&world, root, &vec![3, 0]), None);
}

#[test]
fn assign_id_maps_the_node_at_the_path_from_the_top() {
    let mut world = World::new();
    let (mut data, root, nodes) = with_three(&mut world);
    assert_eq!(data.assign_id(&mut world, &vec![1], 8), Ok(()));
    assert_eq!(data.node(8), Some(nodes[1]));
    assert_eq!(data.assign_id(&mut world, &vec![], 9), Ok(()));
    assert_eq!(data.node(9), Some(root));
    assert_eq!(data.operand_stack(), &vec![root]);
    assert_eq!(data.assign_id(&mut world, &vec![3], 10), Err(ReconcileError::BadPath));
    assert_eq!(data.node(10), None);
    let mut bare = IntegrationData::default();
    assert_eq!(bare.assign_id(&mut world, &vec![], 1), Err(ReconcileError::StackUnderflow));
}

#[test]
fn insert_before_and_after_keep_the_target() {
    let mut world = World::new();
    let (mut data, root, nodes) = with_three(&mut world);
    let done = run(
        &mut data,
        &mut world,
        vec![
            Mutation::CreatePlaceholder { id: 4 },
            Mutation::CreatePlaceholder { id: 5 },
            Mutation::InsertBefore { id: 2, m: 2 },
            Mutation::CreatePlaceholder { id: 6 },
            Mutation::InsertAfter { id: 2, m: 1 },
            Mutation::CreatePlaceholder { id: 7 },
            Mutation::InsertAfter { id: 3, m: 1 },
            Mutation::CreatePlaceholder { id: 8 },
            Mutation::InsertBefore { id: 1, m: 1 },
        ],
    );
    assert_eq!(done, Ok(()));
    let at = |id: usize| data.node(id).unwrap();
    assert_eq!(
        kids(&world, root),
        vec![at(8), nodes[0], at(4), at(5), nodes[1], at(6), nodes[2], at(7)]
    );
    assert_eq!(parent(&world, at(6)), Some(root));
    assert!(alive(&world, nodes[1]));
    assert_eq!(data.operand_stack(), &vec![root]);
}

#[test]
fn insert_moves_siblings_that_stood_before_the_target() {
    let mut world = World::new();
    let (mut data, root, nodes) = with_three(&mut world);
    let done = run(
        &mut data,
        &mut world,
        vec![
            Mutation::PushRoot { id: 1 },
            Mutation::PushRoot { id: 2 },
            Mutation::InsertAfter { id: 3, m: 2 },
        ],
    );
    assert_eq!(done, Ok(()));
    assert_eq!(kids(&world, root), vec![nodes[2], nodes[0], nodes[1]]);
    let done = run(
        &mut data,
        &mut world,
        vec![Mutation::PushRoot { id: 3 }, Mutation::InsertBefore { id: 2, m: 1 }],
    );
    assert_eq!(done, Ok(()));
    assert_eq!(kids(&world, root), vec![nodes[0], nodes[2], nodes[1]]);
}

#[test]
fn insert_takes_a_node_from_another_parent() {
    let mut world = World::new();
    let (mut data, root, nodes) = with_three(&mut world);
    let done = run(
        &mut data,
        &mut world,
        vec![
            Mutation::CreatePlaceholder { id: 4 },
            Mutation::AppendChildren { id: 1, m: 1 },
            Mutation::PushRoot { id: 4 },
            Mutation::InsertBefore { id: 3, m: 1 },
        ],
    );
    assert_eq!(done, Ok(()));
    let four = data.node(4).unwrap();
    assert_eq!(kids(&world, root), vec![nodes[0], nodes[1], four, nodes[2]]);
    assert_eq!(kids(&world, nodes[0]), Vec::<u64>::new());
    assert_eq!(parent(&world, four), Some(root));
}

#[test]
fn append_the_same_node_twice_leaves_it_once_at_the_end() {
    let mut world = World::new();
    let (mut data, root, nodes) = with_three(&mut world);
    let done = run(
        &mut data,
        &mut world,
        vec![
            Mutation::PushRoot { id: 2 },
            Mutation::PushRoot { id: 1 },
            Mutation::PushRoot { id: 2 },
            Mutation::AppendChildren { id: 0, m: 3 },
        ],
    );
    assert_eq!(done, Ok(()));
    assert_eq!(kids(&world, root), vec![nodes[2], nodes[0], nodes[1]]);
}

#[test]
fn insert_the_same_node_twice_lists_it_twice() {
    let mut world = World::new();
    let (mut data, root, nodes) = with_three(&mut world);
    let done = run(
        &mut data,
        &mut world,
        vec![
            Mutation::PushRoot { id: 1 },
            Mutation::PushRoot { id: 1 },
            Mutation::InsertAfter { id: 2, m: 2 },
        ],
    );
    assert_eq!(done, Ok(()));
    assert_eq!(kids(&world, root), vec![nodes[1], nodes[0], nodes[0], nodes[2]]);
    assert_eq!(parent(&world, nodes[0]), Some(root));
}

#[test]
fn insert_a_node_beside_itself_leaves_it_in_place() {
    let mut world = World::new();
    let (mut data, root, nodes) = with_three(&mut world);
    let done = run(
        &mut data,
        &mut world,
        vec![Mutation::PushRoot { id: 2 }, Mutation::InsertBefore { id: 2, m: 1 }],
    );
    assert_eq!(done, Ok(()));
    assert_eq!(kids(&world, root), nodes.to_vec());
    let done = run(
        &mut data,
        &mut world,
        vec![
            Mutation::PushRoot { id: 1 },
            Mutation::PushRoot { id: 2 },
            Mutation::InsertAfter { id: 2, m: 2 },
        ],
    );
    assert_eq!(done, Ok(()));
    assert_eq!(kids(&world, root), vec![nodes[0], nodes[1], nodes[2]]);
}

#[test]
fn replace_a_node_with_itself_removes_it() {
    let mut world = World::new();
    let (mut data, root, nodes) = with_three(&mut world);
    let done = run(
        &mut data,
        &mut world,
        vec![Mutation::PushRoot { id: 2 }, Mutation::ReplaceWith { id: 2, m: 1 }],
    );
    assert_eq!(done, Ok(()));
    assert_eq!(kids(&world, root), vec![nodes[0], nodes[2]]);
    assert!(!alive(&world, nodes[1]));
}

#[test]
fn insert_errors() {
    let mut world = World::new();
    let (mut data, root, nodes) = with_three(&mut world);
    assert_eq!(data.insert_after(&mut world, 1, 2), Err(ReconcileError::StackUnderflow));
    assert_eq!(data.insert_before(&mut world, 9, 0), Err(ReconcileError::UnmappedId));
    assert_eq!(data.insert_before(&mut world, 0, 0), Err(ReconcileError::MissingParent));
    assert_eq!(data.create_placeholder(&mut world, 4), Ok(()));
    let four = data.node(4).unwrap();
    assert_eq!(data.insert_after(&mut world, 4, 0), Err(ReconcileError::MissingParent));
    world.despawn(Entity::from_bits(four));
    assert_eq!(data.insert_after(&mut world, 1, 1), Err(ReconcileError::MissingNode));
    assert_eq!(kids(&world, root), nodes.to_vec());
    assert_eq!(data.operand_stack(), &vec![root, four]);
}

#[test]
fn insert_beside_a_node_whose_parent_is_gone_is_turned_down() {
    let mut world = World::new();
    let (mut data, root, nodes) = with_three(&mut world);
    world.despawn(Entity::from_bits(root));
    assert!(alive(&world, nodes[0]));
    assert_eq!(parent(&world, nodes[0]), Some(root));
    assert_eq!(data.insert_before(&mut world, 1, 0), Err(ReconcileError::MissingParent));
}

#[test]
fn replace_with_one_node_at_each_end() {
    let mut world = World::new();
    let (mut data, root, nodes) = with_three(&mut world);
    let done = run(
        &mut data,
        &mut world,
        vec![
            Mutation::CreatePlaceholder { id: 4 },
            Mutation::ReplaceWith { id: 1, m: 1 },
            Mutation::CreatePlaceholder { id: 5 },
            Mutation::ReplaceWith { id: 3, m: 1 },
        ],
    );
    assert_eq!(done, Ok(()));
    assert_eq!(kids(&world, root), vec![data.node(4).unwrap(), nodes[1], data.node(5).unwrap()]);
    assert!(!alive(&world, nodes[0]));
    assert!(!alive(&world, nodes[2]));
    assert_eq!(data.node(1), Some(nodes[0]));
}

#[test]
fn replace_with_nothing_only_removes() {
    let mut world = World::new();
    let (mut data, root, nodes) = with_three(&mut world);
    assert_eq!(data.replace_with(&mut world, 2, 0), Ok(()));
    assert_eq!(kids(&world, root), vec![nodes[0], nodes[2]]);
    assert!(!alive(&world, nodes[1]));
    assert!(data.content(nodes[1]).is_none());
    assert!(data.content(nodes[0]).is_some());
}

#[test]
fn replace_with_errors() {
    let mut world = World::new();
    let (mut data, root, nodes) = with_three(&mut world);
    assert_eq!(data.replace_with(&mut world, 1, 2), Err(ReconcileError::StackUnderflow));
    assert_eq!(data.replace_with(&mut world, 9, 0), Err(ReconcileError::UnmappedId));
    assert_eq!(data.replace_with(&mut world, 0, 0), Err(ReconcileError::MissingParent));
    assert_eq!(data.remove(&mut world, 2), Ok(()));
    assert_eq!(data.replace_with(&mut world, 2, 0), Err(ReconcileError::MissingNode));
    assert_eq!(kids(&world, root), vec![nodes[0], nodes[2]]);
    assert!(alive(&world, root));
}

#[test]
fn replace_placeholder_resolves_the_path_below_the_operands() {
    let mut world = World::new();
    let (mut data, root, nodes) = with_three(&mut world);
    let done = run(
        &mut data,
        &mut world,
        vec![
            Mutation::CreateTextNode { value: "a".to_string(), id: 4 },
            Mutation::CreateTextNode { value: "b".to_string(), id: 5 },
            Mutation::ReplacePlaceholder { path: vec![1], m: 2 },
        ],
    );
    assert_eq!(done, Ok(()));
    assert_eq!(
        kids(&world, root),
        vec![nodes[0], data.node(4).unwrap(), data.node(5).unwrap(), nodes[2]]
    );
    assert!(!alive(&world, nodes[1]));
    assert_eq!(data.operand_stack(), &vec![root]);
}

#[test]
fn replace_placeholder_errors() {
    let mut world = World::new();
    let (mut data, root, nodes) = with_three(&mut world);
    assert_eq!(
        data.replace_placeholder(&mut world, &vec![0], 1),
        Err(ReconcileError::StackUnderflow)
    );
    assert_eq!(data.replace_placeholder(&mut world, &vec![5], 0), Err(ReconcileError::BadPath));
    assert_eq!(
        data.replace_placeholder(&mut world, &vec![], 0),
        Err(ReconcileError::MissingParent)
    );
    assert_eq!(kids(&world, root), nodes.to_vec());
}

#[test]
fn remove_takes_the_whole_subtree() {
    let mut world = World::new();
    let (mut data, root, nodes) = with_three(&mut world);
    let done = run(
        &mut data,
        &mut world,
        vec![
            Mutation::CreatePlaceholder { id: 4 },
            Mutation::CreateTextNode { value: "deep".to_string(), id: 5 },
            Mutation::AppendChildren { id: 4, m: 1 },
            Mutation::AppendChildren { id: 2, m: 1 },
            Mutation::Remove { id: 2 },
        ],
    );
    assert_eq!(done, Ok(()));
    let four = data.node(4).unwrap();
    let five = data.node(5).unwrap();
    assert!(!alive(&world, nodes[1]));
    assert!(!alive(&world, four));
    assert!(!alive(&world, five));
    assert!(alive(&world, nodes[0]) && alive(&world, nodes[2]) && alive(&world, root));
    assert_eq!(kids(&world, root), vec![nodes[0], nodes[2]]);
    let mut left = data.nodes();
    left.sort();
    let mut expected = vec![nodes[0], nodes[2]];
    expected.sort();
    assert_eq!(left, expected);
    assert_eq!(data.remove(&mut world, 2), Err(ReconcileError::MissingNode));
    assert_eq!(data.remove(&mut world, 77), Err(ReconcileError::UnmappedId));
}

#[test]
fn set_text_collapses_any_number_of_parts() {
    let mut world = World::new();
    let (mut data, _root) = started(&mut world);
    assert_eq!(data.create_text_node(&mut world, &"first".to_string(), 1), Ok(()));
    let node = data.node(1).unwrap();
    assert_eq!(data.set_text(&mut world, &"second".to_string(), 1), Ok(()));
    assert_eq!(text(&data, node), Some(vec!["second".to_string()]));
    assert_eq!(data.set_text(&mut world, &"second".to_string(), 1), Ok(()));
    assert_eq!(text(&data, node), Some(vec!["second".to_string()]));
    assert_eq!(data.set_text(&mut world, &"".to_string(), 1), Ok(()));
    assert_eq!(text(&data, node), Some(vec!["".to_string()]));
}

#[test]
fn set_text_leaves_other_nodes_alone() {
    let mut world = World::new();
    let (mut data, root) = started(&mut world);
    assert_eq!(data.create_placeholder(&mut world, 1), Ok(()));
    let node = data.node(1).unwrap();
    assert_eq!(data.set_text(&mut world, &"x".to_string(), 1), Ok(()));
    assert_eq!(text(&data, node), None);
    assert_eq!(data.set_text(&mut world, &"x".to_string(), 0), Ok(()));
    assert!(data.content(root).is_none());
    assert_eq!(data.set_text(&mut world, &"x".to_string(), 2), Err(ReconcileError::UnmappedId));
}

#[test]
fn set_attribute_errors() {
    let mut world = World::new();
    let (mut data, _root) = started(&mut world);
    assert_eq!(data.create_placeholder(&mut world, 1), Ok(()));
    let node = data.node(1).unwrap();
    let width = "width".to_string();
    let px = AttributeValue::Any(StyleValue { kind: ValueKind::Length, handle: 3 });
    let flag = AttributeValue::Any(StyleValue { kind: ValueKind::Display, handle: 3 });
    assert_eq!(data.set_attribute(&mut world, &width, px, 5), Err(ReconcileError::UnmappedId));
    assert_eq!(
        data.set_attribute(&mut world, &"colour".to_string(), px, 1),
        Err(ReconcileError::UnknownAttribute)
    );
    assert_eq!(
        data.set_attribute(&mut world, &width, flag, 1),
        Err(ReconcileError::InvalidAttributeValue)
    );
    assert_eq!(
        data.set_attribute(&mut world, &width, AttributeValue::Plain, 1),
        Err(ReconcileError::InvalidAttributeValue)
    );
    assert!(data.content(node).unwrap().style.is_none());
    world.despawn(Entity::from_bits(node));
    assert_eq!(data.set_attribute(&mut world, &width, px, 1), Err(ReconcileError::MissingNode));
}

#[test]
fn set_attribute_on_the_root_gives_it_a_record() {
    let mut world = World::new();
    let (mut data, root) = started(&mut world);
    let shown = AttributeValue::Any(StyleValue { kind: ValueKind::Display, handle: 1 });
    assert_eq!(data.set_attribute(&mut world, &"display".to_string(), shown, 0), Ok(()));
    let content = data.content(root).unwrap();
    assert!(content.text.is_none() && content.element.is_none());
    assert_eq!(
        content.style.as_ref().unwrap().get(StyleField::Display),
        Some(StyleValue { kind: ValueKind::Display, handle: 1 })
    );
    assert_eq!(data.set_attribute(&mut world, &"left".to_string(), AttributeValue::Absent, 0), Ok(()));
    assert_eq!(data.content(root).unwrap().style.as_ref().unwrap().get(StyleField::Left), None);
}

fn nested() -> Template {
    Template {
        name: "nested".to_string(),
        roots: vec![
            element(
                "div",
                vec![
                    element(
                        "div",
                        vec![
                            words("a"),
                            element("button", vec![TemplateNode::DynamicText { id: 0 }, words("c")]),
                            element("img", vec![]),
                        ],
                    ),
                    TemplateNode::Dynamic { id: 1 },
                    element("button", vec![words("last")]),
                ],
            ),
            words("second root"),
            TemplateNode::Dynamic { id: 2 },
            element("img", vec![]),
        ],
    }
}

#[test]
fn load_template_rebuilds_the_described_tree() {
    let mut world = World::new();
    let (mut data, root) = started(&mut world);
    let done = data.update_dom(
        &mut world,
        Mutations {
            templates: vec![nested()],
            edits: vec![Mutation::LoadTemplate { name: "nested".to_string(), index: 0, id: 1 }],
        },
    );
    assert_eq!(done, Ok(()));
    let top = data.node(1).unwrap();
    assert_eq!(data.operand_stack(), &vec![root, top]);
    assert_eq!(parent(&world, top), None);
    assert_eq!(data.content(top).unwrap().element, Some(Element::Div { node: SimpleNode {} }));
    let level1 = kids(&world, top);
    assert_eq!(level1.len(), 3);
    assert_eq!(data.content(level1[0]).unwrap().element, Some(Element::Div { node: SimpleNode {} }));
    let slot = data.content(level1[1]).unwrap();
    assert!(slot.element.is_none() && slot.text.is_none() && slot.style.is_none());
    assert_eq!(kids(&world, level1[1]), Vec::<u64>::new());
    assert_eq!(
        data.content(level1[2]).unwrap().element,
        Some(Element::Button { node: ButtonNode {} })
    );
    let last = kids(&world, level1[2]);
    assert_eq!(last.len(), 1);
    assert_eq!(text(&data, last[0]), Some(vec!["last".to_string()]));
    let level2 = kids(&world, level1[0]);
    assert_eq!(level2.len(), 3);
    assert_eq!(text(&data, level2[0]), Some(vec!["a".to_string()]));
    assert_eq!(kids(&world, level2[0]), Vec::<u64>::new());
    assert_eq!(
        data.content(level2[1]).unwrap().element,
        Some(Element::Button { node: ButtonNode {} })
    );
    assert_eq!(data.content(level2[2]).unwrap().element, Some(Element::Image { node: ImageNode {} }));
    assert_eq!(kids(&world, level2[2]), Vec::<u64>::new());
    let level3 = kids(&world, level2[1]);
    assert_eq!(level3.len(), 2);
    assert_eq!(text(&data, level3[0]), Some(vec!["".to_string()]));
    assert_eq!(text(&data, level3[1]), Some(vec!["c".to_string()]));
    for node in level3.iter() {
        assert_eq!(parent(&world, *node), Some(level2[1]));
    }
    for node in level2.iter() {
        assert_eq!(parent(&world, *node), Some(level1[0]));
    }
    assert_eq!(data.nodes().len(), 10);
    assert_eq!(world.entities().len(), 11);
    assert_eq!(kids(&world, root), Vec::<u64>::new());
}

#[test]
fn load_template_makes_the_same_tree_each_time() {
    let mut world = World::new();
    let (mut data, _root) = started(&mut world);
    let load = || Mutation::LoadTemplate { name: "nested".to_string(), index: 0, id: 1 };
    let done = data.update_dom(
        &mut world,
        Mutations { templates: vec![nested()], edits: vec![load(), load()] },
    );
    assert_eq!(done, Ok(()));
    let stack = data.operand_stack().clone();
    let (first, second) = (stack[1], stack[2]);
    assert_ne!(first, second);
    assert_eq!(data.node(1), Some(second));
    fn shape(world: &World, data: &IntegrationData, node: u64) -> String {
        let content = data.content(node).unwrap();
        let below: Vec<String> = kids(world, node).iter().map(|c| shape(world, data, *c)).collect();
        format!("({:?} {:?} [{}])", content.element, content.text, below.join(" "))
    }
    assert_eq!(shape(&world, &data, first), shape(&world, &data, second));
}

#[test]
fn load_template_of_other_root_kinds() {
    let mut world = World::new();
    let (mut data, root) = started(&mut world);
    let load = |index: usize, id: usize| Mutation::LoadTemplate {
        name: "nested".to_string(),
        index,
        id,
    };
    let done = data.update_dom(
        &mut world,
        Mutations { templates: vec![nested()], edits: vec![load(1, 1), load(2, 2), load(3, 3)] },
    );
    assert_eq!(done, Ok(()));
    let (one, two, three) = (data.node(1).unwrap(), data.node(2).unwrap(), data.node(3).unwrap());
    assert_eq!(data.operand_stack(), &vec![root, one, two, three]);
    assert_eq!(text(&data, one), Some(vec!["second root".to_string()]));
    let slot = data.content(two).unwrap();
    assert!(slot.element.is_none() && slot.text.is_none());
    assert_eq!(data.content(three).unwrap().element, Some(Element::Image { node: ImageNode {} }));
    for node in [one, two, three] {
        assert_eq!(kids(&world, node), Vec::<u64>::new());
        assert_eq!(parent(&world, node), None);
    }
}

#[test]
fn load_template_errors() {
    let mut world = World::new();
    let (mut data, root) = started(&mut world);
    let name = "nested".to_string();
    assert_eq!(data.load_template(&mut world, &name, 0, 1), Err(ReconcileError::UnknownTemplate));
    let done = data.update_dom(&mut world, Mutations { templates: vec![nested()], edits: vec![] });
    assert_eq!(done, Ok(()));
    assert_eq!(data.load_template(&mut world, &name, 4, 1), Err(ReconcileError::UnknownTemplate));
    assert_eq!(
        data.load_template(&mut world, &"Nested".to_string(), 0, 1),
        Err(ReconcileError::UnknownTemplate)
    );
    assert_eq!(data.operand_stack(), &vec![root]);
    assert_eq!(data.node(1), None);
    assert_eq!(world.entities().len(), 1);
}

#[test]
fn hydrate_text_overwrites_a_text_node() {
    let mut world = World::new();
    let (mut data, _root) = started(&mut world);
    let done = data.update_dom(
        &mut world,
        Mutations {
            templates: vec![nested()],
            edits: vec![
                Mutation::LoadTemplate { name: "nested".to_string(), index: 0, id: 1 },
                Mutation::HydrateText { path: vec![0, 1, 0], value: "count: 5".to_string(), id: 2 },
            ],
        },
    );
    assert_eq!(done, Ok(()));
    let top = data.node(1).unwrap();
    let target = kids(&world, kids(&world, kids(&world, top)[0])[1])[0];
    assert_eq!(data.node(2), Some(target));
    assert_eq!(text(&data, target), Some(vec!["count: 5".to_string()]));
    assert!(alive(&world, target));
    assert_eq!(data.set_text(&mut world, &"count: 6".to_string(), 2), Ok(()));
    assert_eq!(text(&data, target), Some(vec!["count: 6".to_string()]));
}

#[test]
fn hydrate_text_replaces_another_node_and_loses_its_style() {
    let mut world = World::new();
    let (mut data, root, nodes) = with_three(&mut world);
    let done = run(
        &mut data,
        &mut world,
        vec![
            Mutation::CreatePlaceholder { id: 4 },
            Mutation::AppendChildren { id: 2, m: 1 },
            Mutation::SetAttribute {
                name: "width".to_string(),
                value: AttributeValue::Any(StyleValue { kind: ValueKind::Length, handle: 1 }),
                id: 2,
            },
            Mutation::HydrateText { path: vec![1], value: "now text".to_string(), id: 6 },
        ],
    );
    assert_eq!(done, Ok(()));
    let now = kids(&world, root);
    assert_eq!(now.len(), 3);
    assert_eq!(now[0], nodes[0]);
    assert_eq!(now[2], nodes[2]);
    let fresh = now[1];
    assert_ne!(fresh, nodes[1]);
    assert!(!alive(&world, nodes[1]));
    assert!(!alive(&world, data.node(4).unwrap()));
    assert_eq!(parent(&world, fresh), Some(root));
    assert_eq!(text(&data, fresh), Some(vec!["now text".to_string()]));
    assert_eq!(data.content(fresh).unwrap().style.as_ref().unwrap().get(StyleField::Width), None);
    assert!(data.content(nodes[1]).is_none());
    assert_eq!(data.node(6), Some(nodes[1]));
}

#[test]
fn hydrate_text_on_a_node_without_parent_leaves_the_new_node_loose() {
    let mut world = World::new();
    let (mut data, _root) = started(&mut world);
    assert_eq!(data.create_placeholder(&mut world, 1), Ok(()));
    let old = data.node(1).unwrap();
    assert_eq!(data.hydrate_text(&mut world, &vec![], &"t".to_string(), 2), Ok(()));
    assert!(!alive(&world, old));
    let texts: Vec<u64> = data.nodes().into_iter().filter(|n| text(&data, *n).is_some()).collect();
    assert_eq!(texts.len(), 1);
    assert_eq!(parent(&world, texts[0]), None);
    assert_eq!(text(&data, texts[0]), Some(vec!["t".to_string()]));
}

#[test]
fn hydrate_text_errors() {
    let mut world = World::new();
    let mut bare = IntegrationData::default();
    let value = "v".to_string();
    assert_eq!(
        bare.hydrate_text(&mut world, &vec![], &value, 1),
        Err(ReconcileError::StackUnderflow)
    );
    let (mut data, root, nodes) = with_three(&mut world);
    assert_eq!(data.hydrate_text(&mut world, &vec![7], &value, 1), Err(ReconcileError::BadPath));
    assert_eq!(data.node(1), Some(nodes[0]));
    let stray = world.spawn_empty().id();
    world.entity_mut(Entity::from_bits(nodes[0])).add_child(stray);
    world.despawn(stray);
    assert_eq!(
        data.hydrate_text(&mut world, &vec![0, 0], &value, 1),
        Err(ReconcileError::MissingNode)
    );
    assert_eq!(kids(&world, root), nodes.to_vec());
}

#[test]
fn a_pass_stops_at_the_first_edit_that_is_turned_down() {
    let mut world = World::new();
    let (mut data, root) = started(&mut world);
    let done = run(
        &mut data,
        &mut world,
        vec![
            Mutation::CreatePlaceholder { id: 1 },
            Mutation::AppendChildren { id: 0, m: 1 },
            Mutation::AppendChildren { id: 0, m: 2 },
            Mutation::CreatePlaceholder { id: 2 },
        ],
    );
    assert_eq!(done, Err(ReconcileError::StackUnderflow));
    assert_eq!(kids(&world, root), vec![data.node(1).unwrap()]);
    assert_eq!(data.node(2), None);
    assert_eq!(data.operand_stack(), &vec![root]);
}

#[test]
fn a_pass_with_an_unsupported_template_applies_no_edit() {
    let mut world = World::new();
    let (mut data, root) = started(&mut world);
    let good = Template { name: "good".to_string(), roots: vec![words("fine")] };
    let bad = Template { name: "bad".to_string(), roots: vec![element("table", vec![])] };
    let late = Template { name: "late".to_string(), roots: vec![words("never")] };
    let done = data.update_dom(
        &mut world,
        Mutations {
            templates: vec![good, bad, late],
            edits: vec![Mutation::CreatePlaceholder { id: 1 }],
        },
    );
    assert_eq!(done, Err(ReconcileError::UnsupportedTag));
    assert_eq!(data.node(1), None);
    assert_eq!(data.operand_stack(), &vec![root]);
    assert!(data.templates().get("good", 0).is_some());
    assert!(data.templates().get("bad", 0).is_none());
    assert!(data.templates().get("late", 0).is_none());
}

#[test]
fn templates_stay_in_the_catalog_between_passes() {
    let mut world = World::new();
    let (mut data, _root) = started(&mut world);
    let done = data.update_dom(&mut world, Mutations { templates: vec![nested()], edits: vec![] });
    assert_eq!(done, Ok(()));
    let done = run(
        &mut data,
        &mut world,
        vec![Mutation::LoadTemplate { name: "nested".to_string(), index: 1, id: 3 }],
    );
    assert_eq!(done, Ok(()));
    assert_eq!(text(&data, data.node(3).unwrap()), Some(vec!["second root".to_string()]));
}

#[test]
fn a_balanced_pass_leaves_the_stack_as_high_as_it_was() {
    let mut world = World::new();
    let (mut data, root) = started(&mut world);
    let done = data.update_dom(
        &mut world,
        Mutations {
            templates: vec![nested()],
            edits: vec![
                Mutation::CreatePlaceholder { id: 1 },
                Mutation::LoadTemplate { name: "nested".to_string(), index: 0, id: 2 },
                Mutation::CreateTextNode { value: "x".to_string(), id: 3 },
                Mutation::AssignId { path: vec![], id: 4 },
                Mutation::SetText { value: "y".to_string(), id: 3 },
                Mutation::AppendChildren { id: 1, m: 2 },
                Mutation::PushRoot { id: 3 },
                Mutation::CreatePlaceholder { id: 5 },
                Mutation::InsertBefore { id: 2, m: 2 },
                Mutation::CreatePlaceholder { id: 6 },
                Mutation::ReplaceWith { id: 5, m: 1 },
                Mutation::CreatePlaceholder { id: 7 },
                Mutation::InsertAfter { id: 6, m: 1 },
                Mutation::Remove { id: 7 },
                Mutation::CreatePlaceholder { id: 8 },
                Mutation::ReplacePlaceholder { path: vec![0], m: 1 },
                Mutation::AppendChildren { id: 0, m: 1 },
            ],
        },
    );
    assert_eq!(done, Ok(()));
    assert_eq!(data.operand_stack(), &vec![root]);
    let one = data.node(1).unwrap();
    assert_eq!(kids(&world, root), vec![one]);
    assert_eq!(
        kids(&world, one),
        vec![data.node(8).unwrap(), data.node(6).unwrap(), data.node(2).unwrap()]
    );
    assert_eq!(data.node(4), Some(data.node(3).unwrap()));
    assert!(!alive(&world, data.node(3).unwrap()));
}

#[test]
fn apply_runs_one_edit() {
    let mut world = World::new();
    let (mut data, root) = started(&mut world);
    assert_eq!(data.apply(&mut world, &Mutation::CreatePlaceholder { id: 1 }), Ok(()));
    assert_eq!(data.apply(&mut world, &Mutation::AppendChildren { id: 0, m: 1 }), Ok(()));
    assert_eq!(kids(&world, root), vec![data.node(1).unwrap()]);
    assert_eq!(
        data.apply(&mut world, &Mutation::Remove { id: 3 }),
        Err(ReconcileError::UnmappedId)
    );
}
