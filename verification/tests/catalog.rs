use bevy_ui_dioxus::error::ReconcileError;
use bevy_ui_dioxus::node::{ChildNode, Element, NodeChild, NodeChildrenTree, RootNode};
use bevy_ui_dioxus::nodes::{ButtonNode, ImageNode, SimpleNode};
use bevy_ui_dioxus::template::{Template, TemplateNode};
use bevy_ui_dioxus::template_map::TemplateMap;

fn element(tag: &str, children: Vec<TemplateNode>) -> TemplateNode {
    TemplateNode::Element { tag: tag.to_string(), children }
}

fn text(value: &str) -> TemplateNode {
    TemplateNode::Text { text: value.to_string() }
}

fn template(name: &str, roots: Vec<TemplateNode>) -> Template {
    Template { name: name.to_string(), roots }
}

fn steps(tree: &NodeChildrenTree) -> Vec<String> {
    tree.nodes
        .iter()
        .map(|step| match step {
            NodeChild::In => "in".to_string(),
            NodeChild::Out => "out".to_string(),
            NodeChild::Node(ChildNode::PlaceHolder) => "slot".to_string(),
            NodeChild::Node(ChildNode::Text { node }) => format!("text:{}", node.text),
            NodeChild::Node(ChildNode::Element { element }) => match element {
                Element::Div { .. } => "div".to_string(),
                Element::Image { .. } => "img".to_string(),
                Element::Button { .. } => "button".to_string(),
            },
        })
        .collect()
}

#[test]
fn catalog_starts_empty() {
    let catalog = TemplateMap::default();
    assert!(catalog.get("root", 0).is_none());
}

#[test]
fn element_without_children_compiles_to_bare_element() {
    let mut catalog = TemplateMap::default();
    assert_eq!(catalog.add(&template("t", vec![element("img", vec![])])), Ok(()));
    match catalog.get("t", 0) {
        Some(RootNode::Element { element }) => {
            assert_eq!(*element, Element::Image { node: ImageNode {} })
        }
        other => panic!("unexpected root: {:?}", other),
    }
    assert!(catalog.get("t", 1).is_none());
    assert!(catalog.get("u", 0).is_none());
}

#[test]
fn each_supported_tag_has_its_element() {
    let mut catalog = TemplateMap::default();
    let roots = vec![element("div", vec![]), element("img", vec![]), element("button", vec![])];
    assert_eq!(catalog.add(&template("tags", roots)), Ok(()));
    assert!(matches!(
        catalog.get("tags", 0),
        Some(RootNode::Element { element: Element::Div { node: SimpleNode {} } })
    ));
    assert!(matches!(
        catalog.get("tags", 1),
        Some(RootNode::Element { element: Element::Image { node: ImageNode {} } })
    ));
    assert!(matches!(
        catalog.get("tags", 2),
        Some(RootNode::Element { element: Element::Button { node: ButtonNode {} } })
    ));
}

#[test]
fn text_and_slots_compile_to_text_and_placeholder() {
    let mut catalog = TemplateMap::default();
    let roots = vec![
        text("hello"),
        TemplateNode::DynamicText { id: 0 },
        TemplateNode::Dynamic { id: 1 },
    ];
    assert_eq!(catalog.add(&template("mixed", roots)), Ok(()));
    match catalog.get("mixed", 0) {
        Some(RootNode::Text { node }) => assert_eq!(node.text, "hello"),
        other => panic!("unexpected root: {:?}", other),
    }
    match catalog.get("mixed", 1) {
        Some(RootNode::Text { node }) => assert_eq!(node.text, ""),
        other => panic!("unexpected root: {:?}", other),
    }
    assert!(matches!(catalog.get("mixed", 2), Some(RootNode::PlaceHolder)));
}

#[test]
fn children_are_laid_out_flat_with_steps_down_and_up() {
    let mut catalog = TemplateMap::default();
    let root = element(
        "div",
        vec![
            element(
                "div",
                vec![text("a"), element("button", vec![TemplateNode::DynamicText { id: 0 }]), text("b")],
            ),
            TemplateNode::Dynamic { id: 1 },
            element("img", vec![]),
        ],
    );
    assert_eq!(catalog.add(&template("nested", vec![root])), Ok(()));
    match catalog.get("nested", 0) {
        Some(RootNode::ElementWithChildren { element, children }) => {
            assert_eq!(*element, Element::Div { node: SimpleNode {} });
            assert_eq!(
                steps(children),
                vec![
                    "div", "in", "text:a", "button", "in", "text:", "out", "text:b", "out", "slot",
                    "img"
                ]
            );
        }
        other => panic!("unexpected root: {:?}", other),
    }
}

#[test]
fn compiling_twice_gives_the_same_roots() {
    let describe = || {
        template(
            "same",
            vec![
                element("div", vec![text("x"), element("div", vec![element("img", vec![])])]),
                text("tail"),
            ],
        )
    };
    let mut first = TemplateMap::default();
    let mut second = TemplateMap::default();
    assert_eq!(first.add(&describe()), Ok(()));
    assert_eq!(second.add(&describe()), Ok(()));
    assert_eq!(format!("{:?}", first.get("same", 0)), format!("{:?}", second.get("same", 0)));
    assert_eq!(format!("{:?}", first.get("same", 1)), format!("{:?}", second.get("same", 1)));
    assert!(format!("{:?}", first.get("same", 0)).contains("ElementWithChildren"));
}

#[test]
fn adding_under_a_known_name_overwrites() {
    let mut catalog = TemplateMap::default();
    assert_eq!(catalog.add(&template("t", vec![text("old"), text("older")])), Ok(()));
    assert_eq!(catalog.add(&template("t", vec![element("div", vec![])])), Ok(()));
    assert!(matches!(catalog.get("t", 0), Some(RootNode::Element { .. })));
    assert!(catalog.get("t", 1).is_none());
}

#[test]
fn unsupported_root_tag_is_turned_down() {
    let mut catalog = TemplateMap::default();
    assert_eq!(
        catalog.add(&template("bad", vec![element("span", vec![])])),
        Err(ReconcileError::UnsupportedTag)
    );
    assert!(catalog.get("bad", 0).is_none());
}

#[test]
fn unsupported_tag_deep_below_is_turned_down_and_keeps_the_old_entry() {
    let mut catalog = TemplateMap::default();
    assert_eq!(catalog.add(&template("t", vec![text("kept")])), Ok(()));
    let bad = element("div", vec![element("div", vec![text("a"), element("DIV", vec![])])]);
    assert_eq!(
        catalog.add(&template("t", vec![element("div", vec![]), bad])),
        Err(ReconcileError::UnsupportedTag)
    );
    match catalog.get("t", 0) {
        Some(RootNode::Text { node }) => assert_eq!(node.text, "kept"),
        other => panic!("unexpected root: {:?}", other),
    }
}

#[test]
fn tree_slots_can_be_reserved_and_filled() {
    let mut tree = NodeChildrenTree::default();
    assert_eq!(tree.placeholder(), 0);
    tree.add(NodeChild::In);
    assert_eq!(tree.placeholder(), 2);
    tree.add(NodeChild::Out);
    tree.replace(0, ChildNode::Element { element: Element::Div { node: SimpleNode {} } });
    assert_eq!(steps(&tree), vec!["div", "in", "slot", "out"]);
}
