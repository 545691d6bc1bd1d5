//! The template catalog: each announced template compiled once and kept under
//! its name.

use vstd::prelude::*;
use bevy::utils::HashMap;
use crate::elements::button;
use crate::elements::div;
use crate::elements::img;
use crate::error::ReconcileError;
use crate::node::ChildNode;
use crate::node::ChildShape;
use crate::node::Element;
use crate::node::NOTHING;
use crate::node::NodeChild;
use crate::node::NodeChildrenTree;
use crate::node::RootNode;
use crate::node::RootShape;
use crate::node::Step;
use crate::node::Walk;
use crate::node::can_step;
use crate::node::can_walk;
use crate::node::can_walk_from;
use crate::node::root_is_sound;
use crate::node::stepped;
use crate::node::walk_start;
use crate::node::walked_from;
use crate::nodes::ButtonNode;
use crate::nodes::ImageNode;
use crate::nodes::SimpleNode;
use crate::nodes::TextNode;
use crate::template::Template;
use crate::template::TemplateNode;
use crate::text::same_text;

verus! {

/// The element that a tag stands for, if it is one of the supported tags.
pub open spec fn element_for(tag: Seq<char>) -> Option<Element> {
    if tag == div::TAG_NAME@ {
        Some(Element::Div { node: SimpleNode {  } })
    } else if tag == img::TAG_NAME@ {
        Some(Element::Image { node: ImageNode {  } })
    } else if tag == button::TAG_NAME@ {
        Some(Element::Button { node: ButtonNode {  } })
    } else {
        None
    }
}

/// Whether every tag in a description is supported.
pub open spec fn supported(node: TemplateNode) -> bool
    decreases node, 0nat,
{
    match node {
        TemplateNode::Element { tag, children } => element_for(tag@).is_some() && supported_first(
            children,
            children@.len(),
        ),
        _ => true,
    }
}

/// Whether every tag in the first `n` of `children` is supported.
pub open spec fn supported_first(children: Vec<TemplateNode>, n: nat) -> bool
    decreases children, n,
{
    n == 0 || n > children@.len() || (supported_first(children, (n - 1) as nat) && supported(
        children@[n - 1],
    ))
}

/// What a description compiles to as a node below a root.
pub open spec fn child_shape(node: TemplateNode) -> ChildShape {
    match node {
        TemplateNode::Element { tag, .. } => ChildShape::Element(element_for(tag@).unwrap()),
        TemplateNode::Text { text } => ChildShape::Text(text@),
        TemplateNode::DynamicText { .. } => ChildShape::Text(Seq::empty()),
        TemplateNode::Dynamic { .. } => ChildShape::PlaceHolder,
    }
}

/// The steps that stand for what lies below a node: nothing where it has no
/// children, else a step down, its children with what lies below each, and a
/// step up.
pub open spec fn steps_below(node: TemplateNode) -> Seq<Step>
    decreases node, 0nat,
{
    match node {
        TemplateNode::Element { children, .. } => if children@.len() == 0 {
            Seq::empty()
        } else {
            seq![Step::In] + steps_of_first(children, children@.len()) + seq![Step::Out]
        },
        _ => Seq::empty(),
    }
}

/// The steps that stand for the first `n` of `children` and what lies below
/// them: each child, then what lies below it.
pub open spec fn steps_of_first(children: Vec<TemplateNode>, n: nat) -> Seq<Step>
    decreases children, n,
{
    if n == 0 || n > children@.len() {
        Seq::empty()
    } else {
        steps_of_first(children, (n - 1) as nat) + seq![Step::Node(child_shape(children@[n - 1]))]
            + steps_below(children@[n - 1])
    }
}

/// What a description compiles to as a root.
pub open spec fn root_shape(node: TemplateNode) -> RootShape {
    match node {
        TemplateNode::Element { tag, children } => if children@.len() == 0 {
            RootShape::Element { element: element_for(tag@).unwrap() }
        } else {
            RootShape::ElementWithChildren {
                element: element_for(tag@).unwrap(),
                children: steps_of_first(children, children@.len()),
            }
        },
        TemplateNode::Text { text } => RootShape::Text { text: text@ },
        TemplateNode::DynamicText { .. } => RootShape::Text { text: Seq::empty() },
        TemplateNode::Dynamic { .. } => RootShape::PlaceHolder,
    }
}

/// What the roots of a template compile to.
pub open spec fn root_shapes(roots: Seq<TemplateNode>) -> Seq<RootShape> {
    roots.map_values(|node: TemplateNode| root_shape(node))
}

/// Whether every tag below every one of `roots` is supported.
pub open spec fn all_supported(roots: Seq<TemplateNode>) -> bool {
    forall|i: int| 0 <= i < roots.len() ==> supported(#[trigger] roots[i])
}

/// What compiled roots hold.
pub open spec fn shapes_of(roots: Seq<RootNode>) -> Seq<RootShape> {
    roots.map_values(|root: RootNode| root@)
}

/// Where the first `n` of `children` are supported, each of them is.
pub proof fn lemma_supported_each(children: Vec<TemplateNode>, n: nat, i: int)
    requires
        supported_first(children, n),
        0 <= i < n <= children@.len(),
    ensures
        supported(children@[i]),
    decreases n,
{
    if i < n - 1 {
        lemma_supported_each(children, (n - 1) as nat, i);
    }
}

/// A walk over `first + second` is a walk over `first` and then one over
/// `second`.
pub proof fn lemma_walk_in_two(walk: Walk, first: Seq<Step>, second: Seq<Step>)
    ensures
        can_walk_from(walk, first + second) == (can_walk_from(walk, first) && can_walk_from(
            walked_from(walk, first),
            second,
        )),
        walked_from(walk, first + second) == walked_from(walked_from(walk, first), second),
    decreases second.len(),
{
    if second.len() == 0 {
    } else {
        assert((first + second).drop_last() =~= first + second.drop_last());
        lemma_walk_in_two(walk, first, second.drop_last());
    }
}

/// A walk of one step.
pub proof fn lemma_walk_one(walk: Walk, step: Step)
    ensures
        can_walk_from(walk, seq![step]) == can_step(walk, step),
        walked_from(walk, seq![step]) == stepped(walk, step),
{
    let steps = seq![step];
    assert(can_walk_from(walk, steps.drop_last()));
}

/// Once a walk has made a node, it can take the steps that stand for what
/// lies below any description, and they bring it back to where it stood.
pub proof fn lemma_walk_below(walk: Walk, node: TemplateNode)
    requires
        walk.created != NOTHING,
    ensures
        can_walk_from(walk, steps_below(node)),
        walked_from(walk, steps_below(node)).current == walk.current,
        walked_from(walk, steps_below(node)).stack == walk.stack,
        walked_from(walk, steps_below(node)).created != NOTHING,
    decreases node, 0nat,
{
    match node {
        TemplateNode::Element { children, .. } => {
            if children@.len() > 0 {
                let level = steps_of_first(children, children@.len());
                let inside = stepped(walk, Step::In);
                lemma_walk_one(walk, Step::In);
                lemma_walk_level(inside, children, children@.len());
                lemma_walk_in_two(walk, seq![Step::In], level);
                let done = walked_from(inside, level);
                lemma_walk_one(done, Step::Out);
                lemma_walk_in_two(walk, seq![Step::In] + level, seq![Step::Out]);
            }
        },
        _ => {},
    }
}

/// A walk can take the steps that stand for any children and what lies below
/// them, wherever it stands, and they bring it back to where it stood.
pub proof fn lemma_walk_level(walk: Walk, children: Vec<TemplateNode>, n: nat)
    ensures
        can_walk_from(walk, steps_of_first(children, n)),
        walked_from(walk, steps_of_first(children, n)).current == walk.current,
        walked_from(walk, steps_of_first(children, n)).stack == walk.stack,
        walk.created != NOTHING ==> walked_from(walk, steps_of_first(children, n)).created
            != NOTHING,
    decreases children, n,
{
    if n == 0 || n > children@.len() {
    } else {
        let child = children@[n - 1];
        let before = steps_of_first(children, (n - 1) as nat);
        let make = seq![Step::Node(child_shape(child))];
        lemma_walk_level(walk, children, (n - 1) as nat);
        let w0 = walked_from(walk, before);
        lemma_walk_one(w0, Step::Node(child_shape(child)));
        lemma_walk_in_two(walk, before, make);
        let w1 = stepped(w0, Step::Node(child_shape(child)));
        lemma_walk_below(w1, child);
        lemma_walk_in_two(walk, before + make, steps_below(child));
    }
}

/// The steps that a root's children compile to can be walked from the start,
/// and the walk ends where it began: at the root, with nothing left to come
/// back to.
pub proof fn lemma_compiled_steps_walk(children: Vec<TemplateNode>)
    ensures
        can_walk(steps_of_first(children, children@.len())),
        walked_from(walk_start(), steps_of_first(children, children@.len())).current
            == walk_start().current,
        walked_from(walk_start(), steps_of_first(children, children@.len())).stack
            == walk_start().stack,
{
    lemma_walk_level(walk_start(), children, children@.len());
}

/// Whatever a supported description compiles to as a root can be
/// instantiated.
pub proof fn lemma_compiled_root_is_sound(node: TemplateNode)
    ensures
        root_is_sound(root_shape(node)),
{
    match node {
        TemplateNode::Element { children, .. } => {
            lemma_compiled_steps_walk(children);
        },
        _ => {},
    }
}

/// Compiling is a function of the description: two roots compiled from one
/// description hold the same.
pub proof fn lemma_compilation_is_deterministic(node: TemplateNode, first: RootNode, second: RootNode)
    requires
        first@ == root_shape(node),
        second@ == root_shape(node),
    ensures
        first@ == second@,
{
}

/// The catalog. Its entries are kept in a `bevy::utils::HashMap` from the
/// template's name to its compiled roots.
#[verifier::external_body]
pub struct TemplateMap {
    map: HashMap<String, Vec<RootNode>>,
}

/// What the catalog keeps: for each name in it, the roots kept under it.
pub uninterp spec fn catalog_entries(catalog: TemplateMap) -> Map<Seq<char>, Seq<RootNode>>;

impl View for TemplateMap {
    type V = Map<Seq<char>, Seq<RootShape>>;

    open spec fn view(&self) -> Map<Seq<char>, Seq<RootShape>> {
        Map::new(
            |name: Seq<char>| catalog_entries(*self).contains_key(name),
            |name: Seq<char>| shapes_of(catalog_entries(*self)[name]),
        )
    }
}

impl Default for TemplateMap {
    fn default() -> (catalog: Self)
        ensures
            catalog@ == Map::<Seq<char>, Seq<RootShape>>::empty(),
            catalog.sound(),
    {
        let catalog = TemplateMap::new();
        catalog
    }
}

impl TemplateMap {
    /// Every root in the catalog can be instantiated.
    pub open spec fn sound(&self) -> bool {
        forall|name: Seq<char>, index: int|
            self@.contains_key(name) && 0 <= index < self@[name].len() ==> root_is_sound(
                #[trigger] self@[name][index],
            )
    }

    /// `HashMap::default`: a map without entries.
    #[verifier::external_body]
    fn new() -> (catalog: Self)
        ensures
            forall|name: Seq<char>| !catalog_entries(catalog).contains_key(name),
    {
        TemplateMap { map: HashMap::default() }
    }

    /// `HashMap::insert`: the entry under `name` is now `roots`, whether or not
    /// there was one; the other entries stay.
    #[verifier::external_body]
    fn insert(&mut self, name: String, roots: Vec<RootNode>)
        ensures
            catalog_entries(*final(self)) == catalog_entries(*old(self)).insert(name@, roots@),
    {
        self.map.insert(name, roots);
    }

    /// `HashMap::get`: the roots kept under `name`, if there is such an entry.
    #[verifier::external_body]
    fn roots(&self, name: &str) -> (roots: Option<&Vec<RootNode>>)
        ensures
            roots.is_some() == catalog_entries(*self).contains_key(name@),
            roots.is_some() ==> roots.unwrap()@ == catalog_entries(*self)[name@],
    {
        self.map.get(name)
    }

    /// The root at `index` of the template `name`, if the catalog holds one.
    pub fn get(&self, name: &str, index: usize) -> (root: Option<&RootNode>)
        ensures
            match root {
                Some(found) => self@.contains_key(name@) && index < self@[name@].len() && found@
                    == self@[name@][index as int],
                None => !(self@.contains_key(name@) && index < self@[name@].len()),
            },
    {
        match self.roots(name) {
            Some(roots) => if index < roots.len() {
                Some(&roots[index])
            } else {
                None
            },
            None => None,
        }
    }

    /// Compiles the roots of `template` and keeps them under its name, in place
    /// of whatever was kept under that name. A template with an unsupported
    /// tag is turned down and leaves the catalog as it was.
    pub fn add(&mut self, template: &Template) -> (done: Result<(), ReconcileError>)
        requires
            old(self).sound(),
        ensures
            final(self).sound(),
            match done {
                Ok(_) => all_supported(template.roots@) && final(self)@ == old(self)@.insert(
                    template.name@,
                    root_shapes(template.roots@),
                ),
                Err(error) => error == ReconcileError::UnsupportedTag && !all_supported(
                    template.roots@,
                ) && final(self)@ == old(self)@,
            },
    {
        let mut template_roots: Vec<RootNode> = Vec::with_capacity(template.roots.len());
        let mut i: usize = 0;
        while i < template.roots.len()
            invariant
                i <= template.roots@.len(),
                template_roots@.len() == i,
                *self == *old(self),
                old(self).sound(),
                forall|k: int| 0 <= k < i ==> supported(#[trigger] template.roots@[k]),
                forall|k: int|
                    0 <= k < i ==> (#[trigger] template_roots@[k])@ == root_shape(
                        template.roots@[k],
                    ),
            decreases template.roots@.len() - i,
        {
            match Self::create_node(&template.roots[i]) {
                Ok(node) => {
                    template_roots.push(node);
                },
                Err(error) => {
                    return Err(error);
                },
            }
            i += 1;
        }
        proof {
            assert(shapes_of(template_roots@) =~= root_shapes(template.roots@));
            assert forall|k: int| 0 <= k < template_roots@.len() implies root_is_sound(
                #[trigger] shapes_of(template_roots@)[k],
            ) by {
                lemma_compiled_root_is_sound(template.roots@[k]);
            }
        }
        let ghost shapes = shapes_of(template_roots@);
        self.insert(template.name.clone(), template_roots);
        proof {
            assert(self@ =~= old(self)@.insert(template.name@, shapes));
        }
        Ok(())
    }

    /// Compiles the description of a root.
    fn create_node(node: &TemplateNode) -> (root: Result<RootNode, ReconcileError>)
        ensures
            match root {
                Ok(root) => supported(*node) && root@ == root_shape(*node),
                Err(error) => error == ReconcileError::UnsupportedTag && !supported(*node),
            },
    {
        match node {
            TemplateNode::Element { tag, children } => {
                let mut children_tree = NodeChildrenTree::default();
                let mut i: usize = 0;
                while i < children.len()
                    invariant
                        i <= children@.len(),
                        *node == (TemplateNode::Element { tag: *tag, children: *children }),
                        supported_first(*children, i as nat),
                        children_tree@ == steps_of_first(*children, i as nat),
                    decreases children@.len() - i,
                {
                    let index = children_tree.placeholder();
                    let child = match Self::create_child(&mut children_tree, &children[i]) {
                        Ok(child) => child,
                        Err(error) => {
                            proof {
                                if supported(*node) {
                                    lemma_supported_each(*children, children@.len(), i as int);
                                }
                            }
                            return Err(error);
                        },
                    };
                    children_tree.replace(index, child);
                    proof {
                        let before = steps_of_first(*children, i as nat);
                        let made = Step::Node(child_shape(children@[i as int]));
                    }
                    i += 1;
                }
                let element = match Self::create_element(tag.as_str()) {
                    Ok(element) => element,
                    Err(error) => {
                        return Err(error);
                    },
                };
                if children.is_empty() {
                    Ok(RootNode::Element { element })
                } else {
                    Ok(RootNode::ElementWithChildren { element, children: children_tree })
                }
            },
            TemplateNode::Text { text } => Ok(RootNode::Text { node: Self::create_text(text.as_str()) }),
            TemplateNode::DynamicText { .. } => Ok(
                RootNode::Text { node: Self::create_dynamic_text() },
            ),
            TemplateNode::Dynamic { .. } => Ok(RootNode::PlaceHolder),
        }
    }

    /// Compiles the description of a node below a root: adds the steps for what
    /// lies below it to `children_tree`, and returns the node itself for the
    /// slot that the caller reserved.
    fn create_child(children_tree: &mut NodeChildrenTree, node: &TemplateNode) -> (child: Result<
        ChildNode,
        ReconcileError,
    >)
        ensures
            match child {
                Ok(child) => {
                    &&& supported(*node)
                    &&& child@ == child_shape(*node)
                    &&& final(children_tree)@ == old(children_tree)@ + steps_below(*node)
                },
                Err(error) => error == ReconcileError::UnsupportedTag && !supported(*node),
            },
        decreases *node,
    {
        match node {
            TemplateNode::Element { tag, children } => {
                if !children.is_empty() {
                    children_tree.add(NodeChild::In);
                }
                let mut i: usize = 0;
                while i < children.len()
                    invariant
                        i <= children@.len(),
                        *node == (TemplateNode::Element { tag: *tag, children: *children }),
                        supported_first(*children, i as nat),
                        children@.len() == 0 ==> children_tree@ == old(children_tree)@,
                        children@.len() > 0 ==> children_tree@ == old(children_tree)@ + seq![
                            Step::In,
                        ] + steps_of_first(*children, i as nat),
                    decreases children@.len() - i,
                {
                    let index = children_tree.placeholder();
                    proof {
                        vstd::std_specs::vec::axiom_vec_index_decreases(*children, i as int);
                        assert(decreases_to!(*node => node->children));
                    }
                    let child = match Self::create_child(children_tree, &children[i]) {
                        Ok(child) => child,
                        Err(error) => {
                            proof {
                                if supported(*node) {
                                    lemma_supported_each(*children, children@.len(), i as int);
                                }
                            }
                            return Err(error);
                        },
                    };
                    children_tree.replace(index, child);
                    proof {
                        let made = Step::Node(child_shape(children@[i as int]));
                    }
                    i += 1;
                }
                if !children.is_empty() {
                    children_tree.add(NodeChild::Out);
                }
                let element = match Self::create_element(tag.as_str()) {
                    Ok(element) => element,
                    Err(error) => {
                        return Err(error);
                    },
                };
                Ok(ChildNode::Element { element })
            },
            TemplateNode::Text { text } => {
                Ok(ChildNode::Text { node: Self::create_text(text.as_str()) })
            },
            TemplateNode::DynamicText { .. } => {
                Ok(ChildNode::Text { node: Self::create_dynamic_text() })
            },
            TemplateNode::Dynamic { .. } => {
                Ok(ChildNode::PlaceHolder)
            },
        }
    }

    /// The element that `tag` stands for. Tags outside the supported set are
    /// turned down.
    fn create_element(tag: &str) -> (element: Result<Element, ReconcileError>)
        ensures
            match element {
                Ok(element) => element_for(tag@) == Some(element),
                Err(error) => error == ReconcileError::UnsupportedTag && element_for(tag@).is_none(),
            },
    {
        if same_text(tag, div::TAG_NAME) {
            Ok(Element::Div { node: SimpleNode {  } })
        } else if same_text(tag, img::TAG_NAME) {
            Ok(Element::Image { node: ImageNode {  } })
        } else if same_text(tag, button::TAG_NAME) {
            Ok(Element::Button { node: ButtonNode {  } })
        } else {
            Err(ReconcileError::UnsupportedTag)
        }
    }

    /// A text node that holds `text`.
    fn create_text(text: &str) -> (node: TextNode)
        ensures
            node.text@ == text@,
    {
        TextNode { text: text.to_owned() }
    }

    /// A text node for a slot whose text arrives later: it holds no text yet.
    fn create_dynamic_text() -> (node: TextNode)
        ensures
            node.text@ == Seq::<char>::empty(),
    {
        TextNode { text: String::new() }
    }
}

} // verus!
