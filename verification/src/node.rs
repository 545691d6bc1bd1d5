//! Compiled templates: a root node and, below it, its descendants laid out
//! flat, with marks where the walk goes down into the node made last and
//! where it comes back up.

use vstd::prelude::*;
use crate::nodes::ButtonNode;
use crate::nodes::ImageNode;
use crate::nodes::SimpleNode;
use crate::nodes::TextNode;

verus! {

/// The kinds of element that can be spawned.
#[derive(Debug, Clone, Copy, PartialEq, Eq, Structural)]
#[allow(inconsistent_fields)]
pub enum Element {
    Div { node: SimpleNode },
    Image { node: ImageNode },
    Button { node: ButtonNode },
}

/// A node below the root of a compiled template.
#[derive(Debug, Clone)]
pub enum ChildNode {
    Element { element: Element },
    Text { node: TextNode },
    PlaceHolder,
}

/// What a `ChildNode` holds.
pub enum ChildShape {
    Element(Element),
    Text(Seq<char>),
    PlaceHolder,
}

impl View for ChildNode {
    type V = ChildShape;

    open spec fn view(&self) -> ChildShape {
        match *self {
            ChildNode::Element { element } => ChildShape::Element(element),
            ChildNode::Text { node } => ChildShape::Text(node.text@),
            ChildNode::PlaceHolder => ChildShape::PlaceHolder,
        }
    }
}

/// One entry of a flat child sequence.
#[derive(Debug, Clone)]
pub enum NodeChild {
    /// A node to make below the current insertion point.
    Node(ChildNode),
    /// Go down: the node made last becomes the insertion point.
    In,
    /// Come back up to the insertion point that was left by the matching `In`.
    Out,
}

/// What a `NodeChild` holds.
pub enum Step {
    Node(ChildShape),
    In,
    Out,
}

impl View for NodeChild {
    type V = Step;

    open spec fn view(&self) -> Step {
        match *self {
            NodeChild::Node(node) => Step::Node(node@),
            NodeChild::In => Step::In,
            NodeChild::Out => Step::Out,
        }
    }
}

/// The descendants of a template root, flat.
#[derive(Debug, Clone)]
pub struct NodeChildrenTree {
    pub nodes: Vec<NodeChild>,
}

impl View for NodeChildrenTree {
    type V = Seq<Step>;

    open spec fn view(&self) -> Seq<Step> {
        self.nodes@.map_values(|child: NodeChild| child@)
    }
}

impl NodeChildrenTree {
    /// Reserves a slot at the end, filled with a placeholder for now, and
    /// returns its index.
    pub fn placeholder(&mut self) -> (index: usize)
        ensures
            index == old(self)@.len(),
            final(self)@ == old(self)@.push(Step::Node(ChildShape::PlaceHolder)),
    {
        self.nodes.push(NodeChild::Node(ChildNode::PlaceHolder));
        self.nodes.len() - 1
    }

    /// Puts `child` into the slot at `index`.
    pub fn replace(&mut self, index: usize, child: ChildNode)
        requires
            index < old(self)@.len(),
        ensures
            final(self)@ == old(self)@.update(index as int, Step::Node(child@)),
    {
        self.nodes[index] = NodeChild::Node(child);
    }

    /// Adds `child` at the end.
    pub fn add(&mut self, child: NodeChild)
        ensures
            final(self)@ == old(self)@.push(child@),
    {
        self.nodes.push(child);
    }
}

impl Default for NodeChildrenTree {
    fn default() -> (tree: Self)
        ensures
            tree@ == Seq::<Step>::empty(),
    {
        let tree = NodeChildrenTree { nodes: Vec::new() };
        tree
    }
}

/// A compiled template root.
#[derive(Debug, Clone)]
pub enum RootNode {
    ElementWithChildren { element: Element, children: NodeChildrenTree },
    Element { element: Element },
    Text { node: TextNode },
    PlaceHolder,
}

/// What a `RootNode` holds.
pub enum RootShape {
    ElementWithChildren { element: Element, children: Seq<Step> },
    Element { element: Element },
    Text { text: Seq<char> },
    PlaceHolder,
}

impl View for RootNode {
    type V = RootShape;

    open spec fn view(&self) -> RootShape {
        match *self {
            RootNode::ElementWithChildren { element, children } => RootShape::ElementWithChildren {
                element,
                children: children@,
            },
            RootNode::Element { element } => RootShape::Element { element },
            RootNode::Text { node } => RootShape::Text { text: node.text@ },
            RootNode::PlaceHolder => RootShape::PlaceHolder,
        }
    }
}

/// Where a walk over a flat child sequence stands. Nodes are counted in the
/// order in which the walk makes them, from zero; `ROOT` is the node that the
/// sequence hangs below.
pub struct Walk {
    /// The insertion point.
    pub current: int,
    /// The node made last, or `NOTHING` before the first.
    pub created: int,
    /// The insertion points to come back to, innermost last.
    pub stack: Seq<int>,
    /// For each node made so far, the node below which it was made.
    pub parents: Seq<int>,
    /// For each node made so far, what it holds.
    pub shapes: Seq<ChildShape>,
}

/// The root of a walk.
pub const ROOT: i32 = -1;

/// No node.
pub const NOTHING: i32 = -2;

/// A walk before its first step.
pub open spec fn walk_start() -> Walk {
    Walk { current: ROOT as int, created: NOTHING as int, stack: Seq::empty(), parents: Seq::empty(), shapes: Seq::empty() }
}

/// Whether the walk can take `step`: it cannot go down before it has made a
/// node, nor come up further than it went down.
pub open spec fn can_step(walk: Walk, step: Step) -> bool {
    match step {
        Step::Node(_) => true,
        Step::In => walk.created != NOTHING,
        Step::Out => walk.stack.len() > 0,
    }
}

/// The walk after `step`.
pub open spec fn stepped(walk: Walk, step: Step) -> Walk {
    match step {
        Step::Node(shape) => Walk {
            created: walk.parents.len() as int,
            parents: walk.parents.push(walk.current),
            shapes: walk.shapes.push(shape),
            ..walk
        },
        Step::In => Walk { current: walk.created, stack: walk.stack.push(walk.current), ..walk },
        Step::Out => Walk { current: walk.stack.last(), stack: walk.stack.drop_last(), ..walk },
    }
}

/// Whether a walk from `walk` can take all of `steps`.
pub open spec fn can_walk_from(walk: Walk, steps: Seq<Step>) -> bool
    decreases steps.len(),
{
    steps.len() == 0 || (can_walk_from(walk, steps.drop_last()) && can_step(
        walked_from(walk, steps.drop_last()),
        steps.last(),
    ))
}

/// The walk from `walk` after all of `steps`.
pub open spec fn walked_from(walk: Walk, steps: Seq<Step>) -> Walk
    decreases steps.len(),
{
    if steps.len() == 0 {
        walk
    } else {
        stepped(walked_from(walk, steps.drop_last()), steps.last())
    }
}

/// Whether `steps` can be walked from the start.
pub open spec fn can_walk(steps: Seq<Step>) -> bool {
    can_walk_from(walk_start(), steps)
}

/// The walk over `steps` from the start.
pub open spec fn walked(steps: Seq<Step>) -> Walk {
    walked_from(walk_start(), steps)
}

/// Whether `index` names the root or one of the first `count` nodes.
pub open spec fn names_node(index: int, count: int) -> bool {
    index == ROOT || 0 <= index < count
}

/// Whether a walk names only nodes that it has made, and for each node a
/// parent that was made before it.
pub open spec fn in_range(walk: Walk) -> bool {
    &&& walk.shapes.len() == walk.parents.len()
    &&& names_node(walk.current, walk.parents.len() as int)
    &&& walk.created == NOTHING || 0 <= walk.created < walk.parents.len()
    &&& forall|j: int|
        0 <= j < walk.stack.len() ==> names_node(#[trigger] walk.stack[j], walk.parents.len() as int)
    &&& forall|k: int| 0 <= k < walk.parents.len() ==> names_node(#[trigger] walk.parents[k], k)
}

/// A step keeps a walk in range.
pub proof fn lemma_step_in_range(walk: Walk, step: Step)
    requires
        in_range(walk),
        can_step(walk, step),
    ensures
        in_range(stepped(walk, step)),
{
    let next = stepped(walk, step);
    match step {
        Step::Node(_) => {
            assert forall|k: int| 0 <= k < next.parents.len() implies names_node(
                #[trigger] next.parents[k],
                k,
            ) by {
                if k < walk.parents.len() {
                }
            }
            assert forall|j: int| 0 <= j < next.stack.len() implies names_node(
                #[trigger] next.stack[j],
                next.parents.len() as int,
            ) by {
            }
        },
        Step::In => {
            assert forall|j: int| 0 <= j < next.stack.len() implies names_node(
                #[trigger] next.stack[j],
                next.parents.len() as int,
            ) by {
                if j < walk.stack.len() {
                }
            }
        },
        Step::Out => {
            assert forall|j: int| 0 <= j < next.stack.len() implies names_node(
                #[trigger] next.stack[j],
                next.parents.len() as int,
            ) by {
            }
        },
    }
}

/// A walk that can take all of `steps` can take the first `taken` of them and
/// then the next one.
pub proof fn lemma_next_step(walk: Walk, steps: Seq<Step>, taken: int)
    requires
        can_walk_from(walk, steps),
        0 <= taken < steps.len(),
    ensures
        can_walk_from(walk, steps.take(taken)),
        can_step(walked_from(walk, steps.take(taken)), steps[taken]),
        walked_from(walk, steps.take(taken + 1)) == stepped(
            walked_from(walk, steps.take(taken)),
            steps[taken],
        ),
    decreases steps.len(),
{
    assert(steps.take(taken + 1).drop_last() =~= steps.take(taken));
    if taken + 1 < steps.len() {
        lemma_next_step(walk, steps.drop_last(), taken);
        assert(steps.drop_last().take(taken) =~= steps.take(taken));
    } else {
    }
}

/// Whether a root can be instantiated: its child sequence can be walked.
pub open spec fn root_is_sound(root: RootShape) -> bool {
    match root {
        RootShape::ElementWithChildren { children, .. } => can_walk(children),
        _ => true,
    }
}

} // verus!
