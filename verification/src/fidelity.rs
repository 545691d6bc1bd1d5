//! What the walk over a compiled child sequence rebuilds, held against the
//! description that the sequence was compiled from.

use vstd::prelude::*;
use bevy::ecs::world::World;
use crate::host::children_of;
use crate::host::parent_of;
use crate::instantiate::built;
use crate::instantiate::made_below;
use crate::instantiate::walk_node;
use crate::node::ChildShape;
use crate::node::ROOT;
use crate::node::Step;
use crate::node::Walk;
use crate::node::stepped;
use crate::node::walk_start;
use crate::node::walked;
use crate::node::walked_from;
use crate::template::TemplateNode;
use crate::template_map::child_shape;
use crate::template_map::lemma_walk_in_two;
use crate::template_map::lemma_walk_one;
use crate::template_map::steps_below;
use crate::template_map::steps_of_first;

verus! {

/// The parents of a described node and of all that is described below it,
/// listed node by node in the order of the description: each node before its
/// children, each child with all below it before the next. The node itself
/// is number `index` and hangs below `parent`; those below it are numbered
/// on from there.
pub open spec fn outline(node: TemplateNode, parent: int, index: int) -> Seq<int>
    decreases node, 0nat,
{
    match node {
        TemplateNode::Element { children, .. } => seq![parent] + outline_first(
            children,
            children@.len(),
            index,
            index + 1,
        ),
        _ => seq![parent],
    }
}

/// The same for the first `n` of `children`, which hang below `parent` and are
/// numbered from `first`.
pub open spec fn outline_first(children: Vec<TemplateNode>, n: nat, parent: int, first: int) -> Seq<int>
    decreases children, n,
{
    if n == 0 || n > children@.len() {
        Seq::empty()
    } else {
        outline_first(children, (n - 1) as nat, parent, first) + outline(
            children@[n - 1],
            parent,
            first + outline_first(children, (n - 1) as nat, parent, first).len(),
        )
    }
}

/// What a described node and all that is described below it compile to, in
/// the same order.
pub open spec fn shapes_in_order(node: TemplateNode) -> Seq<ChildShape>
    decreases node, 0nat,
{
    match node {
        TemplateNode::Element { children, .. } => seq![child_shape(node)] + shapes_in_order_first(
            children,
            children@.len(),
        ),
        _ => seq![child_shape(node)],
    }
}

/// The same for the first `n` of `children`.
pub open spec fn shapes_in_order_first(children: Vec<TemplateNode>, n: nat) -> Seq<ChildShape>
    decreases children, n,
{
    if n == 0 || n > children@.len() {
        Seq::empty()
    } else {
        shapes_in_order_first(children, (n - 1) as nat) + shapes_in_order(children@[n - 1])
    }
}

/// The walk over a node and the steps that stand for what lies below it makes
/// the node below the insertion point and every node below it under its
/// described parent, in the described order, and comes back to where it
/// stood.
pub proof fn lemma_walk_rebuilds_node(walk: Walk, node: TemplateNode)
    ensures
        walked_from(walk, seq![Step::Node(child_shape(node))] + steps_below(node)).parents
            == walk.parents + outline(node, walk.current, walk.parents.len() as int),
        walked_from(walk, seq![Step::Node(child_shape(node))] + steps_below(node)).shapes
            == walk.shapes + shapes_in_order(node),
        walked_from(walk, seq![Step::Node(child_shape(node))] + steps_below(node)).current
            == walk.current,
        walked_from(walk, seq![Step::Node(child_shape(node))] + steps_below(node)).stack
            == walk.stack,
    decreases node, 0nat,
{
    let make = seq![Step::Node(child_shape(node))];
    let count = walk.parents.len() as int;
    lemma_walk_one(walk, Step::Node(child_shape(node)));
    lemma_walk_in_two(walk, make, steps_below(node));
    let made = stepped(walk, Step::Node(child_shape(node)));
    match node {
        TemplateNode::Element { children, .. } => {
            if children@.len() == 0 {
            } else {
                let into = seq![Step::In];
                let level = steps_of_first(children, children@.len());
                let back = seq![Step::Out];
                let inside = stepped(made, Step::In);
                lemma_walk_one(made, Step::In);
                lemma_walk_in_two(made, into, level);
                lemma_walk_rebuilds_level(inside, children, children@.len());
                let done = walked_from(inside, level);
                lemma_walk_one(done, Step::Out);
                lemma_walk_in_two(made, into + level, back);
                let end = stepped(done, Step::Out);
            }
        },
        _ => {
        },
    }
}

/// The same for the first `n` of some children: the walk makes them below the
/// insertion point, one after the other, each with all that lies below it.
pub proof fn lemma_walk_rebuilds_level(walk: Walk, children: Vec<TemplateNode>, n: nat)
    ensures
        walked_from(walk, steps_of_first(children, n)).parents == walk.parents + outline_first(
            children,
            n,
            walk.current,
            walk.parents.len() as int,
        ),
        walked_from(walk, steps_of_first(children, n)).shapes == walk.shapes
            + shapes_in_order_first(children, n),
        walked_from(walk, steps_of_first(children, n)).current == walk.current,
        walked_from(walk, steps_of_first(children, n)).stack == walk.stack,
    decreases children, n,
{
    let count = walk.parents.len() as int;
    if n == 0 || n > children@.len() {
    } else {
        let child = children@[n - 1];
        let before = steps_of_first(children, (n - 1) as nat);
        let rest = seq![Step::Node(child_shape(child))] + steps_below(child);
        lemma_walk_rebuilds_level(walk, children, (n - 1) as nat);
        assert(steps_of_first(children, n) =~= before + rest);
        lemma_walk_in_two(walk, before, rest);
        let reached = walked_from(walk, before);
        lemma_walk_rebuilds_node(reached, child);
        let earlier = outline_first(children, (n - 1) as nat, walk.current, count);
    }
}

/// Replaying the child sequence that the children of a root compile to
/// rebuilds what was described: the walk makes as many nodes as were
/// described, each of the kind described, each below the node that stands
/// for its described parent, and in the described order. It ends at the root
/// with nothing left to come back to.
pub proof fn lemma_walk_rebuilds_description(children: Vec<TemplateNode>)
    ensures
        walked(steps_of_first(children, children@.len())).parents == outline_first(
            children,
            children@.len(),
            ROOT as int,
            0,
        ),
        walked(steps_of_first(children, children@.len())).shapes == shapes_in_order_first(
            children,
            children@.len(),
        ),
        walked(steps_of_first(children, children@.len())).current == ROOT,
        walked(steps_of_first(children, children@.len())).stack == Seq::<int>::empty(),
{
    lemma_walk_rebuilds_level(walk_start(), children, children@.len());
    let start = walk_start();
}

/// The number of nodes in a description, itself included.
pub open spec fn size(node: TemplateNode) -> nat
    decreases node, 0nat,
{
    match node {
        TemplateNode::Element { children, .. } => 1 + size_first(children, children@.len()),
        _ => 1,
    }
}

/// The number of nodes in the first `n` of `children`.
pub open spec fn size_first(children: Vec<TemplateNode>, n: nat) -> nat
    decreases children, n,
{
    if n == 0 || n > children@.len() {
        0
    } else {
        size_first(children, (n - 1) as nat) + size(children@[n - 1])
    }
}

/// Whether the host node `made[index]`, with what hangs below it, is what
/// `node` describes: it holds what the description compiles to, and it has
/// one child for each described child, in the described order, each of which
/// is in turn what its description describes. `kinds` says for each of the
/// nodes `made` what it holds.
pub open spec fn mirrors(
    world: World,
    made: Seq<u64>,
    kinds: Seq<ChildShape>,
    node: TemplateNode,
    index: int,
) -> bool
    decreases node, 0nat,
{
    &&& kinds[index] == child_shape(node)
    &&& match node {
        TemplateNode::Element { children, .. } => {
            &&& children_of(world, made[index]).len() == children@.len()
            &&& mirrors_first(world, made, kinds, children, children@.len(), made[index], index + 1)
        },
        _ => children_of(world, made[index]).len() == 0,
    }
}

/// Whether the first `n` children of the host node `parent` are what the first
/// `n` of `children` describe. The nodes made for them and for what lies
/// below them are numbered from `first`.
pub open spec fn mirrors_first(
    world: World,
    made: Seq<u64>,
    kinds: Seq<ChildShape>,
    children: Vec<TemplateNode>,
    n: nat,
    parent: u64,
    first: int,
) -> bool
    decreases children, n,
{
    n == 0 || n > children@.len() || {
        &&& mirrors_first(world, made, kinds, children, (n - 1) as nat, parent, first)
        &&& children_of(world, parent)[n - 1] == made[first + size_first(children, (n - 1) as nat)]
        &&& parent_of(world, made[first + size_first(children, (n - 1) as nat)]) == Some(parent)
        &&& mirrors(
            world,
            made,
            kinds,
            children@[n - 1],
            first + size_first(children, (n - 1) as nat),
        )
    }
}

/// Of the nodes numbered from `from` up to `to`, those made right below
/// `above`, in order.
pub open spec fn made_in(made: Seq<u64>, parents: Seq<int>, from: int, to: int, above: int) -> Seq<u64>
    decreases to - from,
{
    if to <= from {
        Seq::empty()
    } else if parents[to - 1] == above {
        made_in(made, parents, from, to - 1, above).push(made[to - 1])
    } else {
        made_in(made, parents, from, to - 1, above)
    }
}

/// The nodes made for the first `n` of `children` themselves, where the nodes
/// for them and for what lies below them are numbered from `first`.
pub open spec fn starts(made: Seq<u64>, children: Vec<TemplateNode>, n: nat, first: int) -> Seq<u64>
    decreases n,
{
    if n == 0 || n > children@.len() {
        Seq::empty()
    } else {
        starts(made, children, (n - 1) as nat, first).push(
            made[first + size_first(children, (n - 1) as nat)],
        )
    }
}

/// The nodes made for the children of `node`, where `node` is number `index`.
pub open spec fn starts_below(made: Seq<u64>, node: TemplateNode, index: int) -> Seq<u64> {
    match node {
        TemplateNode::Element { children, .. } => starts(made, children, children@.len(), index + 1),
        _ => Seq::empty(),
    }
}

/// Whether `whole` holds `part` from `at` on.
pub open spec fn fits<T>(whole: Seq<T>, at: int, part: Seq<T>) -> bool {
    &&& 0 <= at
    &&& at + part.len() <= whole.len()
    &&& forall|j: int| 0 <= j < part.len() ==> whole[at + j] == #[trigger] part[j]
}

/// An outline and a list of shapes have one entry for each described node.
pub proof fn lemma_lengths(node: TemplateNode, parent: int, index: int)
    ensures
        outline(node, parent, index).len() == size(node),
        shapes_in_order(node).len() == size(node),
        outline(node, parent, index)[0] == parent,
        shapes_in_order(node)[0] == child_shape(node),
    decreases node, 0nat,
{
    match node {
        TemplateNode::Element { children, .. } => {
            lemma_lengths_first(children, children@.len(), index, index + 1);
        },
        _ => {},
    }
}

/// The same for the first `n` of `children`.
pub proof fn lemma_lengths_first(children: Vec<TemplateNode>, n: nat, parent: int, first: int)
    ensures
        outline_first(children, n, parent, first).len() == size_first(children, n),
        shapes_in_order_first(children, n).len() == size_first(children, n),
    decreases children, n,
{
    if n == 0 || n > children@.len() {
    } else {
        lemma_lengths_first(children, (n - 1) as nat, parent, first);
        lemma_lengths(
            children@[n - 1],
            parent,
            first + outline_first(children, (n - 1) as nat, parent, first).len(),
        );
    }
}

/// In an outline every node but the first hangs below a node of the outline
/// that comes before it.
pub proof fn lemma_outline_bounds(node: TemplateNode, parent: int, index: int, j: int)
    requires
        0 < j < size(node),
    ensures
        index <= outline(node, parent, index)[j] < index + j,
    decreases node, 0nat,
{
    lemma_lengths(node, parent, index);
    match node {
        TemplateNode::Element { children, .. } => {
            lemma_lengths_first(children, children@.len(), index, index + 1);
            lemma_outline_bounds_first(children, children@.len(), index, index + 1, j - 1);
        },
        _ => {},
    }
}

/// In the outline of some children every node hangs below their parent or
/// below a node of the outline that comes before it.
pub proof fn lemma_outline_bounds_first(
    children: Vec<TemplateNode>,
    n: nat,
    parent: int,
    first: int,
    j: int,
)
    requires
        0 <= j < size_first(children, n),
    ensures
        outline_first(children, n, parent, first)[j] == parent || first <= outline_first(
            children,
            n,
            parent,
            first,
        )[j] < first + j,
    decreases children, n,
{
    if n == 0 || n > children@.len() {
    } else {
        let before = outline_first(children, (n - 1) as nat, parent, first);
        lemma_lengths_first(children, (n - 1) as nat, parent, first);
        lemma_lengths(children@[n - 1], parent, first + before.len());
        if j < before.len() {
            lemma_outline_bounds_first(children, (n - 1) as nat, parent, first, j);
        } else if j > before.len() {
            lemma_outline_bounds(children@[n - 1], parent, first + before.len(), j - before.len());
        }
    }
}

/// The outline and the shapes of some children hold, for each child, the
/// outline and the shapes of that child, at the place where its nodes start.
pub proof fn lemma_piece(children: Vec<TemplateNode>, n: nat, parent: int, first: int, i: int)
    requires
        0 <= i < n <= children@.len(),
    ensures
        fits(
            outline_first(children, n, parent, first),
            size_first(children, i as nat) as int,
            outline(children@[i], parent, first + size_first(children, i as nat)),
        ),
        fits(
            shapes_in_order_first(children, n),
            size_first(children, i as nat) as int,
            shapes_in_order(children@[i]),
        ),
        size_first(children, i as nat) + size(children@[i]) <= size_first(children, n),
    decreases n,
{
    lemma_lengths_first(children, (n - 1) as nat, parent, first);
    lemma_lengths_first(children, n, parent, first);
    lemma_lengths(children@[n - 1], parent, first + size_first(children, (n - 1) as nat));
    if i < n - 1 {
        lemma_piece(children, (n - 1) as nat, parent, first, i);
        lemma_lengths(children@[i], parent, first + size_first(children, i as nat));
    }
}

/// The nodes made below a node in the whole of a walk are those made below it
/// among all the nodes of the walk.
pub proof fn lemma_made_below_is_made_in(made: Seq<u64>, parents: Seq<int>, to: int, above: int)
    requires
        0 <= to <= parents.len(),
    ensures
        made_below(made, parents.take(to), above) == made_in(made, parents, 0, to, above),
    decreases to,
{
    if to > 0 {
        lemma_made_below_is_made_in(made, parents, to - 1, above);
        assert(parents.take(to).drop_last() =~= parents.take(to - 1));
    }
}

/// The nodes made below a node in a range are those in its first part and
/// then those in its second.
pub proof fn lemma_made_in_split(
    made: Seq<u64>,
    parents: Seq<int>,
    from: int,
    mid: int,
    to: int,
    above: int,
)
    requires
        from <= mid <= to,
    ensures
        made_in(made, parents, from, to, above) == made_in(made, parents, from, mid, above)
            + made_in(made, parents, mid, to, above),
    decreases to - mid,
{
    if mid < to {
        lemma_made_in_split(made, parents, from, mid, to - 1, above);
        let head = made_in(made, parents, from, mid, above);
        let tail = made_in(made, parents, mid, to - 1, above);
        if parents[to - 1] == above {
        }
    } else {
    }
}

/// No node was made below a node in a range in which no parent names it.
pub proof fn lemma_made_in_none(made: Seq<u64>, parents: Seq<int>, from: int, to: int, above: int)
    requires
        forall|j: int| from <= j < to ==> #[trigger] parents[j] != above,
    ensures
        made_in(made, parents, from, to, above) == Seq::<u64>::empty(),
    decreases to - from,
{
    if from < to {
        lemma_made_in_none(made, parents, from, to - 1, above);
    }
}

/// There is one start for each child, and it is the node made where the
/// nodes of that child begin.
pub proof fn lemma_starts(made: Seq<u64>, children: Vec<TemplateNode>, n: nat, first: int, i: int)
    requires
        n <= children@.len(),
    ensures
        starts(made, children, n, first).len() == n,
        0 <= i < n ==> starts(made, children, n, first)[i] == made[first + size_first(
            children,
            i as nat,
        )],
    decreases n,
{
    if n > 0 {
        lemma_starts(made, children, (n - 1) as nat, first, i);
    }
}

/// Among the nodes made for a described node and for what lies below it,
/// those right below its parent are the node itself, those right below the
/// node itself are the ones made for its children, and none hangs below any
/// node outside.
pub proof fn lemma_region(
    made: Seq<u64>,
    parents: Seq<int>,
    node: TemplateNode,
    parent: int,
    index: int,
    above: int,
)
    requires
        fits(parents, index, outline(node, parent, index)),
        parent < index,
        !(index < above < index + size(node)),
    ensures
        made_in(made, parents, index, index + size(node), above) == if above == parent {
            seq![made[index]]
        } else if above == index {
            starts_below(made, node, index)
        } else {
            Seq::<u64>::empty()
        },
    decreases node, 0nat,
{
    lemma_lengths(node, parent, index);
    let end = index + size(node);
    lemma_made_in_split(made, parents, index, index + 1, end, above);
    assert(made_in(made, parents, index, index, above) =~= Seq::<u64>::empty());
    match node {
        TemplateNode::Element { children, .. } => {
            let below = outline_first(children, children@.len(), index, index + 1);
            lemma_lengths_first(children, children@.len(), index, index + 1);
            assert(fits(parents, index + 1, below)) by {
                assert forall|j: int| 0 <= j < below.len() implies parents[index + 1 + j]
                    == #[trigger] below[j] by {
                    assert(parents[index + (j + 1)] == outline(node, parent, index)[j + 1]);
                }
            }
            lemma_region_first(made, parents, children, children@.len(), index, index + 1, above);
            let rest = made_in(made, parents, index + 1, end, above);
            if above == parent {
            } else {
            }
        },
        _ => {
            if above == parent {
            } else {
            }
        },
    }
}

/// Among the nodes made for some children and for what lies below them,
/// those right below their parent are the ones made for the children
/// themselves, and none hangs below any other node outside.
pub proof fn lemma_region_first(
    made: Seq<u64>,
    parents: Seq<int>,
    children: Vec<TemplateNode>,
    n: nat,
    parent: int,
    first: int,
    above: int,
)
    requires
        n <= children@.len(),
        fits(parents, first, outline_first(children, n, parent, first)),
        parent < first,
        !(first <= above < first + size_first(children, n)),
    ensures
        made_in(made, parents, first, first + size_first(children, n), above) == if above
            == parent {
            starts(made, children, n, first)
        } else {
            Seq::<u64>::empty()
        },
    decreases children, n,
{
    if n == 0 {
    } else {
        let child = children@[n - 1];
        let at = first + size_first(children, (n - 1) as nat);
        let whole = outline_first(children, n, parent, first);
        let before = outline_first(children, (n - 1) as nat, parent, first);
        lemma_lengths_first(children, (n - 1) as nat, parent, first);
        lemma_lengths_first(children, n, parent, first);
        lemma_lengths(child, parent, at);
        assert(fits(parents, first, before)) by {
            assert forall|j: int| 0 <= j < before.len() implies parents[first + j]
                == #[trigger] before[j] by {
                assert(parents[first + j] == whole[j]);
            }
        }
        assert(fits(parents, at, outline(child, parent, at))) by {
            assert forall|j: int| 0 <= j < outline(child, parent, at).len() implies parents[at + j]
                == #[trigger] outline(child, parent, at)[j] by {
                assert(parents[first + (before.len() + j)] == whole[before.len() + j]);
            }
        }
        lemma_region_first(made, parents, children, (n - 1) as nat, parent, first, above);
        lemma_region(made, parents, child, parent, at, above);
        lemma_made_in_split(made, parents, first, at, at + size(child), above);
        let head = made_in(made, parents, first, at, above);
        if above == parent {
        } else {
        }
    }
}

/// Whether the host tree agrees with a walk: each node made lists as its
/// children the nodes that the walk made right below it, and names as its
/// parent the node below which the walk made it; and each parent comes
/// before its children in the walk.
pub open spec fn agrees(world: World, root: u64, made: Seq<u64>, parents: Seq<int>) -> bool {
    &&& made.len() == parents.len()
    &&& forall|j: int|
        0 <= j < parents.len() ==> {
            &&& children_of(world, #[trigger] made[j]) == made_below(made, parents, j)
            &&& parent_of(world, made[j]) == Some(walk_node(root, made, parents[j]))
            &&& (parents[j] == ROOT || 0 <= parents[j] < j)
        }
}

/// Nothing from `end` on hangs below a node numbered from `start` up to
/// `end`.
pub open spec fn sealed(parents: Seq<int>, start: int, end: int) -> bool {
    forall|j: int| end <= j < parents.len() ==> !(start <= #[trigger] parents[j] < end)
}

/// The children of the node numbered `index`, as the walk made them.
proof fn lemma_children_of_made(
    made: Seq<u64>,
    parents: Seq<int>,
    node: TemplateNode,
    parent: int,
    index: int,
)
    requires
        made.len() == parents.len(),
        forall|j: int| 0 <= j < parents.len() ==> (#[trigger] parents[j] == ROOT || 0 <= parents[j] < j),
        fits(parents, index, outline(node, parent, index)),
        parent < index,
        sealed(parents, index, index + size(node)),
    ensures
        made_below(made, parents, index) == starts_below(made, node, index),
{
    let end = index + size(node);
    lemma_lengths(node, parent, index);
    lemma_made_below_is_made_in(made, parents, parents.len() as int, index);
    assert(parents.take(parents.len() as int) =~= parents);
    lemma_made_in_split(made, parents, 0, index, parents.len() as int, index);
    lemma_made_in_split(made, parents, index, end, parents.len() as int, index);
    lemma_made_in_none(made, parents, 0, index, index);
    lemma_made_in_none(made, parents, end, parents.len() as int, index);
    lemma_region(made, parents, node, parent, index, index);
    let mid = made_in(made, parents, index, end, index);
}

/// A host tree that agrees with the walk over a described node is what the
/// node describes.
pub proof fn lemma_mirrors(
    world: World,
    root: u64,
    made: Seq<u64>,
    parents: Seq<int>,
    kinds: Seq<ChildShape>,
    node: TemplateNode,
    parent: int,
    index: int,
)
    requires
        agrees(world, root, made, parents),
        fits(parents, index, outline(node, parent, index)),
        fits(kinds, index, shapes_in_order(node)),
        parent < index,
        sealed(parents, index, index + size(node)),
    ensures
        mirrors(world, made, kinds, node, index),
    decreases node, 0nat,
{
    lemma_lengths(node, parent, index);
    assert forall|j: int| 0 <= j < parents.len() implies (#[trigger] parents[j] == ROOT || 0
        <= parents[j] < j) by {
        assert(children_of(world, made[j]) == made_below(made, parents, j));
    }
    lemma_children_of_made(made, parents, node, parent, index);
    match node {
        TemplateNode::Element { children, .. } => {
            lemma_starts(made, children, children@.len(), index + 1, 0);
            lemma_lengths_first(children, children@.len(), index, index + 1);
            let below = outline_first(children, children@.len(), index, index + 1);
            let shapes = shapes_in_order_first(children, children@.len());
            assert(fits(parents, index + 1, below)) by {
                assert forall|j: int| 0 <= j < below.len() implies parents[index + 1 + j]
                    == #[trigger] below[j] by {
                    assert(parents[index + (j + 1)] == outline(node, parent, index)[j + 1]);
                }
            }
            assert(fits(kinds, index + 1, shapes)) by {
                assert forall|j: int| 0 <= j < shapes.len() implies kinds[index + 1 + j]
                    == #[trigger] shapes[j] by {
                    assert(kinds[index + (j + 1)] == shapes_in_order(node)[j + 1]);
                }
            }
            lemma_mirrors_first(
                world,
                root,
                made,
                parents,
                kinds,
                children,
                children@.len(),
                index,
                index + 1,
            );
        },
        _ => {},
    }
}

/// The same for the first `n` children of the node numbered `parent`, or of
/// the root.
pub proof fn lemma_mirrors_first(
    world: World,
    root: u64,
    made: Seq<u64>,
    parents: Seq<int>,
    kinds: Seq<ChildShape>,
    children: Vec<TemplateNode>,
    n: nat,
    parent: int,
    first: int,
)
    requires
        agrees(world, root, made, parents),
        n <= children@.len(),
        fits(parents, first, outline_first(children, children@.len(), parent, first)),
        fits(kinds, first, shapes_in_order_first(children, children@.len())),
        parent == ROOT || 0 <= parent < first,
        parent < first,
        sealed(parents, first, first + size_first(children, children@.len())),
        children_of(world, walk_node(root, made, parent)) == starts(
            made,
            children,
            children@.len(),
            first,
        ),
    ensures
        mirrors_first(world, made, kinds, children, n, walk_node(root, made, parent), first),
    decreases children, n,
{
    if n == 0 {
    } else {
        let count = children@.len();
        let child = children@[n - 1];
        let at = first + size_first(children, (n - 1) as nat);
        let whole = outline_first(children, count, parent, first);
        let shapes = shapes_in_order_first(children, count);
        lemma_mirrors_first(world, root, made, parents, kinds, children, (n - 1) as nat, parent, first);
        lemma_starts(made, children, count, first, n - 1);
        lemma_piece(children, count, parent, first, n - 1);
        lemma_lengths_first(children, count, parent, first);
        lemma_lengths(child, parent, at);
        let part = outline(child, parent, at);
        assert(fits(parents, at, part)) by {
            assert forall|j: int| 0 <= j < part.len() implies parents[at + j] == #[trigger] part[j] by {
            }
        }
        let kind = shapes_in_order(child);
        assert(fits(kinds, at, kind)) by {
            assert forall|j: int| 0 <= j < kind.len() implies kinds[at + j] == #[trigger] kind[j] by {
            }
        }
        assert(parents[at] == parent) by {
        }
        assert(sealed(parents, at, at + size(child))) by {
            assert forall|j: int| at + size(child) <= j < parents.len() implies !(at
                <= #[trigger] parents[j] < at + size(child)) by {
                if j < first + size_first(children, count) {
                    lemma_outline_bounds_first(children, count, parent, first, j - first);
                    lemma_sibling_is_outside(children, count, parent, first, n - 1, j - first);
                }
            }
        }
        lemma_mirrors(world, root, made, parents, kinds, child, parent, at);
    }
}

/// A node that comes after all the nodes of a child in the outline of some
/// children does not hang below any of that child's nodes.
pub proof fn lemma_sibling_is_outside(
    children: Vec<TemplateNode>,
    n: nat,
    parent: int,
    first: int,
    i: int,
    j: int,
)
    requires
        0 <= i < n <= children@.len(),
        parent < first,
        size_first(children, i as nat) + size(children@[i]) <= j < size_first(children, n),
    ensures
        !(first + size_first(children, i as nat) <= outline_first(children, n, parent, first)[j]
            < first + size_first(children, i as nat) + size(children@[i])),
    decreases n,
{
    let before = outline_first(children, (n - 1) as nat, parent, first);
    lemma_lengths_first(children, (n - 1) as nat, parent, first);
    lemma_lengths(children@[n - 1], parent, first + before.len());
    if j < before.len() {
        lemma_sibling_is_outside(children, (n - 1) as nat, parent, first, i, j);
    } else {
        if i < n - 1 {
            lemma_piece(children, (n - 1) as nat, parent, first, i);
        }
        if j > before.len() {
            lemma_outline_bounds(children@[n - 1], parent, first + before.len(), j - before.len());
        }
    }
}

/// The tree that `LoadTemplate` builds for a root with children is the tree
/// that was described: the root has one child for each described child, in
/// the described order, and each of them, with what hangs below it, is what
/// its description describes.
pub proof fn lemma_built_tree_mirrors_description(
    pre: World,
    post: World,
    root: u64,
    made: Seq<u64>,
    children: Vec<TemplateNode>,
)
    requires
        built(
            pre,
            post,
            root,
            made,
            walked(steps_of_first(children, children@.len())).parents,
        ),
    ensures
        children_of(post, root).len() == children@.len(),
        mirrors_first(
            post,
            made,
            walked(steps_of_first(children, children@.len())).shapes,
            children,
            children@.len(),
            root,
            0,
        ),
{
    let count = children@.len();
    let parents = outline_first(children, count, ROOT as int, 0);
    let kinds = shapes_in_order_first(children, count);
    lemma_walk_rebuilds_description(children);
    lemma_lengths_first(children, count, ROOT as int, 0);
    assert(agrees(post, root, made, parents)) by {
        assert forall|j: int| 0 <= j < parents.len() implies {
            &&& children_of(post, #[trigger] made[j]) == made_below(made, parents, j)
            &&& parent_of(post, made[j]) == Some(walk_node(root, made, parents[j]))
            &&& (parents[j] == ROOT || 0 <= parents[j] < j)
        } by {
            lemma_outline_bounds_first(children, count, ROOT as int, 0, j);
        }
    }
    lemma_made_below_is_made_in(made, parents, parents.len() as int, ROOT as int);
    assert(parents.take(parents.len() as int) =~= parents);
    lemma_region_first(made, parents, children, count, ROOT as int, 0, ROOT as int);
    lemma_starts(made, children, count, 0, 0);
    lemma_mirrors_first(post, root, made, parents, kinds, children, count, ROOT as int, 0);
}

} // verus!
