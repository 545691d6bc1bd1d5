//! Making the nodes of a compiled template in the host tree: the root first,
//! then a walk over its flat child sequence.

use vstd::prelude::*;
use bevy::ecs::world::World;
use crate::contents::ContentView;
use crate::contents::Contents;
use crate::contents::NodeContent;
use crate::contents::child_content;
use crate::contents::root_content;
use crate::host::UNASSIGNED;
use crate::host::add_child;
use crate::host::adopted;
use crate::host::children_of;
use crate::host::is_live;
use crate::host::live_nodes;
use crate::host::parent_of;
use crate::host::spawn_empty;
use crate::host::spawned;
use crate::host::without;
use crate::node::ChildShape;
use crate::node::NOTHING;
use crate::node::NodeChild;
use crate::node::ROOT;
use crate::node::RootNode;
use crate::node::RootShape;
use crate::node::Step;
use crate::node::Walk;
use crate::node::can_walk;
use crate::node::in_range;
use crate::node::lemma_next_step;
use crate::node::lemma_step_in_range;
use crate::node::names_node;
use crate::node::root_is_sound;
use crate::node::stepped;
use crate::node::walk_start;
use crate::node::walked;
use crate::tree::lemma_kept_whole;

verus! {

/// The node that stands for `index` in a walk: the root, or one of the nodes
/// made on the way.
pub open spec fn walk_node(root: u64, made: Seq<u64>, index: int) -> u64 {
    if index == ROOT {
        root
    } else {
        made[index]
    }
}

/// Of the nodes made in a walk, those made right below `above`, in the order
/// in which they were made. `parents` names for each node the node below
/// which it was made.
pub open spec fn made_below(made: Seq<u64>, parents: Seq<int>, above: int) -> Seq<u64>
    decreases parents.len(),
{
    if parents.len() == 0 {
        Seq::empty()
    } else if parents.last() == above {
        made_below(made, parents.drop_last(), above).push(made[parents.len() - 1])
    } else {
        made_below(made, parents.drop_last(), above)
    }
}

/// `post` is `pre` with a new tree in it: `root`, and below it the nodes
/// `made`, each below the node that `parents` names for it and after the
/// siblings made before it. All of them are new, and nothing else changed.
pub open spec fn built(pre: World, post: World, root: u64, made: Seq<u64>, parents: Seq<int>) -> bool {
    &&& made.len() == parents.len()
    &&& live_nodes(pre).subset_of(live_nodes(post))
    &&& !is_live(pre, root)
    &&& is_live(post, root)
    &&& parent_of(post, root).is_none()
    &&& children_of(post, root) == made_below(made, parents, ROOT as int)
    &&& forall|k: int|
        0 <= k < made.len() ==> {
            &&& !is_live(pre, #[trigger] made[k])
            &&& is_live(post, made[k])
            &&& made[k] != root
            &&& parent_of(post, made[k]) == Some(walk_node(root, made, parents[k]))
            &&& children_of(post, made[k]) == made_below(made, parents, k)
        }
    &&& forall|j: int, k: int| 0 <= j < k < made.len() ==> #[trigger] made[j] != #[trigger] made[k]
    &&& forall|other: u64|
        other != root && !made.contains(other) ==> {
            &&& #[trigger] children_of(post, other) == children_of(pre, other)
            &&& parent_of(post, other) == parent_of(pre, other)
        }
}

/// The steps below a compiled root.
pub open spec fn steps_of(root: RootShape) -> Seq<Step> {
    match root {
        RootShape::ElementWithChildren { children, .. } => children,
        _ => Seq::empty(),
    }
}

/// `contents` with an entry for each of the nodes `made`, holding what the
/// template says.
pub open spec fn with_made(
    contents: Map<u64, ContentView>,
    made: Seq<u64>,
    shapes: Seq<ChildShape>,
) -> Map<u64, ContentView>
    decreases made.len(),
{
    if made.len() == 0 || shapes.len() != made.len() {
        contents
    } else {
        with_made(contents, made.drop_last(), shapes.drop_last()).insert(
            made.last(),
            child_content(shapes.last()),
        )
    }
}

/// Which nodes were made below a node does not depend on the nodes made
/// after the last one that `parents` speaks of.
pub proof fn lemma_made_below_prefix(made: Seq<u64>, more: Seq<u64>, parents: Seq<int>, above: int)
    requires
        parents.len() <= made.len() <= more.len(),
        more.take(made.len() as int) == made,
    ensures
        made_below(more, parents, above) == made_below(made, parents, above),
    decreases parents.len(),
{
    if parents.len() > 0 {
        lemma_made_below_prefix(made, more, parents.drop_last(), above);
    }
}

/// Every node made below a node is one of the nodes made.
pub proof fn lemma_made_below_members(made: Seq<u64>, parents: Seq<int>, above: int, i: int)
    requires
        parents.len() <= made.len(),
        0 <= i < made_below(made, parents, above).len(),
    ensures
        exists|k: int| 0 <= k < parents.len() && made[k] == made_below(made, parents, above)[i],
    decreases parents.len(),
{
    if parents.len() > 0 {
        let front = made_below(made, parents.drop_last(), above);
        if i < front.len() {
            lemma_made_below_members(made, parents.drop_last(), above, i);
        } else {
            assert(made[parents.len() - 1] == made_below(made, parents, above)[i]);
        }
    }
}

/// No node was made below a node that no parent names.
pub proof fn lemma_made_below_none(made: Seq<u64>, parents: Seq<int>, above: int)
    requires
        forall|k: int| 0 <= k < parents.len() ==> #[trigger] parents[k] != above,
    ensures
        made_below(made, parents, above) == Seq::<u64>::empty(),
    decreases parents.len(),
{
    if parents.len() > 0 {
        lemma_made_below_none(made, parents.drop_last(), above);
    }
}

/// The nodes made below a node once one more node, `node`, was made below
/// `parent`.
pub proof fn lemma_made_below_push(made: Seq<u64>, parents: Seq<int>, node: u64, parent: int, above: int)
    requires
        made.len() == parents.len(),
    ensures
        made_below(made.push(node), parents.push(parent), above) == if parent == above {
            made_below(made, parents, above).push(node)
        } else {
            made_below(made, parents, above)
        },
{
    assert(parents.push(parent).drop_last() =~= parents);
    assert(made.push(node).take(made.len() as int) =~= made);
    lemma_made_below_prefix(made, made.push(node), parents, above);
}

/// A tree that was built stays built when one more node is made and put
/// below one of its nodes as the last child.
pub proof fn lemma_built_grows(
    pre: World,
    before: World,
    alone: World,
    after: World,
    root: u64,
    made: Seq<u64>,
    parents: Seq<int>,
    parent: int,
    node: u64,
)
    requires
        built(pre, before, root, made, parents),
        forall|k: int| 0 <= k < parents.len() ==> names_node(#[trigger] parents[k], k),
        names_node(parent, made.len() as int),
        spawned(before, alone, node),
        adopted(alone, after, walk_node(root, made, parent), node),
    ensures
        built(pre, after, root, made.push(node), parents.push(parent)),
        !made.contains(node),
        node != root,
{
    let more = made.push(node);
    let links = parents.push(parent);
    let host = walk_node(root, made, parent);
    assert(!made.contains(node)) by {
        if made.contains(node) {
            let k = choose|k: int| 0 <= k < made.len() && made[k] == node;
        }
    }
    assert(children_of(alone, node) == Seq::<u64>::empty());
    assert forall|above: int| names_node(above, made.len() as int) implies without(
        #[trigger] made_below(made, parents, above),
        seq![node],
    ) == made_below(made, parents, above) by {
        let list = made_below(made, parents, above);
        assert forall|i: int| 0 <= i < list.len() implies !seq![node].contains(
            #[trigger] list[i],
        ) by {
            lemma_made_below_members(made, parents, above, i);
            if list[i] == node {
                let k = choose|k: int| 0 <= k < parents.len() && made[k] == list[i];
            }
        }
        lemma_kept_whole(list, seq![node]);
    }
    assert forall|above: int|
        made_below(more, links, above) == if parent == above {
            made_below(made, parents, above).push(node)
        } else {
            made_below(made, parents, above)
        } by {
        lemma_made_below_push(made, parents, node, parent, above);
    }
    assert(children_of(after, root) == made_below(more, links, ROOT as int)) by {
        if host == root {
            assert(parent == ROOT) by {
                if parent != ROOT {
                }
            }
        } else {
        }
    }
    assert forall|k: int| 0 <= k < more.len() implies {
        &&& !is_live(pre, #[trigger] more[k])
        &&& is_live(after, more[k])
        &&& more[k] != root
        &&& parent_of(after, more[k]) == Some(walk_node(root, more, links[k]))
        &&& children_of(after, more[k]) == made_below(more, links, k)
    } by {
        if k < made.len() {
            if host == made[k] {
                assert(parent == k) by {
                    if parent == ROOT {
                    } else if parent != k {
                        if parent < k {
                        } else {
                        }
                    }
                }
            } else {
            }
        } else {
            assert(host != node) by {
                if parent != ROOT {
                }
            }
            assert forall|j: int| 0 <= j < parents.len() implies #[trigger] parents[j] != k by {
            }
            lemma_made_below_none(made, parents, k);
        }
    }
    assert forall|j: int, k: int| 0 <= j < k < more.len() implies #[trigger] more[j]
        != #[trigger] more[k] by {
        if k < made.len() {
        } else {
        }
    }
    assert forall|other: u64| other != root && !more.contains(other) implies {
        &&& #[trigger] children_of(after, other) == children_of(pre, other)
        &&& parent_of(after, other) == parent_of(pre, other)
    } by {
        assert(more[made.len() as int] == node);
        assert(!made.contains(other)) by {
            if made.contains(other) {
                let k = choose|k: int| 0 <= k < made.len() && made[k] == other;
                assert(more[k] == other);
            }
        }
        assert(children_of(before, other) == children_of(pre, other));
        assert(other != host) by {
            if parent != ROOT {
            }
        }
    }
}

/// Makes the nodes of a compiled root: the root itself, then each node of its
/// child sequence below the node where the walk stands. Returns the root, and
/// the nodes made below it in the order of the sequence.
pub(crate) fn instantiate(world: &mut World, contents: &mut Contents, root: &RootNode) -> (out: (
    u64,
    Ghost<Seq<u64>>,
))
    requires
        old(contents).wf(),
        root_is_sound(root@),
    ensures
        final(contents).wf(),
        built(*old(world), *final(world), out.0, out.1@, walked(steps_of(root@)).parents),
        final(contents)@ == with_made(
            old(contents)@.insert(out.0, root_content(root@)),
            out.1@,
            walked(steps_of(root@)).shapes,
        ),
{
    match root {
        RootNode::ElementWithChildren { element, children } => {
            let parent = spawn_empty(world);
            contents.put(parent, NodeContent::element(*element));
            let ghost steps = children@;
            let ghost base = contents@;
            let ghost mut made: Seq<u64> = Seq::empty();
            let ghost mut walk: Walk = walk_start();
            let mut current: u64 = parent;
            let mut created: u64 = UNASSIGNED;
            let mut stack: Vec<u64> = Vec::with_capacity(children.nodes.len());
            let mut i: usize = 0;
            while i < children.nodes.len()
                invariant
                    i <= children.nodes@.len(),
                    steps == children@,
                    steps.len() == children.nodes@.len(),
                    can_walk(steps),
                    walk == walked(steps.take(i as int)),
                    in_range(walk),
                    built(*old(world), *world, parent, made, walk.parents),
                    current == walk_node(parent, made, walk.current),
                    walk.created != NOTHING ==> created == made[walk.created],
                    stack@.len() == walk.stack.len(),
                    forall|j: int|
                        0 <= j < stack@.len() ==> #[trigger] stack@[j] == walk_node(
                            parent,
                            made,
                            walk.stack[j],
                        ),
                    contents.wf(),
                    contents@ == with_made(base, made, walk.shapes),
                decreases children.nodes@.len() - i,
            {
                proof {
                    lemma_next_step(walk_start(), steps, i as int);
                    lemma_step_in_range(walk, steps[i as int]);
                }
                let ghost next = stepped(walk, steps[i as int]);
                match &children.nodes[i] {
                    NodeChild::Node(node) => {
                        let ghost before = *world;
                        proof {
                            if walk.current != ROOT {
                            }
                        }
                        let child = spawn_empty(world);
                        let ghost alone = *world;
                        add_child(world, current, child);
                        contents.put(child, NodeContent::of_child(node));
                        created = child;
                        proof {
                            lemma_built_grows(
                                *old(world),
                                before,
                                alone,
                                *world,
                                parent,
                                made,
                                walk.parents,
                                walk.current,
                                child,
                            );
                            let more = made.push(child);
                            assert(more.drop_last() =~= made);
                            assert(next.shapes.drop_last() =~= walk.shapes);
                            assert(contents@ == with_made(base, more, next.shapes));
                            assert forall|j: int| 0 <= j < stack@.len() implies #[trigger] stack@[j]
                                == walk_node(parent, more, next.stack[j]) by {
                            }
                            made = more;
                        }
                    },
                    NodeChild::In => {
                        stack.push(current);
                        current = created;
                    },
                    NodeChild::Out => {
                        current = stack.pop().unwrap();
                    },
                }
                proof {
                    walk = next;
                }
                i += 1;
            }
            proof {
                assert(steps.take(i as int) =~= steps);
            }
            (parent, Ghost(made))
        },
        RootNode::Element { element } => {
            let entity = spawn_empty(world);
            contents.put(entity, NodeContent::element(*element));
            (entity, Ghost(Seq::empty()))
        },
        RootNode::Text { node } => {
            let entity = spawn_empty(world);
            contents.put(entity, NodeContent::text(node.text.as_str()));
            (entity, Ghost(Seq::empty()))
        },
        RootNode::PlaceHolder => {
            let entity = spawn_empty(world);
            contents.put(entity, NodeContent::empty());
            (entity, Ghost(Seq::empty()))
        },
    }
}

} // verus!
