//! What the nodes of the host tree hold: the kind of element, the text, and
//! the style record. The interpreter keeps this beside the world, one entry
//! for each node that it made or wrote to.

use vstd::prelude::*;
use bevy::ecs::world::World;
use crate::attributes::Style;
use crate::attributes::StyleValue;
use crate::attributes::default_style;
use crate::host::exists_in;
use crate::host::live_nodes;
use crate::node::ChildNode;
use crate::node::ChildShape;
use crate::node::Element;
use crate::node::RootShape;

verus! {

/// What one node holds.
#[derive(Debug)]
pub struct NodeContent {
    /// The kind of element, for a node that is one.
    pub element: Option<Element>,
    /// The parts of the text, for a node that is text.
    pub text: Option<Vec<String>>,
    /// The style record, once the node has one.
    pub style: Option<Style>,
}

/// What a `NodeContent` holds.
pub struct ContentView {
    pub element: Option<Element>,
    pub text: Option<Seq<Seq<char>>>,
    pub style: Option<Seq<Option<StyleValue>>>,
}

impl View for NodeContent {
    type V = ContentView;

    open spec fn view(&self) -> ContentView {
        ContentView {
            element: self.element,
            text: match self.text {
                Some(parts) => Some(parts@.map_values(|part: String| part@)),
                None => None,
            },
            style: match self.style {
                Some(style) => Some(style@),
                None => None,
            },
        }
    }
}

/// What an empty node holds: nothing.
pub open spec fn empty_content() -> ContentView {
    ContentView { element: None, text: None, style: None }
}

/// What a fresh element holds: its kind and a style record at its defaults.
pub open spec fn element_content(element: Element) -> ContentView {
    ContentView { element: Some(element), text: None, style: Some(default_style()) }
}

/// What a fresh text node holds: the text in one part and a style record at
/// its defaults.
pub open spec fn text_content(text: Seq<char>) -> ContentView {
    ContentView { element: None, text: Some(seq![text]), style: Some(default_style()) }
}

/// What a node made from a template holds.
pub open spec fn child_content(shape: ChildShape) -> ContentView {
    match shape {
        ChildShape::Element(element) => element_content(element),
        ChildShape::Text(text) => text_content(text),
        ChildShape::PlaceHolder => empty_content(),
    }
}

/// What the root made from a template holds.
pub open spec fn root_content(shape: RootShape) -> ContentView {
    match shape {
        RootShape::ElementWithChildren { element, .. } => element_content(element),
        RootShape::Element { element } => element_content(element),
        RootShape::Text { text } => text_content(text),
        RootShape::PlaceHolder => empty_content(),
    }
}

impl NodeContent {
    /// What an empty node holds.
    pub fn empty() -> (content: Self)
        ensures
            content@ == empty_content(),
    {
        NodeContent { element: None, text: None, style: None }
    }

    /// What a fresh element holds.
    pub fn element(element: Element) -> (content: Self)
        ensures
            content@ == element_content(element),
    {
        NodeContent { element: Some(element), text: None, style: Some(Style::default()) }
    }

    /// What a fresh text node holds.
    pub fn text(text: &str) -> (content: Self)
        ensures
            content@ == text_content(text@),
    {
        let mut parts: Vec<String> = Vec::new();
        parts.push(text.to_owned());
        let content = NodeContent { element: None, text: Some(parts), style: Some(Style::default()) };
        assert(content@.text.unwrap() =~= seq![text@]);
        content
    }

    /// What a node made from a template holds.
    pub fn of_child(node: &ChildNode) -> (content: Self)
        ensures
            content@ == child_content(node@),
    {
        match node {
            ChildNode::Element { element } => Self::element(*element),
            ChildNode::Text { node } => Self::text(node.text.as_str()),
            ChildNode::PlaceHolder => Self::empty(),
        }
    }
}

/// One entry of the table.
#[derive(Debug)]
pub struct Entry {
    pub node: u64,
    pub content: NodeContent,
}

/// The table that a run of entries stands for. Where two entries name one
/// node, the later one counts.
pub open spec fn table_of(entries: Seq<Entry>) -> Map<u64, ContentView>
    decreases entries.len(),
{
    if entries.len() == 0 {
        Map::empty()
    } else {
        table_of(entries.drop_last()).insert(entries.last().node, entries.last().content@)
    }
}

/// No two entries name one node.
pub open spec fn distinct_nodes(entries: Seq<Entry>) -> bool {
    forall|i: int, j: int|
        0 <= i < j < entries.len() ==> (#[trigger] entries[i]).node != (#[trigger] entries[j]).node
}

/// Whether one of the entries names `node`.
pub open spec fn has_entry(entries: Seq<Entry>, node: u64) -> bool {
    exists|i: int| 0 <= i < entries.len() && (#[trigger] entries[i]).node == node
}

/// The table holds exactly the nodes that the entries name.
pub proof fn lemma_table_keys(entries: Seq<Entry>, node: u64)
    ensures
        table_of(entries).contains_key(node) == has_entry(entries, node),
    decreases entries.len(),
{
    if entries.len() > 0 {
        let front = entries.drop_last();
        lemma_table_keys(front, node);
        if has_entry(front, node) {
            let i = choose|i: int| 0 <= i < front.len() && (#[trigger] front[i]).node == node;
        }
        if entries.last().node == node {
        }
        if has_entry(entries, node) {
            let i = choose|i: int| 0 <= i < entries.len() && (#[trigger] entries[i]).node == node;
            if i < front.len() {
                assert(front[i].node == node);
            }
        }
    }
}

/// Where no two entries name one node, the table holds for each entry what
/// the entry holds.
pub proof fn lemma_table_entry(entries: Seq<Entry>, i: int)
    requires
        distinct_nodes(entries),
        0 <= i < entries.len(),
    ensures
        table_of(entries).contains_key(entries[i].node),
        table_of(entries)[entries[i].node] == entries[i].content@,
    decreases entries.len(),
{
    let front = entries.drop_last();
    if i < entries.len() - 1 {
        assert(distinct_nodes(front)) by {
            assert forall|a: int, b: int| 0 <= a < b < front.len() implies (#[trigger] front[a]).node
                != (#[trigger] front[b]).node by {
            }
        }
        lemma_table_entry(front, i);
    }
}

/// Where no two entries name one node, taking an entry out takes its node out
/// of the table and leaves the rest.
pub proof fn lemma_table_without(entries: Seq<Entry>, i: int)
    requires
        distinct_nodes(entries),
        0 <= i < entries.len(),
    ensures
        distinct_nodes(entries.remove(i)),
        table_of(entries.remove(i)) == table_of(entries).remove(entries[i].node),
    decreases entries.len(),
{
    let rest = entries.remove(i);
    assert forall|a: int, b: int| 0 <= a < b < rest.len() implies (#[trigger] rest[a]).node != (
    #[trigger] rest[b]).node by {
        let a0 = if a < i { a } else { a + 1 };
        let b0 = if b < i { b } else { b + 1 };
    }
    let front = entries.drop_last();
    if i == entries.len() - 1 {
        lemma_table_keys(front, entries[i].node);
        if has_entry(front, entries[i].node) {
            let k = choose|k: int| 0 <= k < front.len() && (#[trigger] front[k]).node == entries[i].node;
        }
    } else {
        assert(distinct_nodes(front)) by {
            assert forall|a: int, b: int| 0 <= a < b < front.len() implies (#[trigger] front[a]).node
                != (#[trigger] front[b]).node by {
            }
        }
        lemma_table_without(front, i);
        assert(rest.drop_last() =~= front.remove(i));
    }
}

/// The table of what the nodes hold.
#[derive(Debug)]
pub struct Contents {
    entries: Vec<Entry>,
}

impl View for Contents {
    type V = Map<u64, ContentView>;

    closed spec fn view(&self) -> Map<u64, ContentView> {
        table_of(self.entries@)
    }
}

impl Default for Contents {
    fn default() -> (contents: Self)
        ensures
            contents@ == Map::<u64, ContentView>::empty(),
            contents.wf(),
    {
        Contents { entries: Vec::new() }
    }
}

impl Contents {
    /// No two entries name one node.
    pub closed spec fn wf(&self) -> bool {
        distinct_nodes(self.entries@)
    }

    /// Where the entry for `node` stands, if there is one.
    fn position(&self, node: u64) -> (found: Option<usize>)
        ensures
            match found {
                Some(i) => i < self.entries@.len() && self.entries@[i as int].node == node,
                None => !has_entry(self.entries@, node),
            },
    {
        let mut i: usize = 0;
        while i < self.entries.len()
            invariant
                i <= self.entries@.len(),
                forall|k: int| 0 <= k < i ==> (#[trigger] self.entries@[k]).node != node,
            decreases self.entries@.len() - i,
        {
            if self.entries[i].node == node {
                return Some(i);
            }
            i += 1;
        }
        None
    }

    /// What `node` holds, if the table has an entry for it.
    pub fn get(&self, node: u64) -> (content: Option<&NodeContent>)
        requires
            self.wf(),
        ensures
            match content {
                Some(content) => self@.contains_key(node) && self@[node] == content@,
                None => !self@.contains_key(node),
            },
    {
        proof {
            lemma_table_keys(self.entries@, node);
        }
        match self.position(node) {
            Some(i) => {
                proof {
                    lemma_table_entry(self.entries@, i as int);
                }
                Some(&self.entries[i].content)
            },
            None => None,
        }
    }

    /// Takes the entry for `node` out of the table and returns what it held.
    pub fn take(&mut self, node: u64) -> (content: Option<NodeContent>)
        requires
            old(self).wf(),
        ensures
            final(self).wf(),
            final(self)@ == old(self)@.remove(node),
            match content {
                Some(content) => old(self)@.contains_key(node) && old(self)@[node] == content@,
                None => !old(self)@.contains_key(node),
            },
    {
        proof {
            lemma_table_keys(self.entries@, node);
        }
        match self.position(node) {
            Some(i) => {
                proof {
                    lemma_table_entry(self.entries@, i as int);
                    lemma_table_without(self.entries@, i as int);
                }
                let entry = self.entries.remove(i);
                Some(entry.content)
            },
            None => {
                None
            },
        }
    }

    /// Makes `content` what `node` holds, in place of whatever it held.
    pub fn put(&mut self, node: u64, content: NodeContent)
        requires
            old(self).wf(),
        ensures
            final(self).wf(),
            final(self)@ == old(self)@.insert(node, content@),
    {
        let _ = self.take(node);
        proof {
            lemma_table_keys(self.entries@, node);
        }
        let ghost before = self.entries@;
        self.entries.push(Entry { node, content });
        proof {
            assert(self.entries@.drop_last() =~= before);
            assert forall|a: int, b: int| 0 <= a < b < self.entries@.len() implies (
            #[trigger] self.entries@[a]).node != (#[trigger] self.entries@[b]).node by {
                if b < before.len() {
                }
            }
        }
    }

    /// The nodes that the table has an entry for, each once.
    pub fn nodes(&self) -> (nodes: Vec<u64>)
        requires
            self.wf(),
        ensures
            nodes@.no_duplicates(),
            forall|node: u64| nodes@.contains(node) == self@.contains_key(node),
    {
        let mut nodes: Vec<u64> = Vec::with_capacity(self.entries.len());
        let mut i: usize = 0;
        while i < self.entries.len()
            invariant
                i <= self.entries@.len(),
                nodes@.len() == i,
                forall|k: int| 0 <= k < i ==> nodes@[k] == (#[trigger] self.entries@[k]).node,
            decreases self.entries@.len() - i,
        {
            nodes.push(self.entries[i].node);
            i += 1;
        }
        proof {
            assert forall|a: int, b: int| 0 <= a < nodes@.len() && 0 <= b < nodes@.len() && a
                != b implies nodes@[a] != nodes@[b] by {
                if a < b {
                } else {
                    assert(self.entries@[b].node != self.entries@[a].node);
                }
            }
            assert forall|node: u64| nodes@.contains(node) == self@.contains_key(node) by {
                lemma_table_keys(self.entries@, node);
                if nodes@.contains(node) {
                    let k = choose|k: int| 0 <= k < nodes@.len() && nodes@[k] == node;
                    assert(self.entries@[k].node == node);
                }
                if has_entry(self.entries@, node) {
                    let k = choose|k: int|
                        0 <= k < self.entries@.len() && (#[trigger] self.entries@[k]).node == node;
                }
            }
        }
        nodes
    }

    /// Drops the entries of the nodes that are no longer in `world`.
    pub fn sweep(&mut self, world: &World)
        requires
            old(self).wf(),
        ensures
            final(self).wf(),
            final(self)@ == old(self)@.restrict(live_nodes(*world)),
    {
        let mut kept: Vec<Entry> = Vec::new();
        let ghost live = live_nodes(*world);
        while self.entries.len() > 0
            invariant
                live == live_nodes(*world),
                distinct_nodes(self.entries@),
                distinct_nodes(kept@),
                forall|i: int, j: int|
                    0 <= i < self.entries@.len() && 0 <= j < kept@.len() ==> (
                    #[trigger] self.entries@[i]).node != (#[trigger] kept@[j]).node,
                table_of(kept@).union_prefer_right(table_of(self.entries@).restrict(live))
                    == old(self)@.restrict(live),
                table_of(kept@).dom().subset_of(live),
            decreases self.entries@.len(),
        {
            let ghost done = kept@;
            let entry = self.entries.pop().unwrap();
            proof {
                lemma_table_keys(done, entry.node);
                if has_entry(done, entry.node) {
                    let j = choose|j: int| 0 <= j < done.len() && (#[trigger] done[j]).node == entry.node;
                }
                lemma_table_keys(self.entries@, entry.node);
                if has_entry(self.entries@, entry.node) {
                    let i = choose|i: int|
                        0 <= i < self.entries@.len() && (#[trigger] self.entries@[i]).node
                            == entry.node;
                }
                assert forall|a: int, b: int| 0 <= a < b < self.entries@.len() implies (
                #[trigger] self.entries@[a]).node != (#[trigger] self.entries@[b]).node by {
                }
            }
            if exists_in(world, entry.node) {
                kept.push(entry);
                proof {
                    assert(kept@.drop_last() =~= done);
                    assert forall|a: int, b: int| 0 <= a < b < kept@.len() implies (
                    #[trigger] kept@[a]).node != (#[trigger] kept@[b]).node by {
                        if b < done.len() {
                        }
                    }
                    assert forall|i: int, j: int|
                        0 <= i < self.entries@.len() && 0 <= j < kept@.len() implies (
                    #[trigger] self.entries@[i]).node != (#[trigger] kept@[j]).node by {
                        if j < done.len() {
                        } else {
                        }
                    }
                }
            } else {
                proof {
                    assert forall|i: int, j: int|
                        0 <= i < self.entries@.len() && 0 <= j < kept@.len() implies (
                    #[trigger] self.entries@[i]).node != (#[trigger] kept@[j]).node by {
                    }
                }
            }
        }
        self.entries = kept;
    }
}

} // verus!
