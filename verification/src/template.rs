//! Templates as the diffing engine describes them.

use vstd::prelude::*;
use crate::node::Element;

verus! {

/// The description of one node of a template.
#[derive(Debug)]
pub enum TemplateNode {
    /// An element with its tag and the descriptions of its children, in order.
    Element { tag: String, children: Vec<TemplateNode> },
    /// Text that never changes.
    Text { text: String },
    /// A slot that later edits fill with nodes.
    Dynamic { id: usize },
    /// A slot that later edits fill with text.
    DynamicText { id: usize },
}

/// A named fragment: its roots, in order.
#[derive(Debug)]
pub struct Template {
    pub name: String,
    pub roots: Vec<TemplateNode>,
}

} // verus!
