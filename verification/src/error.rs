//! Why an edit or a template was turned down.

use vstd::prelude::*;

verus! {

/// The ways in which the edits handed to the interpreter can break its
/// protocol. None can be repaired in place: the pass that meets one stops.
#[derive(Debug, Clone, Copy, PartialEq, Eq, Structural)]
pub enum ReconcileError {
    /// An edit needs more operands than the stack holds.
    StackUnderflow,
    /// An id was never assigned a node.
    UnmappedId,
    /// A node that an edit works on is no longer in the host tree.
    MissingNode,
    /// A path leads past a node that has no child at the index asked for.
    BadPath,
    /// A node that siblings are placed beside has no parent that lists it.
    MissingParent,
    /// No template of that name was announced, or it has no root at that index.
    UnknownTemplate,
    /// A template uses a tag outside the supported set.
    UnsupportedTag,
    /// An attribute name outside the supported set.
    UnknownAttribute,
    /// An attribute value that is not of the type that its attribute takes.
    InvalidAttributeValue,
}

} // verus!
