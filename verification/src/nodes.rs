//! What a node of each kind is spawned with.

use vstd::prelude::*;

verus! {

/// A plain container.
#[derive(Debug, Clone, Copy, Default, PartialEq, Eq, Structural)]
pub struct SimpleNode {}

/// A run of text.
#[derive(Debug, Clone, Default)]
pub struct TextNode {
    pub text: String,
}

/// An image.
#[derive(Debug, Clone, Copy, Default, PartialEq, Eq, Structural)]
pub struct ImageNode {}

/// A button.
#[derive(Debug, Clone, Copy, Default, PartialEq, Eq, Structural)]
pub struct ButtonNode {}

} // verus!
