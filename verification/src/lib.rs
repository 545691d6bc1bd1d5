//! Replays the edits of a virtual-tree diffing engine onto a retained scene
//! graph held in a `bevy` world.

pub mod attributes;
pub mod contents;
pub mod edits;
pub mod element_map;
pub mod elements;
pub mod error;
pub mod fidelity;
pub mod host;
pub mod instantiate;
pub mod integration_data;
pub mod node;
pub mod nodes;
pub mod template;
pub mod template_map;
pub mod text;
pub mod tree;
