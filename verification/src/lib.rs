//! The fragment tree of a layout engine: boxes, anonymous boxes, text, images
//! and iframes positioned in flow-relative coordinates, their scrollable
//! overflow in physical coordinates, and the collapsing of block margins.
pub mod geom;
pub mod margins;
pub mod fragment_tree;
pub mod style;
pub mod resources;
pub mod fragments;
