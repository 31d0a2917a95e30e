//! The computed style values that fragments read.
use vstd::prelude::*;

use crate::geom::WritingMode;

verus! {

/// The computed value of `overflow-x` or `overflow-y`.
#[derive(Clone, Copy, Debug, PartialEq, Eq, Structural)]
pub enum ComputedOverflow {
    Visible,
    Hidden,
    Scroll,
    Auto,
}

/// The computed style of an element, as far as fragments read it.
#[derive(Clone, Copy, Debug, PartialEq, Eq, Structural)]
pub struct ComputedValues {
    pub writing_mode: WritingMode,
    pub overflow_x: ComputedOverflow,
    pub overflow_y: ComputedOverflow,
}

/// The used value of `text-decoration-line`, as a set of flags.
#[derive(Clone, Copy, Debug, PartialEq, Eq, Structural)]
pub struct TextDecorationLine {
    pub bits: u8,
}

} // verus!
