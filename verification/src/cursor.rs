//! Portable cursor descriptions shared by the classifier and the cursor state.
use vstd::prelude::*;

verus! {

/// The portable kind of a cursor shape.
#[derive(Clone, Copy, Debug, PartialEq, Eq, Structural)]
pub enum CursorKind {
    Default,
    Textcursor,
    Handpointing,
    Busy,
    Help,
    Cross,
    Move,
    Notallowed,
    Resizewesteast,
    Resizenorthsouth,
    Resizenortheastsouthwest,
    Resizenorthwestsoutheast,
    Custom,
}

/// The hotspot of a cursor image, in pixels from its top-left corner.
#[derive(Clone, Copy, Debug, PartialEq, Eq, Structural)]
pub struct Hotspot {
    pub x: u32,
    pub y: u32,
}

} // verus!
