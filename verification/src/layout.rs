//! The pane-layout vocabulary the key bindings and routing speak in: split
//! orientations, focus/resize directions, and pane identities.

use vstd::prelude::*;

verus! {

/// How a pane is split: side by side, or one above the other.
#[derive(Debug, Clone, Copy, PartialEq, Eq, Hash, Structural)]
pub enum Orientation {
    Horizontal,
    Vertical,
}

/// A direction to move focus or grow a pane in.
#[derive(Debug, Clone, Copy, PartialEq, Eq, Hash, Structural)]
pub enum Direction {
    Up,
    Down,
    Left,
    Right,
}

/// Identifies one pane for as long as it exists; ids are never reused.
#[derive(Debug, Clone, Copy, PartialEq, Eq, Hash, PartialOrd, Ord, Structural)]
pub struct PaneId(pub u64);

} // verus!
