//! Corners with one command for each kind of event.

use vstd::prelude::*;

verus! {

/// Something that a pointer does in a corner.
#[derive(Clone, Copy, Debug, PartialEq, Eq, Structural)]
pub enum CornerEvent {
    Enter,
    Leave,
    Click(u32),
}

/// One corner or edge, with one command for each kind of event.
#[derive(Clone, Debug)]
pub struct GapConfig {
    pub output: Option<String>,
    pub enter_command: Vec<String>,
    pub exit_command: Vec<String>,
    pub click_command: Vec<String>,
    pub anchor: Anchor,
    pub size: u32,
    pub margin: i32,
    pub timeout_ms: u16,
    pub color: u32,
}

/// The corner or the edge of the screen that a surface lies at.
#[derive(Clone, Copy, Debug, PartialEq, Eq, Structural)]
pub enum Anchor {
    TopLeft,
    TopRight,
    BottomRight,
    BottomLeft,
    Left,
    Right,
    Top,
    Bottom,
}

impl Default for Anchor {
    fn default() -> (r: Anchor)
        ensures
            r == Anchor::TopLeft,
    {
        Anchor::TopLeft
    }
}

} // verus!
