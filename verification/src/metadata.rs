//! The per-window record that is cached and persisted, and the plain
//! geometry payloads carried by window events.

use vstd::prelude::*;

verus! {

/// A window's physical top-left corner, in pixels.
#[derive(Clone, Copy, Debug, PartialEq, Eq, Structural)]
pub struct Position {
    pub x: i32,
    pub y: i32,
}

/// A window's physical dimensions, in pixels.
#[derive(Clone, Copy, Debug, PartialEq, Eq, Structural)]
pub struct Size {
    pub width: u32,
    pub height: u32,
}

/// The persisted attributes of one window: outer position, inner size,
/// and the maximized / visible / decorated / fullscreen flags.
#[derive(Clone, Copy, Debug, PartialEq, Eq, Structural)]
pub struct WindowMetadata {
    pub width: u32,
    pub height: u32,
    pub x: i32,
    pub y: i32,
    pub maximized: bool,
    pub visible: bool,
    pub decorated: bool,
    pub fullscreen: bool,
}

} // verus!
