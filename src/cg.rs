//! Value types of the graphics objects.
use vstd::prelude::*;

verus! {

/// Where an image keeps its alpha channel, if it has one.
#[derive(Clone, Copy, Debug, PartialEq, Eq, Structural)]
pub enum AlphaInfo {
    Opaque,
    PremultipliedLast,
    PremultipliedFirst,
    Last,
    First,
    NoneSkipLast,
    NoneSkipFirst,
    Only,
}

/// Which rectangles of a display stream update are asked for.
#[derive(Clone, Copy, Debug, PartialEq, Eq, Structural)]
pub enum UpdateRectType {
    /// Refreshed on the display, not counting moved ones.
    RefreshedRects,
    /// Moved from one part of the display to another.
    MovedRects,
    /// Both refreshed and moved.
    DirtyRects,
    /// A possibly simplified, overstated set of dirty rectangles.
    ReducedDirtyRects,
}

/// What a display stream reports with a frame.
#[derive(Clone, Copy, Debug, PartialEq, Eq, Structural)]
pub enum FrameStatus {
    /// A new frame was made for the display.
    FrameComplete,
    /// No new frame was made.
    FrameIdle,
    /// The display has gone blank.
    FrameBlank,
    /// The stream stopped.
    StatusStopped,
}

} // verus!
