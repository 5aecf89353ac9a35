//! The dashboard handle and the one quantity the queue bars compute.
//! Rendering itself is terminal output and lives in the embedding layer.

use vstd::prelude::*;

verus! {

/// Width of a server's queue bar, in cells.
pub const QUEUE_BAR_WIDTH: usize = 10;

/// Handle for the dashboard renderer. It carries no state; the embedding
/// layer draws with it.
pub struct Display;

impl Display {
    /// A fresh dashboard handle.
    pub fn new() -> Display {
        Display
    }
}

/// Number of filled cells in a server's queue bar: one per pending task,
/// saturating at the bar width.
pub fn queue_bar_fill(queue_length: usize) -> (filled: usize)
    ensures
        filled == vstd::math::min(queue_length as int, QUEUE_BAR_WIDTH as int),
{
    if queue_length < QUEUE_BAR_WIDTH {
        queue_length
    } else {
        QUEUE_BAR_WIDTH
    }
}

} // verus!
