//! What an event handler tells the event loop.
use vstd::prelude::*;

verus! {

/// For every iteration of the loop return one
/// variant of this enum.
#[derive(Debug, Copy, Clone, PartialEq, Eq, Structural)]
pub enum LoopAction {
    /// Continue the loop
    Continue,
    /// Quit
    Quit,
}

} // verus!
