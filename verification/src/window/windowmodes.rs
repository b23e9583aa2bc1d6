//! How a window takes up the screen.

use vstd::prelude::*;

verus! {

/// The ways in which a window can be shown.
#[derive(Clone, Copy, Debug, PartialEq, Eq, Structural)]
pub enum WindowModes {
    /// An ordinary window.
    Window,
    /// A window without borders that covers the screen.
    Borderless,
    /// The screen is handed over to the window.
    Exclusive,
}

} // verus!
