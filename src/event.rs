//! The input events that the screens react to.

use vstd::prelude::*;

verus! {

/// A key press.
#[derive(PartialEq, Eq, Structural, Clone, Copy, Debug)]
pub enum Key {
    Up,
    Down,
    Esc,
    Char(char),
    /// Any other key.
    Other,
}

/// A mouse button or wheel movement.
#[derive(PartialEq, Eq, Structural, Clone, Copy, Debug)]
pub enum MouseButton {
    WheelUp,
    WheelDown,
    /// Any other button.
    Other,
}

/// One input event.
#[derive(PartialEq, Eq, Structural, Clone, Copy, Debug)]
pub enum Event {
    Key(Key),
    /// A button pressed, or the wheel turned, anywhere on the screen.
    MousePress(MouseButton),
    /// Anything else the terminal reports.
    Other,
}

} // verus!
