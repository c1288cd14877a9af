//! The events broadcast to every block task: a refresh signal, a layer
//! change, or a decoded mouse click.

use vstd::prelude::*;

use crate::model::Alignment;

verus! {

/// A block's stable address: its alignment and its position within that
/// alignment's bucket, assigned once at startup.
pub type BlockId = (Alignment, usize);

/// A mouse button, numbered 1 through 5 on the wire; the numbering is
/// part of the click protocol and must not change.
#[derive(Debug, Clone, Copy, PartialEq, Eq, Structural)]
pub enum MouseButton {
    Left,
    Middle,
    Right,
    ScrollUp,
    ScrollDown,
}

impl MouseButton {
    /// The wire number of the button.
    pub open spec fn spec_number(self) -> nat {
        match self {
            MouseButton::Left => 1,
            MouseButton::Middle => 2,
            MouseButton::Right => 3,
            MouseButton::ScrollUp => 4,
            MouseButton::ScrollDown => 5,
        }
    }

    /// The wire number of the button.
    pub fn to_number(self) -> (r: u8)
        ensures
            r == self.spec_number(),
            1 <= r <= 5,
    {
        match self {
            MouseButton::Left => 1,
            MouseButton::Middle => 2,
            MouseButton::Right => 3,
            MouseButton::ScrollUp => 4,
            MouseButton::ScrollDown => 5,
        }
    }

    /// The button with wire number `x`.
    pub fn from_number(x: u8) -> (r: MouseButton)
        requires
            1 <= x <= 5,
        ensures
            r.spec_number() == x,
    {
        if x == 1 {
            MouseButton::Left
        } else if x == 2 {
            MouseButton::Middle
        } else if x == 3 {
            MouseButton::Right
        } else if x == 4 {
            MouseButton::ScrollUp
        } else {
            MouseButton::ScrollDown
        }
    }
}

/// One event on the shared broadcast channel.
#[derive(Debug, Clone, Copy)]
pub enum Event {
    /// The refresh signal was received.
    Signal,
    /// The current layer changed.
    NewLayer,
    /// A mouse button was clicked: the block's id, the monitor the click
    /// happened on, and the button.
    MouseClicked(BlockId, u8, MouseButton),
}

} // verus!
