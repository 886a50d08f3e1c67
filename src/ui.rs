//! Buttons, colors and the outcome of one button press.
use crate::scene::{Completion, Request};
use vstd::prelude::*;

pub mod list;

verus! {

/// The abstract buttons of the device's controller.
#[derive(Clone, Copy, Debug, PartialEq, Eq, Structural)]
pub enum Button {
    A,
    B,
    X,
    Y,
    L1,
    R1,
    Start,
    Select,
    L3,
    R3,
    L2,
    R2,
    Up,
    Down,
    Left,
    Right,
}

/// The button that joystick button number `idx` stands for, if any.
pub open spec fn joystick_button(idx: u8) -> Option<Button> {
    if idx == 0 {
        Some(Button::A)
    } else if idx == 1 {
        Some(Button::B)
    } else if idx == 2 {
        Some(Button::X)
    } else if idx == 3 {
        Some(Button::Y)
    } else if idx == 4 {
        Some(Button::L1)
    } else if idx == 5 {
        Some(Button::R1)
    } else if idx == 6 {
        Some(Button::Start)
    } else if idx == 7 {
        Some(Button::Select)
    } else if idx == 8 {
        Some(Button::L3)
    } else if idx == 9 {
        Some(Button::R3)
    } else if idx == 10 {
        Some(Button::L2)
    } else if idx == 11 {
        Some(Button::R2)
    } else {
        None
    }
}

impl Button {
    /// Maps a joystick button number to a button; the direction pad is
    /// reported separately and has no number.
    pub fn from_joystick_index(idx: u8) -> (r: Option<Button>)
        ensures
            r == joystick_button(idx),
    {
        match idx {
            0 => Some(Button::A),
            1 => Some(Button::B),
            2 => Some(Button::X),
            3 => Some(Button::Y),
            4 => Some(Button::L1),
            5 => Some(Button::R1),
            6 => Some(Button::Start),
            7 => Some(Button::Select),
            8 => Some(Button::L3),
            9 => Some(Button::R3),
            10 => Some(Button::L2),
            11 => Some(Button::R2),
            _ => None,
        }
    }
}

/// The two font sizes the screen uses.
#[derive(Clone, Copy, Debug, PartialEq, Eq, Structural)]
pub enum FontSize {
    Body,
    Title,
}

/// An RGBA color.
#[derive(Clone, Copy, Debug, PartialEq, Eq, Structural)]
pub struct Color {
    pub r: u8,
    pub g: u8,
    pub b: u8,
    pub a: u8,
}

pub open spec fn black() -> Color {
    Color { r: 0, g: 0, b: 0, a: 255 }
}

/// What the host loop does after a button press.
pub enum Action {
    /// Keep running.
    Continue,
    /// Save an image of the screen.
    Screenshot,
    /// End the session without a result.
    Quit,
    /// End the session with a result.
    Complete(Completion),
    /// Do the file work described, then report back to the scene stack.
    Perform(Request),
}

} // verus!
