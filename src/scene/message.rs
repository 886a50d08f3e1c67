//! A message shown over the scenes beneath it.
use crate::manager::Action;
use crate::ui::Button;
use vstd::prelude::*;

verus! {

/// A title line and detail lines, shown as an overlay.
pub struct Message {
    pub messages: Vec<String>,
    pub is_error: bool,
}

/// `A` and `B` dismiss the message; `Start` goes on to the scene beneath.
pub open spec fn message_reply(b: Button) -> Action {
    match b {
        Button::A | Button::B => Action::Pop,
        Button::Start => Action::Bubble,
        _ => Action::Continue,
    }
}

impl Message {
    pub fn new(messages: Vec<String>, is_error: bool) -> (r: Message)
        ensures
            r.messages@ == messages@,
            r.is_error == is_error,
    {
        Message { messages, is_error }
    }

    pub fn pressed(&self, button: Button) -> (r: Action)
        ensures
            r == message_reply(button),
    {
        match button {
            Button::B => Action::Pop,
            Button::A => Action::Pop,
            Button::Start => Action::Bubble,
            _ => Action::Continue,
        }
    }
}

} // verus!
