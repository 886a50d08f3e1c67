//! A single list of strings to pick one from.
use crate::manager::Action;
use crate::scene::Completion;
use crate::ui::list::{navigated, navigation_reply, List};
use crate::ui::Button;
use vstd::prelude::*;

verus! {

pub struct SelectString {
    pub list: List<String>,
}

/// The result of a string selection.
pub enum Operation {
    SelectItem(String),
}

impl SelectString {
    pub open spec fn wf(&self) -> bool {
        self.list.wf()
    }

    /// Navigation moves the cursor; `A` completes with the selected string.
    pub open spec fn reply(&self, b: Button) -> Action {
        match navigation_reply(b) {
            Some(a) => a,
            None => if b == Button::A && self.list.current() is Some {
                Action::Complete(Completion::Item(Operation::SelectItem(self.list.current().unwrap())))
            } else {
                Action::Continue
            },
        }
    }

    pub open spec fn stepped(&self, next: SelectString, b: Button) -> bool {
        &&& next.list.items() == self.list.items()
        &&& next.list.title() == self.list.title()
        &&& next.list.cursor_view() == navigated(self.list.cursor_view(), b)
    }

    pub fn new(items: Vec<String>, title: String) -> (r: SelectString)
        ensures
            r.wf(),
            r.list.items() == items@,
            r.list.title() == title@,
            r.list.cursor_view().index == 0,
    {
        SelectString { list: List::new(items, title) }
    }

    pub fn pressed(&mut self, button: Button) -> (r: Action)
        requires
            old(self).wf(),
        ensures
            r == old(self).reply(button),
            final(self).wf(),
            old(self).stepped(*final(self), button),
    {
        if let Some(action) = self.list.handle_navigation(button) {
            return action;
        }
        match button {
            Button::A => match self.list.current_item() {
                Some(item) => Action::Complete(Completion::Item(Operation::SelectItem(item.clone()))),
                None => Action::Continue,
            },
            _ => Action::Continue,
        }
    }
}

} // verus!
