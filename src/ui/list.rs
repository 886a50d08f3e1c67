//! A titled list of items with a cursor over it.
use crate::cursor::{Cursor, CursorView};
use crate::manager::Action;
use crate::ui::Button;
use vstd::prelude::*;

verus! {

pub const PADDING: u32 = 4;

pub const PAGE_SIZE: usize = 10;

/// Width of the preview image column on a screen `width` pixels wide.
pub fn preview_width_for_screen_width(width: u32) -> (r: u32)
    ensures
        r == width / 3,
{
    width / 3
}

/// Items of type `T`, a cursor over them, and a title.
pub struct List<T> {
    items: Vec<T>,
    cursor: Cursor,
    title: String,
}

/// The reply of a list to a navigation button, or `None` for other buttons.
pub open spec fn navigation_reply(b: Button) -> Option<Action> {
    match b {
        Button::B => Some(Action::Pop),
        Button::Up | Button::Down | Button::Left | Button::Right => Some(Action::Continue),
        _ => None,
    }
}

/// The cursor after navigation button `b`; other buttons leave it alone.
pub open spec fn navigated(c: CursorView, b: Button) -> CursorView {
    match b {
        Button::Up => c.up(),
        Button::Down => c.down(),
        Button::Left => c.page_up(),
        Button::Right => c.page_down(),
        _ => c,
    }
}

impl<T> List<T> {
    pub closed spec fn items(&self) -> Seq<T> {
        self.items@
    }

    pub closed spec fn cursor_view(&self) -> CursorView {
        self.cursor@
    }

    pub closed spec fn title(&self) -> Seq<char> {
        self.title@
    }

    pub open spec fn wf(&self) -> bool {
        &&& self.cursor_view().wf()
        &&& self.cursor_view().len == self.items().len()
        &&& self.cursor_view().page_size == PAGE_SIZE
    }

    /// The selected item, if the list is not empty.
    pub open spec fn current(&self) -> Option<T> {
        if self.cursor_view().index < self.items().len() {
            Some(self.items()[self.cursor_view().index as int])
        } else {
            None
        }
    }

    pub fn new(items: Vec<T>, title: String) -> (r: List<T>)
        ensures
            r.wf(),
            r.items() == items@,
            r.title() == title@,
            r.cursor_view() == CursorView::initial(items@.len(), PAGE_SIZE as nat),
    {
        let len = items.len();
        List { items, cursor: Cursor::new(len, PAGE_SIZE), title }
    }

    pub fn cursor(&self) -> (r: &Cursor)
        ensures
            r@ == self.cursor_view(),
    {
        &self.cursor
    }

    pub fn title_text(&self) -> (r: &String)
        ensures
            r@ == self.title(),
    {
        &self.title
    }

    pub fn items_slice(&self) -> (r: &Vec<T>)
        ensures
            r@ == self.items(),
    {
        &self.items
    }

    pub fn current_item(&self) -> (r: Option<&T>)
        ensures
            match r {
                Some(x) => self.current() == Some(*x),
                None => self.current() is None,
            },
    {
        let i = self.cursor.index();
        if i < self.items.len() {
            Some(&self.items[i])
        } else {
            None
        }
    }

    /// `B` pops the scene, the direction pad moves the cursor (a row up or
    /// down, a page left or right); other buttons are left to the caller.
    pub fn handle_navigation(&mut self, button: Button) -> (r: Option<Action>)
        requires
            old(self).wf(),
        ensures
            r == navigation_reply(button),
            final(self).wf(),
            final(self).items() == old(self).items(),
            final(self).title() == old(self).title(),
            final(self).cursor_view() == navigated(old(self).cursor_view(), button),
    {
        match button {
            Button::B => Some(Action::Pop),
            Button::Up => {
                self.cursor.up();
                Some(Action::Continue)
            },
            Button::Down => {
                self.cursor.down();
                Some(Action::Continue)
            },
            Button::Left => {
                self.cursor.page_up();
                Some(Action::Continue)
            },
            Button::Right => {
                self.cursor.page_down();
                Some(Action::Continue)
            },
            _ => None,
        }
    }
}

} // verus!
