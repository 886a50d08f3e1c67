//! The scenes of the picker and what they do with a button press.
use crate::manager::Action;
use crate::ui::{black, Button, Color};
use vstd::prelude::*;

pub mod message;
pub mod selectgame;
pub mod selectsave;
pub mod selectstring;

use message::Message;
use selectgame::SelectGame;
use selectsave::{CommitRequest, SelectSave};
use selectstring::SelectString;

verus! {

/// The result a session ends with.
pub enum Completion {
    Game(selectgame::Operation),
    Item(selectstring::Operation),
}

/// File work that a scene asks the host to do before it can go on.
pub enum Request {
    /// List the saves of `game` and push a save-selection scene for them.
    OpenGame { game: String, root: String, destination: String },
    /// Install a save file as the active save of its game.
    CommitSave(CommitRequest),
}

/// One interactive screen on the scene stack.
pub enum Scene {
    SelectGame(SelectGame),
    SelectSave(SelectSave),
    SelectString(SelectString),
    Message(Message),
}

impl Scene {
    pub open spec fn wf(&self) -> bool {
        match self {
            Scene::SelectGame(s) => s.wf(),
            Scene::SelectSave(s) => s.wf(),
            Scene::SelectString(s) => s.wf(),
            Scene::Message(_) => true,
        }
    }

    /// What the scene answers to button `b`.
    pub open spec fn reply(&self, b: Button) -> Action {
        match self {
            Scene::SelectGame(s) => s.reply(b),
            Scene::SelectSave(s) => s.reply(b),
            Scene::SelectString(s) => s.reply(b),
            Scene::Message(_) => message::message_reply(b),
        }
    }

    /// `next` is this scene after button `b`: only a list cursor moves.
    pub open spec fn stepped(&self, next: Scene, b: Button) -> bool {
        match (*self, next) {
            (Scene::SelectGame(s), Scene::SelectGame(n)) => s.stepped(n, b),
            (Scene::SelectSave(s), Scene::SelectSave(n)) => s.stepped(n, b),
            (Scene::SelectString(s), Scene::SelectString(n)) => s.stepped(n, b),
            (Scene::Message(s), Scene::Message(n)) => s == n,
            _ => false,
        }
    }

    /// The color the screen is cleared with under this scene; no scene
    /// changes the default.
    pub open spec fn color(&self) -> Color {
        match self {
            Scene::SelectGame(_) => black(),
            Scene::SelectSave(_) => black(),
            Scene::SelectString(_) => black(),
            Scene::Message(_) => black(),
        }
    }

    /// Overlays are drawn over the scenes beneath them.
    pub open spec fn overlay(&self) -> bool {
        self is Message
    }

    pub fn pressed(&mut self, button: Button) -> (r: Action)
        requires
            old(self).wf(),
        ensures
            r == old(self).reply(button),
            final(self).wf(),
            old(self).stepped(*final(self), button),
            r is Bubble ==> *final(self) == *old(self),
    {
        match self {
            Scene::SelectGame(s) => s.pressed(button),
            Scene::SelectSave(s) => s.pressed(button),
            Scene::SelectString(s) => s.pressed(button),
            Scene::Message(s) => s.pressed(button),
        }
    }

    pub fn is_overlay(&self) -> (r: bool)
        ensures
            r == self.overlay(),
    {
        match self {
            Scene::Message(_) => true,
            _ => false,
        }
    }

    /// The color the screen is cleared with under this scene.
    pub fn background_color(&self) -> (r: Color)
        ensures
            r == self.color(),
    {
        match self {
            Scene::SelectGame(_) => Color { r: 0, g: 0, b: 0, a: 255 },
            Scene::SelectSave(_) => Color { r: 0, g: 0, b: 0, a: 255 },
            Scene::SelectString(_) => Color { r: 0, g: 0, b: 0, a: 255 },
            Scene::Message(_) => Color { r: 0, g: 0, b: 0, a: 255 },
        }
    }
}

} // verus!
