//! The scene stack: routes button presses to the scenes and says which of
//! them are drawn.
use crate::scene::message::Message;
use crate::scene::selectgame::{Operation, SelectGame};
use crate::scene::{Completion, Request, Scene};
use crate::ui::{self, black, Button, Color};
use vstd::prelude::*;

verus! {

/// What a scene answers to a button press.
pub enum Action {
    /// Nothing more to do.
    Continue,
    /// Put a new scene on top of the stack.
    Push(Scene),
    /// Remove the top scene.
    Pop,
    /// End the session with a result.
    Complete(Completion),
    /// Not handled here: offer the button to the scene beneath.
    Bubble,
    /// Ask the host for file work.
    Request(Request),
}

/// The stack of scenes; the last one is on top.
pub struct Manager {
    scenes: Vec<Scene>,
}

pub open spec fn all_wf(s: Seq<Scene>) -> bool {
    forall|i: int| 0 <= i < s.len() ==> #[trigger] s[i].wf()
}

/// The topmost scene below position `i` that does not pass button `b` on,
/// or `-1`.
pub open spec fn handler(s: Seq<Scene>, b: Button, i: int) -> int
    decreases i,
{
    if i <= 0 || i > s.len() {
        -1
    } else if !(s[i - 1].reply(b) is Bubble) {
        i - 1
    } else {
        handler(s, b, i - 1)
    }
}

/// What the host does after button `b` on stack `s`. `Select` cancels the
/// session and `R2` takes a screenshot, whatever the scenes; any other button
/// goes to the topmost scene that handles it.
pub open spec fn outcome(s: Seq<Scene>, b: Button) -> ui::Action {
    if b == Button::Select {
        ui::Action::Quit
    } else if b == Button::R2 {
        ui::Action::Screenshot
    } else {
        let k = handler(s, b, s.len() as int);
        if k < 0 {
            ui::Action::Quit
        } else {
            match s[k].reply(b) {
                Action::Continue => ui::Action::Continue,
                Action::Push(_) => ui::Action::Continue,
                Action::Pop => if s.len() <= 1 {
                    ui::Action::Quit
                } else {
                    ui::Action::Continue
                },
                Action::Complete(c) => ui::Action::Complete(c),
                Action::Bubble => ui::Action::Quit,
                Action::Request(q) => ui::Action::Perform(q),
            }
        }
    }
}

/// How stack `s` becomes `n` after button `b`: the handling scene moves its
/// cursor, then its answer pushes a scene or pops the top one.
pub open spec fn moved(s: Seq<Scene>, n: Seq<Scene>, b: Button) -> bool {
    let k = handler(s, b, s.len() as int);
    if b == Button::Select || b == Button::R2 || k < 0 {
        n == s
    } else {
        let a = s[k].reply(b);
        let len: int = match a {
            Action::Push(_) => s.len() as int + 1,
            Action::Pop => s.len() as int - 1,
            _ => s.len() as int,
        };
        &&& n.len() == len
        &&& forall|j: int| 0 <= j < len && j < s.len() && j != k ==> #[trigger] n[j] == s[j]
        &&& k < len ==> s[k].stepped(n[k], b)
        &&& a matches Action::Push(p) ==> n[s.len() as int] == p
    }
}

/// Position of the lowest scene drawn below position `i`: the topmost
/// scene that is no overlay, or the bottom.
pub open spec fn draw_start(s: Seq<Scene>, i: int) -> int
    decreases i,
{
    if i <= 0 || i > s.len() {
        0
    } else if !s[i - 1].overlay() {
        i - 1
    } else {
        draw_start(s, i - 1)
    }
}

/// The positions of the scenes drawn, bottom first.
pub open spec fn draw_order(s: Seq<Scene>) -> Seq<int> {
    let start = draw_start(s, s.len() as int);
    Seq::new((s.len() - start) as nat, |i: int| start + i)
}

/// The background color of the topmost scene below position `i` that is no
/// overlay; black where there is none.
pub open spec fn background_from(s: Seq<Scene>, i: int) -> Color
    decreases i,
{
    if i <= 0 || i > s.len() {
        black()
    } else if !s[i - 1].overlay() {
        s[i - 1].color()
    } else {
        background_from(s, i - 1)
    }
}

pub open spec fn background_of(s: Seq<Scene>) -> Color {
    background_from(s, s.len() as int)
}

proof fn lemma_push_keeps_below(s: Seq<Scene>, m: Scene, b: Button, i: int)
    requires
        0 <= i <= s.len(),
    ensures
        draw_start(s.push(m), i) == draw_start(s, i),
        background_from(s.push(m), i) == background_from(s, i),
        handler(s.push(m), b, i) == handler(s, b, i),
    decreases i,
{
    if i > 0 {
        lemma_push_keeps_below(s, m, b, i - 1);
        assert(s.push(m)[i - 1] == s[i - 1]);
    }
}

/// Pushing an overlay onto a stack keeps the stack's background color, and
/// the overlay is drawn last, after what the stack drew before.
pub proof fn lemma_overlay_push(s: Seq<Scene>, m: Scene)
    requires
        m.overlay(),
    ensures
        background_of(s.push(m)) == background_of(s),
        draw_order(s.push(m)) == draw_order(s).push(s.len() as int),
{
    lemma_push_keeps_below(s, m, Button::A, s.len() as int);
    lemma_draw_start_range(s, s.len() as int);
    assert(draw_start(s.push(m), s.len() as int + 1) == draw_start(s, s.len() as int));
    assert(draw_order(s.push(m)) =~= draw_order(s).push(s.len() as int));
}

/// A message over a stack passes `Start` on: the outcome is the one the
/// stack beneath gives without it.
pub proof fn lemma_message_passes_start(s: Seq<Scene>, m: Message)
    ensures
        outcome(s.push(Scene::Message(m)), Button::Start) == outcome(s, Button::Start),
{
    let t = s.push(Scene::Message(m));
    lemma_push_keeps_below(s, Scene::Message(m), Button::Start, s.len() as int);
    assert(handler(t, Button::Start, t.len() as int) == handler(s, Button::Start, s.len() as int));
    let k = handler(s, Button::Start, s.len() as int);
    if k >= 0 {
        lemma_handler_range(s, Button::Start, s.len() as int);
        assert(t[k] == s[k]);
    }
}

proof fn lemma_draw_start_range(s: Seq<Scene>, i: int)
    requires
        0 <= i <= s.len(),
    ensures
        0 <= draw_start(s, i) <= i,
    decreases i,
{
    if i > 0 {
        lemma_draw_start_range(s, i - 1);
    }
}

proof fn lemma_handler_range(s: Seq<Scene>, b: Button, i: int)
    requires
        0 <= i <= s.len(),
    ensures
        -1 <= handler(s, b, i) < i,
    decreases i,
{
    if i > 0 {
        lemma_handler_range(s, b, i - 1);
    }
}

/// With a message shown over a game picker that has a selection, `Start`
/// completes the session with the selected game.
pub proof fn lemma_start_under_message(g: SelectGame, m: Message)
    requires
        g.list.current() is Some,
    ensures
        outcome(seq![Scene::SelectGame(g), Scene::Message(m)], Button::Start) == ui::Action::Complete(
            Completion::Game(Operation::ExecGame(g.list.current().unwrap())),
        ),
{
    let s = seq![Scene::SelectGame(g)];
    lemma_message_passes_start(s, m);
    assert(s.push(Scene::Message(m)) =~= seq![Scene::SelectGame(g), Scene::Message(m)]);
    assert(handler(s, Button::Start, 1) == 0);
}

impl View for Manager {
    type V = Seq<Scene>;

    closed spec fn view(&self) -> Seq<Scene> {
        self.scenes@
    }
}

impl Manager {
    pub open spec fn wf(&self) -> bool {
        all_wf(self@)
    }

    /// A stack holding `root_scene` alone.
    pub fn new(root_scene: Scene) -> (r: Manager)
        requires
            root_scene.wf(),
        ensures
            r@ == seq![root_scene],
            r.wf(),
    {
        Manager { scenes: vec![root_scene] }
    }

    /// The scenes, bottom first.
    pub fn scenes(&self) -> (r: &Vec<Scene>)
        ensures
            r@ == self@,
    {
        &self.scenes
    }

    /// Puts `scene` on top.
    pub fn push(&mut self, scene: Scene)
        requires
            old(self).wf(),
            scene.wf(),
        ensures
            final(self)@ == old(self)@.push(scene),
            final(self).wf(),
    {
        self.scenes.push(scene);
    }

    /// Shows the outcome of an install over the current scenes: its log, or
    /// the error text.
    pub fn finish_commit(&mut self, outcome: Result<Vec<String>, String>)
        requires
            old(self).wf(),
        ensures
            final(self).wf(),
            final(self)@.len() == old(self)@.len() + 1,
            final(self)@.subrange(0, old(self)@.len() as int) == old(self)@,
            final(self)@.last() matches Scene::Message(m) && match outcome {
                Ok(log) => m.messages@ == log@ && !m.is_error,
                Err(e) => m.is_error && m.messages@.len() == 2 && m.messages@[0]@
                    == "Error updating saves"@ && m.messages@[1]@ == e@,
            },
    {
        let m = match outcome {
            Ok(log) => Message::new(log, false),
            Err(e) => Message::new(vec!["Error updating saves".to_owned(), e], true),
        };
        self.scenes.push(Scene::Message(m));
        assert(self@.subrange(0, old(self)@.len() as int) =~= old(self)@);
    }

    /// Handles one button press.
    pub fn pressed(&mut self, button: Button) -> (r: ui::Action)
        requires
            old(self).wf(),
        ensures
            r == outcome(old(self)@, button),
            final(self).wf(),
            moved(old(self)@, final(self)@, button),
    {
        match button {
            Button::Select => {
                return ui::Action::Quit;
            },
            Button::R2 => {
                return ui::Action::Screenshot;
            },
            _ => {},
        }
        let ghost s = self@;
        assert(s == old(self)@);
        let mut i = self.scenes.len();
        while i > 0
            invariant
                self@ == s,
                s == old(self)@,
                all_wf(s),
                i <= s.len(),
                handler(s, button, s.len() as int) == handler(s, button, i as int),
                button != Button::Select && button != Button::R2,
            decreases i,
        {
            i = i - 1;
            let action = self.scenes[i].pressed(button);
            assert(action == s[i as int].reply(button));
            if !matches!(action, Action::Bubble) {
                assert(handler(s, button, s.len() as int) == i);
                let ghost mid = self@;
                assert(mid == s.update(i as int, mid[i as int]));
                assert(s[i as int].stepped(mid[i as int], button));
                return match action {
                    Action::Continue => ui::Action::Continue,
                    Action::Push(scene) => {
                        self.scenes.push(scene);
                        ui::Action::Continue
                    },
                    Action::Pop => {
                        self.scenes.pop();
                        if self.scenes.len() == 0 {
                            ui::Action::Quit
                        } else {
                            ui::Action::Continue
                        }
                    },
                    Action::Complete(c) => ui::Action::Complete(c),
                    Action::Bubble => ui::Action::Quit,
                    Action::Request(q) => ui::Action::Perform(q),
                };
            }
            assert(self@ =~= s);
        }
        ui::Action::Quit
    }

    /// The color to clear the screen with: that of the topmost scene that is
    /// no overlay.
    pub fn background_color(&self) -> (r: Color)
        ensures
            r == background_of(self@),
    {
        let mut i = self.scenes.len();
        while i > 0
            invariant
                i <= self@.len(),
                background_of(self@) == background_from(self@, i as int),
            decreases i,
        {
            if !self.scenes[i - 1].is_overlay() {
                return self.scenes[i - 1].background_color();
            }
            i = i - 1;
        }
        Color { r: 0, g: 0, b: 0, a: 255 }
    }

    /// The positions of the scenes to draw, bottom first: the topmost scene
    /// that is no overlay and every overlay above it.
    pub fn draw_order(&self) -> (r: Vec<usize>)
        ensures
            r@.len() == draw_order(self@).len(),
            forall|i: int| 0 <= i < r@.len() ==> r@[i] as int == #[trigger] draw_order(self@)[i],
    {
        let n = self.scenes.len();
        let mut top = n;
        while top > 0 && self.scenes[top - 1].is_overlay()
            invariant
                top <= n == self@.len(),
                draw_start(self@, n as int) == draw_start(self@, top as int),
            decreases top,
        {
            top = top - 1;
        }
        let start = if top > 0 {
            top - 1
        } else {
            0
        };
        assert(draw_start(self@, n as int) == start);
        let mut r: Vec<usize> = Vec::new();
        let mut k = start;
        while k < n
            invariant
                start <= k <= n == self@.len(),
                draw_start(self@, n as int) == start,
                r@.len() == k - start,
                forall|i: int| 0 <= i < r@.len() ==> r@[i] as int == start + i,
            decreases n - k,
        {
            r.push(k);
            k = k + 1;
        }
        r
    }
}

} // verus!
