//! The list of games found three directory levels under the root.
use crate::internal::{
    components, join_with, path_components, push_joined, relative_components, strip_components,
};
use crate::manager::Action;
use crate::scene::{Completion, Request};
use crate::text::{chars_of, lemma_rfind_before_range, rfind_before, rfind_char_end, views};
use crate::ui::list::{navigated, navigation_reply, List};
use crate::ui::Button;
use vstd::prelude::*;

verus! {

/// The game picker: games are directory paths under `root`; saves are
/// installed under `destination`; `offset` varies the background animation.
pub struct SelectGame {
    pub root: String,
    pub destination: String,
    pub list: List<String>,
    pub offset: usize,
}

/// The result of a game selection.
pub enum Operation {
    ExecGame(String),
}

/// The extension of a file name as `Path::extension` reads it: after the
/// last `.`, unless that `.` starts the name.
pub open spec fn last_extension_of(p: Seq<char>) -> Option<Seq<char>> {
    let s = rfind_before(p, '/', p.len() as int) + 1;
    let d = rfind_before(p, '.', p.len() as int);
    if d <= s {
        None
    } else {
        Some(p.subrange(d + 1, p.len() as int))
    }
}

/// Whether `p` names a preview image (`.png` or `.jpg`).
pub open spec fn is_image(p: Seq<char>) -> bool {
    last_extension_of(p) == Some("png"@) || last_extension_of(p) == Some("jpg"@)
}

/// The last preview image among `files`.
pub open spec fn last_image(files: Seq<Seq<char>>) -> Option<Seq<char>>
    decreases files.len(),
{
    if files.len() == 0 {
        None
    } else if is_image(files.last()) {
        Some(files.last())
    } else {
        last_image(files.drop_last())
    }
}

/// Short tag for the language directory of a game.
pub open spec fn language_tag(w: Seq<char>) -> Seq<char> {
    if w == "Japanese"@ {
        "(J)"@
    } else if w == "Chinese"@ {
        "(C)"@
    } else if w == "English"@ {
        "(E)"@
    } else {
        "(O)"@
    }
}

/// The words of a game's label: its path components below the root but the
/// first, the language directory shortened to its tag.
pub open spec fn label_words(rel: Seq<Seq<char>>) -> Seq<Seq<char>> {
    if rel.len() <= 1 {
        Seq::empty()
    } else {
        Seq::new(
            (rel.len() - 1) as nat,
            |i: int|
                if i == 0 {
                    language_tag(rel[1])
                } else {
                    rel[i + 1]
                },
        )
    }
}

/// The label shown for `game` under `root`.
pub open spec fn game_label(game: Seq<char>, root: Seq<char>) -> Seq<char> {
    let rel = match relative_components(game, root) {
        Some(r) => r,
        None => components(game),
    };
    join_with(label_words(rel), ' ')
}

/// Extension of `p` as [`last_extension_of`] states it.
pub fn last_extension(p: &str) -> (r: Option<String>)
    ensures
        match r {
            Some(e) => last_extension_of(p@) == Some(e@),
            None => last_extension_of(p@) is None,
        },
{
    let v = chars_of(p);
    proof {
        lemma_rfind_before_range(v@, '/', v@.len() as int);
        lemma_rfind_before_range(v@, '.', v@.len() as int);
    }
    let s = rfind_char_end(&v, '/', v.len());
    let d1 = rfind_char_end(&v, '.', v.len());
    if d1 == 0 || d1 - 1 <= s {
        None
    } else {
        Some(crate::text::string_of_range(&v, d1, v.len()))
    }
}

/// Whether `p` names a preview image, as [`is_image`] states it.
pub fn image_file(p: &str) -> (r: bool)
    ensures
        r == is_image(p@),
{
    proof {
        reveal_strlit("png");
        reveal_strlit("jpg");
    }
    match last_extension(p) {
        Some(e) => {
            let png = "png".to_owned();
            let jpg = "jpg".to_owned();
            e == png || e == jpg
        },
        None => false,
    }
}

/// The last preview image among the files of a game directory.
pub fn preview_image_for_game(files: &Vec<String>) -> (r: Option<String>)
    ensures
        match r {
            Some(x) => last_image(views(files@)) == Some(x@),
            None => last_image(views(files@)) is None,
        },
{
    let mut i = files.len();
    assert(files@.subrange(0, i as int) =~= files@);
    while i > 0
        invariant
            i <= files@.len(),
            last_image(views(files@)) == last_image(views(files@.subrange(0, i as int))),
        decreases i,
    {
        let ghost pre = views(files@.subrange(0, i as int));
        assert(pre.drop_last() =~= views(files@.subrange(0, i - 1)));
        assert(pre.last() == files@[i - 1]@);
        if image_file(files[i - 1].as_str()) {
            return Some(files[i - 1].clone());
        }
        i = i - 1;
    }
    None
}

/// Tag of a language directory, as [`language_tag`] states it.
fn language_tag_of(w: &String) -> (r: String)
    ensures
        r@ == language_tag(w@),
{
    if *w == "Japanese".to_owned() {
        "(J)".to_owned()
    } else if *w == "Chinese".to_owned() {
        "(C)".to_owned()
    } else if *w == "English".to_owned() {
        "(E)".to_owned()
    } else {
        "(O)".to_owned()
    }
}

impl SelectGame {
    pub open spec fn wf(&self) -> bool {
        self.list.wf()
    }

    /// Navigation moves the cursor; `A` asks for the saves of the selected
    /// game; `Start` completes with it.
    pub open spec fn reply(&self, b: Button) -> Action {
        match navigation_reply(b) {
            Some(a) => a,
            None => match self.list.current() {
                Some(g) => if b == Button::A {
                    Action::Request(
                        Request::OpenGame { game: g, root: self.root, destination: self.destination },
                    )
                } else if b == Button::Start {
                    Action::Complete(Completion::Game(Operation::ExecGame(g)))
                } else {
                    Action::Continue
                },
                None => Action::Continue,
            },
        }
    }

    pub open spec fn stepped(&self, next: SelectGame, b: Button) -> bool {
        &&& next.root == self.root
        &&& next.destination == self.destination
        &&& next.offset == self.offset
        &&& next.list.items() == self.list.items()
        &&& next.list.title() == self.list.title()
        &&& next.list.cursor_view() == navigated(self.list.cursor_view(), b)
    }

    /// A picker over `games`, listed in the order given.
    pub fn new(root: String, destination: String, games: Vec<String>, offset: usize) -> (r:
        SelectGame)
        ensures
            r.wf(),
            r.root == root,
            r.destination == destination,
            r.offset == offset,
            r.list.items() == games@,
            r.list.cursor_view().index == 0,
    {
        let list = List::new(games, "Select a game".to_owned());
        SelectGame { root, destination, list, offset }
    }

    /// The label of `game`: its directories below the root, but the first,
    /// joined by spaces, with the language directory shortened to a tag.
    pub fn label_for(&self, game: &str) -> (r: String)
        ensures
            r@ == game_label(game@, self.root@),
    {
        let rel = match strip_components(game, self.root.as_str()) {
            Some(rel) => rel,
            None => path_components(game),
        };
        let ghost rv = views(rel@);
        assert(rv == match relative_components(game@, self.root@) {
            Some(r) => r,
            None => components(game@),
        });
        let mut words: Vec<String> = Vec::new();
        let mut i: usize = 1;
        while i < rel.len()
            invariant
                1 <= i,
                i <= rel@.len() || rel@.len() <= 1,
                rv == views(rel@),
                rel@.len() > 1 ==> views(words@) == label_words(rv).subrange(0, i - 1),
                rel@.len() <= 1 ==> words@.len() == 0,
            decreases rel@.len() - i,
        {
            let ghost before = words@;
            let w = if i == 1 {
                language_tag_of(&rel[i])
            } else {
                rel[i].clone()
            };
            words.push(w);
            assert(views(words@) =~= views(before).push(w@));
            i = i + 1;
            assert(views(words@) =~= label_words(rv).subrange(0, i - 1));
        }
        if rel.len() > 1 {
            assert(label_words(rv).subrange(0, rel@.len() - 1) =~= label_words(rv));
        } else {
            assert(views(words@) =~= label_words(rv));
        }
        let mut out = String::new();
        push_joined(&mut out, &words, ' ');
        assert(out@ =~= join_with(views(words@), ' '));
        out
    }

    /// The selected game, if there is one.
    pub fn current_game(&self) -> (r: Option<&String>)
        ensures
            match r {
                Some(g) => self.list.current() == Some(*g),
                None => self.list.current() is None,
            },
    {
        self.list.current_item()
    }

    pub fn pressed(&mut self, button: Button) -> (r: Action)
        requires
            old(self).wf(),
        ensures
            r == old(self).reply(button),
            final(self).wf(),
            old(self).stepped(*final(self), button),
    {
        if let Some(action) = self.list.handle_navigation(button) {
            return action;
        }
        match self.list.current_item() {
            Some(game) => match button {
                Button::A => Action::Request(
                    Request::OpenGame {
                        game: game.clone(),
                        root: self.root.clone(),
                        destination: self.destination.clone(),
                    },
                ),
                Button::Start => Action::Complete(Completion::Game(Operation::ExecGame(game.clone()))),
                _ => Action::Continue,
            },
            None => Action::Continue,
        }
    }
}

} // verus!
