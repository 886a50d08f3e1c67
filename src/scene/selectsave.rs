//! The list of save files of one game, and how a chosen save is installed.
use crate::extractor::{all_digits, digits_value, lookup, template_text, Extractor};
use crate::internal::{
    file_name, file_name_of, full_extension, full_extension_of, join_with, parent, parent_of,
    push_joined, relative_components, components, remove_full_extension,
    strip_components, without_full_extension,
};
use crate::manager::Action;
use crate::scene::selectgame::{image_file, is_image, Operation};
use crate::scene::{Completion, Request};
use crate::text::{chars_of, push_decimal, push_range, views, decimal};
use crate::ui::list::{navigated, navigation_reply, List};
use crate::ui::Button;
use vstd::prelude::*;

verus! {

/// The save picker of one game directory.
pub struct SelectSave {
    pub game: String,
    pub root: String,
    pub destination: String,
    pub list: List<(String, Option<String>)>,
    pub offset: usize,
    pub extractor: Option<Extractor>,
}

/// The character sequences of save entries.
pub open spec fn entry_views(v: Seq<(String, Option<String>)>) -> Seq<(Seq<char>, Option<Seq<char>>)> {
    v.map_values(
        |e: (String, Option<String>)|
            (
                e.0@,
                match e.1 {
                    Some(x) => Some(x@),
                    None => None,
                },
            ),
    )
}

/// Whether `f` is listed as a save: every file but the preview images.
pub open spec fn is_save(f: Seq<char>) -> bool {
    !is_image(f)
}

/// The saves among `files`, in order.
pub open spec fn save_files(files: Seq<Seq<char>>) -> Seq<Seq<char>>
    decreases files.len(),
{
    if files.len() == 0 {
        Seq::empty()
    } else if is_save(files.last()) {
        save_files(files.drop_last()).push(files.last())
    } else {
        save_files(files.drop_last())
    }
}

/// The last image among `files` whose path without its full extension is `stem`.
pub open spec fn image_for(files: Seq<Seq<char>>, stem: Seq<char>) -> Option<Seq<char>>
    decreases files.len(),
{
    if files.len() == 0 {
        None
    } else if is_image(files.last()) && without_full_extension(files.last()) == stem {
        Some(files.last())
    } else {
        image_for(files.drop_last(), stem)
    }
}

/// Each save among `files` with its preview image, if any.
pub open spec fn saves_of(files: Seq<Seq<char>>) -> Seq<(Seq<char>, Option<Seq<char>>)> {
    save_files(files).map_values(
        |f: Seq<char>| (f, image_for(files, without_full_extension(f))),
    )
}

/// The preview image of the save whose path without extension is `stem`.
fn image_for_stem(files: &Vec<String>, stem: &String) -> (r: Option<String>)
    ensures
        match r {
            Some(x) => image_for(views(files@), stem@) == Some(x@),
            None => image_for(views(files@), stem@) is None,
        },
{
    let mut i = files.len();
    assert(files@.subrange(0, i as int) =~= files@);
    while i > 0
        invariant
            i <= files@.len(),
            image_for(views(files@), stem@) == image_for(views(files@.subrange(0, i as int)), stem@),
        decreases i,
    {
        let ghost pre = views(files@.subrange(0, i as int));
        assert(pre.drop_last() =~= views(files@.subrange(0, i - 1)));
        assert(pre.last() == files@[i - 1]@);
        if image_file(files[i - 1].as_str()) {
            let mut s = files[i - 1].clone();
            remove_full_extension(&mut s);
            if s == *stem {
                return Some(files[i - 1].clone());
            }
        }
        i = i - 1;
    }
    None
}

/// Pairs each save file of a game directory with its preview image: an image
/// file with the same path but for the full extension; the last such image
/// where there are several.
pub fn saves_for_game(files: &Vec<String>) -> (r: Vec<(String, Option<String>)>)
    ensures
        entry_views(r@) == saves_of(views(files@)),
{
    let ghost fv = views(files@);
    let mut r: Vec<(String, Option<String>)> = Vec::new();
    let mut i: usize = 0;
    while i < files.len()
        invariant
            i <= files@.len(),
            fv == views(files@),
            entry_views(r@) == save_files(fv.subrange(0, i as int)).map_values(
                |f: Seq<char>| (f, image_for(fv, without_full_extension(f))),
            ),
        decreases files@.len() - i,
    {
        let ghost before = r@;
        let ghost pre = fv.subrange(0, i + 1);
        assert(pre.drop_last() =~= fv.subrange(0, i as int));
        assert(pre.last() == files@[i as int]@);
        let f = &files[i];
        if !image_file(f.as_str()) {
            let mut stem = f.clone();
            remove_full_extension(&mut stem);
            let image = image_for_stem(files, &stem);
            r.push((f.clone(), image));
            assert(entry_views(r@) =~= entry_views(before).push(
                (f@, image_for(fv, without_full_extension(f@))),
            ));
        }
        i = i + 1;
        assert(entry_views(r@) =~= save_files(fv.subrange(0, i as int)).map_values(
            |f: Seq<char>| (f, image_for(fv, without_full_extension(f))),
        ));
    }
    assert(fv.subrange(0, files@.len() as int) =~= fv);
    r
}

/// Whether `s` ends with `t`.
pub open spec fn ends_with(s: Seq<char>, t: Seq<char>) -> bool {
    t.len() <= s.len() && s.subrange(s.len() - t.len(), s.len() as int) == t
}

pub open spec fn is_ascii_digit(c: char) -> bool {
    '0' <= c && c <= '9'
}

/// Length of `s` without its trailing ASCII digits.
pub open spec fn without_trailing_digits(s: Seq<char>) -> int
    decreases s.len(),
{
    if s.len() > 0 && is_ascii_digit(s.last()) {
        without_trailing_digits(s.drop_last())
    } else {
        s.len() as int
    }
}

/// Whether a full extension marks a save an emulator keeps: it is `srm`,
/// `sav`, `rtc`, `ldci`, `state.auto`, or `state` followed only by digits.
pub open spec fn is_save_extension(e: Seq<char>) -> bool {
    ||| e == "srm"@
    ||| e == "sav"@
    ||| e == "rtc"@
    ||| e == "ldci"@
    ||| e == "state.auto"@
    ||| e.subrange(0, without_trailing_digits(e)) == "state"@
}

/// Whether `v` ends with the characters of `t`, as [`ends_with`] states it.
fn ends_with_chars(v: &Vec<char>, len: usize, t: &str) -> (r: bool)
    requires
        len <= v@.len(),
    ensures
        r == ends_with(v@.subrange(0, len as int), t@),
{
    let tv = chars_of(t);
    let ghost sv = v@.subrange(0, len as int);
    if tv.len() > len {
        return false;
    }
    let off = len - tv.len();
    let mut i: usize = 0;
    while i < tv.len()
        invariant
            tv@ == t@,
            off + tv@.len() == len <= v@.len(),
            i <= tv@.len(),
            forall|j: int| 0 <= j < i ==> v@[off + j] == tv@[j],
            sv == v@.subrange(0, len as int),
        decreases tv@.len() - i,
    {
        if v[off + i] != tv[i] {
            assert(sv.subrange(off as int, len as int)[i as int] == v@[off + i]);
            return false;
        }
        i = i + 1;
    }
    assert(sv.subrange(sv.len() - tv@.len(), sv.len() as int) =~= tv@);
    true
}

/// Whether `v[..len]` is the text `t`.
fn same_text(v: &Vec<char>, len: usize, t: &str) -> (r: bool)
    requires
        len <= v@.len(),
    ensures
        r == (v@.subrange(0, len as int) == t@),
{
    let tv = chars_of(t);
    if tv.len() != len {
        return false;
    }
    let r = ends_with_chars(v, len, t);
    assert(v@.subrange(0, len as int).subrange(0, len as int) =~= v@.subrange(0, len as int));
    r
}

/// Whether `e` is a save extension, as [`is_save_extension`] states it.
pub fn save_extension(e: &str) -> (r: bool)
    ensures
        r == is_save_extension(e@),
{
    let v = chars_of(e);
    let n = v.len();
    assert(v@.subrange(0, n as int) =~= v@);
    let mut k = n;
    while k > 0 && '0' <= v[k - 1] && v[k - 1] <= '9'
        invariant
            k <= n == v@.len(),
            without_trailing_digits(v@) == without_trailing_digits(v@.subrange(0, k as int)),
        decreases k,
    {
        assert(v@.subrange(0, k as int).drop_last() =~= v@.subrange(0, k - 1));
        k = k - 1;
    }
    assert(v@.subrange(0, k as int) =~= v@.subrange(0, without_trailing_digits(v@)));
    assert(v@.subrange(0, k as int).subrange(0, k as int) =~= v@.subrange(0, k as int));
    same_text(&v, n, "srm") || same_text(&v, n, "sav") || same_text(&v, n, "rtc") || same_text(
        &v,
        n,
        "ldci",
    ) || same_text(&v, n, "state.auto") || same_text(&v, k, "state")
}

/// `base` with the components `rel` appended, `/`-separated.
pub open spec fn joined(base: Seq<char>, rel: Seq<Seq<char>>) -> Seq<char> {
    if rel.len() == 0 {
        base
    } else if base.len() == 0 || base.last() == '/' {
        base + join_with(rel, '/')
    } else {
        base + seq!['/'] + join_with(rel, '/')
    }
}

/// Where the saves of `game` (a directory under `root`) go under
/// `destination`: the same relative path, without its full extension.
pub open spec fn save_target(game: Seq<char>, root: Seq<char>, destination: Seq<char>) -> Option<
    Seq<char>,
> {
    match relative_components(game, root) {
        Some(rel) => Some(without_full_extension(joined(destination, rel))),
        None => None,
    }
}

/// Whether `f`, a file next to the save target, is an old save of the game
/// named `prefix` that installing a new one removes.
pub open spec fn is_stale_save(f: Seq<char>, prefix: Seq<char>) -> bool {
    &&& without_full_extension(file_name_of(f)) == prefix
    &&& full_extension_of(f) is Some
    &&& is_save_extension(full_extension_of(f).unwrap())
}

/// The stale saves among `listing`, in order.
pub open spec fn stale_saves(listing: Seq<Seq<char>>, prefix: Seq<char>) -> Seq<Seq<char>>
    decreases listing.len(),
{
    if listing.len() == 0 {
        Seq::empty()
    } else if is_stale_save(listing.last(), prefix) {
        stale_saves(listing.drop_last(), prefix).push(listing.last())
    } else {
        stale_saves(listing.drop_last(), prefix)
    }
}

/// The log line for a removed file.
pub open spec fn removed_line(f: Seq<char>) -> Seq<char> {
    "Removed \""@ + file_name_of(f) + "\""@
}

/// The extension an installed save gets: a plain `state` becomes
/// `state.auto`, any other full extension stays.
pub open spec fn installed_extension(save: Seq<char>) -> Option<Seq<char>> {
    match full_extension_of(save) {
        Some(e) => if e == "state"@ {
            Some("state.auto"@)
        } else {
            Some(e)
        },
        None => None,
    }
}

/// The path of `path` relative to `base`, or `path` itself where it is not
/// under `base`.
pub open spec fn relative_label(path: Seq<char>, base: Seq<char>) -> Seq<char> {
    match relative_components(path, base) {
        Some(rel) => join_with(rel, '/'),
        None => path,
    }
}

/// A request to install save file `save` as the active save of `game`, a
/// game directory under `root`, in the mirror tree under `destination`.
pub struct CommitRequest {
    pub game: String,
    pub root: String,
    pub destination: String,
    pub save: String,
}

/// The file work that installing a save takes, and its log.
pub struct CommitPlan {
    /// Old saves to delete, in order.
    pub remove: Vec<String>,
    /// One log line for each file of `remove`.
    pub removed_log: Vec<String>,
    /// Where the save is copied; `None` where the save has no extension.
    pub copy_to: Option<String>,
    /// The log line for the copy.
    pub copied_log: String,
}

/// `base` with `rel` appended, as [`joined`] states it.
fn join_path(base: &String, rel: &Vec<String>) -> (r: String)
    ensures
        r@ == joined(base@, views(rel@)),
{
    if rel.len() == 0 {
        return base.clone();
    }
    let bv = chars_of(base.as_str());
    let mut out = String::new();
    push_range(&mut out, &bv, 0, bv.len());
    assert(bv@.subrange(0, bv@.len() as int) =~= bv@);
    if bv.len() > 0 && bv[bv.len() - 1] != '/' {
        out.push('/');
    }
    push_joined(&mut out, rel, '/');
    out
}

/// The path of `path` relative to `base`, as [`relative_label`] states it.
pub fn relative_path(path: &str, base: &str) -> (r: String)
    ensures
        r@ == relative_label(path@, base@),
{
    match strip_components(path, base) {
        Some(rel) => {
            let mut out = String::new();
            push_joined(&mut out, &rel, '/');
            assert(out@ =~= join_with(views(rel@), '/'));
            out
        },
        None => path.to_owned(),
    }
}

/// Appends the characters of `s` to `out`.
fn push_str(out: &mut String, s: &str)
    ensures
        final(out)@ == old(out)@ + s@,
{
    let v = chars_of(s);
    push_range(out, &v, 0, v.len());
    assert(v@.subrange(0, v@.len() as int) =~= v@);
}

impl CommitRequest {
    /// The save target: the game's path under the destination, without its
    /// full extension; `None` where the game is not under the root.
    pub fn target(&self) -> (r: Option<String>)
        ensures
            match r {
                Some(t) => save_target(self.game@, self.root@, self.destination@) == Some(t@),
                None => save_target(self.game@, self.root@, self.destination@) is None,
            },
    {
        match strip_components(self.game.as_str(), self.root.as_str()) {
            Some(rel) => {
                let mut t = join_path(&self.destination, &rel);
                remove_full_extension(&mut t);
                Some(t)
            },
            None => None,
        }
    }

    /// The directory that holds the save target, to be listed before
    /// [`CommitRequest::plan`].
    pub fn directory(&self) -> (r: Option<String>)
        ensures
            match r {
                Some(d) => save_target(self.game@, self.root@, self.destination@) matches Some(t)
                    && d@ == parent_of(t),
                None => save_target(self.game@, self.root@, self.destination@) is None,
            },
    {
        match self.target() {
            Some(t) => Some(parent(t.as_str())),
            None => None,
        }
    }

    /// What installing the save does, given the files of the target's
    /// directory in scan order: every stale save of the game among them is
    /// removed, then the save is copied to the target with its installed
    /// extension. `None` where the game is not under the root.
    pub fn plan(&self, listing: &Vec<String>) -> (r: Option<CommitPlan>)
        ensures
            match r {
                None => save_target(self.game@, self.root@, self.destination@) is None,
                Some(p) => {
                    &&& save_target(self.game@, self.root@, self.destination@) is Some
                    &&& views(p.remove@) == stale_saves(views(listing@), file_name_of(self.game@))
                    &&& p.removed_log@.len() == p.remove@.len()
                    &&& forall|j: int|
                        0 <= j < p.remove@.len() ==> #[trigger] p.removed_log@[j]@ == removed_line(
                            p.remove@[j]@,
                        )
                    &&& p.copied_log@ == "Copied "@ + relative_label(self.save@, self.game@)
                    &&& match installed_extension(self.save@) {
                        Some(e) => p.copy_to matches Some(c) && c@ == save_target(
                            self.game@,
                            self.root@,
                            self.destination@,
                        ).unwrap() + seq!['.'] + e,
                        None => p.copy_to is None,
                    }
                },
            },
    {
        let target = match self.target() {
            Some(t) => t,
            None => {
                return None;
            },
        };
        let prefix = file_name(self.game.as_str());
        let ghost lv = views(listing@);
        let mut remove: Vec<String> = Vec::new();
        let mut removed_log: Vec<String> = Vec::new();
        let mut i: usize = 0;
        while i < listing.len()
            invariant
                i <= listing@.len(),
                lv == views(listing@),
                prefix@ == file_name_of(self.game@),
                views(remove@) == stale_saves(lv.subrange(0, i as int), prefix@),
                removed_log@.len() == remove@.len(),
                forall|j: int|
                    0 <= j < remove@.len() ==> #[trigger] removed_log@[j]@ == removed_line(
                        remove@[j]@,
                    ),
            decreases listing@.len() - i,
        {
            let ghost before = remove@;
            let ghost pre = lv.subrange(0, i + 1);
            assert(pre.drop_last() =~= lv.subrange(0, i as int));
            assert(pre.last() == listing@[i as int]@);
            let f = &listing[i];
            let mut stem = file_name(f.as_str());
            remove_full_extension(&mut stem);
            if stem == prefix {
                if let Some(e) = full_extension(f.as_str()) {
                    if save_extension(e) {
                        let mut line = "Removed \"".to_owned();
                        push_str(&mut line, file_name(f.as_str()).as_str());
                        push_str(&mut line, "\"");
                        remove.push(f.clone());
                        removed_log.push(line);
                        assert(views(remove@) =~= views(before).push(f@));
                    }
                }
            }
            i = i + 1;
        }
        assert(lv.subrange(0, listing@.len() as int) =~= lv);
        let copy_to = match full_extension(self.save.as_str()) {
            Some(e) => {
                let mut c = target.clone();
                c.push('.');
                if e.to_owned() == "state".to_owned() {
                    push_str(&mut c, "state.auto");
                } else {
                    push_str(&mut c, e);
                }
                Some(c)
            },
            None => None,
        };
        let mut copied_log = "Copied ".to_owned();
        push_str(&mut copied_log, relative_path(self.save.as_str(), self.game.as_str()).as_str());
        Some(CommitPlan { remove, removed_log, copy_to, copied_log })
    }
}

impl CommitPlan {
    /// The log of a completed install: the copy first, then each removal.
    pub fn log(&self) -> (r: Vec<String>)
        ensures
            r@.len() == self.removed_log@.len() + 1,
            r@[0]@ == self.copied_log@,
            forall|j: int| 0 <= j < self.removed_log@.len() ==> #[trigger] r@[j + 1]@ == self.removed_log@[j]@,
    {
        let mut r: Vec<String> = Vec::new();
        r.push(self.copied_log.clone());
        let mut i: usize = 0;
        while i < self.removed_log.len()
            invariant
                i <= self.removed_log@.len(),
                r@.len() == i + 1,
                r@[0]@ == self.copied_log@,
                forall|j: int| 0 <= j < i ==> #[trigger] r@[j + 1]@ == self.removed_log@[j]@,
            decreases self.removed_log@.len() - i,
        {
            r.push(self.removed_log[i].clone());
            i = i + 1;
        }
        r
    }
}

/// Where the extractor configuration of `game` is looked for: its save
/// target with the extension `.extract`.
pub fn extractor_config_path(game: &String, root: &String, destination: &String) -> (r: Option<String>)
    ensures
        match r {
            Some(p) => save_target(game@, root@, destination@) matches Some(t) && p@ == t + ".extract"@,
            None => save_target(game@, root@, destination@) is None,
        },
{
    let req = CommitRequest { game: game.clone(), root: root.clone(), destination: destination.clone(), save: String::new() };
    match req.target() {
        Some(t) => {
            let mut p = t;
            push_str(&mut p, ".extract");
            Some(p)
        },
        None => None,
    }
}

impl SelectSave {
    pub open spec fn wf(&self) -> bool {
        self.list.wf()
    }

    /// Navigation moves the cursor; `A` asks to install the selected save;
    /// `Start` completes with the game.
    pub open spec fn reply(&self, b: Button) -> Action {
        match navigation_reply(b) {
            Some(a) => a,
            None => if b == Button::A && self.list.current() is Some {
                Action::Request(
                    Request::CommitSave(
                        CommitRequest {
                            game: self.game,
                            root: self.root,
                            destination: self.destination,
                            save: self.list.current().unwrap().0,
                        },
                    ),
                )
            } else if b == Button::Start {
                Action::Complete(Completion::Game(Operation::ExecGame(self.game)))
            } else {
                Action::Continue
            },
        }
    }

    pub open spec fn stepped(&self, next: SelectSave, b: Button) -> bool {
        &&& next.game == self.game
        &&& next.root == self.root
        &&& next.destination == self.destination
        &&& next.offset == self.offset
        &&& next.extractor == self.extractor
        &&& next.list.items() == self.list.items()
        &&& next.list.title() == self.list.title()
        &&& next.list.cursor_view() == navigated(self.list.cursor_view(), b)
    }

    /// A picker over the files of `game`'s directory, in scan order;
    /// `extractor` annotates the saves where a configuration was found.
    pub fn new(
        game: String,
        root: String,
        destination: String,
        files: &Vec<String>,
        extractor: Option<Extractor>,
        offset: usize,
    ) -> (r: SelectSave)
        ensures
            r.wf(),
            r.game == game,
            r.root == root,
            r.destination == destination,
            r.offset == offset,
            r.extractor == extractor,
            entry_views(r.list.items()) == saves_of(views(files@)),
            r.list.cursor_view().index == 0,
    {
        let saves = saves_for_game(files);
        let list = List::new(saves, "Select a save".to_owned());
        SelectSave { game, root, destination, list, offset, extractor }
    }

    /// The label of `save`: its path relative to the game directory.
    pub fn label_for(&self, save: &str) -> (r: String)
        ensures
            r@ == relative_label(save@, self.game@),
    {
        relative_path(save, self.game.as_str())
    }

    /// The selected save and its preview image, if the list is not empty.
    pub fn current_save(&self) -> (r: Option<&(String, Option<String>)>)
        ensures
            match r {
                Some(x) => self.list.current() == Some(*x),
                None => self.list.current() is None,
            },
    {
        self.list.current_item()
    }

    pub fn pressed(&mut self, button: Button) -> (r: Action)
        requires
            old(self).wf(),
        ensures
            r == old(self).reply(button),
            final(self).wf(),
            old(self).stepped(*final(self), button),
    {
        if let Some(action) = self.list.handle_navigation(button) {
            return action;
        }
        match button {
            Button::A => match self.list.current_item() {
                Some(save) => Action::Request(
                    Request::CommitSave(
                        CommitRequest {
                            game: self.game.clone(),
                            root: self.root.clone(),
                            destination: self.destination.clone(),
                            save: save.0.clone(),
                        },
                    ),
                ),
                None => Action::Continue,
            },
            Button::Start => Action::Complete(Completion::Game(Operation::ExecGame(self.game.clone()))),
            _ => Action::Continue,
        }
    }
}

/// A date and time of day written in a save's file name.
#[derive(Clone, Copy, Debug, PartialEq, Eq, Structural)]
pub struct Timestamp {
    pub year: u32,
    pub month: u32,
    pub day: u32,
    pub hour: u32,
    pub minute: u32,
    pub second: u32,
}

/// The decimal number written in `s[a..b]`.
pub open spec fn field_of(s: Seq<char>, a: int, b: int) -> u32 {
    digits_value(s.subrange(a, b), 10) as u32
}

/// The timestamp of a file stem of the form `YYYYMMDD-HHMMSS`.
pub open spec fn timestamp_of(stem: Seq<char>) -> Option<Timestamp> {
    if stem.len() == 15 && stem[8] == '-' && all_digits(stem.subrange(0, 8), 10) && all_digits(
        stem.subrange(9, 15),
        10,
    ) {
        Some(
            Timestamp {
                year: field_of(stem, 0, 4),
                month: field_of(stem, 4, 6),
                day: field_of(stem, 6, 8),
                hour: field_of(stem, 9, 11),
                minute: field_of(stem, 11, 13),
                second: field_of(stem, 13, 15),
            },
        )
    } else {
        None
    }
}

/// The number written in the digits `v[from..to]`, at most four of them.
fn read_field(v: &Vec<char>, from: usize, to: usize) -> (r: u32)
    requires
        from <= to <= v@.len(),
        to - from <= 4,
        all_digits(v@.subrange(from as int, to as int), 10),
    ensures
        r == field_of(v@, from as int, to as int),
{
    let mut n: u32 = 0;
    let mut i = from;
    while i < to
        invariant
            from <= i <= to <= v@.len(),
            to - from <= 4,
            all_digits(v@.subrange(from as int, to as int), 10),
            n == digits_value(v@.subrange(from as int, i as int), 10),
            i - from == 0 ==> n == 0,
            i - from <= 1 ==> n < 10,
            i - from <= 2 ==> n < 100,
            i - from <= 3 ==> n < 1000,
        decreases to - i,
    {
        let ghost next = v@.subrange(from as int, i + 1);
        assert(next.drop_last() =~= v@.subrange(from as int, i as int));
        assert(v@.subrange(from as int, to as int)[i - from] == v@[i as int]);
        let d = v[i] as u32 - 48;
        n = n * 10 + d;
        i = i + 1;
    }
    n
}

/// The digits of a timestamp stem, as [`timestamp_of`] checks them.
fn digits_between(v: &Vec<char>, from: usize, to: usize) -> (r: bool)
    requires
        from <= to <= v@.len(),
    ensures
        r == all_digits(v@.subrange(from as int, to as int), 10),
{
    let mut i = from;
    while i < to
        invariant
            from <= i <= to <= v@.len(),
            all_digits(v@.subrange(from as int, i as int), 10),
        decreases to - i,
    {
        if !('0' <= v[i] && v[i] <= '9') {
            assert(v@.subrange(from as int, to as int)[i - from] == v@[i as int]);
            return false;
        }
        i = i + 1;
        assert(forall|j: int|
            0 <= j < i - from ==> #[trigger] v@.subrange(from as int, i as int)[j] == v@[from + j]);
    }
    true
}

/// The timestamp written in stem `stem`, as [`timestamp_of`] states it.
pub fn parse_timestamp(stem: &str) -> (r: Option<Timestamp>)
    ensures
        r == timestamp_of(stem@),
{
    let v = chars_of(stem);
    if v.len() != 15 || v[8] != '-' || !digits_between(&v, 0, 8) || !digits_between(&v, 9, 15) {
        return None;
    }
    proof {
        assert(v@.subrange(0, 4) =~= v@.subrange(0, 8).subrange(0, 4));
        assert(v@.subrange(4, 6) =~= v@.subrange(0, 8).subrange(4, 6));
        assert(v@.subrange(6, 8) =~= v@.subrange(0, 8).subrange(6, 8));
        assert(v@.subrange(9, 11) =~= v@.subrange(9, 15).subrange(0, 2));
        assert(v@.subrange(11, 13) =~= v@.subrange(9, 15).subrange(2, 4));
        assert(v@.subrange(13, 15) =~= v@.subrange(9, 15).subrange(4, 6));
    }
    Some(
        Timestamp {
            year: read_field(&v, 0, 4),
            month: read_field(&v, 4, 6),
            day: read_field(&v, 6, 8),
            hour: read_field(&v, 9, 11),
            minute: read_field(&v, 11, 13),
            second: read_field(&v, 13, 15),
        },
    )
}

/// `n` of `unit`s ago, in words.
pub open spec fn count_text(n: int, unit: Seq<char>) -> Seq<char> {
    if n == 1 {
        "1 "@ + unit + " ago"@
    } else {
        decimal(n as nat) + " "@ + unit + "s ago"@
    }
}

/// How long ago a save was made, `seconds` before now, in its largest whole
/// unit; `exact` where the time came from the file name, else hedged with
/// "Maybe" as a modification time is.
pub open spec fn age_text(seconds: int, exact: bool) -> Seq<char> {
    let prefix = if exact {
        Seq::empty()
    } else {
        "Maybe "@
    };
    let t = if seconds < 0 {
        0
    } else {
        seconds
    };
    let weeks = t / 604800;
    let years = weeks / 52;
    prefix + if years >= 1 {
        count_text(years, "year"@)
    } else if weeks >= 1 {
        count_text(weeks, "week"@)
    } else if t / 86400 >= 1 {
        count_text(t / 86400, "day"@)
    } else if t / 3600 >= 1 {
        count_text(t / 3600, "hour"@)
    } else if t / 60 >= 1 {
        count_text(t / 60, "minute"@)
    } else {
        "<1 minute ago"@
    }
}

/// Appends `n` `unit`s ago to `out`.
fn push_count(out: &mut String, n: u64, unit: &str)
    ensures
        final(out)@ == old(out)@ + count_text(n as int, unit@),
{
    if n == 1 {
        push_str(out, "1 ");
        push_str(out, unit);
        push_str(out, " ago");
    } else {
        push_decimal(out, n);
        push_str(out, " ");
        push_str(out, unit);
        push_str(out, "s ago");
    }
    assert(out@ =~= old(out)@ + count_text(n as int, unit@));
}

/// How long ago a save was made, as [`age_text`] states it.
pub fn duration_since_save(seconds: i64, exact: bool) -> (r: String)
    ensures
        r@ == age_text(seconds as int, exact),
{
    let mut out = String::new();
    if !exact {
        push_str(&mut out, "Maybe ");
    }
    let t: u64 = if seconds < 0 {
        0
    } else {
        seconds as u64
    };
    let weeks = t / 604800;
    let years = weeks / 52;
    if years >= 1 {
        push_count(&mut out, years, "year");
    } else if weeks >= 1 {
        push_count(&mut out, weeks, "week");
    } else if t / 86400 >= 1 {
        push_count(&mut out, t / 86400, "day");
    } else if t / 3600 >= 1 {
        push_count(&mut out, t / 3600, "hour");
    } else if t / 60 >= 1 {
        push_count(&mut out, t / 60, "minute");
    } else {
        push_str(&mut out, "<1 minute ago");
    }
    assert(out@ =~= age_text(seconds as int, exact));
    out
}

impl SelectSave {
    /// The timestamp that the file name of `file`, relative to the game
    /// directory and without its full extension, spells out, if any.
    pub fn timestamp_in_filename(&self, file: &str) -> (r: Option<Timestamp>)
        ensures
            r == match relative_components(file@, self.game@) {
                Some(rel) => timestamp_of(without_full_extension(join_with(rel, '/'))),
                None => None,
            },
    {
        match strip_components(file, self.game.as_str()) {
            Some(rel) => {
                let mut name = String::new();
                push_joined(&mut name, &rel, '/');
                assert(name@ =~= join_with(views(rel@), '/'));
                remove_full_extension(&mut name);
                parse_timestamp(name.as_str())
            },
            None => None,
        }
    }
}

impl SelectSave {
    /// Whether the saves of this game are annotated from their content.
    pub fn extracts(&self) -> (r: bool)
        ensures
            r == self.extractor is Some,
    {
        self.extractor.is_some()
    }

    /// The annotations of a save with extension `extension` and content
    /// `content`; none where no extractor configuration was found.
    pub fn extract_save(&self, extension: &str, content: &[u8]) -> (r: Vec<String>)
        ensures
            match self.extractor {
                Some(e) => match lookup(e@, extension@) {
                    Some(ts) => r@.len() == ts.len() && forall|j: int|
                        0 <= j < ts.len() ==> #[trigger] r@[j]@ == template_text(content@, ts[j]),
                    None => r@.len() == 0,
                },
                None => r@.len() == 0,
            },
    {
        match &self.extractor {
            Some(e) => e.extract(extension, content),
            None => Vec::new(),
        }
    }
}

/// The lines shown beside a save: how long ago it was made, if known, then
/// its annotations.
pub fn metadata_for_save(age: Option<String>, extracted: Vec<String>) -> (r: Vec<String>)
    ensures
        views(r@) == match age {
            Some(a) => seq![a@] + views(extracted@),
            None => views(extracted@),
        },
{
    let mut r: Vec<String> = Vec::new();
    let ghost head = if age is Some {
        seq![age.unwrap()@]
    } else {
        Seq::<Seq<char>>::empty()
    };
    if let Some(a) = age {
        r.push(a);
    }
    assert(views(r@) =~= head);
    let mut i: usize = 0;
    while i < extracted.len()
        invariant
            i <= extracted@.len(),
            views(r@) == head + views(extracted@.subrange(0, i as int)),
        decreases extracted@.len() - i,
    {
        let ghost before = r@;
        r.push(extracted[i].clone());
        i = i + 1;
        assert(views(r@) =~= views(before).push(extracted@[i - 1]@));
        assert(views(r@) =~= head + views(extracted@.subrange(0, i as int)));
    }
    assert(extracted@.subrange(0, extracted@.len() as int) =~= extracted@);
    r
}

} // verus!
