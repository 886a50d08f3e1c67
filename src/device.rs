//! Recognising the controller among the input devices.
use crate::text::chars_of;
use vstd::prelude::*;

verus! {

/// The lower-case form of a text, as `str::to_lowercase` gives it.
pub uninterp spec fn lower_of(s: Seq<char>) -> Seq<char>;

/// Relies on `str::to_lowercase`: the result depends on the characters
/// alone.
#[verifier::external_body]
fn lowercase(s: &str) -> (r: String)
    ensures
        r@ == lower_of(s@),
{
    s.to_lowercase()
}

/// Whether `t` occurs in `s` at position `i`.
pub open spec fn occurs_at(s: Seq<char>, t: Seq<char>, i: int) -> bool {
    0 <= i && i + t.len() <= s.len() && s.subrange(i, i + t.len()) == t
}

/// Whether `t` occurs in `s`.
pub open spec fn contains(s: Seq<char>, t: Seq<char>) -> bool {
    exists|i: int| occurs_at(s, t, i)
}

/// Whether `t` occurs in `s`, as [`contains`] states it.
pub fn contains_text(s: &str, t: &str) -> (r: bool)
    ensures
        r == contains(s@, t@),
{
    let sv = chars_of(s);
    let tv = chars_of(t);
    if tv.len() > sv.len() {
        return false;
    }
    let n = sv.len();
    let last = n - tv.len();
    let mut i: usize = 0;
    while i <= last
        invariant
            sv@ == s@,
            tv@ == t@,
            last + tv@.len() == sv@.len(),
            n == sv@.len(),
            forall|j: int| 0 <= j < i ==> !occurs_at(s@, t@, j),
        decreases last + 1 - i,
    {
        let mut k: usize = 0;
        while k < tv.len() && sv[i + k] == tv[k]
            invariant
                sv@ == s@,
                tv@ == t@,
                i <= last,
                last + tv@.len() == sv@.len(),
                n == sv@.len(),
                k <= tv@.len(),
                forall|j: int| 0 <= j < k ==> sv@[i + j] == tv@[j],
            decreases tv@.len() - k,
        {
            k = k + 1;
        }
        if k == tv.len() {
            assert(sv@.subrange(i as int, i + tv@.len()) =~= tv@);
            assert(occurs_at(s@, t@, i as int));
            return true;
        }
        assert(sv@.subrange(i as int, i + tv@.len())[k as int] != tv@[k as int]);
        if i == last {
            assert forall|j: int| !occurs_at(s@, t@, j) by {
                if j == i {
                    assert(s@.subrange(j, j + t@.len())[k as int] != t@[k as int]);
                }
            }
            return false;
        }
        i = i + 1;
    }
    false
}

/// Whether a device name is that of a game controller: it mentions
/// "controller" or "gamepad", in any case.
pub open spec fn controller_name(name: Seq<char>) -> bool {
    contains(lower_of(name), "controller"@) || contains(lower_of(name), "gamepad"@)
}

pub fn is_controller_name(name: &str) -> (r: bool)
    ensures
        r == controller_name(name@),
{
    let lower = lowercase(name);
    contains_text(lower.as_str(), "controller") || contains_text(lower.as_str(), "gamepad")
}

/// Whether a file of the input device directory is an event device node:
/// its name starts with `event`.
pub open spec fn event_node(name: Seq<char>) -> bool {
    occurs_at(name, "event"@, 0)
}

pub fn is_event_node(name: &str) -> (r: bool)
    ensures
        r == event_node(name@),
{
    let sv = chars_of(name);
    let tv = chars_of("event");
    if tv.len() > sv.len() {
        return false;
    }
    let mut k: usize = 0;
    while k < tv.len()
        invariant
            sv@ == name@,
            tv@ == "event"@,
            tv@.len() <= sv@.len(),
            k <= tv@.len(),
            forall|j: int| 0 <= j < k ==> sv@[j] == tv@[j],
        decreases tv@.len() - k,
    {
        if sv[k] != tv[k] {
            assert(sv@.subrange(0, tv@.len() as int)[k as int] != tv@[k as int]);
            return false;
        }
        k = k + 1;
    }
    assert(sv@.subrange(0, tv@.len() as int) =~= tv@);
    true
}

} // verus!
