//! File-name helpers. A path is a `/`-separated string; its file name is what
//! follows the last `/`, and its full extension is what follows the first `.`
//! of the file name.
use crate::text::{
    chars_of, find_char, find_from, lemma_find_from_range, lemma_rfind_before_range,
    push_range, rfind_before, views, rfind_char_end, string_of_range,
};
use vstd::prelude::*;
use vstd::string::StrSliceExecFns;

verus! {

/// Position where the file name of `p` starts.
pub open spec fn name_start(p: Seq<char>) -> int {
    rfind_before(p, '/', p.len() as int) + 1
}

/// The file name of `p`: everything after its last `/`.
pub open spec fn file_name_of(p: Seq<char>) -> Seq<char> {
    p.subrange(name_start(p), p.len() as int)
}

/// Position of the first `.` of the file name of `p`, or `-1`.
pub open spec fn first_dot(p: Seq<char>) -> int {
    find_from(p, '.', name_start(p))
}

/// The suffix of the file name after its first `.`, if it has one.
pub open spec fn full_extension_of(p: Seq<char>) -> Option<Seq<char>> {
    if first_dot(p) < 0 {
        None
    } else {
        Some(p.subrange(first_dot(p) + 1, p.len() as int))
    }
}

/// `p` without the full extension of its file name; unchanged where the file
/// name has no `.` or starts with one.
pub open spec fn without_full_extension(p: Seq<char>) -> Seq<char> {
    if first_dot(p) > name_start(p) {
        p.subrange(0, first_dot(p))
    } else {
        p
    }
}

pub proof fn lemma_name_parts(p: Seq<char>)
    ensures
        0 <= name_start(p) <= p.len(),
        first_dot(p) == -1 || (name_start(p) <= first_dot(p) < p.len() && p[first_dot(p)]
            == '.'),
        forall|j: int|
            name_start(p) <= j < p.len() && (first_dot(p) == -1 || j < first_dot(p)) ==> p[j]
                != '.',
{
    lemma_rfind_before_range(p, '/', p.len() as int);
    lemma_find_from_range(p, '.', name_start(p));
}

/// Start of the file name and position of its first `.`, if any.
fn name_parts(v: &Vec<char>) -> (r: (usize, Option<usize>))
    ensures
        r.0 == name_start(v@),
        match r.1 {
            Some(d) => first_dot(v@) == d,
            None => first_dot(v@) == -1,
        },
{
    proof {
        lemma_name_parts(v@);
    }
    let s = rfind_char_end(v, '/', v.len());
    let d = find_char(v, '.', s);
    (s, d)
}

/// The full extension of the file name of `path`: `"b.c"` for `"x/a.b.c"`.
pub fn full_extension(path: &str) -> (r: Option<&str>)
    ensures
        match r {
            Some(e) => full_extension_of(path@) == Some(e@),
            None => full_extension_of(path@) is None,
        },
{
    let v = chars_of(path);
    proof {
        lemma_name_parts(v@);
    }
    let (_, d) = name_parts(&v);
    match d {
        Some(d) => Some(path.substring_char(d + 1, v.len())),
        None => None,
    }
}

/// Removes the full extension from the file name of `path`, unless that
/// would leave the file name empty.
pub fn remove_full_extension(path: &mut String)
    ensures
        final(path)@ == without_full_extension(old(path)@),
{
    let v = chars_of(path.as_str());
    proof {
        lemma_name_parts(v@);
    }
    let (s, d) = name_parts(&v);
    if let Some(d) = d {
        if d > s {
            *path = string_of_range(&v, 0, d);
        }
    }
}

/// The non-empty `/`-separated components of `s` from position `i` on.
pub open spec fn components_from(s: Seq<char>, i: int) -> Seq<Seq<char>>
    decreases s.len() - i,
{
    if i < 0 || i >= s.len() {
        Seq::empty()
    } else {
        let k = find_from(s, '/', i);
        if k < i || k >= s.len() {
            seq![s.subrange(i, s.len() as int)]
        } else if k == i {
            components_from(s, k + 1)
        } else {
            seq![s.subrange(i, k)] + components_from(s, k + 1)
        }
    }
}

/// The non-empty `/`-separated components of `p`.
pub open spec fn components(p: Seq<char>) -> Seq<Seq<char>> {
    components_from(p, 0)
}

/// The components of `p` after those of `base`, where `base`'s components
/// start `p`'s.
pub open spec fn relative_components(p: Seq<char>, base: Seq<char>) -> Option<Seq<Seq<char>>> {
    let pc = components(p);
    let bc = components(base);
    if bc.len() <= pc.len() && pc.subrange(0, bc.len() as int) == bc {
        Some(pc.subrange(bc.len() as int, pc.len() as int))
    } else {
        None
    }
}

/// `ws` joined with `sep` between neighbours.
pub open spec fn join_with(ws: Seq<Seq<char>>, sep: char) -> Seq<char>
    decreases ws.len(),
{
    if ws.len() == 0 {
        Seq::empty()
    } else if ws.len() == 1 {
        ws[0]
    } else {
        join_with(ws.drop_last(), sep) + seq![sep] + ws.last()
    }
}

/// The directory part of `p`: everything before the `/` that ends it, or
/// `/` itself for a file right under the root.
pub open spec fn parent_of(p: Seq<char>) -> Seq<char> {
    if name_start(p) <= 1 {
        p.subrange(0, name_start(p))
    } else {
        p.subrange(0, name_start(p) - 1)
    }
}

/// Appends `ws`, joined with `sep`, to `out`.
pub fn push_joined(out: &mut String, ws: &Vec<String>, sep: char)
    ensures
        final(out)@ == old(out)@ + join_with(views(ws@), sep),
{
    let ghost wv = views(ws@);
    let mut i: usize = 0;
    while i < ws.len()
        invariant
            i <= ws@.len(),
            wv == views(ws@),
            out@ == old(out)@ + join_with(wv.subrange(0, i as int), sep),
        decreases ws@.len() - i,
    {
        assert(wv.subrange(0, i + 1).drop_last() =~= wv.subrange(0, i as int));
        if i > 0 {
            out.push(sep);
        }
        let wc = chars_of(ws[i].as_str());
        push_range(out, &wc, 0, wc.len());
        assert(wc@.subrange(0, wc@.len() as int) =~= wc@);
        i = i + 1;
        assert(out@ =~= old(out)@ + join_with(wv.subrange(0, i as int), sep));
    }
    assert(wv.subrange(0, ws@.len() as int) =~= wv);
}

/// The non-empty `/`-separated components of `path`.
pub fn path_components(path: &str) -> (r: Vec<String>)
    ensures
        views(r@) == components(path@),
{
    let v = chars_of(path);
    let n = v.len();
    let mut r: Vec<String> = Vec::new();
    let mut i: usize = 0;
    while i < n
        invariant
            n == v@.len(),
            v@ == path@,
            i <= n,
            views(r@) + components_from(v@, i as int) == components(v@),
        decreases n - i,
    {
        let ghost r0 = views(r@);
        match find_char(&v, '/', i) {
            None => {
                proof {
                    lemma_find_from_range(v@, '/', i as int);
                }
                r.push(string_of_range(&v, i, n));
                assert(views(r@) =~= r0 + components_from(v@, i as int));
                assert(components_from(v@, n as int) =~= Seq::empty());
                i = n;
            },
            Some(k) => {
                proof {
                    lemma_find_from_range(v@, '/', i as int);
                }
                if k > i {
                    r.push(string_of_range(&v, i, k));
                    assert(views(r@) =~= r0 + seq![v@.subrange(i as int, k as int)]);
                }
                i = k + 1;
            },
        }
    }
    assert(components_from(v@, n as int) =~= Seq::empty());
    assert(views(r@) =~= components(v@));
    r
}

/// The components of `path` after those of `base`, if `base`'s start it.
pub fn strip_components(path: &str, base: &str) -> (r: Option<Vec<String>>)
    ensures
        match r {
            Some(rest) => relative_components(path@, base@) == Some(
                views(rest@),
            ),
            None => relative_components(path@, base@) is None,
        },
{
    let pc = path_components(path);
    let bc = path_components(base);
    let ghost pv = views(pc@);
    let ghost bv = views(bc@);
    if bc.len() > pc.len() {
        return None;
    }
    let mut i: usize = 0;
    while i < bc.len()
        invariant
            bc@.len() <= pc@.len(),
            i <= bc@.len(),
            pv == views(pc@),
            bv == views(bc@),
            pv == components(path@),
            bv == components(base@),
            forall|j: int| 0 <= j < i ==> pv[j] == bv[j],
        decreases bc@.len() - i,
    {
        if !(pc[i] == bc[i]) {
            assert(pv[i as int] == pc@[i as int]@);
            assert(bv[i as int] == bc@[i as int]@);
            assert(pv[i as int] != bv[i as int]);
            assert(pv.subrange(0, bv.len() as int)[i as int] != bv[i as int]);
            assert(pv.subrange(0, bv.len() as int) != bv);
            return None;
        }
        i = i + 1;
    }
    assert(pv.subrange(0, bv.len() as int) =~= bv);
    let mut rest: Vec<String> = Vec::new();
    let mut k = bc.len();
    while k < pc.len()
        invariant
            bc@.len() <= k <= pc@.len(),
            pv == views(pc@),
            pv == components(path@),
            bv == components(base@),
            bv == views(bc@),
            pv.subrange(0, bv.len() as int) == bv,
            views(rest@) == pv.subrange(bc@.len() as int, k as int),
        decreases pc@.len() - k,
    {
        let ghost before = rest@;
        let c = pc[k].clone();
        assert(c@ == pv[k as int]);
        rest.push(c);
        assert(rest@ == before.push(c));
        assert(views(rest@) =~= views(before).push(c@));
        k = k + 1;
        assert(views(rest@) =~= pv.subrange(bc@.len() as int, k as int));
    }
    Some(rest)
}

/// The file name of `path`: everything after its last `/`.
pub fn file_name(path: &str) -> (r: String)
    ensures
        r@ == file_name_of(path@),
{
    let v = chars_of(path);
    proof {
        lemma_name_parts(v@);
    }
    let s = rfind_char_end(&v, '/', v.len());
    string_of_range(&v, s, v.len())
}

/// The directory part of `path`, as [`parent_of`] states it.
pub fn parent(path: &str) -> (r: String)
    ensures
        r@ == parent_of(path@),
{
    let v = chars_of(path);
    proof {
        lemma_name_parts(v@);
    }
    let s = rfind_char_end(&v, '/', v.len());
    if s <= 1 {
        string_of_range(&v, 0, s)
    } else {
        string_of_range(&v, 0, s - 1)
    }
}

} // verus!
