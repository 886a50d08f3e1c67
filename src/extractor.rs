//! Evaluation of byte-pattern templates against the content of save files.
//!
//! A template is literal text with `{...}` regions. Each region holds a
//! subpattern `ADDR['~'ADDR][':'FORMAT]`: one byte offset or an inclusive
//! range of them, in hexadecimal with an optional `0x` prefix, read as a
//! little-endian number and printed in decimal, padded to the width that
//! `FORMAT` gives (with zeros where `FORMAT` starts with `0`, else with
//! spaces). A region that cannot be evaluated reads `??`.
use crate::text::{
    chars_of, decimal, find_char, find_from, lemma_find_from_range, push_decimal, push_range,
    push_repeat, repeat, views,
};
use vstd::arithmetic::div_mod::{lemma_add_mod_noop, lemma_mul_mod_noop_left};
use vstd::prelude::*;
use vstd::string::StrSliceExecFns;

verus! {

/// Value of a digit character in base `radix` (10 or 16), or `-1`.
pub open spec fn digit_of(c: char, radix: nat) -> int {
    let d: int = if '0' <= c && c <= '9' {
        c as u32 - 48
    } else if 'a' <= c && c <= 'f' {
        c as u32 - 87
    } else if 'A' <= c && c <= 'F' {
        c as u32 - 55
    } else {
        -1
    };
    if d < radix {
        d
    } else {
        -1
    }
}

pub open spec fn all_digits(s: Seq<char>, radix: nat) -> bool {
    forall|i: int| 0 <= i < s.len() ==> digit_of(#[trigger] s[i], radix) >= 0
}

/// Value of the digit string `s` in base `radix`.
pub open spec fn digits_value(s: Seq<char>, radix: nat) -> int
    decreases s.len(),
{
    if s.len() == 0 {
        0
    } else {
        digits_value(s.drop_last(), radix) * radix + digit_of(s.last(), radix)
    }
}

/// An unsigned integer in base `radix`: a `+` where `allow_plus`, then at
/// least one digit, with a value that fits in `usize`.
pub open spec fn parse_unsigned(s: Seq<char>, radix: nat, allow_plus: bool) -> Option<nat> {
    let body = if allow_plus && s.len() > 0 && s[0] == '+' {
        s.subrange(1, s.len() as int)
    } else {
        s
    };
    if body.len() > 0 && all_digits(body, radix) && digits_value(body, radix) <= usize::MAX {
        Some(digits_value(body, radix) as nat)
    } else {
        None
    }
}

/// `s` without its leading `0x`, if it has one.
pub open spec fn strip_hex_prefix(s: Seq<char>) -> Seq<char> {
    if s.len() >= 2 && s[0] == '0' && s[1] == 'x' {
        s.subrange(2, s.len() as int)
    } else {
        s
    }
}

/// A byte offset: an optional `0x`, then hexadecimal digits.
pub open spec fn parse_address(s: Seq<char>) -> Option<nat> {
    parse_unsigned(strip_hex_prefix(s), 16, false)
}

/// The little-endian number held by `content[lo..=hi]` (0 for an empty range).
pub open spec fn le_value(content: Seq<u8>, lo: int, hi: int) -> int
    decreases hi - lo + 1,
{
    if lo > hi {
        0
    } else {
        content[lo] + 256 * le_value(content, lo + 1, hi)
    }
}

pub open spec fn two_pow_64() -> int {
    0x1_0000_0000_0000_0000
}

/// The 64-bit two's-complement reading of `u`, for `0 <= u < 2^64`.
pub open spec fn signed_of(u: int) -> int {
    if u >= 0x8000_0000_0000_0000 {
        u - two_pow_64()
    } else {
        u
    }
}

/// The signed 64-bit value of the byte range `[start, end]`; 0 when the range
/// is reversed.
pub open spec fn range_value(content: Seq<u8>, start: nat, end: nat) -> int {
    if start <= end {
        signed_of(le_value(content, start as int, end as int) % two_pow_64())
    } else {
        0
    }
}

pub open spec fn abs(v: int) -> nat {
    if v < 0 {
        (-v) as nat
    } else {
        v as nat
    }
}

/// Decimal text of `v`, padded to `width` characters: zeros after the sign
/// when `zero_pad`, else spaces before it.
pub open spec fn number_text(v: int, width: nat, zero_pad: bool) -> Seq<char> {
    let sign: Seq<char> = if v < 0 {
        seq!['-']
    } else {
        Seq::empty()
    };
    let digits = decimal(abs(v));
    let n = sign.len() + digits.len();
    let pad: nat = if width > n {
        (width - n) as nat
    } else {
        0
    };
    if zero_pad {
        sign + repeat('0', pad) + digits
    } else {
        repeat(' ', pad) + sign + digits
    }
}

/// The text a subpattern evaluates to, or `None` where it cannot be evaluated.
pub open spec fn subpattern_text(content: Seq<u8>, p: Seq<char>) -> Option<Seq<char>> {
    let colon = find_from(p, ':', 0);
    let addr = if colon < 0 {
        p
    } else {
        p.subrange(0, colon)
    };
    let format = if colon < 0 {
        Seq::<char>::empty()
    } else {
        p.subrange(colon + 1, p.len() as int)
    };
    let tilde = find_from(addr, '~', 0);
    let start = parse_address(
        if tilde < 0 {
            addr
        } else {
            addr.subrange(0, tilde)
        },
    );
    let end = if tilde < 0 {
        start
    } else {
        parse_address(addr.subrange(tilde + 1, addr.len() as int))
    };
    let width = if format.len() == 0 {
        Some(0nat)
    } else {
        parse_unsigned(format, 10, true)
    };
    if start is None || end is None {
        None
    } else if start.unwrap() <= end.unwrap() && end.unwrap() >= content.len() {
        None
    } else if width is None {
        None
    } else {
        Some(
            number_text(
                range_value(content, start.unwrap(), end.unwrap()),
                width.unwrap(),
                format.len() > 0 && format[0] == '0',
            ),
        )
    }
}

/// What a template yields from position `i` on.
pub open spec fn template_from(content: Seq<u8>, t: Seq<char>, i: int) -> Seq<char>
    decreases t.len() - i,
{
    if i < 0 || i >= t.len() {
        Seq::empty()
    } else {
        let k = find_from(t, '}', i + 1);
        if t[i] == '{' && i + 1 < k < t.len() {
            let piece = match subpattern_text(content, t.subrange(i + 1, k)) {
                Some(x) => x,
                None => seq!['?', '?'],
            };
            piece + template_from(content, t, k + 1)
        } else {
            seq![t[i]] + template_from(content, t, i + 1)
        }
    }
}

/// What template `t` yields against `content`.
pub open spec fn template_text(content: Seq<u8>, t: Seq<char>) -> Seq<char> {
    template_from(content, t, 0)
}

proof fn lemma_digits_value_nonneg(s: Seq<char>, radix: nat)
    requires
        all_digits(s, radix),
    ensures
        digits_value(s, radix) >= 0,
    decreases s.len(),
{
    if s.len() > 0 {
        lemma_digits_value_nonneg(s.drop_last(), radix);
        assert(digit_of(s[s.len() - 1], radix) >= 0);
        assert(digits_value(s.drop_last(), radix) * radix >= 0) by (nonlinear_arith)
            requires
                digits_value(s.drop_last(), radix) >= 0,
        ;
    }
}

/// A prefix of a digit string never has a larger value than the whole.
proof fn lemma_digits_prefix_le(s: Seq<char>, radix: nat, j: int)
    requires
        all_digits(s, radix),
        radix >= 1,
        0 <= j <= s.len(),
    ensures
        digits_value(s.subrange(0, j), radix) <= digits_value(s, radix),
    decreases s.len(),
{
    if j < s.len() {
        let t = s.drop_last();
        assert(t.subrange(0, j) =~= s.subrange(0, j));
        lemma_digits_prefix_le(t, radix, j);
        lemma_digits_value_nonneg(t, radix);
        assert(digit_of(s[s.len() - 1], radix) >= 0);
        assert(digits_value(t, radix) <= digits_value(t, radix) * radix) by (nonlinear_arith)
            requires
                digits_value(t, radix) >= 0,
                radix >= 1,
        ;
    } else {
        assert(s.subrange(0, j) =~= s);
    }
}

/// Value of a digit character, as [`digit_of`] states it.
fn digit_value(c: char, radix: u32) -> (r: Option<u32>)
    requires
        radix == 10 || radix == 16,
    ensures
        match r {
            Some(d) => digit_of(c, radix as nat) == d && d < radix,
            None => digit_of(c, radix as nat) == -1,
        },
{
    let d: u32 = if '0' <= c && c <= '9' {
        c as u32 - 48
    } else if 'a' <= c && c <= 'f' {
        c as u32 - 87
    } else if 'A' <= c && c <= 'F' {
        c as u32 - 55
    } else {
        return None;
    };
    if d < radix {
        Some(d)
    } else {
        None
    }
}

/// Reads an unsigned integer in base `radix`, as [`parse_unsigned`] states it.
fn parse_unsigned_chars(s: &Vec<char>, radix: u32, allow_plus: bool) -> (r: Option<usize>)
    requires
        radix == 10 || radix == 16,
    ensures
        match r {
            Some(v) => parse_unsigned(s@, radix as nat, allow_plus) == Some(v as nat),
            None => parse_unsigned(s@, radix as nat, allow_plus) is None,
        },
{
    let n = s.len();
    let start: usize = if allow_plus && n > 0 && s[0] == '+' {
        1
    } else {
        0
    };
    let ghost body = if allow_plus && n > 0 && s@[0] == '+' {
        s@.subrange(1, n as int)
    } else {
        s@
    };
    assert(body =~= s@.subrange(start as int, n as int));
    if start >= n {
        return None;
    }
    let mut v: usize = 0;
    let mut i = start;
    while i < n
        invariant
            start <= i <= n == s@.len(),
            radix == 10 || radix == 16,
            body =~= s@.subrange(start as int, n as int),
            body == (if allow_plus && s@.len() > 0 && s@[0] == '+' {
                s@.subrange(1, s@.len() as int)
            } else {
                s@
            }),
            all_digits(s@.subrange(start as int, i as int), radix as nat),
            v == digits_value(s@.subrange(start as int, i as int), radix as nat),
        decreases n - i,
    {
        let ghost pre = s@.subrange(start as int, i as int);
        let ghost next = s@.subrange(start as int, i + 1);
        assert(next.drop_last() =~= pre);
        let d = match digit_value(s[i], radix) {
            Some(d) => d,
            None => {
                assert(body[i - start] == s@[i as int]);
                assert(digit_of(body[i - start], radix as nat) == -1);
                assert(!all_digits(body, radix as nat));
                assert(parse_unsigned(s@, radix as nat, allow_plus) is None);
                return None;
            },
        };
        if v > (usize::MAX - d as usize) / radix as usize {
            proof {
                assert(v * radix + d > usize::MAX) by (nonlinear_arith)
                    requires
                        v > (usize::MAX - d) / radix as int,
                        radix >= 1,
                        d >= 0,
                        d <= usize::MAX,
                ;
                assert(all_digits(next, radix as nat));
                assert(next.last() == s@[i as int]);
                assert(digits_value(next, radix as nat) == v * radix + d);
                if all_digits(body, radix as nat) {
                    assert(next =~= body.subrange(0, i + 1 - start));
                    lemma_digits_prefix_le(body, radix as nat, i + 1 - start);
                    assert(digits_value(body, radix as nat) > usize::MAX);
                }
                assert(parse_unsigned(s@, radix as nat, allow_plus) is None);
            }
            return None;
        }
        proof {
            assert(v * radix + d <= usize::MAX) by (nonlinear_arith)
                requires
                    v <= (usize::MAX - d) / radix as int,
                    radix >= 1,
                    d >= 0,
                    d <= usize::MAX,
            ;
        }
        v = v * radix as usize + d as usize;
        i = i + 1;
        assert(all_digits(s@.subrange(start as int, i as int), radix as nat));
    }
    assert(s@.subrange(start as int, n as int) =~= body);
    Some(v)
}

/// The characters of `v[from..to]`.
fn sub_chars(v: &Vec<char>, from: usize, to: usize) -> (r: Vec<char>)
    requires
        from <= to <= v@.len(),
    ensures
        r@ == v@.subrange(from as int, to as int),
{
    let mut r: Vec<char> = Vec::new();
    let mut i = from;
    while i < to
        invariant
            from <= i <= to <= v@.len(),
            r@ == v@.subrange(from as int, i as int),
        decreases to - i,
    {
        r.push(v[i]);
        i = i + 1;
        assert(r@ =~= v@.subrange(from as int, i as int));
    }
    r
}

/// Position after the leading `0x` of `v[from..]`, if it has one.
fn skip_hex_prefix(v: &Vec<char>, from: usize) -> (r: usize)
    requires
        from <= v@.len(),
    ensures
        from <= r <= v@.len(),
        v@.subrange(r as int, v@.len() as int) == strip_hex_prefix(
            v@.subrange(from as int, v@.len() as int),
        ),
{
    let n = v.len();
    if n - from >= 2 && v[from] == '0' && v[from + 1] == 'x' {
        assert(v@.subrange(from as int, n as int).subrange(2, n - from) =~= v@.subrange(
            from + 2,
            n as int,
        ));
        from + 2
    } else {
        from
    }
}

/// Reads a byte offset, as [`parse_address`] states it.
fn parse_address_chars(s: &Vec<char>) -> (r: Option<usize>)
    ensures
        match r {
            Some(v) => parse_address(s@) == Some(v as nat),
            None => parse_address(s@) is None,
        },
{
    let i = skip_hex_prefix(s, 0);
    assert(s@.subrange(0, s@.len() as int) =~= s@);
    let digits = sub_chars(s, i, s.len());
    parse_unsigned_chars(&digits, 16, false)
}

proof fn lemma_le_step(x: int, b: int)
    ensures
        ((x % two_pow_64()) * 256 + b) % two_pow_64() == (b + 256 * x) % two_pow_64(),
{
    let m = two_pow_64();
    lemma_mul_mod_noop_left(x, 256, m);
    lemma_add_mod_noop((x % m) * 256, b, m);
    lemma_add_mod_noop(x * 256, b, m);
    assert(((x % m) * 256) % m == (x * 256) % m);
    assert(x * 256 == 256 * x);
}

/// The signed 64-bit little-endian value of `content[start..=end]`.
fn read_range(content: &[u8], start: usize, end: usize) -> (r: (bool, u64))
    requires
        start <= end < content@.len(),
    ensures
        r.0 == (range_value(content@, start as nat, end as nat) < 0),
        r.1 == abs(range_value(content@, start as nat, end as nat)),
{
    let mut acc: u64 = 0;
    let len = content.len();
    assert(end < len);
    let mut k: usize = end + 1;
    assert(le_value(content@, end + 1, end as int) == 0);
    while k > start
        invariant
            start <= k <= end + 1,
            end < content@.len(),
            acc == le_value(content@, k as int, end as int) % two_pow_64(),
        decreases k,
    {
        k = k - 1;
        let b = content[k];
        proof {
            lemma_le_step(le_value(content@, k + 1, end as int), b as int);
        }
        acc = (((acc as u128) * 256 + b as u128) % 0x1_0000_0000_0000_0000u128) as u64;
    }
    if acc >= 0x8000_0000_0000_0000u64 {
        (true, (u64::MAX - acc) + 1)
    } else {
        (false, acc)
    }
}

/// Writes `mag` (negated when `neg`) in decimal, padded to `width`.
fn format_number(neg: bool, mag: u64, width: usize, zero_pad: bool) -> (r: String)
    ensures
        r@ == number_text(if neg { -(mag as int) } else { mag as int }, width as nat, zero_pad),
{
    let ghost v: int = if neg { -(mag as int) } else { mag as int };
    let mut digits = String::new();
    push_decimal(&mut digits, mag);
    let neg = neg && mag > 0;
    assert(v < 0 <==> neg);
    assert(abs(v) == mag);
    let n = digits.as_str().unicode_len();
    let used: usize = if neg {
        if n < usize::MAX { n + 1 } else { n }
    } else {
        n
    };
    let pad: usize = if width > used {
        width - used
    } else {
        0
    };
    let mut out = String::new();
    if zero_pad {
        if neg {
            out.push('-');
        }
        push_repeat(&mut out, '0', pad);
    } else {
        push_repeat(&mut out, ' ', pad);
        if neg {
            out.push('-');
        }
    }
    let dv = chars_of(digits.as_str());
    push_range(&mut out, &dv, 0, dv.len());
    proof {
        assert(dv@.subrange(0, dv@.len() as int) =~= decimal(mag as nat));
        if neg && n == usize::MAX {
            // a decimal text of a u64 is far shorter than usize::MAX
            lemma_decimal_len(mag as nat);
        }
        assert(out@ =~= number_text(v, width as nat, zero_pad));
    }
    out
}

proof fn lemma_decimal_len(n: nat)
    requires
        n <= u64::MAX,
    ensures
        decimal(n).len() <= 20,
    decreases n,
{
    assert(pow10(20) == 100000000000000000000) by {
        reveal_with_fuel(pow10, 21);
    }
    lemma_decimal_len_bound(n, 20);
}

proof fn lemma_decimal_len_bound(n: nat, k: nat)
    requires
        n < pow10(k),
        k >= 1,
    ensures
        decimal(n).len() <= k,
    decreases n,
{
    if n >= 10 {
        assert(pow10(1) == 10) by {
            reveal_with_fuel(pow10, 2);
        }
        assert(k >= 2);
        assert(n / 10 < pow10((k - 1) as nat)) by (nonlinear_arith)
            requires
                n < 10 * pow10((k - 1) as nat),
        ;
        lemma_decimal_len_bound(n / 10, (k - 1) as nat);
    }
}

spec fn pow10(k: nat) -> nat
    decreases k,
{
    if k == 0 {
        1
    } else {
        10 * pow10((k - 1) as nat)
    }
}

/// A template made of one region whose offset lies beyond the content reads
/// `??`: no byte outside the content is ever read.
pub proof fn lemma_out_of_range_region(content: Seq<u8>, p: Seq<char>)
    requires
        p.len() > 0,
        forall|j: int| 0 <= j < p.len() ==> p[j] != ':' && p[j] != '~' && p[j] != '}',
        parse_address(p) matches Some(a) && a >= content.len(),
    ensures
        subpattern_text(content, p) is None,
        template_text(content, seq!['{'] + p + seq!['}']) == seq!['?', '?'],
{
    let t = seq!['{'] + p + seq!['}'];
    let n = p.len() as int;
    lemma_find_from_range(p, ':', 0);
    lemma_find_from_range(p, '~', 0);
    assert(find_from(p, ':', 0) == -1);
    assert(find_from(p, '~', 0) == -1);
    lemma_find_from_range(t, '}', 1);
    assert(t[n + 1] == '}');
    assert(forall|j: int| 1 <= j < n + 1 ==> t[j] == p[j - 1]);
    assert(find_from(t, '}', 1) == n + 1);
    assert(t.subrange(1, n + 1) =~= p);
    assert(template_from(content, t, n + 2) == Seq::<char>::empty());
    assert(template_from(content, t, 0) =~= seq!['?', '?']);
}

proof fn lemma_find_shift(x: Seq<char>, b: Seq<char>, c: char, j: int)
    requires
        0 <= j,
    ensures
        find_from(x + b, c, x.len() + j) == if find_from(b, c, j) < 0 {
            -1
        } else {
            find_from(b, c, j) + x.len()
        },
    decreases b.len() - j,
{
    if j < b.len() {
        assert((x + b)[x.len() + j] == b[j]);
        lemma_find_shift(x, b, c, j + 1);
    }
}

/// What a template yields after a prefix `x` does not depend on `x`.
proof fn lemma_template_shift(content: Seq<u8>, x: Seq<char>, b: Seq<char>, j: int)
    requires
        0 <= j,
    ensures
        template_from(content, x + b, x.len() + j) == template_from(content, b, j),
    decreases b.len() - j,
{
    if j < b.len() {
        lemma_find_shift(x, b, '}', j + 1);
        assert((x + b)[x.len() + j] == b[j]);
        let k = find_from(b, '}', j + 1);
        if b[j] == '{' && j + 1 < k < b.len() {
            assert((x + b).subrange(x.len() + j + 1, x.len() + k) =~= b.subrange(j + 1, k));
            lemma_template_shift(content, x, b, k + 1);
        } else {
            lemma_template_shift(content, x, b, j + 1);
        }
    }
}

/// Text without `{` is copied as it stands.
proof fn lemma_literal_prefix(content: Seq<u8>, a: Seq<char>, r: Seq<char>, i: int)
    requires
        0 <= i <= a.len(),
        forall|j: int| 0 <= j < a.len() ==> a[j] != '{',
    ensures
        template_from(content, a + r, i) == a.subrange(i, a.len() as int) + template_from(
            content,
            a + r,
            a.len() as int,
        ),
    decreases a.len() - i,
{
    if i < a.len() {
        assert((a + r)[i] == a[i]);
        lemma_literal_prefix(content, a, r, i + 1);
        assert(a.subrange(i, a.len() as int) =~= seq![a[i]] + a.subrange(i + 1, a.len() as int));
    } else {
        assert(a.subrange(i, a.len() as int) =~= Seq::<char>::empty());
    }
}

/// In a template whose text before a region holds no `{`, a region whose
/// offset lies beyond the content reads `??`, the text before it is copied,
/// and the rest of the template is evaluated as if it stood alone.
pub proof fn lemma_out_of_range_in_template(content: Seq<u8>, a: Seq<char>, p: Seq<char>, b: Seq<char>)
    requires
        forall|j: int| 0 <= j < a.len() ==> a[j] != '{',
        p.len() > 0,
        forall|j: int| 0 <= j < p.len() ==> p[j] != ':' && p[j] != '~' && p[j] != '}',
        parse_address(p) matches Some(x) && x >= content.len(),
    ensures
        template_text(content, a + (seq!['{'] + p + seq!['}']) + b) == a + seq!['?', '?']
            + template_text(content, b),
{
    let r = seq!['{'] + p + seq!['}'];
    let n = p.len() as int;
    let rb = r + b;
    lemma_out_of_range_region(content, p);
    assert(a + r + b =~= a + rb);
    lemma_literal_prefix(content, a, rb, 0);
    assert(a.subrange(0, a.len() as int) =~= a);
    lemma_template_shift(content, a, rb, 0);
    lemma_find_from_range(rb, '}', 1);
    assert(rb[n + 1] == '}');
    assert(forall|j: int| 1 <= j < n + 1 ==> rb[j] == p[j - 1]);
    assert(find_from(rb, '}', 1) == n + 1);
    assert(rb.subrange(1, n + 1) =~= p);
    lemma_template_shift(content, r, b, 0);
    assert(r.len() == n + 2);
    assert(template_from(content, rb, 0) == seq!['?', '?'] + template_from(content, rb, n + 2));
    assert(template_text(content, a + r + b) =~= a + seq!['?', '?'] + template_text(content, b));
}

/// Extraction templates by file extension, in the order the configuration
/// lists them.
pub struct Extractor {
    types: Vec<(String, Vec<String>)>,
}

/// Why an extractor configuration could not be loaded.
pub struct ConfigError {
    pub message: String,
}

#[verifier::external_type_specification]
#[verifier::external_body]
pub struct ExJsonError(serde_json::Error);

/// The entries, extension first, that a JSON configuration text decodes to,
/// or `None` where it is not a JSON object of string arrays.
pub uninterp spec fn config_of(text: Seq<char>) -> Option<Seq<(Seq<char>, Seq<Seq<char>>)>>;

/// The entries of a configuration, as character sequences.
pub open spec fn entries_view(e: Seq<(String, Vec<String>)>) -> Seq<(Seq<char>, Seq<Seq<char>>)> {
    e.map_values(|x: (String, Vec<String>)| (x.0@, views(x.1@)))
}

/// Relies on `serde_json::from_str` decoding a JSON object into a
/// `BTreeMap<String, Vec<String>>`, whose entries are then listed in key order;
/// the outcome depends on the text alone.
#[verifier::external_body]
fn parse_config(text: &str) -> (r: Result<Vec<(String, Vec<String>)>, serde_json::Error>)
    ensures
        match r {
            Ok(e) => config_of(text@) == Some(entries_view(e@)),
            Err(_) => config_of(text@) is None,
        },
{
    serde_json::from_str::<std::collections::BTreeMap<String, Vec<String>>>(text).map(
        |m| m.into_iter().collect(),
    )
}

/// The templates of the first entry whose extension is `ext`.
pub open spec fn lookup(entries: Seq<(Seq<char>, Seq<Seq<char>>)>, ext: Seq<char>) -> Option<
    Seq<Seq<char>>,
>
    decreases entries.len(),
{
    if entries.len() == 0 {
        None
    } else if entries[0].0 == ext {
        Some(entries[0].1)
    } else {
        lookup(entries.subrange(1, entries.len() as int), ext)
    }
}

impl View for Extractor {
    type V = Seq<(Seq<char>, Seq<Seq<char>>)>;

    closed spec fn view(&self) -> Seq<(Seq<char>, Seq<Seq<char>>)> {
        entries_view(self.types@)
    }
}

impl Extractor {
    /// Loads the configuration from its JSON text: an object that maps each
    /// file extension to a list of templates.
    pub fn new(config: &str) -> (r: Result<Extractor, ConfigError>)
        ensures
            r is Ok <==> config_of(config@) is Some,
            r matches Ok(x) ==> x@ == config_of(config@).unwrap(),
    {
        match parse_config(config) {
            Ok(types) => Ok(Extractor { types }),
            Err(e) => Err(ConfigError { message: e.to_string() }),
        }
    }

    /// The templates configured for files with extension `extension`.
    pub fn templates_for(&self, extension: &str) -> (r: Option<&Vec<String>>)
        ensures
            match r {
                Some(ts) => lookup(self@, extension@) == Some(views(ts@)),
                None => lookup(self@, extension@) is None,
            },
    {
        let key = extension.to_owned();
        let mut i: usize = 0;
        assert(self@.subrange(0, self@.len() as int) =~= self@);
        while i < self.types.len()
            invariant
                i <= self.types@.len(),
                key@ == extension@,
                lookup(self@, extension@) == lookup(self@.subrange(i as int, self@.len() as int), extension@),
            decreases self.types@.len() - i,
        {
            let ghost rest = self@.subrange(i as int, self@.len() as int);
            assert(rest.subrange(1, rest.len() as int) =~= self@.subrange(i + 1, self@.len() as int));
            if self.types[i].0 == key {
                return Some(&self.types[i].1);
            }
            i = i + 1;
        }
        None
    }

    /// The text subpattern `pattern` evaluates to against `content`, or
    /// `None` where an address or the format does not parse, or a byte of the
    /// range lies beyond the content.
    pub fn extract_subpattern(&self, content: &[u8], pattern: &str) -> (r: Option<String>)
        ensures
            match r {
                Some(x) => subpattern_text(content@, pattern@) == Some(x@),
                None => subpattern_text(content@, pattern@) is None,
            },
    {
        extract_subpattern_chars(content, &chars_of(pattern))
    }

    /// Template `template` with each subpattern region replaced by its value,
    /// or by `??` where it cannot be evaluated.
    pub fn extract_pattern(&self, content: &[u8], template: &str) -> (r: String)
        ensures
            r@ == template_text(content@, template@),
    {
        let t = chars_of(template);
        let n = t.len();
        let mut out = String::new();
        let mut i: usize = 0;
        while i < n
            invariant
                n == t@.len(),
                i <= n,
                out@ + template_from(content@, t@, i as int) == template_text(content@, t@),
            decreases n - i,
        {
            let mut literal = true;
            if t[i] == '{' {
                if let Some(k) = find_char(&t, '}', i + 1) {
                    proof {
                        lemma_find_from_range(t@, '}', i + 1);
                    }
                    if k > i + 1 {
                        let inner = sub_chars(&t, i + 1, k);
                        let ghost out0 = out@;
                        match extract_subpattern_chars(content, &inner) {
                            Some(x) => {
                                let xv = chars_of(x.as_str());
                                push_range(&mut out, &xv, 0, xv.len());
                                assert(xv@.subrange(0, xv@.len() as int) =~= xv@);
                            },
                            None => {
                                out.push('?');
                                out.push('?');
                            },
                        }
                        proof {
                            let piece = match subpattern_text(content@, t@.subrange(i + 1, k as int)) {
                                Some(x) => x,
                                None => seq!['?', '?'],
                            };
                            assert(template_from(content@, t@, i as int) == piece + template_from(content@, t@, k + 1));
                            assert(out@ =~= out0 + piece);
                            assert(out@ + template_from(content@, t@, k + 1) =~= out0
                                + template_from(content@, t@, i as int));
                        }
                        i = k + 1;
                        literal = false;
                    }
                }
            }
            if literal {
                out.push(t[i]);
                i = i + 1;
            }
        }
        out
    }

    /// The values of the templates configured for `extension`, in order,
    /// against `content`; empty where no template is configured for it.
    pub fn extract(&self, extension: &str, content: &[u8]) -> (r: Vec<String>)
        ensures
            match lookup(self@, extension@) {
                Some(ts) => r@.len() == ts.len() && forall|j: int|
                    0 <= j < ts.len() ==> #[trigger] r@[j]@ == template_text(content@, ts[j]),
                None => r@.len() == 0,
            },
    {
        let mut r: Vec<String> = Vec::new();
        match self.templates_for(extension) {
            None => r,
            Some(ts) => {
                let mut i: usize = 0;
                while i < ts.len()
                    invariant
                        i <= ts@.len(),
                        lookup(self@, extension@) == Some(views(ts@)),
                        r@.len() == i,
                        forall|j: int|
                            0 <= j < i ==> #[trigger] r@[j]@ == template_text(content@, ts@[j]@),
                    decreases ts@.len() - i,
                {
                    let x = self.extract_pattern(content, ts[i].as_str());
                    r.push(x);
                    i = i + 1;
                }
                r
            },
        }
    }
}

/// Evaluates a subpattern given as characters, as [`subpattern_text`] states it.
fn extract_subpattern_chars(content: &[u8], p: &Vec<char>) -> (r: Option<String>)
    ensures
        match r {
            Some(x) => subpattern_text(content@, p@) == Some(x@),
            None => subpattern_text(content@, p@) is None,
        },
{
    let n = p.len();
    let (addr, format) = match find_char(p, ':', 0) {
        Some(c) => {
            proof {
                lemma_find_from_range(p@, ':', 0);
            }
            (sub_chars(p, 0, c), sub_chars(p, c + 1, n))
        },
        None => {
            assert(p@.subrange(0, n as int) =~= p@);
            (sub_chars(p, 0, n), Vec::new())
        },
    };
    let an = addr.len();
    let (start, end) = match find_char(&addr, '~', 0) {
        Some(t) => {
            proof {
                lemma_find_from_range(addr@, '~', 0);
            }
            (parse_address_chars(&sub_chars(&addr, 0, t)), parse_address_chars(&sub_chars(&addr, t + 1, an)))
        },
        None => {
            let a = parse_address_chars(&addr);
            (a, a)
        },
    };
    let (start, end) = match (start, end) {
        (Some(a), Some(b)) => (a, b),
        _ => {
            return None;
        },
    };
    let (neg, mag) = if start <= end {
        if end >= content.len() {
            return None;
        }
        read_range(content, start, end)
    } else {
        (false, 0)
    };
    let width: usize = if format.len() == 0 {
        0
    } else {
        match parse_unsigned_chars(&format, 10, true) {
            Some(w) => w,
            None => {
                return None;
            },
        }
    };
    let zero_pad = format.len() > 0 && format[0] == '0';
    Some(format_number(neg, mag, width, zero_pad))
}

} // verus!
