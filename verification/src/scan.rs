//! Lexical ground floor of the stylesheet language.
//!
//! Splits a line into whitespace-separated tokens, truncates at a `//`
//! comment token, and parses the numeric literals: unsigned and signed
//! integers, and plain decimal fractions.  Every parser's result is pinned
//! to a spec-level grammar over the character sequence.

use crate::Error;
use crate::rat::{Rat, RatV};
use vstd::prelude::*;

verus! {

// ---------------------------------------------------------------------------
// digits
// ---------------------------------------------------------------------------
/// `c` is a decimal digit.
pub open spec fn is_digit(c: char) -> bool {
    48 <= c as int <= 57
}

/// The numeric value of a decimal digit.
pub open spec fn digit_val(c: char) -> int {
    c as int - 48
}

/// Every character of `s` is a decimal digit.
pub open spec fn all_digits(s: Seq<char>) -> bool {
    forall|i: int| 0 <= i < s.len() ==> is_digit(#[trigger] s[i])
}

/// The number the digit string `s` denotes, most significant digit first.
pub open spec fn digits_val(s: Seq<char>) -> int
    decreases s.len(),
{
    if s.len() == 0 {
        0
    } else {
        digits_val(s.drop_last()) * 10 + digit_val(s.last())
    }
}

/// Ten to the `n`.
pub open spec fn pow10(n: nat) -> int
    decreases n,
{
    if n == 0 {
        1
    } else {
        10 * pow10((n - 1) as nat)
    }
}

pub proof fn lemma_pow10_pos(n: nat)
    ensures
        pow10(n) >= 1,
    decreases n,
{
    if n > 0 {
        lemma_pow10_pos((n - 1) as nat);
    }
}

pub proof fn lemma_pow10_mono(a: nat, b: nat)
    requires
        a <= b,
    ensures
        pow10(a) <= pow10(b),
    decreases b,
{
    if a < b {
        lemma_pow10_mono(a, (b - 1) as nat);
        lemma_pow10_pos((b - 1) as nat);
    }
}

/// A digit string's value lies below ten to its length.
pub proof fn lemma_digits_val_bound(s: Seq<char>)
    requires
        all_digits(s),
    ensures
        0 <= digits_val(s) < pow10(s.len()),
    decreases s.len(),
{
    if s.len() > 0 {
        assert(all_digits(s.drop_last())) by {
            assert(forall|i: int|
                0 <= i < s.len() - 1 ==> s.drop_last()[i] == #[trigger] s[i]);
        }
        lemma_digits_val_bound(s.drop_last());
    }
}

/// A digit string's value only grows as more digits are appended.
pub proof fn lemma_digits_val_take_mono(s: Seq<char>, i: int)
    requires
        all_digits(s),
        0 <= i <= s.len(),
    ensures
        digits_val(s.take(i)) <= digits_val(s),
    decreases s.len(),
{
    if i < s.len() {
        assert(all_digits(s.drop_last())) by {
            assert(forall|k: int|
                0 <= k < s.len() - 1 ==> s.drop_last()[k] == #[trigger] s[k]);
        }
        assert(s.take(i) =~= s.drop_last().take(i));
        lemma_digits_val_take_mono(s.drop_last(), i);
        lemma_digits_val_bound(s.drop_last());
    } else {
        assert(s.take(i) =~= s);
    }
}

// ---------------------------------------------------------------------------
// unsigned and signed integers
// ---------------------------------------------------------------------------
/// The 16-bit layer number a token denotes: a nonempty all-digit string
/// whose value fits.
pub open spec fn spec_parse_u16(s: Seq<char>) -> Option<u16> {
    if s.len() > 0 && all_digits(s) && digits_val(s) <= 0xffff {
        Some(digits_val(s) as u16)
    } else {
        None
    }
}

/// Parses a 16-bit unsigned integer.
pub fn parse_u16(s: &str) -> (r: Option<u16>)
    ensures
        r == spec_parse_u16(s@),
{
    let n: usize = s.unicode_len();
    if n == 0 {
        return None;
    }
    let mut acc: u32 = 0;
    let mut i: usize = 0;
    proof {
        assert(s@.take(0) =~= Seq::<char>::empty());
    }
    while i < n
        invariant
            0 <= i <= n,
            n == s@.len(),
            all_digits(s@.take(i as int)),
            acc == digits_val(s@.take(i as int)),
            acc <= 0xffff,
        decreases n - i,
    {
        let c: char = s.get_char(i);
        let u: u32 = c as u32;
        if u < 48 || u > 57 {
            assert(!is_digit(s@[i as int]));
            return None;
        }
        proof {
            assert(s@.take(i + 1 as int).drop_last() =~= s@.take(i as int));
            assert(s@.take(i + 1 as int).last() == s@[i as int]);
        }
        acc = acc * 10 + (u - 48);
        if acc > 0xffff {
            proof {
                if all_digits(s@) {
                    lemma_digits_val_take_mono(s@, i + 1 as int);
                }
            }
            return None;
        }
        i += 1;
    }
    proof {
        assert(s@.take(n as int) =~= s@);
    }
    Some(acc as u16)
}

/// The 32-bit signed integer a token denotes: an optional sign, then a
/// nonempty all-digit string whose value fits.
pub open spec fn spec_parse_i32(s: Seq<char>) -> Option<i32> {
    let neg = s.len() > 0 && s[0] == '-';
    let body = dec_body(s);
    if body.len() > 0 && all_digits(body) {
        if neg && digits_val(body) <= 0x8000_0000 {
            Some((-digits_val(body)) as i32)
        } else if !neg && digits_val(body) <= 0x7fff_ffff {
            Some(digits_val(body) as i32)
        } else {
            None
        }
    } else {
        None
    }
}

/// Parses a 32-bit signed integer.
pub fn parse_i32(s: &str) -> (r: Option<i32>)
    ensures
        r == spec_parse_i32(s@),
{
    let n: usize = s.unicode_len();
    if n == 0 {
        return None;
    }
    let c0: char = s.get_char(0);
    let neg: bool = c0 == '-';
    let start: usize = if c0 == '-' || c0 == '+' {
        1
    } else {
        0
    };
    let ghost body: Seq<char> = dec_body(s@);
    proof {
        assert(body =~= s@.subrange(start as int, n as int));
    }
    if n == start {
        return None;
    }
    let mut acc: u64 = 0;
    let mut i: usize = start;
    proof {
        assert(body.take(0) =~= Seq::<char>::empty());
    }
    while i < n
        invariant
            start <= i <= n,
            n == s@.len(),
            body == dec_body(s@),
            neg == (s@.len() > 0 && s@[0] == '-'),
            body =~= s@.subrange(start as int, n as int),
            start <= n,
            all_digits(body.take(i - start as int)),
            acc == digits_val(body.take(i - start as int)),
            acc <= 0x8000_0000,
        decreases n - i,
    {
        let c: char = s.get_char(i);
        let u: u32 = c as u32;
        if u < 48 || u > 57 {
            proof {
                assert(body[i - start as int] == s@[i as int]);
                assert(!is_digit(body[i - start as int]));
            }
            return None;
        }
        proof {
            assert(body.take(i + 1 - start as int).drop_last() =~= body.take(i - start as int));
            assert(body.take(i + 1 - start as int).last() == body[i - start as int]);
            assert(body[i - start as int] == s@[i as int]);
        }
        acc = acc * 10 + ((u - 48) as u64);
        if acc > 0x8000_0000 {
            proof {
                if all_digits(body) {
                    lemma_digits_val_take_mono(body, i + 1 - start as int);
                }
            }
            return None;
        }
        i += 1;
    }
    proof {
        assert(body.take(n - start as int) =~= body);
    }
    if neg {
        if acc == 0x8000_0000 {
            Some(i32::MIN)
        } else {
            Some(-(acc as i32))
        }
    } else {
        if acc > 0x7fff_ffff {
            None
        } else {
            Some(acc as i32)
        }
    }
}

// ---------------------------------------------------------------------------
// decimal fractions
// ---------------------------------------------------------------------------
/// The position of the first `.` in `s`, or `s.len()` when there is none.
pub open spec fn first_dot(s: Seq<char>) -> int
    decreases s.len(),
{
    if s.len() == 0 {
        0
    } else if s[0] == '.' {
        0
    } else {
        1 + first_dot(s.drop_first())
    }
}

/// A scan that saw no dot before `k`, and a dot at `k` unless it ran off
/// the end, found the first dot.
pub proof fn lemma_first_dot_at(s: Seq<char>, k: int)
    requires
        0 <= k <= s.len(),
        forall|j: int| 0 <= j < k ==> s[j] != '.',
        k < s.len() ==> s[k] == '.',
    ensures
        first_dot(s) == k,
    decreases s.len(),
{
    if s.len() > 0 && k > 0 {
        assert(forall|j: int| 0 <= j < k - 1 ==> s.drop_first()[j] == #[trigger] s[j + 1]);
        lemma_first_dot_at(s.drop_first(), k - 1);
    }
}

/// The integral part of a decimal body: everything before the first dot.
pub open spec fn dec_int_part(body: Seq<char>) -> Seq<char> {
    body.take(first_dot(body))
}

/// The fractional part of a decimal body: everything after the first dot.
pub open spec fn dec_frac_part(body: Seq<char>) -> Seq<char> {
    if first_dot(body) < body.len() {
        body.skip(first_dot(body) + 1)
    } else {
        Seq::empty()
    }
}

/// The sign-stripped body of a decimal token.
pub open spec fn dec_body(s: Seq<char>) -> Seq<char> {
    if s.len() > 0 && (s[0] == '-' || s[0] == '+') {
        s.drop_first()
    } else {
        s
    }
}

/// The exact fraction a decimal token denotes: optional sign, digits, an
/// optional dot and fractional digits, with at least one digit in all.
pub open spec fn spec_parse_dec(s: Seq<char>) -> Option<RatV> {
    let neg = s.len() > 0 && s[0] == '-';
    let body = dec_body(s);
    let ip = dec_int_part(body);
    let fp = dec_frac_part(body);
    if all_digits(ip) && all_digits(fp) && ip.len() + fp.len() > 0 {
        let m = digits_val(ip) * pow10(fp.len()) + digits_val(fp);
        Some(RatV { num: if neg { -m } else { m }, den: pow10(fp.len()) })
    } else {
        None
    }
}

/// The machine-size rule of the decimal grammar: at most twelve integral
/// and six fractional digits, so the exact fraction always fits.
pub open spec fn spec_dec_sizes(s: Seq<char>) -> bool {
    dec_int_part(dec_body(s)).len() <= 12 && dec_frac_part(dec_body(s)).len() <= 6
}

/// The index of the first `.` at or after `from`, or the length when none.
fn find_dot(s: &str, from: usize) -> (r: usize)
    requires
        from <= s@.len(),
    ensures
        from <= r <= s@.len(),
        forall|j: int| from <= j < r ==> s@[j] != '.',
        r < s@.len() ==> s@[r as int] == '.',
{
    let n: usize = s.unicode_len();
    let mut i: usize = from;
    while i < n
        invariant
            from <= i <= n,
            n == s@.len(),
            forall|j: int| from <= j < i ==> s@[j] != '.',
        decreases n - i,
    {
        if s.get_char(i) == '.' {
            return i;
        }
        i += 1;
    }
    n
}

/// Reads the all-digit run `s[from..to]` as a number; `None` when some
/// character in the range is no digit.
fn parse_digits(s: &str, from: usize, to: usize) -> (r: Option<i64>)
    requires
        from <= to <= s@.len(),
        to - from <= 12,
    ensures
        match r {
            Some(v) => all_digits(s@.subrange(from as int, to as int)) && v == digits_val(
                s@.subrange(from as int, to as int),
            ) && 0 <= v < pow10((to - from) as nat),
            None => !all_digits(s@.subrange(from as int, to as int)),
        },
{
    let ghost body: Seq<char> = s@.subrange(from as int, to as int);
    let mut acc: i64 = 0;
    let mut i: usize = from;
    proof {
        assert(body.take(0) =~= Seq::<char>::empty());
        lemma_pow10_pos(0);
    }
    while i < to
        invariant
            from <= i <= to,
            to <= s@.len(),
            to - from <= 12,
            body =~= s@.subrange(from as int, to as int),
            all_digits(body.take(i - from as int)),
            acc == digits_val(body.take(i - from as int)),
            0 <= acc < pow10((i - from) as nat),
        decreases to - i,
    {
        let c: char = s.get_char(i);
        let u: u32 = c as u32;
        if u < 48 || u > 57 {
            assert(!is_digit(body[i - from as int]));
            return None;
        }
        proof {
            assert(body.take(i + 1 - from as int).drop_last() =~= body.take(i - from as int));
            assert(body.take(i + 1 - from as int).last() == body[i - from as int]);
            assert(body[i - from as int] == s@[i as int]);
            lemma_pow10_mono((i - from) as nat, 11);
            assert(pow10(11) == 100_000_000_000) by {
                reveal_with_fuel(pow10, 12);
            }
        }
        acc = acc * 10 + ((u - 48) as i64);
        proof {
            lemma_digits_val_bound(body.take(i + 1 - from as int));
        }
        i += 1;
    }
    proof {
        assert(body.take(to - from as int) =~= body);
    }
    Some(acc)
}

/// Parses a decimal fraction token into an exact rational.
///
/// Refuses a malformed literal, and one beyond the documented grammar
/// sizes, with `Error::BadNumber`.
pub fn parse_rat(s: &str) -> (r: Result<Rat, Error>)
    ensures
        match r {
            Ok(v) => spec_parse_dec(s@) is Some && spec_dec_sizes(s@) && v.wf() && v@
                == spec_parse_dec(s@)->0,
            Err(e) => e == Error::BadNumber && (spec_parse_dec(s@) is None || !spec_dec_sizes(
                s@,
            )),
        },
{
    let n: usize = s.unicode_len();
    let mut start: usize = 0;
    let mut neg: bool = false;
    if n > 0 {
        let c0: char = s.get_char(0);
        if c0 == '-' {
            neg = true;
            start = 1;
        } else if c0 == '+' {
            start = 1;
        }
    }
    let ghost body: Seq<char> = dec_body(s@);
    proof {
        assert(body =~= s@.subrange(start as int, n as int));
    }
    let d: usize = find_dot(s, start);
    proof {
        assert(forall|j: int|
            0 <= j < d - start ==> body[j] == #[trigger] s@[j + start]);
        lemma_first_dot_at(body, d - start as int);
    }
    let ip_to: usize = d;
    let (f_from, f_len): (usize, usize) = if d < n {
        (d + 1, n - d - 1)
    } else {
        (d, 0)
    };
    proof {
        assert(dec_int_part(body) =~= s@.subrange(start as int, ip_to as int));
        assert(dec_frac_part(body) =~= s@.subrange(f_from as int, (f_from + f_len) as int));
    }
    if ip_to - start > 12 || f_len > 6 {
        return Err(Error::BadNumber);
    }
    if ip_to - start == 0 && f_len == 0 {
        return Err(Error::BadNumber);
    }
    let ai: i64 = match parse_digits(s, start, ip_to) {
        Some(v) => v,
        None => {
            return Err(Error::BadNumber);
        },
    };
    let af: i64 = match parse_digits(s, f_from, f_from + f_len) {
        Some(v) => v,
        None => {
            return Err(Error::BadNumber);
        },
    };
    let mut den: i64 = 1;
    let mut k: usize = 0;
    while k < f_len
        invariant
            0 <= k <= f_len,
            f_len <= 6,
            den == pow10(k as nat),
            1 <= den <= 1_000_000,
        decreases f_len - k,
    {
        proof {
            lemma_pow10_mono(k as nat, 5);
            assert(pow10(5) == 100_000) by {
                reveal_with_fuel(pow10, 6);
            }
        }
        den = den * 10;
        k += 1;
    }
    proof {
        lemma_pow10_mono((ip_to - start) as nat, 12);
        assert(pow10(12) == 1_000_000_000_000) by {
            reveal_with_fuel(pow10, 13);
        }
        assert(ai * den <= 1_000_000_000_000 * 1_000_000) by (nonlinear_arith)
            requires
                0 <= ai <= 1_000_000_000_000,
                1 <= den <= 1_000_000,
        ;
        assert(0 <= ai * den) by (nonlinear_arith)
            requires
                0 <= ai,
                1 <= den,
        ;
    }
    let num0: i64 = ai * den + af;
    let num: i64 = if neg {
        -num0
    } else {
        num0
    };
    Ok(Rat { num, den })
}

// ---------------------------------------------------------------------------
// whitespace tokens and comments
// ---------------------------------------------------------------------------
/// The line whitespace that separates tokens.
pub open spec fn is_space(c: char) -> bool {
    c == ' ' || c == '\t' || c == '\r' || c == '\n'
}

/// One step of the splitting scan: a space closes the current token, any
/// other character extends it.
pub open spec fn split_step(st: (Seq<Seq<char>>, Seq<char>), c: char) -> (Seq<Seq<char>>, Seq<
    char,
>) {
    if is_space(c) {
        if st.1.len() > 0 {
            (st.0.push(st.1), Seq::empty())
        } else {
            st
        }
    } else {
        (st.0, st.1.push(c))
    }
}

/// The splitting scan over a whole character sequence.
pub open spec fn split_state(s: Seq<char>) -> (Seq<Seq<char>>, Seq<char>)
    decreases s.len(),
{
    if s.len() == 0 {
        (Seq::empty(), Seq::empty())
    } else {
        split_step(split_state(s.drop_last()), s.last())
    }
}

/// The whitespace-separated tokens of a line.
pub open spec fn spec_split_ws(s: Seq<char>) -> Seq<Seq<char>> {
    let st = split_state(s);
    if st.1.len() > 0 {
        st.0.push(st.1)
    } else {
        st.0
    }
}

/// A token that begins a trailing comment.
pub open spec fn starts_comment(t: Seq<char>) -> bool {
    t.len() >= 2 && t[0] == '/' && t[1] == '/'
}

/// The number of tokens before the first comment token.
pub open spec fn first_comment(ts: Seq<Seq<char>>) -> int
    decreases ts.len(),
{
    if ts.len() == 0 {
        0
    } else if starts_comment(ts[0]) {
        0
    } else {
        1 + first_comment(ts.drop_first())
    }
}

/// A scan that saw no comment token before `k`, and one at `k` unless it
/// ran off the end, found the first comment token.
pub proof fn lemma_first_comment_at(ts: Seq<Seq<char>>, k: int)
    requires
        0 <= k <= ts.len(),
        forall|j: int| 0 <= j < k ==> !starts_comment(#[trigger] ts[j]),
        k < ts.len() ==> starts_comment(ts[k]),
    ensures
        first_comment(ts) == k,
    decreases ts.len(),
{
    if ts.len() > 0 && k > 0 {
        assert(forall|j: int|
            0 <= j < k - 1 ==> ts.drop_first()[j] == #[trigger] ts[j + 1]);
        lemma_first_comment_at(ts.drop_first(), k - 1);
    }
}

/// The directive tokens of a line: whitespace-separated tokens up to the
/// first one that starts a `//` comment.
pub open spec fn spec_tokens(s: Seq<char>) -> Seq<Seq<char>> {
    let ts = spec_split_ws(s);
    ts.take(first_comment(ts))
}

/// The views of a vector of owned tokens.
pub open spec fn views_of(v: Seq<String>) -> Seq<Seq<char>> {
    v.map_values(|t: String| t@)
}

/// Splits a line at whitespace.
fn split_ws(line: &str) -> (r: Vec<String>)
    ensures
        views_of(r@) == spec_split_ws(line@),
{
    let n: usize = line.unicode_len();
    let mut out: Vec<String> = Vec::new();
    let mut tok_start: usize = 0;
    let mut i: usize = 0;
    proof {
        assert(line@.take(0) =~= Seq::<char>::empty());
        assert(views_of(out@) =~= split_state(line@.take(0)).0);
        assert(split_state(line@.take(0)).1 =~= line@.subrange(0, 0));
    }
    while i < n
        invariant
            0 <= tok_start <= i <= n,
            n == line@.len(),
            views_of(out@) == split_state(line@.take(i as int)).0,
            split_state(line@.take(i as int)).1 == line@.subrange(tok_start as int, i as int),
        decreases n - i,
    {
        let c: char = line.get_char(i);
        proof {
            assert(line@.take(i + 1 as int).drop_last() =~= line@.take(i as int));
            assert(line@.take(i + 1 as int).last() == line@[i as int]);
        }
        if c == ' ' || c == '\t' || c == '\r' || c == '\n' {
            if i > tok_start {
                let tok: String = line.substring_char(tok_start, i).to_owned();
                proof {
                    assert(views_of(out@.push(tok)) =~= views_of(out@).push(tok@));
                }
                out.push(tok);
            }
            proof {
                assert(line@.subrange(i + 1 as int, i + 1 as int) =~= Seq::<char>::empty());
            }
            tok_start = i + 1;
        } else {
            proof {
                assert(line@.subrange(tok_start as int, i as int).push(line@[i as int]) =~= line@
                    .subrange(tok_start as int, i + 1 as int));
            }
        }
        i += 1;
    }
    proof {
        assert(line@.take(n as int) =~= line@);
    }
    if tok_start < n {
        let tok: String = line.substring_char(tok_start, n).to_owned();
        proof {
            assert(views_of(out@.push(tok)) =~= views_of(out@).push(tok@));
        }
        out.push(tok);
    }
    out
}

/// Whether an owned token begins a trailing comment.
fn is_comment_token(t: &String) -> (r: bool)
    ensures
        r == starts_comment(t@),
{
    let st: &str = t.as_str();
    if st.unicode_len() < 2 {
        return false;
    }
    st.get_char(0) == '/' && st.get_char(1) == '/'
}

/// Splits a line into its directive tokens: whitespace-separated, truncated
/// at the first token that starts a `//` comment.
pub fn tokenize(line: &str) -> (r: Vec<String>)
    ensures
        views_of(r@) == spec_tokens(line@),
{
    let toks: Vec<String> = split_ws(line);
    let mut out: Vec<String> = Vec::new();
    let mut k: usize = 0;
    while k < toks.len()
        invariant
            0 <= k <= toks.len(),
            views_of(toks@) == spec_split_ws(line@),
            forall|j: int| 0 <= j < k ==> !starts_comment(#[trigger] views_of(toks@)[j]),
            views_of(out@) == views_of(toks@).take(k as int),
        decreases toks.len() - k,
    {
        if is_comment_token(&toks[k]) {
            proof {
                lemma_first_comment_at(views_of(toks@), k as int);
            }
            return out;
        }
        let tok: String = toks[k].clone();
        proof {
            assert(views_of(out@.push(tok)) =~= views_of(out@).push(tok@));
            assert(views_of(toks@).take(k + 1 as int) =~= views_of(toks@).take(k as int).push(
                views_of(toks@)[k as int],
            ));
        }
        out.push(tok);
        k += 1;
    }
    proof {
        lemma_first_comment_at(views_of(toks@), toks@.len() as int);
        assert(views_of(toks@).take(toks@.len() as int) =~= views_of(toks@));
    }
    out
}

} // verus!
