//! Observation parser: splits a line into whitespace-separated tokens,
//! reads a signed integer class id, and recognizes real-number literals.
//!
//! A line yields an observation when it has at least three tokens, the
//! first is a valid `i32` and the next two are valid double-precision
//! literals.  A line with fewer than three tokens stops the parse: every
//! later line is ignored.  A token that should be a number but is not one
//! aborts the parse with `Parse`.

use vstd::prelude::*;
use crate::model::ModelError;

verus! {

/// The code points with the Unicode `White_Space` property: the set that
/// `char::is_whitespace`, and so `str::split_whitespace`, recognizes.
pub open spec fn is_space(c: char) -> bool {
    let u = c as u32;
    ||| u == 0x09
    ||| u == 0x0A
    ||| u == 0x0B
    ||| u == 0x0C
    ||| u == 0x0D
    ||| u == 0x20
    ||| u == 0x85
    ||| u == 0xA0
    ||| u == 0x1680
    ||| (0x2000 <= u && u <= 0x200A)
    ||| u == 0x2028
    ||| u == 0x2029
    ||| u == 0x202F
    ||| u == 0x3000
    ||| u == 0x205F
}

/// Whether the character has the Unicode `White_Space` property.
pub fn check_space(c: char) -> (r: bool)
    ensures
        r == is_space(c),
{
    let u = c as u32;
    u == 0x09 || u == 0x0A || u == 0x0B || u == 0x0C || u == 0x0D || u == 0x20 || u == 0x85
        || u == 0xA0 || u == 0x1680 || (0x2000 <= u && u <= 0x200A) || u == 0x2028 || u == 0x2029
        || u == 0x202F || u == 0x3000 || u == 0x205F
}

/// The tokens of `s[i..]`, split on runs of white space, given the token
/// characters read so far (`cur`) and the tokens already complete (`acc`).
pub open spec fn split_ws_from(s: Seq<char>, i: int, cur: Seq<char>, acc: Seq<Seq<char>>) -> Seq<
    Seq<char>,
>
    decreases s.len() - i,
{
    if i < 0 || i >= s.len() {
        if cur.len() > 0 {
            acc.push(cur)
        } else {
            acc
        }
    } else if is_space(s[i]) {
        if cur.len() > 0 {
            split_ws_from(s, i + 1, Seq::empty(), acc.push(cur))
        } else {
            split_ws_from(s, i + 1, cur, acc)
        }
    } else {
        split_ws_from(s, i + 1, cur.push(s[i]), acc)
    }
}

/// The whitespace-separated tokens of `s`, in order; what
/// `str::split_whitespace` yields.
pub open spec fn split_ws(s: Seq<char>) -> Seq<Seq<char>> {
    split_ws_from(s, 0, Seq::empty(), Seq::empty())
}

/// Splits a line into its whitespace-separated tokens.
pub fn tokenize(line: &Vec<char>) -> (r: Vec<Vec<char>>)
    ensures
        r.deep_view() == split_ws(line@),
{
    let mut acc: Vec<Vec<char>> = Vec::new();
    let mut cur: Vec<char> = Vec::new();
    let mut i: usize = 0;
    proof {
        assert(acc.deep_view() =~~= Seq::<Seq<char>>::empty());
    }
    while i < line.len()
        invariant
            i <= line.len(),
            split_ws(line@) == split_ws_from(line@, i as int, cur@, acc.deep_view()),
        decreases line.len() - i,
    {
        let c = line[i];
        if check_space(c) {
            if cur.len() > 0 {
                let ghost prev_acc = acc.deep_view();
                let ghost cur_view = cur@;
                acc.push(cur);
                cur = Vec::new();
                proof {
                    assert(acc.deep_view() =~~= prev_acc.push(cur_view));
                }
            }
        } else {
            cur.push(c);
        }
        i = i + 1;
    }
    if cur.len() > 0 {
        let ghost prev_acc = acc.deep_view();
        let ghost cur_view = cur@;
        acc.push(cur);
        proof {
            assert(acc.deep_view() =~~= prev_acc.push(cur_view));
        }
    }
    acc
}

/// An ASCII decimal digit.
pub open spec fn is_digit(c: char) -> bool {
    0x30 <= c as u32 <= 0x39
}

/// The numeric value of an ASCII decimal digit.
pub open spec fn digit_val(c: char) -> int {
    c as u32 - 0x30
}

/// The value of a digit string read in base ten.
pub open spec fn digits_val(s: Seq<char>) -> int
    decreases s.len(),
{
    if s.len() == 0 {
        0
    } else {
        digits_val(s.drop_last()) * 10 + digit_val(s.last())
    }
}

/// Every character of the string is an ASCII decimal digit.
pub open spec fn all_digits(s: Seq<char>) -> bool {
    forall|j: int| 0 <= j < s.len() ==> is_digit(#[trigger] s[j])
}

/// The value a token denotes as a signed 32-bit integer: an optional sign
/// followed by one or more ASCII digits, denoting a value within the `i32`
/// range; absent otherwise.  The language `i32::from_str` accepts.
pub open spec fn i32_from_chars(s: Seq<char>) -> Option<int> {
    let signed = s.len() > 0 && (s[0] == '+' || s[0] == '-');
    let body = if signed {
        s.skip(1)
    } else {
        s
    };
    if body.len() == 0 || !all_digits(body) {
        None
    } else {
        let v = if s[0] == '-' {
            -digits_val(body)
        } else {
            digits_val(body)
        };
        if -0x8000_0000 <= v <= 0x7fff_ffff {
            Some(v)
        } else {
            None
        }
    }
}

/// A string of digits denotes a non-negative value.
proof fn lemma_digits_val_nonneg(s: Seq<char>)
    requires
        all_digits(s),
    ensures
        digits_val(s) >= 0,
    decreases s.len(),
{
    if s.len() > 0 {
        lemma_digits_val_nonneg(s.drop_last());
    }
}

/// Reading more digits never decreases the value.
proof fn lemma_digits_val_prefix(s: Seq<char>, j: int)
    requires
        all_digits(s),
        0 <= j <= s.len(),
    ensures
        digits_val(s) >= digits_val(s.take(j)),
    decreases s.len(),
{
    lemma_digits_val_nonneg(s.take(j));
    if j < s.len() {
        lemma_digits_val_nonneg(s.drop_last());
        assert(s.drop_last().take(j) =~= s.take(j));
        lemma_digits_val_prefix(s.drop_last(), j);
    } else {
        assert(s.take(j) =~= s);
    }
}

/// Reads a token as a signed 32-bit integer, exactly as `i32::from_str`
/// does: an optional sign, then one or more ASCII digits, rejected when the
/// value falls outside the `i32` range.
pub fn parse_i32(t: &Vec<char>) -> (r: Option<i32>)
    ensures
        match r {
            Some(v) => i32_from_chars(t@) == Some(v as int),
            None => i32_from_chars(t@) is None,
        },
{
    let n = t.len();
    let mut i: usize = 0;
    let mut neg = false;
    if n > 0 && (t[0] == '+' || t[0] == '-') {
        neg = t[0] == '-';
        i = 1;
    }
    let ghost start = i as int;
    let ghost body = t@.skip(start);
    proof {
        assert(t@.skip(0) =~= t@);
    }
    if i == n {
        // no digits at all
        return None;
    }
    let mut acc: u64 = 0;
    while i < n
        invariant
            start <= i as int <= n,
            n == t@.len(),
            body == t@.skip(start),
            0 <= start <= 1,
            body == (if t@.len() > 0 && (t@[0] == '+' || t@[0] == '-') {
                t@.skip(1)
            } else {
                t@
            }),
            neg <==> (t@.len() > 0 && t@[0] == '-'),
            body.len() > 0,
            acc <= 0x8000_0000,
            acc == digits_val(body.take(i - start)),
            forall|k: int| 0 <= k < i - start ==> is_digit(#[trigger] body[k]),
        decreases n - i,
    {
        let c = t[i];
        let u = c as u32;
        if !(0x30 <= u && u <= 0x39) {
            // a non-digit: the token denotes no integer
            proof {
                assert(!is_digit(body[i - start]));
                assert(!all_digits(body));
            }
            return None;
        }
        let d = (u - 0x30) as u64;
        let new_acc: u64 = acc * 10 + d;
        proof {
            assert(body.take(i - start + 1).drop_last() =~= body.take(i - start));
            assert(body.take(i - start + 1).last() == body[i - start]);
            assert(digits_val(body.take(i - start + 1)) == acc * 10 + d);
        }
        if new_acc > 0x8000_0000 {
            // the value is already outside the i32 range; more digits can
            // only keep it there, and a later non-digit also means None
            proof {
                if all_digits(body) {
                    lemma_digits_val_prefix(body, i - start + 1);
                }
            }
            return None;
        }
        acc = new_acc;
        i = i + 1;
    }
    proof {
        assert(body.take(n - start) =~= body);
        assert(all_digits(body));
    }
    if neg {
        let v: i64 = -(acc as i64);
        Some(v as i32)
    } else {
        if acc == 0x8000_0000 {
            // 2^31 is representable only when negated
            return None;
        }
        Some(acc as i32)
    }
}

/// The lower-case code point of an ASCII letter; any other character's
/// code point unchanged.
pub open spec fn lower_u32(c: char) -> u32 {
    if 0x41 <= c as u32 <= 0x5A {
        (c as u32 + 0x20) as u32
    } else {
        c as u32
    }
}

/// The lower-case code point of an ASCII letter.
fn lower_code(c: char) -> (r: u32)
    ensures
        r == lower_u32(c),
{
    let u = c as u32;
    if 0x41 <= u && u <= 0x5A {
        u + 0x20
    } else {
        u
    }
}

/// The first position at or after `i` that does not hold an ASCII digit.
pub open spec fn digits_end(s: Seq<char>, i: int) -> int
    decreases s.len() - i,
{
    if i < 0 || i >= s.len() {
        i
    } else if is_digit(s[i]) {
        digits_end(s, i + 1)
    } else {
        i
    }
}

/// Scans past the ASCII digits that start at `from`.
fn scan_digits(t: &Vec<char>, from: usize) -> (r: usize)
    requires
        from <= t.len(),
    ensures
        r == digits_end(t@, from as int),
        from <= r <= t.len(),
{
    let n = t.len();
    let mut i = from;
    while i < n && 0x30 <= (t[i] as u32) && (t[i] as u32) <= 0x39
        invariant
            from <= i <= n,
            n == t@.len(),
            digits_end(t@, from as int) == digits_end(t@, i as int),
        decreases n - i,
    {
        i = i + 1;
    }
    i
}

/// The token's tail from `start`, read without letter case, is `inf`,
/// `infinity` or `nan` exactly (the code points below spell those words).
pub open spec fn special_at(s: Seq<char>, start: int) -> bool {
    ||| (s.len() == start + 3 && lower_u32(s[start]) == 0x69 && lower_u32(s[start + 1]) == 0x6E
        && lower_u32(s[start + 2]) == 0x66)
    ||| (s.len() == start + 8 && lower_u32(s[start]) == 0x69 && lower_u32(s[start + 1]) == 0x6E
        && lower_u32(s[start + 2]) == 0x66 && lower_u32(s[start + 3]) == 0x69 && lower_u32(
        s[start + 4],
    ) == 0x6E && lower_u32(s[start + 5]) == 0x69 && lower_u32(s[start + 6]) == 0x74 && lower_u32(
        s[start + 7],
    ) == 0x79)
    ||| (s.len() == start + 3 && lower_u32(s[start]) == 0x6E && lower_u32(s[start + 1]) == 0x61
        && lower_u32(s[start + 2]) == 0x6E)
}

/// Whether the token's tail spells `inf`, `infinity` or `nan` in any
/// letter case.
fn check_special(t: &Vec<char>, start: usize) -> (r: bool)
    requires
        start <= t.len(),
    ensures
        r == special_at(t@, start as int),
{
    let n = t.len();
    if n >= 3 && start == n - 3 {
        let a = lower_code(t[start]);
        let b = lower_code(t[start + 1]);
        let c = lower_code(t[start + 2]);
        (a == 0x69 && b == 0x6E && c == 0x66) || (a == 0x6E && b == 0x61 && c == 0x6E)
    } else if n >= 8 && start == n - 8 {
        lower_code(t[start]) == 0x69 && lower_code(t[start + 1]) == 0x6E && lower_code(
            t[start + 2],
        ) == 0x66 && lower_code(t[start + 3]) == 0x69 && lower_code(t[start + 4]) == 0x6E
            && lower_code(t[start + 5]) == 0x69 && lower_code(t[start + 6]) == 0x74 && lower_code(
            t[start + 7],
        ) == 0x79
    } else {
        false
    }
}

/// Position of the first character after one optional leading sign.
pub open spec fn float_body_start(s: Seq<char>) -> int {
    if s.len() > 0 && (s[0] == '+' || s[0] == '-') {
        1
    } else {
        0
    }
}

/// An exponent part stands at `i` and reaches the token's end: `e` or
/// `E`, an optional sign, then one or more digits.
pub open spec fn exp_at(s: Seq<char>, i: int) -> bool {
    &&& 0 <= i < s.len()
    &&& (s[i] == 'e' || s[i] == 'E')
    &&& {
        let j = if i + 1 < s.len() && (s[i + 1] == '+' || s[i + 1] == '-') {
            i + 2
        } else {
            i + 1
        };
        digits_end(s, j) > j && digits_end(s, j) == s.len()
    }
}

/// A decimal number stands at `start` and reaches the token's end:
/// digits, an optional point with more digits, at least one digit in the
/// mantissa in all, then an optional exponent.
pub open spec fn number_at(s: Seq<char>, start: int) -> bool {
    let d1 = digits_end(s, start);
    let dot = d1 < s.len() && s[d1] == '.';
    let d2 = if dot {
        digits_end(s, d1 + 1)
    } else {
        d1
    };
    &&& (d1 > start || (dot && d2 > d1 + 1))
    &&& (d2 == s.len() || exp_at(s, d2))
}

/// The token is a double-precision literal, in the language
/// `f64::from_str` accepts: an optional sign, then `inf`, `infinity` or
/// `nan` in any letter case, or a decimal number with an optional
/// exponent.
pub open spec fn is_float_literal(s: Seq<char>) -> bool {
    ||| special_at(s, float_body_start(s))
    ||| number_at(s, float_body_start(s))
}

/// Whether the token is a double-precision literal that `f64::from_str`
/// accepts.
pub fn is_float_token(t: &Vec<char>) -> (r: bool)
    ensures
        r == is_float_literal(t@),
{
    let n = t.len();
    let start: usize = if n > 0 && (t[0] == '+' || t[0] == '-') {
        1
    } else {
        0
    };
    proof {
        assert(start as int == float_body_start(t@));
    }
    if check_special(t, start) {
        return true;
    }
    let d1 = scan_digits(t, start);
    let dot = d1 < n && t[d1] == '.';
    let d2 = if dot {
        scan_digits(t, d1 + 1)
    } else {
        d1
    };
    if !(d1 > start || (dot && d2 > d1 + 1)) {
        return false;
    }
    if d2 == n {
        return true;
    }
    if !(t[d2] == 'e' || t[d2] == 'E') {
        return false;
    }
    let j = if d2 + 1 < n && (t[d2 + 1] == '+' || t[d2 + 1] == '-') {
        d2 + 2
    } else {
        d2 + 1
    };
    let e = scan_digits(t, j);
    e > j && e == n
}

/// One parsed observation line: the class id and the two coordinate
/// tokens, still in textual form; the tokens are valid double-precision
/// literals.
#[derive(Debug)]
pub struct RawObservation {
    pub id: i32,
    pub x_text: Vec<char>,
    pub y_text: Vec<char>,
}

/// The mathematical form of a parsed observation line.
pub ghost struct RawObs {
    pub id: int,
    pub x_text: Seq<char>,
    pub y_text: Seq<char>,
}

impl View for RawObservation {
    type V = RawObs;

    open spec fn view(&self) -> RawObs {
        RawObs { id: self.id as int, x_text: self.x_text@, y_text: self.y_text@ }
    }
}

impl DeepView for RawObservation {
    type V = RawObs;

    open spec fn deep_view(&self) -> RawObs {
        self.view()
    }
}

/// What one line contributes: a stop (fewer than three tokens), a failed
/// number, or an observation.
pub ghost enum LineResult {
    Stop,
    Bad,
    Obs(RawObs),
}

/// The result of one line.  Fewer than three tokens stop the parse; the
/// first token must read as an `i32` and the next two as double-precision
/// literals; tokens beyond the third are not inspected.
pub open spec fn line_result(line: Seq<char>) -> LineResult {
    let toks = split_ws(line);
    if toks.len() < 3 {
        LineResult::Stop
    } else {
        match i32_from_chars(toks[0]) {
            Option::None => LineResult::Bad,
            Option::Some(id) => if is_float_literal(toks[1]) && is_float_literal(toks[2]) {
                LineResult::Obs(RawObs { id: id, x_text: toks[1], y_text: toks[2] })
            } else {
                LineResult::Bad
            },
        }
    }
}

/// The observations a sequence of lines yields, or nothing when a token
/// that should be a number is not one.  A line with fewer than three
/// tokens ends the parse: lines after it contribute nothing.
pub open spec fn parse_spec(lines: Seq<Seq<char>>) -> Option<Seq<RawObs>>
    decreases lines.len(),
{
    if lines.len() == 0 {
        Option::Some(Seq::empty())
    } else {
        match line_result(lines[0]) {
            LineResult::Stop => Option::Some(Seq::empty()),
            LineResult::Bad => Option::None,
            LineResult::Obs(o) => match parse_spec(lines.drop_first()) {
                Option::None => Option::None,
                Option::Some(rest) => Option::Some(seq![o] + rest),
            },
        }
    }
}

/// A line with fewer than three tokens hides everything from itself on:
/// the parse of the whole input equals the parse of the lines before it.
pub proof fn lemma_short_line_truncates(lines: Seq<Seq<char>>, k: int)
    requires
        0 <= k < lines.len(),
        split_ws(lines[k]).len() < 3,
    ensures
        parse_spec(lines) == parse_spec(lines.take(k)),
    decreases k,
{
    if k == 0 {
        assert(lines.take(0) =~= Seq::<Seq<char>>::empty());
    } else {
        assert(lines.take(k)[0] == lines[0]);
        match line_result(lines[0]) {
            LineResult::Stop => {},
            LineResult::Bad => {},
            LineResult::Obs(o) => {
                assert(lines.drop_first()[k - 1] == lines[k]);
                lemma_short_line_truncates(lines.drop_first(), k - 1);
                assert(lines.take(k).drop_first() =~= lines.drop_first().take(k - 1));
            },
        }
    }
}

/// Parses the lines into observations.  A line with fewer than three
/// whitespace-separated tokens ends the parse, and every later line is
/// ignored; a first token that does not read as an `i32`, or a coordinate
/// token that is not a double-precision literal, fails the whole parse
/// with `Parse`.
pub fn parse_observations(lines: &Vec<Vec<char>>) -> (r: Result<Vec<RawObservation>, ModelError>)
    ensures
        match r {
            Ok(v) => parse_spec(lines.deep_view()) == Option::Some(v.deep_view()),
            Err(e) => e == ModelError::Parse && parse_spec(lines.deep_view()) is None,
        },
{
    let ghost lns = lines.deep_view();
    let mut out: Vec<RawObservation> = Vec::new();
    let mut i: usize = 0;
    proof {
        assert(out.deep_view() =~~= Seq::<RawObs>::empty());
        assert(lns.skip(0) =~= lns);
    }
    while i < lines.len()
        invariant
            i <= lines.len(),
            lns == lines.deep_view(),
            lines@.len() == lns.len(),
            parse_spec(lns) == (match parse_spec(lns.skip(i as int)) {
                Option::None => Option::<Seq<RawObs>>::None,
                Option::Some(rest) => Option::Some(out.deep_view() + rest),
            }),
        decreases lines.len() - i,
    {
        proof {
            assert(lns[i as int] =~= lines@[i as int]@);
            assert(lns.skip(i as int)[0] == lns[i as int]);
        }
        let mut toks = tokenize(&lines[i]);
        if toks.len() < 3 {
            proof {
                assert(line_result(lns[i as int]) is Stop);
                assert(out.deep_view() + Seq::<RawObs>::empty() =~= out.deep_view());
            }
            return Ok(out);
        }
        let ghost tv = toks.deep_view();
        let t0 = toks.remove(0);
        let t1 = toks.remove(0);
        let t2 = toks.remove(0);
        proof {
            assert(t0@ == tv[0]);
            assert(t1@ == tv[1]);
            assert(t2@ == tv[2]);
        }
        let id_opt = parse_i32(&t0);
        if id_opt.is_none() {
            proof {
                assert(line_result(lns[i as int]) is Bad);
            }
            return Err(ModelError::Parse);
        }
        let id = id_opt.unwrap();
        if !is_float_token(&t1) || !is_float_token(&t2) {
            proof {
                assert(line_result(lns[i as int]) is Bad);
            }
            return Err(ModelError::Parse);
        }
        let ghost o = RawObs { id: id as int, x_text: t1@, y_text: t2@ };
        proof {
            assert(line_result(lns[i as int]) == LineResult::Obs(o));
            assert(lns.skip(i as int).drop_first() =~= lns.skip(i as int + 1));
        }
        let ghost prev_out = out.deep_view();
        out.push(RawObservation { id, x_text: t1, y_text: t2 });
        proof {
            assert(out.deep_view() =~~= prev_out.push(o));
            if parse_spec(lns.skip(i as int + 1)) is Some {
                let rest = parse_spec(lns.skip(i as int + 1)).unwrap();
                assert(prev_out + (seq![o] + rest) =~= prev_out.push(o) + rest);
            }
        }
        i = i + 1;
    }
    proof {
        assert(lns.skip(i as int) =~= Seq::<Seq<char>>::empty());
        assert(out.deep_view() + Seq::<RawObs>::empty() =~= out.deep_view());
    }
    Ok(out)
}


} // verus!
