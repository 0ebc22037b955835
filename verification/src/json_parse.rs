//! Parsing the payload texts back into values: a specification-level
//! recursive-descent parser that fixes what every input means, and an
//! executable parser proved to return exactly what the specification says.
//!
//! The shapes are the ones the program itself deals in: arrays of
//! `{"data": <string>, "valor": <string>}` objects (either field order),
//! and objects mapping series identifiers to such arrays. Within those
//! shapes the parser follows JSON: whitespace is allowed between tokens;
//! string literals know the backslash escapes for quote, backslash,
//! slash, newline, carriage return, tab, backspace and form feed, and the
//! `\uXXXX` escape, surrogate pairs included; an unescaped control
//! character below 0x20 inside a string literal is rejected, as JSON
//! demands. One deliberate tightening: an observation object must consist
//! of exactly the date member and the value member — an object with extra
//! members does not match the expected shape and is rejected.

use vstd::prelude::*;

use crate::data::{
    all_nonempty, unique_series, EntryModel, ObsModel, Observation, SeriesEntry, Aggregate,
};
use crate::json_text::{date_key, value_key};

verus! {

/// The whitespace characters allowed between tokens.
pub open spec fn is_ws(c: char) -> bool {
    c == ' ' || c == '\t' || c == '\n' || c == '\r'
}

/// Drop leading whitespace.
pub open spec fn skip_ws(inp: Seq<char>) -> Seq<char>
    decreases inp.len(),
{
    if inp.len() > 0 && is_ws(inp[0]) {
        skip_ws(inp.skip(1))
    } else {
        inp
    }
}

pub proof fn lemma_skip_ws_len(inp: Seq<char>)
    ensures
        skip_ws(inp).len() <= inp.len(),
    decreases inp.len(),
{
    if inp.len() > 0 && is_ws(inp[0]) {
        lemma_skip_ws_len(inp.skip(1));
    }
}

/// What a backslash escape stands for; `None` where the character after
/// the backslash opens no escape this grammar knows.
pub open spec fn unescape_char(c: char) -> Option<char> {
    if c == '"' {
        Some('"')
    } else if c == '\\' {
        Some('\\')
    } else if c == '/' {
        Some('/')
    } else if c == 'n' {
        Some('\n')
    } else if c == 'r' {
        Some('\r')
    } else if c == 't' {
        Some('\t')
    } else if c == 'b' {
        Some('\u{8}')
    } else if c == 'f' {
        Some('\u{c}')
    } else {
        None
    }
}

/// The numeric value of one hexadecimal digit, either case, if it is one.
pub open spec fn hex_val(c: char) -> Option<u32> {
    let u = c as u32;
    if 48 <= u && u <= 57 {
        Some((u - 48) as u32)
    } else if 97 <= u && u <= 102 {
        Some((u - 87) as u32)
    } else if 65 <= u && u <= 70 {
        Some((u - 55) as u32)
    } else {
        None
    }
}

/// The code unit written by four hexadecimal digits.
pub open spec fn hex4(c1: char, c2: char, c3: char, c4: char) -> Option<u32> {
    match (hex_val(c1), hex_val(c2), hex_val(c3), hex_val(c4)) {
        (Some(a), Some(b), Some(c), Some(d)) => Some((a * 4096 + b * 256 + c * 16 + d) as u32),
        _ => None,
    }
}

/// A UTF-16 high (leading) surrogate code unit.
pub open spec fn is_high_surrogate(code: u32) -> bool {
    0xD800 <= code <= 0xDBFF
}

/// A UTF-16 low (trailing) surrogate code unit.
pub open spec fn is_low_surrogate(code: u32) -> bool {
    0xDC00 <= code <= 0xDFFF
}

/// The scalar value written by a surrogate pair.
pub open spec fn combine_surrogates(hi: u32, lo: u32) -> u32 {
    (0x10000 + (hi - 0xD800) * 0x400 + (lo - 0xDC00)) as u32
}

/// Relies on std's `char::from_u32`: `Some` of the character with the
/// given code point exactly when the code point is a Unicode scalar value
/// (at most 0x10FFFF and not a surrogate), `None` otherwise.
pub assume_specification[ char::from_u32 ](code: u32) -> (r: Option<char>)
    ensures
        match r {
            Some(c) => c as u32 == code,
            None => code > 0x10FFFF || (0xD800 <= code <= 0xDFFF),
        },
;

/// Parse the body of a string literal up to and over its closing quote.
/// Returns the decoded content and the remainder of the input. As JSON
/// demands, a raw control character below 0x20 is rejected; `\uXXXX`
/// escapes are decoded, a high surrogate only together with the low
/// surrogate that must follow it.
pub open spec fn p_chars(inp: Seq<char>) -> Option<(Seq<char>, Seq<char>)>
    decreases inp.len(),
{
    if inp.len() == 0 {
        None
    } else if inp[0] == '"' {
        Some((Seq::empty(), inp.skip(1)))
    } else if inp[0] == '\\' {
        if inp.len() < 2 {
            None
        } else if inp[1] == 'u' {
            if inp.len() < 6 {
                None
            } else {
                match hex4(inp[2], inp[3], inp[4], inp[5]) {
                    Some(code) => if is_low_surrogate(code) {
                        None
                    } else if is_high_surrogate(code) {
                        if inp.len() >= 12 && inp[6] == '\\' && inp[7] == 'u' {
                            match hex4(inp[8], inp[9], inp[10], inp[11]) {
                                Some(lo) => if is_low_surrogate(lo) {
                                    match p_chars(inp.skip(12)) {
                                        Some(pr) => Some(
                                            (seq![combine_surrogates(code, lo) as char] + pr.0, pr.1),
                                        ),
                                        None => None,
                                    }
                                } else {
                                    None
                                },
                                None => None,
                            }
                        } else {
                            None
                        }
                    } else {
                        match p_chars(inp.skip(6)) {
                            Some(pr) => Some((seq![code as char] + pr.0, pr.1)),
                            None => None,
                        }
                    },
                    None => None,
                }
            }
        } else {
            match unescape_char(inp[1]) {
                Some(c) => match p_chars(inp.skip(2)) {
                    Some(pr) => Some((seq![c] + pr.0, pr.1)),
                    None => None,
                },
                None => None,
            }
        }
    } else if (inp[0] as u32) < 32 {
        None
    } else {
        match p_chars(inp.skip(1)) {
            Some(pr) => Some((seq![inp[0]] + pr.0, pr.1)),
            None => None,
        }
    }
}

pub proof fn lemma_p_chars_len(inp: Seq<char>)
    ensures
        p_chars(inp) matches Some(pr) ==> pr.1.len() < inp.len(),
    decreases inp.len(),
{
    if inp.len() == 0 {
    } else if inp[0] == '"' {
    } else if inp[0] == '\\' {
        if inp.len() >= 2 {
            if inp[1] == 'u' {
                if inp.len() >= 6 {
                    lemma_p_chars_len(inp.skip(6));
                }
                if inp.len() >= 12 {
                    lemma_p_chars_len(inp.skip(12));
                }
            } else {
                lemma_p_chars_len(inp.skip(2));
            }
        }
    } else {
        lemma_p_chars_len(inp.skip(1));
    }
}

/// Parse one expected structural character, ignoring leading whitespace.
pub open spec fn p_sym(inp: Seq<char>, c: char) -> Option<Seq<char>> {
    let t = skip_ws(inp);
    if t.len() > 0 && t[0] == c {
        Some(t.skip(1))
    } else {
        None
    }
}

pub proof fn lemma_p_sym_len(inp: Seq<char>, c: char)
    ensures
        p_sym(inp, c) matches Some(rest) ==> rest.len() < inp.len(),
{
    lemma_skip_ws_len(inp);
}

/// Parse one string literal, ignoring leading whitespace.
pub open spec fn p_string(inp: Seq<char>) -> Option<(Seq<char>, Seq<char>)> {
    let t = skip_ws(inp);
    if t.len() > 0 && t[0] == '"' {
        p_chars(t.skip(1))
    } else {
        None
    }
}

pub proof fn lemma_p_string_len(inp: Seq<char>)
    ensures
        p_string(inp) matches Some(pr) ==> pr.1.len() < inp.len(),
{
    lemma_skip_ws_len(inp);
    lemma_p_chars_len(skip_ws(inp).skip(1));
}

/// Parse one `key: value` member where the value is a string literal.
/// Returns key, value and the remainder.
pub open spec fn p_member(inp: Seq<char>) -> Option<(Seq<char>, Seq<char>, Seq<char>)> {
    match p_string(inp) {
        Some(kpr) => match p_sym(kpr.1, ':') {
            Some(r1) => match p_string(r1) {
                Some(vpr) => Some((kpr.0, vpr.0, vpr.1)),
                None => None,
            },
            None => None,
        },
        None => None,
    }
}

pub proof fn lemma_p_member_len(inp: Seq<char>)
    ensures
        p_member(inp) matches Some(tr) ==> tr.2.len() < inp.len(),
{
    lemma_p_string_len(inp);
    match p_string(inp) {
        Some(kpr) => {
            lemma_p_sym_len(kpr.1, ':');
            match p_sym(kpr.1, ':') {
                Some(r1) => lemma_p_string_len(r1),
                None => (),
            }
        },
        None => (),
    }
}

/// Turn the two members of an observation object into an observation,
/// whichever order the fields came in.
pub open spec fn obs_of_members(k1: Seq<char>, v1: Seq<char>, k2: Seq<char>, v2: Seq<char>)
    -> Option<ObsModel> {
    if k1 == date_key() && k2 == value_key() {
        Some(ObsModel { date: v1, value: v2 })
    } else if k1 == value_key() && k2 == date_key() {
        Some(ObsModel { date: v2, value: v1 })
    } else {
        None
    }
}

/// Parse one observation object: exactly a date member and a value
/// member, in either order. An object with a third member, or with any
/// other key, does not match the expected shape and is rejected — a
/// deliberate tightening over ignoring unknown members.
pub open spec fn p_obs(inp: Seq<char>) -> Option<(ObsModel, Seq<char>)> {
    match p_sym(inp, '{') {
        Some(r1) => match p_member(r1) {
            Some(m1) => match p_sym(m1.2, ',') {
                Some(r2) => match p_member(r2) {
                    Some(m2) => match p_sym(m2.2, '}') {
                        Some(r3) => match obs_of_members(m1.0, m1.1, m2.0, m2.1) {
                            Some(o) => Some((o, r3)),
                            None => None,
                        },
                        None => None,
                    },
                    None => None,
                },
                None => None,
            },
            None => None,
        },
        None => None,
    }
}

pub proof fn lemma_p_obs_len(inp: Seq<char>)
    ensures
        p_obs(inp) matches Some(pr) ==> pr.1.len() < inp.len(),
{
    lemma_p_sym_len(inp, '{');
    match p_sym(inp, '{') {
        Some(r1) => match p_member(r1) {
            Some(m1) => {
                lemma_p_member_len(r1);
                lemma_p_sym_len(m1.2, ',');
                match p_sym(m1.2, ',') {
                    Some(r2) => match p_member(r2) {
                        Some(m2) => {
                            lemma_p_member_len(r2);
                            lemma_p_sym_len(m2.2, '}');
                        },
                        None => (),
                    },
                    None => (),
                }
            },
            None => (),
        },
        None => (),
    }
}

/// Parse the non-empty interior of an observation array, up to and over
/// the closing bracket.
pub open spec fn p_obs_seq(inp: Seq<char>) -> Option<(Seq<ObsModel>, Seq<char>)>
    decreases inp.len(),
    via p_obs_seq_dec
{
    match p_obs(inp) {
        Some(pr) => match p_sym(pr.1, ',') {
            Some(r2) => match p_obs_seq(r2) {
                Some(tail) => Some((seq![pr.0] + tail.0, tail.1)),
                None => None,
            },
            None => match p_sym(pr.1, ']') {
                Some(r2) => Some((seq![pr.0], r2)),
                None => None,
            },
        },
        None => None,
    }
}

#[via_fn]
proof fn p_obs_seq_dec(inp: Seq<char>) {
    lemma_p_obs_len(inp);
    match p_obs(inp) {
        Some(pr) => lemma_p_sym_len(pr.1, ','),
        None => (),
    }
}

pub proof fn lemma_p_obs_seq_len(inp: Seq<char>)
    ensures
        p_obs_seq(inp) matches Some(pr) ==> pr.1.len() < inp.len(),
    decreases inp.len(),
{
    lemma_p_obs_len(inp);
    match p_obs(inp) {
        Some(pr) => {
            lemma_p_sym_len(pr.1, ',');
            lemma_p_sym_len(pr.1, ']');
            match p_sym(pr.1, ',') {
                Some(r2) => lemma_p_obs_seq_len(r2),
                None => (),
            }
        },
        None => (),
    }
}

/// Parse one observation array.
pub open spec fn p_obs_list(inp: Seq<char>) -> Option<(Seq<ObsModel>, Seq<char>)> {
    match p_sym(inp, '[') {
        Some(r1) => match p_sym(r1, ']') {
            Some(r2) => Some((Seq::empty(), r2)),
            None => p_obs_seq(r1),
        },
        None => None,
    }
}

pub proof fn lemma_p_obs_list_len(inp: Seq<char>)
    ensures
        p_obs_list(inp) matches Some(pr) ==> pr.1.len() < inp.len(),
{
    lemma_p_sym_len(inp, '[');
    match p_sym(inp, '[') {
        Some(r1) => {
            lemma_p_sym_len(r1, ']');
            lemma_p_obs_seq_len(r1);
        },
        None => (),
    }
}

/// Parse one aggregate member: a series identifier and its array.
pub open spec fn p_entry(inp: Seq<char>) -> Option<(EntryModel, Seq<char>)> {
    match p_string(inp) {
        Some(kpr) => match p_sym(kpr.1, ':') {
            Some(r1) => match p_obs_list(r1) {
                Some(lpr) => Some((EntryModel { series: kpr.0, observations: lpr.0 }, lpr.1)),
                None => None,
            },
            None => None,
        },
        None => None,
    }
}

pub proof fn lemma_p_entry_len(inp: Seq<char>)
    ensures
        p_entry(inp) matches Some(pr) ==> pr.1.len() < inp.len(),
{
    lemma_p_string_len(inp);
    match p_string(inp) {
        Some(kpr) => {
            lemma_p_sym_len(kpr.1, ':');
            match p_sym(kpr.1, ':') {
                Some(r1) => lemma_p_obs_list_len(r1),
                None => (),
            }
        },
        None => (),
    }
}

/// Parse the non-empty interior of an aggregate object, up to and over
/// the closing brace.
pub open spec fn p_entry_seq(inp: Seq<char>) -> Option<(Seq<EntryModel>, Seq<char>)>
    decreases inp.len(),
    via p_entry_seq_dec
{
    match p_entry(inp) {
        Some(pr) => match p_sym(pr.1, ',') {
            Some(r2) => match p_entry_seq(r2) {
                Some(tail) => Some((seq![pr.0] + tail.0, tail.1)),
                None => None,
            },
            None => match p_sym(pr.1, '}') {
                Some(r2) => Some((seq![pr.0], r2)),
                None => None,
            },
        },
        None => None,
    }
}

#[via_fn]
proof fn p_entry_seq_dec(inp: Seq<char>) {
    lemma_p_entry_len(inp);
    match p_entry(inp) {
        Some(pr) => lemma_p_sym_len(pr.1, ','),
        None => (),
    }
}

/// Parse one aggregate object.
pub open spec fn p_aggregate(inp: Seq<char>) -> Option<(Seq<EntryModel>, Seq<char>)> {
    match p_sym(inp, '{') {
        Some(r1) => match p_sym(r1, '}') {
            Some(r2) => Some((Seq::empty(), r2)),
            None => p_entry_seq(r1),
        },
        None => None,
    }
}

/// What a whole response body means as a dataset: the parsed array, when
/// the body is exactly one observation array with nothing but whitespace
/// after it.
pub open spec fn parse_observations_spec(inp: Seq<char>) -> Option<Seq<ObsModel>> {
    match p_obs_list(inp) {
        Some(pr) => if skip_ws(pr.1).len() == 0 {
            Some(pr.0)
        } else {
            None
        },
        None => None,
    }
}

/// What a whole payload text means as an aggregate. Only texts this
/// program itself could have emitted are accepted: series identifiers
/// pairwise distinct, every dataset non-empty.
pub open spec fn parse_aggregate_spec(inp: Seq<char>) -> Option<Seq<EntryModel>> {
    match p_aggregate(inp) {
        Some(pr) => if skip_ws(pr.1).len() == 0 && unique_series(pr.0) && all_nonempty(pr.0) {
            Some(pr.0)
        } else {
            None
        },
        None => None,
    }
}

/// Prepend a prefix onto the parsed part of a parse result.
pub open spec fn opt_prepend<T>(pre: Seq<T>, r: Option<(Seq<T>, Seq<char>)>) -> Option<
    (Seq<T>, Seq<char>),
> {
    match r {
        Some(pr) => Some((pre + pr.0, pr.1)),
        None => None,
    }
}

proof fn lemma_opt_prepend_assoc<T>(a: Seq<T>, b: Seq<T>, r: Option<(Seq<T>, Seq<char>)>)
    ensures
        opt_prepend(a, opt_prepend(b, r)) == opt_prepend(a + b, r),
{
    match r {
        Some(pr) => {
            assert(a + (b + pr.0) =~= (a + b) + pr.0);
        },
        None => (),
    }
}

/// The characters of `s`, as a vector.
fn str_chars(s: &str) -> (r: Vec<char>)
    ensures
        r@ == s@,
{
    let n = s.unicode_len();
    let mut out: Vec<char> = Vec::new();
    let mut i: usize = 0;
    while i < n
        invariant
            n == s@.len(),
            i <= n,
            out@ == s@.take(i as int),
        decreases n - i,
    {
        out.push(s.get_char(i));
        proof {
            assert(out@ =~= s@.take(i + 1 as int));
        }
        i = i + 1;
    }
    proof {
        assert(s@.take(n as int) =~= s@);
    }
    out
}

/// The characters of `v`, as a string.
fn chars_to_string(v: &Vec<char>) -> (r: String)
    ensures
        r@ == v@,
{
    let mut out = String::new();
    let mut i: usize = 0;
    while i < v.len()
        invariant
            i <= v@.len(),
            out@ == v@.take(i as int),
        decreases v@.len() - i,
    {
        out.push(v[i]);
        proof {
            assert(out@ =~= v@.take(i + 1 as int));
        }
        i = i + 1;
    }
    proof {
        assert(v@.take(v@.len() as int) =~= v@);
    }
    out
}

fn is_ws_char(c: char) -> (b: bool)
    ensures
        b == is_ws(c),
{
    c == ' ' || c == '\t' || c == '\n' || c == '\r'
}

fn unesc(c: char) -> (r: Option<char>)
    ensures
        r == unescape_char(c),
{
    if c == '"' {
        Some('"')
    } else if c == '\\' {
        Some('\\')
    } else if c == '/' {
        Some('/')
    } else if c == 'n' {
        Some('\n')
    } else if c == 'r' {
        Some('\r')
    } else if c == 't' {
        Some('\t')
    } else if c == 'b' {
        Some('\u{8}')
    } else if c == 'f' {
        Some('\u{c}')
    } else {
        None
    }
}

fn hexv(c: char) -> (r: Option<u32>)
    ensures
        r == hex_val(c),
{
    let u = c as u32;
    if 48 <= u && u <= 57 {
        Some(u - 48)
    } else if 97 <= u && u <= 102 {
        Some(u - 87)
    } else if 65 <= u && u <= 70 {
        Some(u - 55)
    } else {
        None
    }
}

fn hex4_digits(c1: char, c2: char, c3: char, c4: char) -> (r: Option<u32>)
    ensures
        r == hex4(c1, c2, c3, c4),
{
    match (hexv(c1), hexv(c2), hexv(c3), hexv(c4)) {
        (Some(a), Some(b), Some(c), Some(d)) => {
            proof {
                assert(a < 16 && b < 16 && c < 16 && d < 16);
            }
            Some(a * 4096 + b * 256 + c * 16 + d)
        },
        _ => None,
    }
}

fn scan_ws(inp: &Vec<char>, pos: usize) -> (r: usize)
    requires
        pos <= inp@.len(),
    ensures
        pos <= r <= inp@.len(),
        inp@.skip(r as int) == skip_ws(inp@.skip(pos as int)),
{
    let mut r: usize = pos;
    while r < inp.len() && is_ws_char(inp[r])
        invariant
            pos <= r <= inp@.len(),
            skip_ws(inp@.skip(pos as int)) == skip_ws(inp@.skip(r as int)),
        decreases inp@.len() - r,
    {
        proof {
            assert(inp@.skip(r as int)[0] == inp@[r as int]);
            assert(inp@.skip(r as int).skip(1) =~= inp@.skip(r + 1 as int));
        }
        r = r + 1;
    }
    proof {
        if r < inp@.len() {
            assert(inp@.skip(r as int)[0] == inp@[r as int]);
        }
        assert(skip_ws(inp@.skip(r as int)) == inp@.skip(r as int));
    }
    r
}

fn scan_sym(inp: &Vec<char>, pos: usize, c: char) -> (r: Option<usize>)
    requires
        pos <= inp@.len(),
    ensures
        match r {
            Some(p2) => pos < p2 <= inp@.len() && p_sym(inp@.skip(pos as int), c) == Some(
                inp@.skip(p2 as int),
            ),
            None => p_sym(inp@.skip(pos as int), c) is None,
        },
{
    let q = scan_ws(inp, pos);
    if q < inp.len() {
        if inp[q] == c {
            proof {
                assert(inp@.skip(q as int)[0] == inp@[q as int]);
                assert(inp@.skip(q as int).skip(1) =~= inp@.skip(q + 1 as int));
            }
            Some(q + 1)
        } else {
            proof {
                assert(inp@.skip(q as int)[0] == inp@[q as int]);
            }
            None
        }
    } else {
        None
    }
}

#[verifier::rlimit(60)]
fn scan_chars(inp: &Vec<char>, pos: usize) -> (r: Option<(Vec<char>, usize)>)
    requires
        pos <= inp@.len(),
    ensures
        match r {
            Some(pr) => pos < pr.1 <= inp@.len() && p_chars(inp@.skip(pos as int)) == Some(
                (pr.0@, inp@.skip(pr.1 as int)),
            ),
            None => p_chars(inp@.skip(pos as int)) is None,
        },
{
    let mut cur: usize = pos;
    let mut acc: Vec<char> = Vec::new();
    loop
        invariant
            pos <= cur <= inp@.len(),
            p_chars(inp@.skip(pos as int)) == opt_prepend(acc@, p_chars(inp@.skip(cur as int))),
        decreases inp@.len() - cur,
    {
        if cur == inp.len() {
            proof {
                assert(inp@.skip(cur as int).len() == 0);
            }
            return None;
        }
        let c = inp[cur];
        proof {
            assert(inp@.skip(cur as int)[0] == c);
        }
        if c == '"' {
            proof {
                assert(inp@.skip(cur as int).skip(1) =~= inp@.skip(cur + 1 as int));
                assert(acc@ + Seq::<char>::empty() =~= acc@);
            }
            return Some((acc, cur + 1));
        } else if c == '\\' {
            if cur + 1 == inp.len() {
                proof {
                    assert(inp@.skip(cur as int).len() == 1);
                }
                return None;
            }
            let e = inp[cur + 1];
            proof {
                assert(inp@.skip(cur as int)[1] == e);
            }
            if e == 'u' {
                if inp.len() - cur < 6 {
                    proof {
                        assert(inp@.skip(cur as int).len() < 6);
                    }
                    return None;
                }
                let h1 = inp[cur + 2];
                let h2 = inp[cur + 3];
                let h3 = inp[cur + 4];
                let h4 = inp[cur + 5];
                proof {
                    assert(inp@.skip(cur as int)[2] == h1);
                    assert(inp@.skip(cur as int)[3] == h2);
                    assert(inp@.skip(cur as int)[4] == h3);
                    assert(inp@.skip(cur as int)[5] == h4);
                }
                let code = match hex4_digits(h1, h2, h3, h4) {
                    Some(v) => v,
                    None => {
                        return None;
                    },
                };
                proof {
                    assert(code <= 0xFFFF);
                }
                if 0xDC00 <= code && code <= 0xDFFF {
                    return None;
                }
                if 0xD800 <= code && code <= 0xDBFF {
                    if inp.len() - cur < 12 {
                        proof {
                            assert(inp@.skip(cur as int).len() < 12);
                        }
                        return None;
                    }
                    let e6 = inp[cur + 6];
                    let e7 = inp[cur + 7];
                    proof {
                        assert(inp@.skip(cur as int)[6] == e6);
                        assert(inp@.skip(cur as int)[7] == e7);
                    }
                    if e6 != '\\' || e7 != 'u' {
                        return None;
                    }
                    let l1 = inp[cur + 8];
                    let l2 = inp[cur + 9];
                    let l3 = inp[cur + 10];
                    let l4 = inp[cur + 11];
                    proof {
                        assert(inp@.skip(cur as int)[8] == l1);
                        assert(inp@.skip(cur as int)[9] == l2);
                        assert(inp@.skip(cur as int)[10] == l3);
                        assert(inp@.skip(cur as int)[11] == l4);
                    }
                    let lo = match hex4_digits(l1, l2, l3, l4) {
                        Some(v) => v,
                        None => {
                            return None;
                        },
                    };
                    if !(0xDC00 <= lo && lo <= 0xDFFF) {
                        return None;
                    }
                    let combined: u32 = 0x10000 + (code - 0xD800) * 0x400 + (lo - 0xDC00);
                    proof {
                        assert(combined == combine_surrogates(code, lo));
                    }
                    let u = match char::from_u32(combined) {
                        Some(ch) => ch,
                        None => {
                            proof {
                                assert(false);
                            }
                            return None;
                        },
                    };
                    proof {
                        vstd::utf8::char_u32_cast(u, combined);
                        assert((combine_surrogates(code, lo) as char) == u);
                        assert(inp@.skip(cur as int).skip(12) =~= inp@.skip(cur + 12 as int));
                        assert(p_chars(inp@.skip(cur as int)) == opt_prepend(
                            seq![u],
                            p_chars(inp@.skip(cur + 12 as int)),
                        ));
                        lemma_opt_prepend_assoc(
                            acc@,
                            seq![u],
                            p_chars(inp@.skip(cur + 12 as int)),
                        );
                        assert(acc@.push(u) =~= acc@ + seq![u]);
                    }
                    acc.push(u);
                    cur = cur + 12;
                } else {
                    let u = match char::from_u32(code) {
                        Some(ch) => ch,
                        None => {
                            proof {
                                assert(false);
                            }
                            return None;
                        },
                    };
                    proof {
                        vstd::utf8::char_u32_cast(u, code);
                        assert((code as char) == u);
                        assert(inp@.skip(cur as int).skip(6) =~= inp@.skip(cur + 6 as int));
                        assert(p_chars(inp@.skip(cur as int)) == opt_prepend(
                            seq![u],
                            p_chars(inp@.skip(cur + 6 as int)),
                        ));
                        lemma_opt_prepend_assoc(acc@, seq![u], p_chars(inp@.skip(cur + 6 as int)));
                        assert(acc@.push(u) =~= acc@ + seq![u]);
                    }
                    acc.push(u);
                    cur = cur + 6;
                }
            } else {
                match unesc(e) {
                    Some(u) => {
                        proof {
                            assert(inp@.skip(cur as int).skip(2) =~= inp@.skip(cur + 2 as int));
                            assert(p_chars(inp@.skip(cur as int)) == opt_prepend(
                                seq![u],
                                p_chars(inp@.skip(cur + 2 as int)),
                            ));
                            lemma_opt_prepend_assoc(
                                acc@,
                                seq![u],
                                p_chars(inp@.skip(cur + 2 as int)),
                            );
                            assert(acc@.push(u) =~= acc@ + seq![u]);
                        }
                        acc.push(u);
                        cur = cur + 2;
                    },
                    None => {
                        return None;
                    },
                }
            }
        } else if (c as u32) < 32 {
            return None;
        } else {
            proof {
                assert(inp@.skip(cur as int).skip(1) =~= inp@.skip(cur + 1 as int));
                assert(p_chars(inp@.skip(cur as int)) == opt_prepend(
                    seq![c],
                    p_chars(inp@.skip(cur + 1 as int)),
                ));
                lemma_opt_prepend_assoc(acc@, seq![c], p_chars(inp@.skip(cur + 1 as int)));
                assert(acc@.push(c) =~= acc@ + seq![c]);
            }
            acc.push(c);
            cur = cur + 1;
        }
    }
}

fn scan_string(inp: &Vec<char>, pos: usize) -> (r: Option<(Vec<char>, usize)>)
    requires
        pos <= inp@.len(),
    ensures
        match r {
            Some(pr) => pos < pr.1 <= inp@.len() && p_string(inp@.skip(pos as int)) == Some(
                (pr.0@, inp@.skip(pr.1 as int)),
            ),
            None => p_string(inp@.skip(pos as int)) is None,
        },
{
    let q = scan_ws(inp, pos);
    if q < inp.len() {
        if inp[q] == '"' {
            proof {
                assert(inp@.skip(q as int)[0] == inp@[q as int]);
                assert(inp@.skip(q as int).skip(1) =~= inp@.skip(q + 1 as int));
            }
            scan_chars(inp, q + 1)
        } else {
            proof {
                assert(inp@.skip(q as int)[0] == inp@[q as int]);
            }
            None
        }
    } else {
        None
    }
}

fn scan_member(inp: &Vec<char>, pos: usize) -> (r: Option<(Vec<char>, Vec<char>, usize)>)
    requires
        pos <= inp@.len(),
    ensures
        match r {
            Some(m) => pos < m.2 <= inp@.len() && p_member(inp@.skip(pos as int)) == Some(
                (m.0@, m.1@, inp@.skip(m.2 as int)),
            ),
            None => p_member(inp@.skip(pos as int)) is None,
        },
{
    match scan_string(inp, pos) {
        None => None,
        Some((k, p1)) => match scan_sym(inp, p1, ':') {
            None => None,
            Some(p2) => match scan_string(inp, p2) {
                None => None,
                Some((v, p3)) => Some((k, v, p3)),
            },
        },
    }
}

fn is_date_key(v: &Vec<char>) -> (b: bool)
    ensures
        b == (v@ == date_key()),
{
    if v.len() != 4 {
        return false;
    }
    if v[0] != 'd' || v[1] != 'a' || v[2] != 't' || v[3] != 'a' {
        return false;
    }
    proof {
        assert(v@ =~= date_key());
    }
    true
}

fn is_value_key(v: &Vec<char>) -> (b: bool)
    ensures
        b == (v@ == value_key()),
{
    if v.len() != 5 {
        return false;
    }
    if v[0] != 'v' || v[1] != 'a' || v[2] != 'l' || v[3] != 'o' || v[4] != 'r' {
        return false;
    }
    proof {
        assert(v@ =~= value_key());
    }
    true
}

fn scan_obs(inp: &Vec<char>, pos: usize) -> (r: Option<(Observation, usize)>)
    requires
        pos <= inp@.len(),
    ensures
        match r {
            Some(pr) => pos < pr.1 <= inp@.len() && p_obs(inp@.skip(pos as int)) == Some(
                (pr.0@, inp@.skip(pr.1 as int)),
            ),
            None => p_obs(inp@.skip(pos as int)) is None,
        },
{
    let r1 = match scan_sym(inp, pos, '{') {
        None => {
            return None;
        },
        Some(p) => p,
    };
    let (k1, v1, p1) = match scan_member(inp, r1) {
        None => {
            return None;
        },
        Some(m) => m,
    };
    let r2 = match scan_sym(inp, p1, ',') {
        None => {
            return None;
        },
        Some(p) => p,
    };
    let (k2, v2, p2) = match scan_member(inp, r2) {
        None => {
            return None;
        },
        Some(m) => m,
    };
    let r3 = match scan_sym(inp, p2, '}') {
        None => {
            return None;
        },
        Some(p) => p,
    };
    if is_date_key(&k1) && is_value_key(&k2) {
        let o = Observation::new(chars_to_string(&v1), chars_to_string(&v2));
        Some((o, r3))
    } else if is_value_key(&k1) && is_date_key(&k2) {
        let o = Observation::new(chars_to_string(&v2), chars_to_string(&v1));
        Some((o, r3))
    } else {
        None
    }
}

fn scan_obs_seq(inp: &Vec<char>, pos: usize) -> (r: Option<(Vec<Observation>, usize)>)
    requires
        pos <= inp@.len(),
    ensures
        match r {
            Some(pr) => pos < pr.1 <= inp@.len() && p_obs_seq(inp@.skip(pos as int)) == Some(
                (pr.0.deep_view(), inp@.skip(pr.1 as int)),
            ),
            None => p_obs_seq(inp@.skip(pos as int)) is None,
        },
{
    let mut cur: usize = pos;
    let mut acc: Vec<Observation> = Vec::new();
    loop
        invariant
            pos <= cur <= inp@.len(),
            p_obs_seq(inp@.skip(pos as int)) == opt_prepend(
                acc.deep_view(),
                p_obs_seq(inp@.skip(cur as int)),
            ),
        decreases inp@.len() - cur,
    {
        let ghost pre_acc = acc.deep_view();
        let (o, p1) = match scan_obs(inp, cur) {
            None => {
                return None;
            },
            Some(pr) => pr,
        };
        match scan_sym(inp, p1, ',') {
            Some(p2) => {
                proof {
                    assert(p_obs_seq(inp@.skip(cur as int)) == opt_prepend(
                        seq![o@],
                        p_obs_seq(inp@.skip(p2 as int)),
                    ));
                    lemma_opt_prepend_assoc(pre_acc, seq![o@], p_obs_seq(inp@.skip(p2 as int)));
                }
                acc.push(o);
                proof {
                    assert(acc.deep_view() =~= pre_acc + seq![o@]);
                }
                cur = p2;
            },
            None => {
                match scan_sym(inp, p1, ']') {
                    Some(p2) => {
                        proof {
                            assert(p_obs_seq(inp@.skip(cur as int)) == Some(
                                (seq![o@], inp@.skip(p2 as int)),
                            ));
                        }
                        acc.push(o);
                        proof {
                            assert(acc.deep_view() =~= pre_acc + seq![o@]);
                        }
                        return Some((acc, p2));
                    },
                    None => {
                        return None;
                    },
                }
            },
        }
    }
}

fn scan_obs_list(inp: &Vec<char>, pos: usize) -> (r: Option<(Vec<Observation>, usize)>)
    requires
        pos <= inp@.len(),
    ensures
        match r {
            Some(pr) => pos < pr.1 <= inp@.len() && p_obs_list(inp@.skip(pos as int)) == Some(
                (pr.0.deep_view(), inp@.skip(pr.1 as int)),
            ),
            None => p_obs_list(inp@.skip(pos as int)) is None,
        },
{
    match scan_sym(inp, pos, '[') {
        None => None,
        Some(p1) => match scan_sym(inp, p1, ']') {
            Some(p2) => {
                let empty_list: Vec<Observation> = Vec::new();
                proof {
                    assert(empty_list.deep_view() =~= Seq::<ObsModel>::empty());
                }
                Some((empty_list, p2))
            },
            None => scan_obs_seq(inp, p1),
        },
    }
}

fn scan_entry(inp: &Vec<char>, pos: usize) -> (r: Option<(SeriesEntry, usize)>)
    requires
        pos <= inp@.len(),
    ensures
        match r {
            Some(pr) => pos < pr.1 <= inp@.len() && p_entry(inp@.skip(pos as int)) == Some(
                (pr.0@, inp@.skip(pr.1 as int)),
            ),
            None => p_entry(inp@.skip(pos as int)) is None,
        },
{
    let (k, p1) = match scan_string(inp, pos) {
        None => {
            return None;
        },
        Some(pr) => pr,
    };
    let p2 = match scan_sym(inp, p1, ':') {
        None => {
            return None;
        },
        Some(p) => p,
    };
    let (l, p3) = match scan_obs_list(inp, p2) {
        None => {
            return None;
        },
        Some(pr) => pr,
    };
    Some((SeriesEntry { series: chars_to_string(&k), observations: l }, p3))
}

fn scan_entry_seq(inp: &Vec<char>, pos: usize) -> (r: Option<(Vec<SeriesEntry>, usize)>)
    requires
        pos <= inp@.len(),
    ensures
        match r {
            Some(pr) => pos < pr.1 <= inp@.len() && p_entry_seq(inp@.skip(pos as int)) == Some(
                (pr.0.deep_view(), inp@.skip(pr.1 as int)),
            ),
            None => p_entry_seq(inp@.skip(pos as int)) is None,
        },
{
    let mut cur: usize = pos;
    let mut acc: Vec<SeriesEntry> = Vec::new();
    loop
        invariant
            pos <= cur <= inp@.len(),
            p_entry_seq(inp@.skip(pos as int)) == opt_prepend(
                acc.deep_view(),
                p_entry_seq(inp@.skip(cur as int)),
            ),
        decreases inp@.len() - cur,
    {
        let ghost pre_acc = acc.deep_view();
        let (e, p1) = match scan_entry(inp, cur) {
            None => {
                return None;
            },
            Some(pr) => pr,
        };
        match scan_sym(inp, p1, ',') {
            Some(p2) => {
                proof {
                    assert(p_entry_seq(inp@.skip(cur as int)) == opt_prepend(
                        seq![e@],
                        p_entry_seq(inp@.skip(p2 as int)),
                    ));
                    lemma_opt_prepend_assoc(pre_acc, seq![e@], p_entry_seq(inp@.skip(p2 as int)));
                }
                acc.push(e);
                proof {
                    assert(acc.deep_view() =~= pre_acc + seq![e@]);
                }
                cur = p2;
            },
            None => {
                match scan_sym(inp, p1, '}') {
                    Some(p2) => {
                        proof {
                            assert(p_entry_seq(inp@.skip(cur as int)) == Some(
                                (seq![e@], inp@.skip(p2 as int)),
                            ));
                        }
                        acc.push(e);
                        proof {
                            assert(acc.deep_view() =~= pre_acc + seq![e@]);
                        }
                        return Some((acc, p2));
                    },
                    None => {
                        return None;
                    },
                }
            },
        }
    }
}

fn scan_aggregate(inp: &Vec<char>, pos: usize) -> (r: Option<(Vec<SeriesEntry>, usize)>)
    requires
        pos <= inp@.len(),
    ensures
        match r {
            Some(pr) => pos < pr.1 <= inp@.len() && p_aggregate(inp@.skip(pos as int)) == Some(
                (pr.0.deep_view(), inp@.skip(pr.1 as int)),
            ),
            None => p_aggregate(inp@.skip(pos as int)) is None,
        },
{
    match scan_sym(inp, pos, '{') {
        None => None,
        Some(p1) => match scan_sym(inp, p1, '}') {
            Some(p2) => {
                let empty_entries: Vec<SeriesEntry> = Vec::new();
                proof {
                    assert(empty_entries.deep_view() =~= Seq::<EntryModel>::empty());
                }
                Some((empty_entries, p2))
            },
            None => scan_entry_seq(inp, p1),
        },
    }
}

/// Parse a response body as a dataset. `Some` exactly on the inputs that
/// [`parse_observations_spec`] accepts, and then the observations mirror
/// the array, element for element.
pub fn parse_observations(body: &str) -> (r: Option<Vec<Observation>>)
    ensures
        match r {
            Some(v) => parse_observations_spec(body@) == Some(v.deep_view()),
            None => parse_observations_spec(body@) is None,
        },
{
    let chars = str_chars(body);
    proof {
        assert(chars@.skip(0) =~= chars@);
    }
    match scan_obs_list(&chars, 0) {
        None => None,
        Some((v, p)) => {
            let q = scan_ws(&chars, p);
            if q == chars.len() {
                proof {
                    assert(skip_ws(chars@.skip(p as int)).len() == 0);
                }
                Some(v)
            } else {
                proof {
                    assert(skip_ws(chars@.skip(p as int)).len() > 0);
                }
                None
            }
        },
    }
}

/// Duplicate a dataset, observation for observation.
fn duplicate_observations(v: &Vec<Observation>) -> (r: Vec<Observation>)
    ensures
        r.deep_view() == v.deep_view(),
        r@.len() == v@.len(),
{
    let mut out: Vec<Observation> = Vec::new();
    proof {
        assert(out.deep_view() =~= v.deep_view().take(0int));
    }
    let mut i: usize = 0;
    while i < v.len()
        invariant
            i <= v@.len(),
            out@.len() == i,
            out.deep_view() == v.deep_view().take(i as int),
        decreases v@.len() - i,
    {
        let d = v[i].duplicate();
        let ghost pre = out.deep_view();
        out.push(d);
        proof {
            assert(out.deep_view() =~= pre.push(d@));
            assert(pre.push(d@) =~= v.deep_view().take(i + 1 as int));
        }
        i = i + 1;
    }
    proof {
        assert(v.deep_view().take(v@.len() as int) =~= v.deep_view());
    }
    out
}

/// Parse a payload text back into an aggregate. `Some` exactly on the
/// inputs that [`parse_aggregate_spec`] accepts; the aggregate is then
/// well-formed and models the parsed entries.
pub fn parse_aggregate(body: &str) -> (r: Option<Aggregate>)
    ensures
        match r {
            Some(a) => a.wf() && parse_aggregate_spec(body@) == Some(a@),
            None => parse_aggregate_spec(body@) is None,
        },
{
    let chars = str_chars(body);
    proof {
        assert(chars@.skip(0) =~= chars@);
    }
    let (ves, p) = match scan_aggregate(&chars, 0) {
        None => {
            return None;
        },
        Some(pr) => pr,
    };
    let q = scan_ws(&chars, p);
    if q != chars.len() {
        proof {
            assert(skip_ws(chars@.skip(p as int)).len() > 0);
        }
        return None;
    }
    proof {
        assert(skip_ws(chars@.skip(p as int)).len() == 0);
    }
    let ghost es = ves.deep_view();
    let mut agg = Aggregate::new();
    let mut i: usize = 0;
    while i < ves.len()
        invariant
            i <= ves@.len(),
            es == ves.deep_view(),
            agg@ == es.take(i as int),
            agg.wf(),
            p_aggregate(chars@) == Some((es, chars@.skip(p as int))),
            skip_ws(chars@.skip(p as int)).len() == 0,
            body@ == chars@,
        decreases ves@.len() - i,
    {
        let entry = &ves[i];
        proof {
            assert(entry@ == es[i as int]);
        }
        if entry.observations.len() == 0 {
            proof {
                assert(es[i as int].observations == entry.observations.deep_view());
                assert(es[i as int].observations.len() == 0);
                assert(!all_nonempty(es));
            }
            return None;
        }
        if agg.contains(entry.series.as_str()) {
            proof {
                let j = choose|j: int|
                    0 <= j < agg@.len() && agg@[j].series == entry.series@;
                assert(es[j].series == es[i as int].series);
                assert(!unique_series(es));
            }
            return None;
        }
        agg.insert(entry.series.clone(), duplicate_observations(&entry.observations));
        proof {
            assert(agg@ =~= es.take(i + 1 as int));
        }
        i = i + 1;
    }
    proof {
        assert(es.take(ves@.len() as int) =~= es);
    }
    Some(agg)
}

} // verus!
