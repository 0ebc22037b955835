//! The textual form of the payload: specification functions that fix, down
//! to the character, the JSON emitted for observations and aggregates, and
//! an executable serializer proved to emit exactly that text.
//!
//! An observation is rendered as `{"data":<string>,"valor":<string>}`, a
//! dataset as a JSON array of those objects, and an aggregate as a JSON
//! object keyed by series identifier. String contents are escaped as JSON
//! demands: quote and backslash get a backslash escape, the control
//! characters below 0x20 are written as `\n`, `\r`, `\t`, `\b`, `\f` or
//! `\u00XX`, and every other character stands as itself, so the emitted
//! text is always a valid JSON document.

use vstd::prelude::*;

use crate::data::{Aggregate, EntryModel, ObsModel, Observation, SeriesEntry};

verus! {

/// Relies on std's `String::push`: appends the given character to the end
/// of this `String`.
pub assume_specification[ String::push ](s: &mut String, c: char)
    ensures
        final(s)@ == old(s)@.push(c),
;

/// The field name under which a date travels.
pub open spec fn date_key() -> Seq<char> {
    seq!['d', 'a', 't', 'a']
}

/// The field name under which a value travels.
pub open spec fn value_key() -> Seq<char> {
    seq!['v', 'a', 'l', 'o', 'r']
}

/// The lower-case hexadecimal digit for a value below sixteen.
pub open spec fn hex_digit(v: u32) -> char {
    if v == 0 {
        '0'
    } else if v == 1 {
        '1'
    } else if v == 2 {
        '2'
    } else if v == 3 {
        '3'
    } else if v == 4 {
        '4'
    } else if v == 5 {
        '5'
    } else if v == 6 {
        '6'
    } else if v == 7 {
        '7'
    } else if v == 8 {
        '8'
    } else if v == 9 {
        '9'
    } else if v == 10 {
        'a'
    } else if v == 11 {
        'b'
    } else if v == 12 {
        'c'
    } else if v == 13 {
        'd'
    } else if v == 14 {
        'e'
    } else {
        'f'
    }
}

/// How one character is rendered inside a JSON string literal. Control
/// characters below 0x20, which JSON forbids in the raw, get the short
/// escapes where JSON has them and `\u00XX` otherwise.
pub open spec fn esc_char(c: char) -> Seq<char> {
    if c == '"' {
        seq!['\\', '"']
    } else if c == '\\' {
        seq!['\\', '\\']
    } else if c == '\n' {
        seq!['\\', 'n']
    } else if c == '\r' {
        seq!['\\', 'r']
    } else if c == '\t' {
        seq!['\\', 't']
    } else if c == '\u{8}' {
        seq!['\\', 'b']
    } else if c == '\u{c}' {
        seq!['\\', 'f']
    } else if (c as u32) < 32 {
        seq!['\\', 'u', '0', '0', hex_digit((c as u32) / 16), hex_digit((c as u32) % 16)]
    } else {
        seq![c]
    }
}

/// The body of a JSON string literal for `s`.
pub open spec fn escape(s: Seq<char>) -> Seq<char>
    decreases s.len(),
{
    if s.len() == 0 {
        Seq::empty()
    } else {
        esc_char(s[0]) + escape(s.skip(1))
    }
}

/// A complete JSON string literal for `s`.
pub open spec fn json_string(s: Seq<char>) -> Seq<char> {
    seq!['"'] + escape(s) + seq!['"']
}

/// The JSON object for one observation, fields in canonical order.
pub open spec fn json_obs(o: ObsModel) -> Seq<char> {
    seq!['{'] + json_string(date_key()) + seq![':'] + json_string(o.date) + seq![',']
        + json_string(value_key()) + seq![':'] + json_string(o.value) + seq!['}']
}

/// The comma-separated interior of a JSON array of observations.
pub open spec fn json_obs_seq(l: Seq<ObsModel>) -> Seq<char>
    decreases l.len(),
{
    if l.len() == 0 {
        Seq::empty()
    } else if l.len() == 1 {
        json_obs(l[0])
    } else {
        json_obs(l[0]) + seq![','] + json_obs_seq(l.skip(1))
    }
}

/// The JSON array for one dataset.
pub open spec fn json_obs_list(l: Seq<ObsModel>) -> Seq<char> {
    seq!['['] + json_obs_seq(l) + seq![']']
}

/// One member of the aggregate object: key, colon, dataset.
pub open spec fn json_entry(e: EntryModel) -> Seq<char> {
    json_string(e.series) + seq![':'] + json_obs_list(e.observations)
}

/// The comma-separated interior of the aggregate object.
pub open spec fn json_entry_seq(es: Seq<EntryModel>) -> Seq<char>
    decreases es.len(),
{
    if es.len() == 0 {
        Seq::empty()
    } else if es.len() == 1 {
        json_entry(es[0])
    } else {
        json_entry(es[0]) + seq![','] + json_entry_seq(es.skip(1))
    }
}

/// The JSON object for a whole aggregate.
pub open spec fn json_aggregate(es: Seq<EntryModel>) -> Seq<char> {
    seq!['{'] + json_entry_seq(es) + seq!['}']
}

/// Escaping distributes over appending one character at the end.
pub proof fn lemma_escape_push(a: Seq<char>, c: char)
    ensures
        escape(a.push(c)) == escape(a) + esc_char(c),
    decreases a.len(),
{
    reveal_with_fuel(escape, 2);
    if a.len() == 0 {
        assert(a.push(c)[0] == c);
        assert(a.push(c).skip(1) =~= Seq::<char>::empty());
        assert(escape(a.push(c)) == esc_char(c) + escape(a.push(c).skip(1)));
        assert(escape(a.push(c)) =~= escape(a) + esc_char(c));
    } else {
        lemma_escape_push(a.skip(1), c);
        assert(a.push(c)[0] == a[0]);
        assert(a.push(c).skip(1) =~= a.skip(1).push(c));
        assert(escape(a.push(c)) == esc_char(a[0]) + escape(a.skip(1).push(c)));
        assert(escape(a.push(c)) =~= escape(a) + esc_char(c));
    }
}

/// Appending one more observation extends the array interior by a comma
/// and that observation's object.
pub proof fn lemma_json_obs_seq_push(l: Seq<ObsModel>, o: ObsModel)
    requires
        l.len() > 0,
    ensures
        json_obs_seq(l.push(o)) == json_obs_seq(l) + seq![','] + json_obs(o),
    decreases l.len(),
{
    reveal_with_fuel(json_obs_seq, 3);
    if l.len() == 1 {
        assert(l.push(o)[0] == l[0]);
        assert(l.push(o).skip(1) =~= seq![o]);
        assert(json_obs_seq(seq![o]) == json_obs(o));
        assert(json_obs_seq(l.push(o)) == json_obs(l[0]) + seq![','] + json_obs_seq(seq![o]));
        assert(json_obs_seq(l.push(o)) =~= json_obs_seq(l) + seq![','] + json_obs(o));
    } else {
        lemma_json_obs_seq_push(l.skip(1), o);
        assert(l.push(o)[0] == l[0]);
        assert(l.push(o).skip(1) =~= l.skip(1).push(o));
        assert(json_obs_seq(l.push(o)) == json_obs(l[0]) + seq![','] + json_obs_seq(
            l.skip(1).push(o),
        ));
        assert(json_obs_seq(l.push(o)) =~= json_obs_seq(l) + seq![','] + json_obs(o));
    }
}

/// Appending one more entry extends the object interior by a comma and
/// that entry's member.
pub proof fn lemma_json_entry_seq_push(es: Seq<EntryModel>, e: EntryModel)
    requires
        es.len() > 0,
    ensures
        json_entry_seq(es.push(e)) == json_entry_seq(es) + seq![','] + json_entry(e),
    decreases es.len(),
{
    reveal_with_fuel(json_entry_seq, 3);
    if es.len() == 1 {
        assert(es.push(e)[0] == es[0]);
        assert(es.push(e).skip(1) =~= seq![e]);
        assert(json_entry_seq(seq![e]) == json_entry(e));
        assert(json_entry_seq(es.push(e)) == json_entry(es[0]) + seq![','] + json_entry_seq(
            seq![e],
        ));
        assert(json_entry_seq(es.push(e)) =~= json_entry_seq(es) + seq![','] + json_entry(e));
    } else {
        lemma_json_entry_seq_push(es.skip(1), e);
        assert(es.push(e)[0] == es[0]);
        assert(es.push(e).skip(1) =~= es.skip(1).push(e));
        assert(json_entry_seq(es.push(e)) == json_entry(es[0]) + seq![','] + json_entry_seq(
            es.skip(1).push(e),
        ));
        assert(json_entry_seq(es.push(e)) =~= json_entry_seq(es) + seq![','] + json_entry(e));
    }
}

/// The executable twin of [`hex_digit`].
fn hex_digit_char(v: u32) -> (r: char)
    requires
        v < 16,
    ensures
        r == hex_digit(v),
{
    if v == 0 {
        '0'
    } else if v == 1 {
        '1'
    } else if v == 2 {
        '2'
    } else if v == 3 {
        '3'
    } else if v == 4 {
        '4'
    } else if v == 5 {
        '5'
    } else if v == 6 {
        '6'
    } else if v == 7 {
        '7'
    } else if v == 8 {
        '8'
    } else if v == 9 {
        '9'
    } else if v == 10 {
        'a'
    } else if v == 11 {
        'b'
    } else if v == 12 {
        'c'
    } else if v == 13 {
        'd'
    } else if v == 14 {
        'e'
    } else {
        'f'
    }
}

/// Append the escaped form of `s` to `out`.
fn push_escaped(out: &mut String, s: &str)
    ensures
        final(out)@ == old(out)@ + escape(s@),
{
    let n = s.unicode_len();
    let mut i: usize = 0;
    while i < n
        invariant
            n == s@.len(),
            i <= n,
            out@ == old(out)@ + escape(s@.take(i as int)),
        decreases n - i,
    {
        let c = s.get_char(i);
        proof {
            lemma_escape_push(s@.take(i as int), c);
            assert(s@.take(i + 1 as int) =~= s@.take(i as int).push(c));
        }
        if c == '"' {
            out.push('\\');
            out.push('"');
        } else if c == '\\' {
            out.push('\\');
            out.push('\\');
        } else if c == '\n' {
            out.push('\\');
            out.push('n');
        } else if c == '\r' {
            out.push('\\');
            out.push('r');
        } else if c == '\t' {
            out.push('\\');
            out.push('t');
        } else if c == '\u{8}' {
            out.push('\\');
            out.push('b');
        } else if c == '\u{c}' {
            out.push('\\');
            out.push('f');
        } else if (c as u32) < 32 {
            out.push('\\');
            out.push('u');
            out.push('0');
            out.push('0');
            out.push(hex_digit_char((c as u32) / 16));
            out.push(hex_digit_char((c as u32) % 16));
        } else {
            out.push(c);
        }
        proof {
            assert(out@ =~= old(out)@ + escape(s@.take(i + 1 as int)));
        }
        i = i + 1;
    }
    proof {
        assert(s@.take(n as int) =~= s@);
    }
    assert(out@ =~= old(out)@ + escape(s@));
}

/// Append the JSON string literal for `s` to `out`.
fn push_json_string(out: &mut String, s: &str)
    ensures
        final(out)@ == old(out)@ + json_string(s@),
{
    out.push('"');
    push_escaped(out, s);
    out.push('"');
    assert(out@ =~= old(out)@ + json_string(s@));
}

/// Append the JSON object for one observation to `out`.
fn push_observation(out: &mut String, o: &Observation)
    ensures
        final(out)@ == old(out)@ + json_obs(o@),
{
    proof {
        reveal_strlit("data");
        reveal_strlit("valor");
        assert("data"@ =~= date_key());
        assert("valor"@ =~= value_key());
    }
    out.push('{');
    push_json_string(out, "data");
    out.push(':');
    push_json_string(out, o.date.as_str());
    out.push(',');
    push_json_string(out, "valor");
    out.push(':');
    push_json_string(out, o.value.as_str());
    out.push('}');
    assert(out@ =~= old(out)@ + json_obs(o@));
}

/// Append the JSON array for one dataset to `out`.
fn push_obs_list(out: &mut String, list: &Vec<Observation>)
    ensures
        final(out)@ == old(out)@ + json_obs_list(list.deep_view()),
{
    out.push('[');
    let mut i: usize = 0;
    while i < list.len()
        invariant
            i <= list.len(),
            out@ == old(out)@ + seq!['['] + json_obs_seq(list.deep_view().take(i as int)),
        decreases list.len() - i,
    {
        if i > 0 {
            out.push(',');
        }
        push_observation(out, &list[i]);
        proof {
            let l = list.deep_view();
            assert(l.take(i + 1 as int) =~= l.take(i as int).push(l[i as int]));
            if i > 0 {
                lemma_json_obs_seq_push(l.take(i as int), l[i as int]);
            } else {
                assert(l.take(1int) =~= seq![l[0int]]);
            }
            assert(out@ =~= old(out)@ + seq!['['] + json_obs_seq(l.take(i + 1 as int)));
        }
        i = i + 1;
    }
    out.push(']');
    proof {
        assert(list.deep_view().take(list.len() as int) =~= list.deep_view());
        assert(out@ =~= old(out)@ + json_obs_list(list.deep_view()));
    }
}

/// Serialize one dataset as a JSON array.
pub fn serialize_observations(list: &Vec<Observation>) -> (r: String)
    ensures
        r@ == json_obs_list(list.deep_view()),
{
    let mut out = String::new();
    push_obs_list(&mut out, list);
    assert(out@ =~= json_obs_list(list.deep_view()));
    out
}

/// Append one aggregate member to `out`.
fn push_entry(out: &mut String, e: &SeriesEntry)
    ensures
        final(out)@ == old(out)@ + json_entry(e@),
{
    push_json_string(out, e.series.as_str());
    out.push(':');
    push_obs_list(out, &e.observations);
    assert(out@ =~= old(out)@ + json_entry(e@));
}

/// Serialize a whole aggregate as the JSON object the downstream endpoint
/// expects: series identifiers as keys, datasets as arrays.
pub fn serialize_aggregate(agg: &Aggregate) -> (r: String)
    ensures
        r@ == json_aggregate(agg@),
{
    let mut out = String::new();
    out.push('{');
    let mut i: usize = 0;
    while i < agg.len()
        invariant
            i <= agg@.len(),
            out@ == seq!['{'] + json_entry_seq(agg@.take(i as int)),
        decreases agg@.len() - i,
    {
        if i > 0 {
            out.push(',');
        }
        push_entry(&mut out, agg.entry_at(i));
        proof {
            let es = agg@;
            assert(es.take(i + 1 as int) =~= es.take(i as int).push(es[i as int]));
            if i > 0 {
                lemma_json_entry_seq_push(es.take(i as int), es[i as int]);
            } else {
                assert(es.take(1int) =~= seq![es[0int]]);
            }
            assert(out@ =~= seq!['{'] + json_entry_seq(es.take(i + 1 as int)));
        }
        i = i + 1;
    }
    out.push('}');
    proof {
        assert(agg@.take(agg@.len() as int) =~= agg@);
        assert(out@ =~= json_aggregate(agg@));
    }
    out
}

} // verus!
