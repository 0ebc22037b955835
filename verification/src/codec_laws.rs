//! The codec laws: parsing inverts serialization. The central statement is
//! that a serialized aggregate parses back to exactly the same entries —
//! same keys, and for each key the same ordered date/value pairs, compared
//! character for character.

use vstd::prelude::*;

use crate::data::{all_nonempty, unique_series, EntryModel, ObsModel};
use crate::json_parse::{
    obs_of_members, p_aggregate, p_chars, p_entry, p_entry_seq, p_member, p_obs, p_obs_list,
    p_obs_seq, p_string, p_sym, parse_aggregate_spec, parse_observations_spec, skip_ws,
    unescape_char,
};
use crate::json_text::{
    date_key, esc_char, escape, hex_digit, json_aggregate, json_entry, json_entry_seq, json_obs,
    json_obs_list, json_obs_seq, json_string, value_key,
};
use crate::json_parse::{hex4, hex_val, is_high_surrogate, is_low_surrogate};

verus! {

/// Reading a hexadecimal digit back gives the value it was written for.
proof fn lemma_hex_digit_val(v: u32)
    requires
        v < 16,
    ensures
        hex_val(hex_digit(v)) == Some(v),
{
}

/// Decoding a string-literal body undoes escaping, and stops exactly at
/// the closing quote.
proof fn lemma_p_chars_escape(s: Seq<char>, rest: Seq<char>)
    ensures
        p_chars(escape(s) + seq!['"'] + rest) == Some((s, rest)),
    decreases s.len(),
{
    let t = escape(s) + seq!['"'] + rest;
    if s.len() == 0 {
        assert(escape(s) == Seq::<char>::empty());
        assert(t =~= seq!['"'] + rest);
        assert(t[0] == '"');
        assert(t.skip(1) =~= rest);
        assert(s =~= Seq::<char>::empty());
        assert(p_chars(t) == Some((s, rest)));
    } else {
        let c = s[0];
        let tail = escape(s.skip(1)) + seq!['"'] + rest;
        assert(escape(s) == esc_char(c) + escape(s.skip(1)));
        assert(t =~= esc_char(c) + tail);
        lemma_p_chars_escape(s.skip(1), rest);
        if c == '"' || c == '\\' || c == '\n' || c == '\r' || c == '\t' || c == '\u{8}' || c
            == '\u{c}' {
            let x: char = if c == '"' {
                '"'
            } else if c == '\\' {
                '\\'
            } else if c == '\n' {
                'n'
            } else if c == '\r' {
                'r'
            } else if c == '\t' {
                't'
            } else if c == '\u{8}' {
                'b'
            } else {
                'f'
            };
            assert(esc_char(c) =~= seq!['\\', x]);
            assert(t.len() >= 2);
            assert(t[0] == '\\');
            assert(t[1] == x);
            assert(x != 'u');
            assert(unescape_char(x) == Some(c));
            assert(t.skip(2) =~= tail);
            assert(p_chars(t) == Some((seq![c] + s.skip(1), rest)));
            assert(seq![c] + s.skip(1) =~= s);
        } else if (c as u32) < 32 {
            let hi = (c as u32) / 16;
            let lo = (c as u32) % 16;
            lemma_hex_digit_val(hi);
            lemma_hex_digit_val(lo);
            assert(esc_char(c) =~= seq!['\\', 'u', '0', '0', hex_digit(hi), hex_digit(lo)]);
            assert(t.len() >= 6);
            assert(t[0] == '\\');
            assert(t[1] == 'u');
            assert(t[2] == '0');
            assert(t[3] == '0');
            assert(t[4] == hex_digit(hi));
            assert(t[5] == hex_digit(lo));
            assert(hex_val('0') == Some(0u32));
            assert(hi * 16 + lo == c as u32);
            assert(hex4(t[2], t[3], t[4], t[5]) == Some(c as u32));
            assert(!is_low_surrogate(c as u32) && !is_high_surrogate(c as u32));
            assert(t.skip(6) =~= tail);
            vstd::utf8::char_u32_cast(c, c as u32);
            assert(((c as u32) as char) == c);
            assert(p_chars(t) == Some((seq![c] + s.skip(1), rest)));
            assert(seq![c] + s.skip(1) =~= s);
        } else {
            assert(esc_char(c) =~= seq![c]);
            assert(t[0] == c);
            assert(!((t[0] as u32) < 32));
            assert(t.skip(1) =~= tail);
            assert(p_chars(t) == Some((seq![c] + s.skip(1), rest)));
            assert(seq![c] + s.skip(1) =~= s);
        }
    }
}

/// Parsing a serialized string literal yields the original content.
proof fn lemma_p_string_inverts(s: Seq<char>, rest: Seq<char>)
    ensures
        p_string(json_string(s) + rest) == Some((s, rest)),
{
    let t = json_string(s) + rest;
    let body = escape(s) + seq!['"'] + rest;
    assert(t =~= seq!['"'] + body);
    assert(t[0] == '"');
    assert(skip_ws(t) == t);
    assert(t.skip(1) =~= body);
    lemma_p_chars_escape(s, rest);
    assert(p_string(t) == Some((s, rest)));
}

/// Parsing a serialized `key: value` member yields the original pair.
proof fn lemma_p_member_inverts(k: Seq<char>, v: Seq<char>, rest: Seq<char>)
    ensures
        p_member(json_string(k) + seq![':'] + json_string(v) + rest) == Some((k, v, rest)),
{
    let t = json_string(k) + seq![':'] + json_string(v) + rest;
    let rest1 = seq![':'] + json_string(v) + rest;
    assert(t =~= json_string(k) + rest1);
    lemma_p_string_inverts(k, rest1);
    assert(p_string(t) == Some((k, rest1)));
    let rest2 = json_string(v) + rest;
    assert(rest1[0] == ':');
    assert(skip_ws(rest1) == rest1);
    assert(rest1.skip(1) =~= rest2);
    assert(p_sym(rest1, ':') == Some(rest2));
    lemma_p_string_inverts(v, rest);
    assert(p_member(t) == Some((k, v, rest)));
}

/// Parsing a serialized observation object yields the original
/// observation.
proof fn lemma_p_obs_inverts(o: ObsModel, rest: Seq<char>)
    ensures
        p_obs(json_obs(o) + rest) == Some((o, rest)),
{
    let t = json_obs(o) + rest;
    let rest_m1 = seq![','] + json_string(value_key()) + seq![':'] + json_string(o.value)
        + seq!['}'] + rest;
    let after_brace = json_string(date_key()) + seq![':'] + json_string(o.date) + rest_m1;
    assert(t =~= seq!['{'] + after_brace);
    assert(t[0] == '{');
    assert(skip_ws(t) == t);
    assert(t.skip(1) =~= after_brace);
    assert(p_sym(t, '{') == Some(after_brace));
    lemma_p_member_inverts(date_key(), o.date, rest_m1);
    assert(p_member(after_brace) == Some((date_key(), o.date, rest_m1)));
    let rest_m2 = seq!['}'] + rest;
    let rest_c = json_string(value_key()) + seq![':'] + json_string(o.value) + rest_m2;
    assert(rest_m1 =~= seq![','] + rest_c);
    assert(rest_m1[0] == ',');
    assert(skip_ws(rest_m1) == rest_m1);
    assert(rest_m1.skip(1) =~= rest_c);
    assert(p_sym(rest_m1, ',') == Some(rest_c));
    lemma_p_member_inverts(value_key(), o.value, rest_m2);
    assert(p_member(rest_c) == Some((value_key(), o.value, rest_m2)));
    assert(rest_m2[0] == '}');
    assert(skip_ws(rest_m2) == rest_m2);
    assert(rest_m2.skip(1) =~= rest);
    assert(p_sym(rest_m2, '}') == Some(rest));
    assert(date_key().len() != value_key().len());
    assert(obs_of_members(date_key(), o.date, value_key(), o.value) == Some(
        ObsModel { date: o.date, value: o.value },
    ));
    assert((ObsModel { date: o.date, value: o.value }) == o);
    assert(p_obs(t) == Some((o, rest)));
}

/// Parsing a serialized non-empty array interior yields the original
/// observations, in order.
proof fn lemma_p_obs_seq_inverts(l: Seq<ObsModel>, rest: Seq<char>)
    requires
        l.len() > 0,
    ensures
        p_obs_seq(json_obs_seq(l) + seq![']'] + rest) == Some((l, rest)),
    decreases l.len(),
{
    let t = json_obs_seq(l) + seq![']'] + rest;
    if l.len() == 1 {
        let after = seq![']'] + rest;
        assert(json_obs_seq(l) == json_obs(l[0]));
        assert(t =~= json_obs(l[0]) + after);
        lemma_p_obs_inverts(l[0], after);
        assert(after[0] == ']');
        assert(skip_ws(after) == after);
        assert(p_sym(after, ',') is None);
        assert(after.skip(1) =~= rest);
        assert(p_sym(after, ']') == Some(rest));
        assert(seq![l[0]] =~= l);
        assert(p_obs_seq(t) == Some((l, rest)));
    } else {
        let r2 = json_obs_seq(l.skip(1)) + seq![']'] + rest;
        let after = seq![','] + r2;
        assert(json_obs_seq(l) == json_obs(l[0]) + seq![','] + json_obs_seq(l.skip(1)));
        assert(t =~= json_obs(l[0]) + after);
        lemma_p_obs_inverts(l[0], after);
        assert(after[0] == ',');
        assert(skip_ws(after) == after);
        assert(after.skip(1) =~= r2);
        assert(p_sym(after, ',') == Some(r2));
        lemma_p_obs_seq_inverts(l.skip(1), rest);
        assert(p_obs_seq(t) == Some((seq![l[0]] + l.skip(1), rest)));
        assert(seq![l[0]] + l.skip(1) =~= l);
    }
}

/// Parsing a serialized observation array yields the original dataset.
proof fn lemma_p_obs_list_inverts(l: Seq<ObsModel>, rest: Seq<char>)
    ensures
        p_obs_list(json_obs_list(l) + rest) == Some((l, rest)),
{
    let t = json_obs_list(l) + rest;
    let r1 = json_obs_seq(l) + seq![']'] + rest;
    assert(t =~= seq!['['] + r1);
    assert(t[0] == '[');
    assert(skip_ws(t) == t);
    assert(t.skip(1) =~= r1);
    assert(p_sym(t, '[') == Some(r1));
    if l.len() == 0 {
        assert(json_obs_seq(l) == Seq::<char>::empty());
        assert(r1 =~= seq![']'] + rest);
        assert(r1[0] == ']');
        assert(skip_ws(r1) == r1);
        assert(r1.skip(1) =~= rest);
        assert(p_sym(r1, ']') == Some(rest));
        assert(l =~= Seq::<ObsModel>::empty());
        assert(p_obs_list(t) == Some((l, rest)));
    } else {
        assert(json_obs(l[0])[0] == '{') by {
            let o = l[0];
            assert(json_obs(o) =~= seq!['{'] + (json_string(date_key()) + seq![':'] + json_string(
                o.date,
            ) + seq![','] + json_string(value_key()) + seq![':'] + json_string(o.value)
                + seq!['}']));
        }
        assert(json_obs_seq(l)[0] == '{');
        assert(r1[0] == '{');
        assert(skip_ws(r1) == r1);
        assert(p_sym(r1, ']') is None);
        lemma_p_obs_seq_inverts(l, rest);
        assert(p_obs_list(t) == Some((l, rest)));
    }
}

/// Parsing a serialized aggregate member yields the original entry.
proof fn lemma_p_entry_inverts(e: EntryModel, rest: Seq<char>)
    ensures
        p_entry(json_entry(e) + rest) == Some((e, rest)),
{
    let t = json_entry(e) + rest;
    let rest1 = seq![':'] + json_obs_list(e.observations) + rest;
    assert(t =~= json_string(e.series) + rest1);
    lemma_p_string_inverts(e.series, rest1);
    assert(p_string(t) == Some((e.series, rest1)));
    let rest2 = json_obs_list(e.observations) + rest;
    assert(rest1[0] == ':');
    assert(skip_ws(rest1) == rest1);
    assert(rest1.skip(1) =~= rest2);
    assert(p_sym(rest1, ':') == Some(rest2));
    lemma_p_obs_list_inverts(e.observations, rest);
    assert((EntryModel { series: e.series, observations: e.observations }) == e);
    assert(p_entry(t) == Some((e, rest)));
}

/// Parsing a serialized non-empty object interior yields the original
/// entries, in order.
#[verifier::rlimit(60)]
proof fn lemma_p_entry_seq_inverts(es: Seq<EntryModel>, rest: Seq<char>)
    requires
        es.len() > 0,
    ensures
        p_entry_seq(json_entry_seq(es) + seq!['}'] + rest) == Some((es, rest)),
    decreases es.len(),
{
    let t = json_entry_seq(es) + seq!['}'] + rest;
    if es.len() == 1 {
        let after = seq!['}'] + rest;
        assert(json_entry_seq(es) == json_entry(es[0]));
        assert(t =~= json_entry(es[0]) + after);
        lemma_p_entry_inverts(es[0], after);
        assert(after[0] == '}');
        assert(skip_ws(after) == after);
        assert(p_sym(after, ',') is None);
        assert(after.skip(1) =~= rest);
        assert(p_sym(after, '}') == Some(rest));
        assert(seq![es[0]] =~= es);
        assert(p_entry_seq(t) == Some((es, rest)));
    } else {
        let r2 = json_entry_seq(es.skip(1)) + seq!['}'] + rest;
        let after = seq![','] + r2;
        assert(json_entry_seq(es) == json_entry(es[0]) + seq![','] + json_entry_seq(es.skip(1)));
        assert(t =~= json_entry(es[0]) + after);
        lemma_p_entry_inverts(es[0], after);
        assert(after[0] == ',');
        assert(skip_ws(after) == after);
        assert(after.skip(1) =~= r2);
        assert(p_sym(after, ',') == Some(r2));
        lemma_p_entry_seq_inverts(es.skip(1), rest);
        assert(p_entry_seq(t) == Some((seq![es[0]] + es.skip(1), rest)));
        assert(seq![es[0]] + es.skip(1) =~= es);
    }
}

/// Parsing a serialized aggregate object yields the original entries.
#[verifier::rlimit(60)]
proof fn lemma_p_aggregate_inverts(es: Seq<EntryModel>, rest: Seq<char>)
    ensures
        p_aggregate(json_aggregate(es) + rest) == Some((es, rest)),
{
    let t = json_aggregate(es) + rest;
    let r1 = json_entry_seq(es) + seq!['}'] + rest;
    assert(t =~= seq!['{'] + r1);
    assert(t[0] == '{');
    assert(skip_ws(t) == t);
    assert(t.skip(1) =~= r1);
    assert(p_sym(t, '{') == Some(r1));
    if es.len() == 0 {
        assert(json_entry_seq(es) == Seq::<char>::empty());
        assert(r1 =~= seq!['}'] + rest);
        assert(r1[0] == '}');
        assert(skip_ws(r1) == r1);
        assert(r1.skip(1) =~= rest);
        assert(p_sym(r1, '}') == Some(rest));
        assert(es =~= Seq::<EntryModel>::empty());
        assert(p_aggregate(t) == Some((es, rest)));
    } else {
        assert(json_entry(es[0])[0] == '"') by {
            let e = es[0];
            assert(json_entry(e) =~= seq!['"'] + (escape(e.series) + seq!['"'] + seq![':']
                + json_obs_list(e.observations)));
        }
        assert(json_entry_seq(es)[0] == '"');
        assert(r1[0] == '"');
        assert(skip_ws(r1) == r1);
        assert(p_sym(r1, '}') is None);
        lemma_p_entry_seq_inverts(es, rest);
        assert(p_aggregate(t) == Some((es, rest)));
    }
}

/// Round trip for datasets: serializing any dataset and parsing the text
/// back yields exactly the original observations, in order.
pub proof fn lemma_observations_round_trip(l: Seq<ObsModel>)
    ensures
        parse_observations_spec(json_obs_list(l)) == Some(l),
{
    lemma_p_obs_list_inverts(l, Seq::empty());
    assert(json_obs_list(l) + Seq::<char>::empty() =~= json_obs_list(l));
    assert(skip_ws(Seq::<char>::empty()) == Seq::<char>::empty());
}

/// Round trip for aggregates: serializing any well-formed aggregate and
/// parsing the text back yields a mapping with the same keys and, for each
/// key, the same ordered date/value pairs.
pub proof fn lemma_aggregate_round_trip(es: Seq<EntryModel>)
    requires
        unique_series(es),
        all_nonempty(es),
    ensures
        parse_aggregate_spec(json_aggregate(es)) == Some(es),
{
    lemma_p_aggregate_inverts(es, Seq::empty());
    assert(json_aggregate(es) + Seq::<char>::empty() =~= json_aggregate(es));
    assert(skip_ws(Seq::<char>::empty()) == Seq::<char>::empty());
}

} // verus!

