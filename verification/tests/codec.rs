//! Tests for the JSON codec: parsing response bodies, serializing
//! aggregates, and the round trip between the two.

use sgs_relay::data::{Aggregate, Observation};
use sgs_relay::json_parse::{parse_aggregate, parse_observations};
use sgs_relay::json_text::{serialize_aggregate, serialize_observations};

fn obs(date: &str, value: &str) -> Observation {
    Observation::new(date.to_string(), value.to_string())
}

#[test]
fn parse_single_observation() {
    let body = "[{\"data\":\"01/01/2024\",\"valor\":\"0.5\"}]";
    let parsed = parse_observations(body).expect("valid body");
    assert_eq!(parsed.len(), 1);
    assert_eq!(parsed[0].date, "01/01/2024");
    assert_eq!(parsed[0].value, "0.5");
}

#[test]
fn parse_preserves_order() {
    let body = "[{\"data\":\"01/01/2024\",\"valor\":\"0.5\"},\
                {\"data\":\"01/02/2024\",\"valor\":\"0.8\"},\
                {\"data\":\"01/03/2024\",\"valor\":\"0.2\"}]";
    let parsed = parse_observations(body).expect("valid body");
    assert_eq!(parsed.len(), 3);
    assert_eq!(parsed[0].value, "0.5");
    assert_eq!(parsed[1].value, "0.8");
    assert_eq!(parsed[2].value, "0.2");
    assert_eq!(parsed[1].date, "01/02/2024");
}

#[test]
fn parse_empty_array_is_success() {
    let parsed = parse_observations("[]").expect("empty array is valid");
    assert!(parsed.is_empty());
}

#[test]
fn parse_allows_whitespace() {
    let body = " [ { \"data\" : \"01/01/2024\" , \"valor\" : \"0.5\" } ] ";
    let parsed = parse_observations(body).expect("whitespace is allowed");
    assert_eq!(parsed.len(), 1);
    assert_eq!(parsed[0].date, "01/01/2024");
}

#[test]
fn parse_allows_swapped_fields() {
    let body = "[{\"valor\":\"0.5\",\"data\":\"01/01/2024\"}]";
    let parsed = parse_observations(body).expect("either field order is fine");
    assert_eq!(parsed[0].date, "01/01/2024");
    assert_eq!(parsed[0].value, "0.5");
}

#[test]
fn parse_decodes_escapes() {
    let body = "[{\"data\":\"a\\\"b\",\"valor\":\"c\\\\d\\ne\"}]";
    let parsed = parse_observations(body).expect("escapes are decoded");
    assert_eq!(parsed[0].date, "a\"b");
    assert_eq!(parsed[0].value, "c\\d\ne");
}

#[test]
fn parse_decodes_unicode_escapes() {
    // \u0064 is 'd': the key still reads as "data"
    let body = "[{\"\\u0064ata\":\"x\",\"valor\":\"y\"}]";
    let parsed = parse_observations(body).expect("\\uXXXX escapes are decoded");
    assert_eq!(parsed[0].date, "x");
    assert_eq!(parsed[0].value, "y");
    let body = "[{\"data\":\"caf\\u00e9\",\"valor\":\"\\u0030\"}]";
    let parsed = parse_observations(body).expect("BMP escapes are decoded");
    assert_eq!(parsed[0].date, "caf\u{e9}");
    assert_eq!(parsed[0].value, "0");
}

#[test]
fn parse_decodes_surrogate_pairs() {
    let body = "[{\"data\":\"\\uD83D\\uDE00\",\"valor\":\"1\"}]";
    let parsed = parse_observations(body).expect("surrogate pairs are decoded");
    assert_eq!(parsed[0].date, "\u{1F600}");
}

#[test]
fn parse_rejects_bad_unicode_escapes() {
    // lone high surrogate
    assert!(parse_observations("[{\"data\":\"\\uD83D\",\"valor\":\"1\"}]").is_none());
    // lone low surrogate
    assert!(parse_observations("[{\"data\":\"\\uDE00\",\"valor\":\"1\"}]").is_none());
    // not hexadecimal
    assert!(parse_observations("[{\"data\":\"\\uZZZZ\",\"valor\":\"1\"}]").is_none());
    // too short
    assert!(parse_observations("[{\"data\":\"\\u12\",\"valor\":\"1\"}]").is_none());
}

#[test]
fn parse_rejects_raw_control_in_string() {
    // a raw newline inside a string literal is not valid JSON ...
    assert!(parse_observations("[{\"data\":\"a\nb\",\"valor\":\"y\"}]").is_none());
    assert!(parse_observations("[{\"data\":\"a\u{1}b\",\"valor\":\"y\"}]").is_none());
    // ... though escaped it is fine
    let parsed = parse_observations("[{\"data\":\"a\\nb\",\"valor\":\"y\"}]").unwrap();
    assert_eq!(parsed[0].date, "a\nb");
}

#[test]
fn parse_rejects_non_json() {
    assert!(parse_observations("oops").is_none());
    assert!(parse_observations("").is_none());
    assert!(parse_observations("{}").is_none());
}

#[test]
fn parse_rejects_wrong_shape() {
    // missing field
    assert!(parse_observations("[{\"data\":\"x\"}]").is_none());
    // non-string value
    assert!(parse_observations("[{\"data\":\"x\",\"valor\":1}]").is_none());
    // unknown key
    assert!(parse_observations("[{\"data\":\"x\",\"other\":\"y\"}]").is_none());
    // trailing garbage
    assert!(parse_observations("[]z").is_none());
    // unterminated array
    assert!(parse_observations("[{\"data\":\"x\",\"valor\":\"y\"}").is_none());
}

#[test]
fn serialize_aggregate_exact_text() {
    let mut agg = Aggregate::new();
    agg.insert("433".to_string(), vec![obs("01/01/2024", "0.5")]);
    agg.insert(
        "1178".to_string(),
        vec![obs("01/01/2024", "11.25"), obs("02/01/2024", "11.25")],
    );
    let text = serialize_aggregate(&agg);
    let expected = "{\"433\":[{\"data\":\"01/01/2024\",\"valor\":\"0.5\"}],\
\"1178\":[{\"data\":\"01/01/2024\",\"valor\":\"11.25\"},\
{\"data\":\"02/01/2024\",\"valor\":\"11.25\"}]}";
    assert_eq!(text, expected);
}

#[test]
fn serialize_observations_exact_text() {
    let list = vec![obs("01/01/2024", "0.5")];
    assert_eq!(
        serialize_observations(&list),
        "[{\"data\":\"01/01/2024\",\"valor\":\"0.5\"}]"
    );
    let empty: Vec<Observation> = Vec::new();
    assert_eq!(serialize_observations(&empty), "[]");
}

#[test]
fn serialize_escapes_specials() {
    let list = vec![obs("a\"b", "c\\d\te")];
    assert_eq!(
        serialize_observations(&list),
        "[{\"data\":\"a\\\"b\",\"valor\":\"c\\\\d\\te\"}]"
    );
}

#[test]
fn serialize_escapes_control_chars() {
    let list = vec![obs("\u{8}\u{c}", "\u{1}\u{1f}")];
    assert_eq!(
        serialize_observations(&list),
        "[{\"data\":\"\\b\\f\",\"valor\":\"\\u0001\\u001f\"}]"
    );
}

#[test]
fn round_trip_control_chars() {
    let mut agg = Aggregate::new();
    agg.insert("433".to_string(), vec![obs("\u{0}\u{1}", "a\u{1f}b")]);
    let text = serialize_aggregate(&agg);
    // the body is valid JSON even with control characters in the data
    let v: serde_json::Value = serde_json::from_str(&text).expect("valid JSON");
    assert_eq!(v["433"][0]["data"], serde_json::Value::String("\u{0}\u{1}".to_string()));
    let back = parse_aggregate(&text).expect("own output parses");
    let d = back.get("433").expect("433 present");
    assert_eq!(d[0].date, "\u{0}\u{1}");
    assert_eq!(d[0].value, "a\u{1f}b");
}

#[test]
fn round_trip_aggregate() {
    let mut agg = Aggregate::new();
    agg.insert("433".to_string(), vec![obs("01/01/2024", "0.5")]);
    agg.insert(
        "1178".to_string(),
        vec![obs("01/01/2024", "11.25"), obs("02/01/2024", "11.30")],
    );
    let text = serialize_aggregate(&agg);
    let back = parse_aggregate(&text).expect("own output parses");
    assert_eq!(back.len(), 2);
    let a = back.get("433").expect("433 present");
    assert_eq!(a.len(), 1);
    assert_eq!(a[0], obs("01/01/2024", "0.5"));
    let b = back.get("1178").expect("1178 present");
    assert_eq!(b.len(), 2);
    assert_eq!(b[0], obs("01/01/2024", "11.25"));
    assert_eq!(b[1], obs("02/01/2024", "11.30"));
    assert!(back.get("1").is_none());
}

#[test]
fn round_trip_with_awkward_strings() {
    let mut agg = Aggregate::new();
    agg.insert(
        "se\"ries\\1".to_string(),
        vec![obs("01/01/2024\n", "\t0,5 \"approx\"")],
    );
    let text = serialize_aggregate(&agg);
    let back = parse_aggregate(&text).expect("own output parses");
    let d = back.get("se\"ries\\1").expect("key survives escaping");
    assert_eq!(d[0].date, "01/01/2024\n");
    assert_eq!(d[0].value, "\t0,5 \"approx\"");
}

#[test]
fn round_trip_empty_aggregate() {
    let agg = Aggregate::new();
    let text = serialize_aggregate(&agg);
    assert_eq!(text, "{}");
    let back = parse_aggregate(&text).expect("empty object parses");
    assert_eq!(back.len(), 0);
}

#[test]
fn parse_aggregate_rejects_duplicate_keys() {
    let text = "{\"433\":[{\"data\":\"a\",\"valor\":\"b\"}],\
                \"433\":[{\"data\":\"c\",\"valor\":\"d\"}]}";
    assert!(parse_aggregate(text).is_none());
}

#[test]
fn parse_aggregate_rejects_empty_dataset() {
    assert!(parse_aggregate("{\"433\":[]}").is_none());
}

#[test]
fn serialized_payload_is_valid_json_for_serde() {
    let mut agg = Aggregate::new();
    agg.insert("433".to_string(), vec![obs("01/01/2024", "0.5")]);
    agg.insert("1".to_string(), vec![obs("02/01/2024", "4.95")]);
    let text = serialize_aggregate(&agg);
    let v: serde_json::Value = serde_json::from_str(&text).expect("valid JSON");
    assert_eq!(v["433"][0]["data"], serde_json::Value::String("01/01/2024".to_string()));
    assert_eq!(v["433"][0]["valor"], serde_json::Value::String("0.5".to_string()));
    assert_eq!(v["1"][0]["valor"], serde_json::Value::String("4.95".to_string()));
    assert_eq!(v.as_object().map(|m| m.len()), Some(2));
}
