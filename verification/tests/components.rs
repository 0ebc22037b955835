//! Tests for the Collector's and Forwarder's response handling and URL
//! construction.

use sgs_relay::collector::{build_url, interpret_response};
use sgs_relay::data::{Aggregate, FetchError, Observation, SendError};
use sgs_relay::forwarder::{interpret_send_response, payload_body};
use sgs_relay::json_text::serialize_aggregate;

#[test]
fn build_url_fills_template() {
    let url = build_url("433", "01/01/2024", "31/05/2025");
    assert_eq!(
        url,
        "https://api.bcb.gov.br/dados/serie/bcdata.sgs.433/dados?\
formato=json&dataInicial=01/01/2024&dataFinal=31/05/2025"
    );
}

#[test]
fn fetch_http_error_carries_status_and_body() {
    let r = interpret_response(404, "not found".to_string());
    assert_eq!(r, Err(FetchError::Http(404, "not found".to_string())));
}

#[test]
fn fetch_parse_error_on_bad_body() {
    let r = interpret_response(200, "<html>oops</html>".to_string());
    assert_eq!(r, Err(FetchError::Parse));
}

#[test]
fn fetch_success_parses_body() {
    let r = interpret_response(200, "[{\"data\":\"01/01/2024\",\"valor\":\"0.5\"}]".to_string());
    let data = r.expect("2xx with valid body succeeds");
    assert_eq!(data.len(), 1);
    assert_eq!(data[0], Observation::new("01/01/2024".to_string(), "0.5".to_string()));
}

#[test]
fn fetch_success_with_unicode_escaped_key() {
    // standard JSON: the key written with a \u escape still names the date field
    let r = interpret_response(200, "[{\"\\u0064ata\":\"x\",\"valor\":\"y\"}]".to_string());
    let data = r.expect("a valid JSON body with \\u escapes succeeds");
    assert_eq!(data[0], Observation::new("x".to_string(), "y".to_string()));
}

#[test]
fn fetch_parse_error_on_raw_control_char() {
    // a raw control character inside a string literal is not valid JSON
    let r = interpret_response(200, "[{\"data\":\"a\u{1}b\",\"valor\":\"y\"}]".to_string());
    assert_eq!(r, Err(FetchError::Parse));
}

#[test]
fn fetch_success_with_empty_array() {
    let r = interpret_response(200, "[]".to_string());
    assert_eq!(r.expect("empty array is a success").len(), 0);
}

#[test]
fn fetch_status_boundaries() {
    assert_eq!(
        interpret_response(199, "[]".to_string()),
        Err(FetchError::Http(199, "[]".to_string()))
    );
    assert!(interpret_response(299, "[]".to_string()).is_ok());
    assert_eq!(
        interpret_response(300, "[]".to_string()),
        Err(FetchError::Http(300, "[]".to_string()))
    );
}

#[test]
fn send_success_on_2xx() {
    assert_eq!(interpret_send_response(200, "ok".to_string()), Ok(()));
    assert_eq!(interpret_send_response(204, String::new()), Ok(()));
}

#[test]
fn send_failure_carries_status_and_body() {
    let r = interpret_send_response(500, "boom".to_string());
    assert_eq!(r, Err(SendError::Http(500, "boom".to_string())));
}

#[test]
fn payload_body_matches_serializer() {
    let mut agg = Aggregate::new();
    agg.insert(
        "433".to_string(),
        vec![Observation::new("01/01/2024".to_string(), "0.5".to_string())],
    );
    assert_eq!(payload_body(&agg), serialize_aggregate(&agg));
    assert_eq!(payload_body(&agg), "{\"433\":[{\"data\":\"01/01/2024\",\"valor\":\"0.5\"}]}");
}
