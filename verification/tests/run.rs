//! Tests for the Driver: one simulated run per scenario, feeding fetch
//! and send outcomes in and checking which actions come out.

use sgs_relay::collector::interpret_response;
use sgs_relay::data::{FetchError, Observation};
use sgs_relay::driver::{Action, Driver, SeriesSpec};

fn spec(id: &str) -> SeriesSpec {
    SeriesSpec {
        series_id: id.to_string(),
        start_date: "01/01/2024".to_string(),
        end_date: "31/05/2025".to_string(),
    }
}

fn config() -> Vec<SeriesSpec> {
    vec![spec("433"), spec("1178"), spec("1")]
}

fn obs(date: &str, value: &str) -> Observation {
    Observation::new(date.to_string(), value.to_string())
}

fn expect_fetch(driver: &Driver, expected_index: usize) -> String {
    match driver.next_action() {
        Action::Fetch { index, url } => {
            assert_eq!(index, expected_index);
            url
        }
        _ => panic!("expected a fetch action"),
    }
}

#[test]
fn run_sends_exactly_the_successful_series() {
    let mut driver = Driver::new(config(), "http://localhost:8080/dados/sgs".to_string());

    let url = expect_fetch(&driver, 0);
    assert!(url.contains("bcdata.sgs.433/"));
    driver.record_fetch(Ok(vec![obs("01/01/2024", "0.5")]));

    let url = expect_fetch(&driver, 1);
    assert!(url.contains("bcdata.sgs.1178/"));
    driver.record_fetch(Err(FetchError::Network));

    let url = expect_fetch(&driver, 2);
    assert!(url.contains("bcdata.sgs.1/"));
    driver.record_fetch(Ok(vec![obs("01/01/2024", "4.90"), obs("02/01/2024", "4.95")]));

    match driver.next_action() {
        Action::Send { url, body } => {
            assert_eq!(url, "http://localhost:8080/dados/sgs");
            assert_eq!(
                body,
                "{\"433\":[{\"data\":\"01/01/2024\",\"valor\":\"0.5\"}],\
\"1\":[{\"data\":\"01/01/2024\",\"valor\":\"4.90\"},\
{\"data\":\"02/01/2024\",\"valor\":\"4.95\"}]}"
            );
        }
        _ => panic!("expected the one send action"),
    }
    driver.record_send();
    assert!(matches!(driver.next_action(), Action::Finish));
}

#[test]
fn all_failed_means_no_send() {
    let mut driver = Driver::new(config(), "http://localhost:8080/dados/sgs".to_string());
    expect_fetch(&driver, 0);
    driver.record_fetch(Err(FetchError::Network));
    expect_fetch(&driver, 1);
    driver.record_fetch(Err(FetchError::Http(500, "boom".to_string())));
    expect_fetch(&driver, 2);
    driver.record_fetch(Err(FetchError::Parse));
    // the aggregate is empty, so the run finishes without any send
    assert!(matches!(driver.next_action(), Action::Finish));
    assert!(driver.aggregate.is_empty());
}

#[test]
fn empty_fetch_leaves_series_absent() {
    let mut driver = Driver::new(config(), "http://localhost:8080/dados/sgs".to_string());
    expect_fetch(&driver, 0);
    driver.record_fetch(Ok(vec![]));
    expect_fetch(&driver, 1);
    driver.record_fetch(Ok(vec![obs("01/01/2024", "11.25")]));
    expect_fetch(&driver, 2);
    driver.record_fetch(Ok(vec![]));
    // only the series that returned data is present
    assert!(!driver.aggregate.contains("433"));
    assert!(driver.aggregate.contains("1178"));
    assert!(!driver.aggregate.contains("1"));
    assert_eq!(driver.aggregate.len(), 1);
    match driver.next_action() {
        Action::Send { body, .. } => {
            assert_eq!(body, "{\"1178\":[{\"data\":\"01/01/2024\",\"valor\":\"11.25\"}]}");
        }
        _ => panic!("one non-empty series still means one send"),
    }
}

#[test]
fn http_404_logged_and_run_continues() {
    let mut driver = Driver::new(config(), "http://localhost:8080/dados/sgs".to_string());
    expect_fetch(&driver, 0);
    // what the Collector hands back for a 404 response
    let outcome = interpret_response(404, "no such series".to_string());
    assert_eq!(outcome, Err(FetchError::Http(404, "no such series".to_string())));
    driver.record_fetch(outcome);
    // the run moved on to the next series; nothing was inserted
    expect_fetch(&driver, 1);
    assert!(!driver.aggregate.contains("433"));
    driver.record_fetch(Ok(vec![obs("01/01/2024", "11.25")]));
    expect_fetch(&driver, 2);
    driver.record_fetch(Ok(vec![]));
    assert_eq!(driver.aggregate.len(), 1);
}

#[test]
fn empty_aggregate_run_ends_normally() {
    let mut driver = Driver::new(
        vec![spec("433")],
        "http://localhost:8080/dados/sgs".to_string(),
    );
    expect_fetch(&driver, 0);
    driver.record_fetch(Ok(vec![]));
    assert!(driver.aggregate.is_empty());
    assert!(matches!(driver.next_action(), Action::Finish));
}
