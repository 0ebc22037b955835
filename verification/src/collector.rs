//! The Collector's computational half: building the request URL for one
//! series, and interpreting the HTTP response as a dataset or a failure.
//! The network call itself lives outside the library; callers hand in the
//! status and body they received.

use vstd::prelude::*;

use crate::data::{FetchError, Observation};
use crate::json_parse::{parse_observations, parse_observations_spec};
use vstd::string::StringExecFns;

verus! {

/// A status in the 2xx range: the remote call succeeded.
pub open spec fn is_success_status(status: u16) -> bool {
    200 <= status < 300
}

/// The request URL for one series and date range: the fixed template of
/// the upstream statistics API with the series code and date bounds
/// substituted verbatim.
pub open spec fn url_of(series: Seq<char>, start: Seq<char>, end: Seq<char>) -> Seq<char> {
    "https://api.bcb.gov.br/dados/serie/bcdata.sgs."@ + series
        + "/dados?formato=json&dataInicial="@ + start + "&dataFinal="@ + end
}

/// Build the request URL for one series fetch.
pub fn build_url(series: &str, start: &str, end: &str) -> (r: String)
    ensures
        r@ == url_of(series@, start@, end@),
{
    let mut url = String::from_str("https://api.bcb.gov.br/dados/serie/bcdata.sgs.");
    url.append(series);
    url.append("/dados?formato=json&dataInicial=");
    url.append(start);
    url.append("&dataFinal=");
    url.append(end);
    url
}

/// Interpret the HTTP response to one series fetch, exactly as the
/// Collector treats it: any non-2xx status is a failure carrying status
/// and body; on a 2xx status the body must be an observation array, and
/// anything else counts as a parse failure. A 2xx response with an empty
/// array is a success with an empty dataset, not an error.
pub fn interpret_response(status: u16, body: String) -> (r: Result<Vec<Observation>, FetchError>)
    ensures
        match r {
            Ok(v) => is_success_status(status) && parse_observations_spec(body@) == Some(
                v.deep_view(),
            ),
            Err(e) => match e {
                FetchError::Http(s, b) => !is_success_status(status) && s == status && b == body,
                FetchError::Parse => is_success_status(status) && parse_observations_spec(body@)
                    is None,
                FetchError::Network => false,
            },
        },
{
    if status < 200 || status >= 300 {
        return Err(FetchError::Http(status, body));
    }
    match parse_observations(body.as_str()) {
        Some(v) => Ok(v),
        None => Err(FetchError::Parse),
    }
}

} // verus!
