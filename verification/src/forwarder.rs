//! The Forwarder's computational half: producing the JSON body for the
//! one downstream POST, and judging the downstream response. The POST
//! itself lives outside the library; callers hand in the status and body
//! they received.

use vstd::prelude::*;

use crate::collector::is_success_status;
use crate::data::{Aggregate, SendError};
use crate::json_text::{json_aggregate, serialize_aggregate};

verus! {

/// The body of the forwarding POST: the aggregate as one JSON object.
pub fn payload_body(agg: &Aggregate) -> (r: String)
    ensures
        r@ == json_aggregate(agg@),
{
    serialize_aggregate(agg)
}

/// Judge the downstream response to the forwarding POST, exactly as the
/// Forwarder treats it: success if and only if the status is 2xx; any
/// other status is a failure carrying the status and the downstream
/// service's explanation body.
pub fn interpret_send_response(status: u16, body: String) -> (r: Result<(), SendError>)
    ensures
        match r {
            Ok(u) => is_success_status(status),
            Err(e) => match e {
                SendError::Http(s, b) => !is_success_status(status) && s == status && b == body,
                SendError::Network => false,
            },
        },
{
    if status >= 200 && status < 300 {
        Ok(())
    } else {
        Err(SendError::Http(status, body))
    }
}

} // verus!
