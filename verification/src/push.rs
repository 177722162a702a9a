//! The silent-push wake server's answer.
use vstd::prelude::*;

verus! {

/// The body of the answer to a wake request.
pub struct WakeResponse {
    pub status: String,
}

/// The HTTP status code and body answering a wake request: 200 and
/// `dispatched` when the silent push went out, else 500 and `failed`.
pub fn wake_reply(dispatched: bool) -> (r: (u16, WakeResponse))
    ensures
        dispatched ==> r.0 == 200 && r.1.status@ == "dispatched"@,
        !dispatched ==> r.0 == 500 && r.1.status@ == "failed"@,
{
    if dispatched {
        (200, WakeResponse { status: "dispatched".to_string() })
    } else {
        (500, WakeResponse { status: "failed".to_string() })
    }
}

} // verus!
