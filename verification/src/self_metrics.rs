//! Decisions behind the exporter's own metrics.

use vstd::prelude::*;

verus! {

/// The `status` label of a scrape request: `success` when every source was
/// collected, `error` otherwise.
pub fn request_status(success: bool) -> (s: &'static str)
    ensures
        s@ == (if success {
            "success"@
        } else {
            "error"@
        }),
{
    if success {
        "success"
    } else {
        "error"
    }
}

} // verus!
