//! How a proxy that was just started is waited for.

use vstd::prelude::*;

verus! {

/// How often a proxy is asked whether it is ready.
pub const MAX_ATTEMPTS: u64 = 30;

/// How long is waited before an attempt, in milliseconds: from attempt to
/// attempt a little longer. After the last attempt there is no other. Attempts
/// are counted from 0.
pub fn wait_before(attempt: u64) -> (millis: Option<u64>)
    ensures
        millis == if attempt < MAX_ATTEMPTS {
            Some((200 + attempt * 100) as u64)
        } else {
            None
        },
{
    if attempt < MAX_ATTEMPTS {
        Some(200 + attempt * 100)
    } else {
        None
    }
}

} // verus!
