use vstd::prelude::*;

use crate::digits::dec_str;
use crate::digits::timestamp_string;

verus! {

/// Relies on std::time::SystemTime::now and
/// SystemTime::duration_since(UNIX_EPOCH): the number of whole seconds
/// the wall clock stands past the Unix epoch, or 0 if the clock reads
/// earlier than the epoch. The value depends on the clock, so nothing
/// is promised of it.
#[verifier::external_body]
fn now_unix_seconds() -> (n: u64) {
    std::time::SystemTime::now()
        .duration_since(std::time::UNIX_EPOCH)
        .map(|d| d.as_secs())
        .unwrap_or(0)
}

/// The current wall-clock time as a decimal string of seconds since
/// the Unix epoch: the leading part of every generated object key.
pub fn get_timestamp() -> (r: String)
    ensures
        exists|n: u64| r@ == dec_str(n as nat),
{
    let n = now_unix_seconds();
    timestamp_string(n)
}

} // verus!
