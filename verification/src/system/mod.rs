//! The runtime environment: event broadcast and usage reporting, and the
//! daemon's wiring decisions.

pub mod host;

use crate::text::string_of;
use vstd::prelude::*;

verus! {

/// The sender a fired event subscription speaks as.
pub fn event_sender(source: &str) -> (r: String)
    ensures
        r@ == "event:"@ + source@,
{
    let mut r = string_of("event:");
    r.append(source);
    r
}

/// The session cache budget in bytes, from the configured megabytes.
pub fn session_cache_bytes(megabytes: Option<u64>) -> (r: Option<u64>)
    requires
        match megabytes {
            Some(mb) => mb * 1024 * 1024 <= u64::MAX,
            None => true,
        },
    ensures
        r == match megabytes {
            Some(mb) => Some((mb * 1024 * 1024) as u64),
            None => None,
        },
{
    match megabytes {
        Some(mb) => Some(mb * 1024 * 1024),
        None => None,
    }
}

} // verus!
