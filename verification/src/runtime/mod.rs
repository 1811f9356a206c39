//! The runtime's lifecycle hook, and how it refuses a run for an agent it
//! does not know.

pub mod hook;

use crate::text::string_of;
use vstd::prelude::*;

verus! {

/// The failure of a send or stream to an agent the runtime does not know.
pub fn agent_not_registered(agent: &str) -> (r: String)
    ensures
        r@ == "agent '"@ + agent@ + "' not registered"@,
{
    let mut r = string_of("agent '");
    r.append(agent);
    r.append("' not registered");
    r
}

} // verus!
