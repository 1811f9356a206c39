//! `forget` — delete a memory entry by name.

use crate::text::string_of;
use vstd::prelude::*;

verus! {

/// Delete a memory entry by name.
pub struct Forget {
    /// Name of the memory entry to delete.
    pub name: String,
}

/// What `forget` answers for entry `name`, given whether the store removed
/// it or why it failed.
pub open spec fn forget_text(name: Seq<char>, outcome: Result<bool, Seq<char>>) -> Seq<char> {
    match outcome {
        Ok(true) => "forgot: "@ + name,
        Ok(false) => "no entry named: "@ + name,
        Err(e) => "failed to forget "@ + name + ": "@ + e,
    }
}

/// The answer to a `forget` call once the store has been asked to remove
/// `name`: `Ok(true)` when it removed an entry, `Ok(false)` when there was
/// none, `Err` with the store's error otherwise.
pub fn forget_message(name: &str, outcome: &Result<bool, String>) -> (r: String)
    ensures
        r@ == forget_text(name@, match outcome {
            Ok(b) => Ok(*b),
            Err(e) => Err(e@),
        }),
{
    match outcome {
        Ok(true) => {
            let mut s = string_of("forgot: ");
            s.append(name);
            s
        },
        Ok(false) => {
            let mut s = string_of("no entry named: ");
            s.append(name);
            s
        },
        Err(e) => {
            let mut s = string_of("failed to forget ");
            s.append(name);
            s.append(": ");
            s.append(e.as_str());
            s
        },
    }
}

} // verus!
