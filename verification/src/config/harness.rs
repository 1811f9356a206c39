//! Per-agent harness declaration.
//!
//! An agent owns its harnesses by value. The declaration is the grant:
//! what is written here is what the harness gets.

use vstd::prelude::*;

verus! {

/// A harness an agent declares, with the capabilities it is granted.
pub struct HarnessConfig {
    /// Harness name. Its image is `{name}.elf` under the harnesses directory.
    pub name: String,
    /// Capabilities granted to it. A name absent here is absent from the
    /// linker the harness is instantiated with.
    pub capabilities: Vec<String>,
    /// The subtree `fs` and `exec` are bounded by, and the default working
    /// directory for a call that names none. Without a root neither is
    /// registered.
    pub root: Option<String>,
    /// Hosts `http` may reach, matched exactly and case-insensitively. An
    /// empty list leaves the capability unregistered.
    pub hosts: Vec<String>,
}

impl Default for HarnessConfig {
    fn default() -> (r: Self)
        ensures
            r.name@.len() == 0,
            r.capabilities@.len() == 0,
            r.root is None,
            r.hosts@.len() == 0,
    {
        HarnessConfig { name: String::new(), capabilities: Vec::new(), root: None, hosts: Vec::new() }
    }
}

} // verus!
