//! The registry that anchors project metadata. Only its version is defined.
use vstd::prelude::*;

verus! {

/// Registry for project metadata anchoring.
pub struct RegistryContract;

impl RegistryContract {
    /// The registry's interface version.
    pub fn version() -> (r: u32)
        ensures
            r == 1,
    {
        1
    }
}

} // verus!
