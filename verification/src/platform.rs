//! The host platform, as the rest of the library needs to know it.
use vstd::prelude::*;

verus! {

/// Operating system Portal runs on (`std::env::consts::OS`, decided by the caller).
#[derive(Clone, Debug)]
pub enum TargetOs {
    MacOs,
    Linux,
    Windows,
    /// Any other system, by its `std::env::consts::OS` name.
    Other(String),
}

impl TargetOs {
    /// True for Windows.
    pub open spec fn spec_is_windows(&self) -> bool {
        self is Windows
    }

    /// True for Windows.
    pub fn is_windows(&self) -> (b: bool)
        ensures
            b == self.spec_is_windows(),
    {
        match self {
            TargetOs::Windows => true,
            _ => false,
        }
    }
}

} // verus!
