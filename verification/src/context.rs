//! Where the viewer was launched.
use vstd::prelude::*;

verus! {

#[derive(Debug, Clone, PartialEq, Eq)]
pub struct LaunchContext {
    /// The working directory, as a path string.
    pub cwd: String,
}

impl Default for LaunchContext {
    fn default() -> (res: Self)
        ensures
            res.cwd@.len() == 0,
    {
        LaunchContext { cwd: String::new() }
    }
}

} // verus!
