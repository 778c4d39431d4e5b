//! Whether a command is taken to be installed.

use vstd::prelude::*;

verus! {

/// What became of the helper that looks a command up on the search path.
#[derive(Clone, Copy, Debug, PartialEq, Eq)]
pub enum Probe {
    /// The helper ran; `success` says whether its exit status reports success.
    Exited { success: bool },
    /// The helper itself could not be run.
    Unavailable,
}

/// A command counts as installed where the helper ran and reported success,
/// and also where the helper could not be run: a missing helper hides no
/// command, the attempt to run the command will tell.
pub open spec fn available(probe: Probe) -> bool {
    match probe {
        Probe::Exited { success } => success,
        Probe::Unavailable => true,
    }
}

/// Decides from what became of the helper whether the command is to be run.
pub fn check_which_cmd(probe: Probe) -> (found: bool)
    ensures
        found == available(probe),
{
    match probe {
        Probe::Exited { success } => success,
        Probe::Unavailable => true,
    }
}

} // verus!
