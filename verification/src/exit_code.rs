//! Process exit codes of the command-line tool.

use vstd::prelude::*;

verus! {

/// How the process ends.
#[derive(Copy, Clone, Debug)]
pub enum ExitCode {
    Success,
    GenericError,
}

impl ExitCode {
    /// The number handed to the operating system.
    pub open spec fn code(self) -> int {
        match self {
            ExitCode::Success => 0,
            ExitCode::GenericError => 1,
        }
    }

    /// The number handed to the operating system.
    pub fn as_i32(&self) -> (n: i32)
        ensures
            n == self.code(),
    {
        match self {
            ExitCode::Success => 0,
            ExitCode::GenericError => 1,
        }
    }
}

} // verus!
