// The captured result of an external command.

use vstd::prelude::*;

verus! {

/// Exit status (absent when the command was killed by a signal) and captured output.
#[derive(Debug)]
pub struct CommandOutput {
    pub status_code: Option<i32>,
    pub stdout: String,
    pub stderr: String,
}

impl CommandOutput {
    /// Whether the command exited with status 0.
    pub fn succeeded(&self) -> (b: bool)
        ensures
            b == (self.status_code == Some(0i32)),
    {
        match self.status_code {
            Some(code) => code == 0,
            None => false,
        }
    }
}

} // verus!
