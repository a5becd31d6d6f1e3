//! The one door through which this crate has a program run.

use crate::response_status::ResponseStatus;
use vstd::prelude::*;

verus! {

/// Runs a command, given as the program followed by its arguments, and
/// hands back what it wrote and how it ended. An `Err` says that the program
/// could not be started; a program that ran and failed is an `Ok` whose
/// status reports no success.
pub trait Runner {
    fn run(&self, cmd: Vec<&str>) -> Result<Output, ResponseStatus>;
}

/// How a program ended.
pub trait WithStatus {
    fn success(&self) -> bool;
}

/// What a program that ran left behind.
pub struct Output {
    pub status: Box<dyn WithStatus>,
    pub stdout: Vec<u8>,
    pub stderr: Vec<u8>,
}

/// What a program that ran left behind, as plain values.
pub struct ProcessResult {
    pub success: bool,
    pub stdout: Vec<u8>,
    pub stderr: Vec<u8>,
}

/// A `ProcessResult` as contracts speak of it.
pub struct ProcessOutcome {
    pub success: bool,
    pub stdout: Seq<u8>,
    pub stderr: Seq<u8>,
}

impl View for ProcessResult {
    type V = ProcessOutcome;

    open spec fn view(&self) -> ProcessOutcome {
        ProcessOutcome { success: self.success, stdout: self.stdout@, stderr: self.stderr@ }
    }
}

impl Output {
    /// Asks the status once and keeps the answer beside the two streams.
    pub fn into_result(self) -> (r: ProcessResult)
        ensures
            r.stdout == self.stdout,
            r.stderr == self.stderr,
    {
        let success = self.status.success();
        ProcessResult { success, stdout: self.stdout, stderr: self.stderr }
    }
}

} // verus!
