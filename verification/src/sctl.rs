//! The control tool's outcome and the exit code it reports.

use vstd::prelude::*;

verus! {

/// Outcome of a control command.
pub enum Result {
    /// success
    OK,
    /// a message and an error code (which may carry the print-to-stdout
    /// flag)
    Failure(String, u32),
}

/// How an outcome is reported: the message to print (and whether on
/// standard output), and the process exit code.
pub struct Report {
    pub message: Option<String>,
    pub to_stdout: bool,
    pub exit_code: u8,
}

/// The exit code of a failure with `code` once the print flag `mask` is
/// toggled off: the code itself where it fits in a byte, else 1.
pub open spec fn failure_exit(code: u32, mask: u32) -> u8 {
    let c = code ^ mask;
    if c > 255 { 1u8 } else { c as u8 }
}

impl Result {
    /// Reports the outcome: success exits with 0 silently; a failure
    /// prints its message (on standard output where the code carries
    /// `mask`, else on standard error) and exits with its code.
    pub fn report(self, mask: u32) -> (r: Report)
        ensures
            self matches Result::OK ==> r.message is None && r.exit_code == 0,
            self matches Result::Failure(s, code) ==> r.message == Some(s) && r.to_stdout == (code & mask != 0)
                && r.exit_code == failure_exit(code, mask),
    {
        match self {
            Result::OK => Report { message: None, to_stdout: false, exit_code: 0 },
            Result::Failure(s, code) => {
                let c = code ^ mask;
                let exit_code: u8 = if c > 255 { 1 } else { c as u8 };
                Report { message: Some(s), to_stdout: code & mask != 0, exit_code }
            },
        }
    }
}

} // verus!
