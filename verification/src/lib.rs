use vstd::prelude::*;

pub mod editor;
pub mod hexdump;
pub mod history;
pub mod interpreter;
pub mod output_device;
pub mod shell_base;
pub mod table;
pub mod text;

verus! {

/// Exit status of a command that succeeded.
pub const EXIT_SUCCESS: i32 = 0;

/// Exit status of a command that failed in an ordinary, recoverable way.
pub const EXIT_FAILURE: i32 = 1;

/// Exit status recorded when the session itself hit an unrecoverable error
/// while running a command.
pub const EXIT_CRITICAL_FAILURE: i32 = 2;

/// Exit status of a command whose name could not be resolved.
pub const EXIT_CMD_NOT_FOUND: i32 = 127;

/// Descriptor number of standard input.
pub const STDIN: u16 = 0;

/// Descriptor number of standard output.
pub const STDOUT: u16 = 1;

/// Descriptor number of standard error.
pub const STDERR: u16 = 2;

} // verus!
