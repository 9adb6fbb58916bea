use vstd::prelude::*;

verus! {

/// Returns the operating system's code for an invalid argument.
///
/// Trusted: reads the constant `libc::EINVAL`. The `libc` crate defines it
/// as 22 on Linux, Android, macOS and the BSDs; the contract holds on those
/// targets (the device backends this library serves run on Linux). Other
/// targets, such as WASI, use another value, and the contract does not hold
/// there.
#[verifier::external_body]
fn einval() -> (code: i32)
    ensures
        code == 22,
{
    libc::EINVAL
}

/// The errors that the display library reports.
#[derive(Clone, Copy, Debug, PartialEq, Eq, Structural)]
pub enum DisplayError {
    /// An argument (a format, a dimension, a length or a code) is not accepted.
    InvalidArgument,
}

impl DisplayError {
    /// The `errno` value that the C interface reports for this error.
    pub fn raw_os_error(self) -> (code: i32)
        ensures
            code == 22,
    {
        match self {
            DisplayError::InvalidArgument => einval(),
        }
    }
}

} // verus!
