//! Filtering of system calls. The operating system has no such filter, so there is nothing to set
//! up and nothing that can fail.

use vstd::prelude::*;

use crate::text;

verus! {

/// Why a filter could not be set up.
#[derive(Debug)]
pub enum Error {
    /// A system call could not be allowed.
    AllowSeccompSyscall(i32),
    /// The filter could not be loaded.
    LoadSeccompFilter,
    /// The filter could not be initialized.
    InitSeccompContext,
}

impl Error {
    /// What the error says.
    pub open spec fn words(self) -> Seq<char> {
        "virtiofsd_seccomp_error: "@ + match self {
            Error::AllowSeccompSyscall(number) => "AllowSeccompSyscall("@ + text::signed_decimal(
                number as int,
            ) + ")"@,
            Error::LoadSeccompFilter => "LoadSeccompFilter"@,
            Error::InitSeccompContext => "InitSeccompContext"@,
        }
    }

    /// The message of the error.
    pub fn message(&self) -> (r: String)
        ensures
            r@ == self.words(),
    {
        let mut message = "virtiofsd_seccomp_error: ".to_owned();
        match self {
            Error::AllowSeccompSyscall(number) => {
                message.append("AllowSeccompSyscall(");
                message.append(text::signed_text(*number).as_str());
                message.append(")");
            },
            Error::LoadSeccompFilter => message.append("LoadSeccompFilter"),
            Error::InitSeccompContext => message.append("InitSeccompContext"),
        }
        message
    }
}

/// What the filter does about a system call that is not allowed.
#[derive(Debug, Clone, Copy, PartialEq, Eq, Structural)]
pub enum SeccompAction {
    Allow,
    Kill,
    Log,
    Trap,
}

/// Sets up the filter: there is nothing to do.
pub fn enable_seccomp(action: SeccompAction, allow_remote_logging: bool) -> (r: Result<(), Error>)
    ensures
        r is Ok,
{
    Ok(())
}

} // verus!
