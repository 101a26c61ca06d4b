//! Making a pipe whose ends are closed when another program is executed, where the system call
//! that makes a pipe cannot ask for that itself.

use vstd::prelude::*;

verus! {

/// The system call to make next.
#[derive(Debug, Clone, Copy, PartialEq, Eq, Structural)]
pub enum PipeCall {
    /// Make the pipe.
    Create,
    /// Read the descriptor flags of an end.
    GetFlags { fd: i32 },
    /// Set the descriptor flags of an end.
    SetFlags { fd: i32, flags: i32 },
}

/// How far the making of a pipe has come.
#[derive(Debug, Clone, Copy, PartialEq, Eq, Structural)]
pub enum PipeState {
    /// There is no pipe yet.
    Create,
    /// The flags of one end are to be read: the reading end, or the writing end as the second.
    GetFlags { reader: i32, writer: i32, second: bool },
    /// The flags of one end were read and are to be set.
    SetFlags { reader: i32, writer: i32, second: bool, flags: i32 },
    /// Both ends are set up.
    Ready { reader: i32, writer: i32 },
    /// The pipe could not be made.
    Refused,
    /// The pipe was made but could not be set up: both ends are to be closed.
    Abandoned { reader: i32, writer: i32 },
}

/// The end that is set up, as the first or as the second.
pub open spec fn end(reader: i32, writer: i32, second: bool) -> i32 {
    if second {
        writer
    } else {
        reader
    }
}

impl PipeState {
    /// The call to make next, with `cloexec` for the flag to set; none at the end.
    pub open spec fn next_call(self, cloexec: i32) -> Option<PipeCall> {
        match self {
            PipeState::Create => Some(PipeCall::Create),
            PipeState::GetFlags { reader, writer, second } => Some(
                PipeCall::GetFlags { fd: end(reader, writer, second) },
            ),
            PipeState::SetFlags { reader, writer, second, flags } => Some(
                PipeCall::SetFlags { fd: end(reader, writer, second), flags: flags | cloexec },
            ),
            PipeState::Ready { .. } => None,
            PipeState::Refused => None,
            PipeState::Abandoned { .. } => None,
        }
    }

    /// The state after the pipe was made, or not: `ret` is what the call returned.
    pub open spec fn after_create(self, ret: i32, reader: i32, writer: i32) -> PipeState {
        if ret == -1 {
            PipeState::Refused
        } else {
            PipeState::GetFlags { reader, writer, second: false }
        }
    }

    /// The state after a call that reads or sets flags returned `ret`.
    pub open spec fn after_return(self, ret: i32) -> PipeState {
        match self {
            PipeState::GetFlags { reader, writer, second } => if ret == -1 {
                PipeState::Abandoned { reader, writer }
            } else {
                PipeState::SetFlags { reader, writer, second, flags: ret }
            },
            PipeState::SetFlags { reader, writer, second, .. } => if ret == -1 {
                PipeState::Abandoned { reader, writer }
            } else if second {
                PipeState::Ready { reader, writer }
            } else {
                PipeState::GetFlags { reader, writer, second: true }
            },
            other => other,
        }
    }

    /// The call to make next; none at the end.
    pub fn call(&self, cloexec: i32) -> (r: Option<PipeCall>)
        ensures
            r == self.next_call(cloexec),
    {
        match *self {
            PipeState::Create => Some(PipeCall::Create),
            PipeState::GetFlags { reader, writer, second } => Some(
                PipeCall::GetFlags { fd: if second { writer } else { reader } },
            ),
            PipeState::SetFlags { reader, writer, second, flags } => Some(
                PipeCall::SetFlags {
                    fd: if second { writer } else { reader },
                    flags: flags | cloexec,
                },
            ),
            PipeState::Ready { .. } => None,
            PipeState::Refused => None,
            PipeState::Abandoned { .. } => None,
        }
    }

    /// Takes in what the call that makes the pipe returned, and the two ends.
    pub fn created(self, ret: i32, reader: i32, writer: i32) -> (r: PipeState)
        requires
            self is Create,
        ensures
            r == self.after_create(ret, reader, writer),
    {
        if ret == -1 {
            PipeState::Refused
        } else {
            PipeState::GetFlags { reader, writer, second: false }
        }
    }

    /// Takes in what a call that reads or sets flags returned.
    pub fn returned(self, ret: i32) -> (r: PipeState)
        requires
            self is GetFlags || self is SetFlags,
        ensures
            r == self.after_return(ret),
    {
        match self {
            PipeState::GetFlags { reader, writer, second } => if ret == -1 {
                PipeState::Abandoned { reader, writer }
            } else {
                PipeState::SetFlags { reader, writer, second, flags: ret }
            },
            PipeState::SetFlags { reader, writer, second, .. } => if ret == -1 {
                PipeState::Abandoned { reader, writer }
            } else if second {
                PipeState::Ready { reader, writer }
            } else {
                PipeState::GetFlags { reader, writer, second: true }
            },
            other => other,
        }
    }
}

/// A pipe is ready only after the flag was set on both ends, on top of the flags that each had;
/// a call that fails before that leaves both ends to be closed.
pub proof fn law_pipe_is_closed_or_set_up(
    reader: i32,
    writer: i32,
    rets: (i32, i32, i32, i32),
    cloexec: i32,
)
    ensures
        ({
            let s0 = PipeState::Create.after_create(0, reader, writer);
            let s1 = s0.after_return(rets.0);
            let s2 = s1.after_return(rets.1);
            let s3 = s2.after_return(rets.2);
            let s4 = s3.after_return(rets.3);
            &&& s0.next_call(cloexec) == Some(PipeCall::GetFlags { fd: reader })
            &&& rets.0 != -1 ==> s1.next_call(cloexec) == Some(
                PipeCall::SetFlags { fd: reader, flags: rets.0 | cloexec },
            )
            &&& rets.0 != -1 && rets.1 != -1 ==> s2.next_call(cloexec) == Some(
                PipeCall::GetFlags { fd: writer },
            )
            &&& rets.0 != -1 && rets.1 != -1 && rets.2 != -1 ==> s3.next_call(cloexec) == Some(
                PipeCall::SetFlags { fd: writer, flags: rets.2 | cloexec },
            )
            &&& s4 == (if rets.0 != -1 && rets.1 != -1 && rets.2 != -1 && rets.3 != -1 {
                PipeState::Ready { reader, writer }
            } else {
                PipeState::Abandoned { reader, writer }
            })
        }),
{
}

} // verus!
