//! Facts about the operating system, and calls that it does not have.

use vstd::prelude::*;

use crate::oslib::file_handle::CFileHandle;

verus! {

/// An error by the name that the operating system has a number for.
#[derive(Debug, Clone, Copy, PartialEq, Eq, Structural)]
pub enum OsError {
    /// The call does not exist.
    NoSys,
    /// The operation is not supported.
    OpNotSupp,
}

/// Basic facts about the operating system.
#[derive(Debug, Clone, Copy, PartialEq, Eq, Structural)]
pub struct OsFacts {
    /// Whether the kernel itself can keep an open below a directory.
    pub has_openat2: bool,
}

impl OsFacts {
    /// The facts: the kernel offers no such call.
    #[must_use]
    pub fn new() -> (r: Self)
        ensures
            !r.has_openat2,
    {
        OsFacts { has_openat2: false }
    }
}

/// The error of the last system call of this thread, from `std::io::Error::last_os_error`. What
/// it is depends on that call.
#[verifier::external_body]
fn last_os_error() -> (r: std::io::Error) {
    std::io::Error::last_os_error()
}

/// The type can spell minus one and compares by value, as the signed integers do.
pub open spec fn signals_by_minus_one<
    T: vstd::std_specs::convert::FromSpec<i8> + vstd::std_specs::cmp::PartialEqSpec,
>() -> bool {
    T::obeys_from_spec() && T::obeys_eq_spec()
}

/// `t` is minus one.
pub open spec fn is_failure<
    T: vstd::std_specs::convert::FromSpec<i8> + vstd::std_specs::cmp::PartialEqSpec,
>(t: T) -> bool {
    t.eq_spec(&T::from_spec(-1i8))
}

/// Whether `t` signals the failure of a system call.
pub fn retval_failed<T: From<i8> + PartialEq>(t: &T) -> (r: bool)
    ensures
        signals_by_minus_one::<T>() ==> r == is_failure(*t),
{
    *t == T::from(-1i8)
}

/// The result of a system call that answers with `t` and signals a failure by minus one: `t`
/// itself, or the error of the call.
pub fn check_retval<T: From<i8> + PartialEq>(t: T) -> (r: Result<T, std::io::Error>)
    ensures
        r matches Ok(v) ==> v == t,
        signals_by_minus_one::<T>() ==> (r is Err <==> is_failure(t)),
{
    if retval_failed(&t) {
        Err(last_os_error())
    } else {
        Ok(t)
    }
}

/// The result of a system call that answers with zero where it succeeds: nothing, or the error of
/// the call.
pub fn check_zero(ret: i32) -> (r: Result<(), std::io::Error>)
    ensures
        r is Ok <==> ret == 0,
{
    if ret != 0 {
        Err(last_os_error())
    } else {
        Ok(())
    }
}

/// Mounting is not supported.
pub fn mount(source: Option<&str>, target: &str, fstype: Option<&str>, flags: u64) -> (r: Result<
    (),
    OsError,
>)
    ensures
        r == Err::<(), OsError>(OsError::NoSys),
{
    Err(OsError::NoSys)
}

/// Unmounting is not supported.
pub fn umount2(target: &str, flags: i32) -> (r: Result<(), OsError>)
    ensures
        r == Err::<(), OsError>(OsError::NoSys),
{
    Err(OsError::NoSys)
}

/// Opening a mount is not supported.
pub fn open_tree(dir: Option<i32>, pathname: &[u8], flags: u32) -> (r: Result<i32, OsError>)
    ensures
        r == Err::<i32, OsError>(OsError::NoSys),
{
    Err(OsError::NoSys)
}

/// Flag by which a mount is moved that has no path of its own.
pub const MOVE_MOUNT_F_EMPTY_PATH: u32 = 4;

/// Moving a mount is not supported.
pub fn move_mount(
    from_dir: Option<i32>,
    from_path: &[u8],
    to_dir: Option<i32>,
    to_path: &[u8],
    flags: u32,
) -> (r: Result<(), OsError>)
    ensures
        r == Err::<(), OsError>(OsError::NoSys),
{
    Err(OsError::NoSys)
}

/// File handles are not supported: nothing is filled in.
pub fn name_to_handle_at(
    dirfd: i32,
    pathname: &[u8],
    file_handle: &mut CFileHandle,
    mount_id: &mut i32,
    flags: i32,
) -> (r: Result<(), OsError>)
    ensures
        r == Err::<(), OsError>(OsError::OpNotSupp),
        *final(file_handle) == *old(file_handle),
        *final(mount_id) == *old(mount_id),
{
    Err(OsError::OpNotSupp)
}

/// Opening by file handle is not supported.
pub fn open_by_handle_at(mount_fd: i32, file_handle: &CFileHandle, flags: i32) -> (r: Result<
    i32,
    OsError,
>)
    ensures
        r == Err::<i32, OsError>(OsError::OpNotSupp),
{
    Err(OsError::OpNotSupp)
}

} // verus!
