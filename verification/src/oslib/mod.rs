//! What the daemon asks of the operating system, without the system calls themselves.
//!
//! Sequences of system calls are laid out as state machines: each tells the next call to make and
//! takes in its answer.

pub mod file_handle;
pub mod open_walk;
pub mod oslib_laws;
pub mod pipe;
pub mod platform;

pub use file_handle::CFileHandle;
pub use platform::{
    check_retval, mount, move_mount, name_to_handle_at, open_by_handle_at, open_tree, umount2,
    OsFacts, MOVE_MOUNT_F_EMPTY_PATH,
};
