//! Host-side core of a virtio-fs daemon.

use vstd::prelude::*;

pub mod bytes;
pub mod fuse;
pub mod fuse_laws;
pub mod idmap;
pub mod isolation_laws;
pub mod notify_invalidate;
pub mod oslib;
pub mod passthrough;
pub mod path;
pub mod path_laws;
pub mod sandbox;
pub mod seccomp;
pub mod text;
pub mod text_laws;

verus! {

/// `std::io::Error`, of which nothing is known but that it can be carried along.
#[verifier::external_type_specification]
#[verifier::external_body]
pub struct ExIoError(std::io::Error);

/// Identifier by which the guest knows a file.
pub type Inode = u64;

/// One path component, as raw bytes.
pub type Name = Vec<u8>;

} // verus!
