//! Mappings of user and group identifiers between the host and a sandbox.

use vstd::prelude::*;

verus! {

/// A range of user identifiers.
#[derive(Debug, Clone, Copy, PartialEq, Eq, Structural)]
pub struct UidMap {
    pub inside_uid: u32,
    pub outside_uid: u32,
    pub count: u32,
}

/// A range of group identifiers.
#[derive(Debug, Clone, Copy, PartialEq, Eq, Structural)]
pub struct GidMap {
    pub inside_gid: u32,
    pub outside_gid: u32,
    pub count: u32,
}

} // verus!
