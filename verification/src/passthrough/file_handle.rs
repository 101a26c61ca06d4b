//! File handles in a form that can be stored and sent.

use vstd::prelude::*;

verus! {

/// A file handle as plain bytes, of any length.
#[derive(Debug, Clone)]
pub struct SerializableFileHandle {
    handle_bytes: Vec<u8>,
    handle_type: i32,
}

impl SerializableFileHandle {
    /// The bytes of the handle.
    pub closed spec fn bytes(&self) -> Seq<u8> {
        self.handle_bytes@
    }

    /// The kind of the handle.
    pub closed spec fn kind(&self) -> i32 {
        self.handle_type
    }

    /// The handle of kind `handle_type` with the bytes `handle_bytes`.
    pub fn new(handle_bytes: Vec<u8>, handle_type: i32) -> (r: Self)
        ensures
            r.bytes() == handle_bytes@,
            r.kind() == handle_type,
    {
        SerializableFileHandle { handle_bytes, handle_type }
    }

    /// The bytes of the handle.
    pub fn as_bytes(&self) -> (r: &[u8])
        ensures
            r@ == self.bytes(),
    {
        self.handle_bytes.as_slice()
    }

    /// The kind of the handle.
    pub fn handle_type(&self) -> (r: i32)
        ensures
            r == self.kind(),
    {
        self.handle_type
    }
}

} // verus!
