//! File handles: opaque bytes by which a file can be found again.

use vstd::prelude::*;

use crate::passthrough::file_handle::SerializableFileHandle;

verus! {

/// The most bytes that a file handle holds.
pub const MAX_HANDLE_SZ: usize = 128;

/// A file handle.
#[derive(Debug, PartialOrd, Ord, PartialEq, Eq)]
pub struct CFileHandle {
    handle_bytes: u32,
    handle_type: i32,
    f_handle: [u8; 128],
}

/// The bytes do not fit into a file handle.
#[derive(Debug, Clone, Copy, PartialEq, Eq, Structural)]
pub struct FileHandleTooLong;

impl FileHandleTooLong {
    /// The message of the error.
    pub fn message(&self) -> (r: String)
        ensures
            r@ == "File handle too long"@,
    {
        "File handle too long".to_owned()
    }
}

impl CFileHandle {
    /// The bytes of the handle.
    pub closed spec fn bytes(&self) -> Seq<u8> {
        self.f_handle@.take(self.handle_bytes as int)
    }

    /// The kind of the handle.
    pub closed spec fn kind(&self) -> i32 {
        self.handle_type
    }

    /// All the room that the handle has, of which its bytes are the first part.
    pub closed spec fn room(&self) -> Seq<u8> {
        self.f_handle@
    }

    /// The handle holds no more bytes than it has room for.
    #[verifier::type_invariant]
    pub closed spec fn wf(&self) -> bool {
        self.handle_bytes <= MAX_HANDLE_SZ
    }

    /// The bytes of the handle.
    pub fn as_bytes(&self) -> (r: &[u8])
        ensures
            r@ == self.bytes(),
    {
        proof {
            use_type_invariant(self);
        }
        vstd::slice::slice_subrange(
            vstd::array::array_as_slice(&self.f_handle),
            0,
            self.handle_bytes as usize,
        )
    }

    /// The kind of the handle.
    pub fn handle_type(&self) -> (r: i32)
        ensures
            r == self.kind(),
    {
        self.handle_type
    }
}

impl Clone for CFileHandle {
    /// A handle of the same bytes and kind.
    fn clone(&self) -> (r: Self)
        ensures
            r == *self,
    {
        proof {
            use_type_invariant(self);
        }
        CFileHandle {
            handle_bytes: self.handle_bytes,
            handle_type: self.handle_type,
            f_handle: self.f_handle,
        }
    }
}

impl Default for CFileHandle {
    /// A handle of zeros, as long as a handle can be.
    fn default() -> (r: Self)
        ensures
            r.kind() == 0,
            r.bytes() == Seq::new(MAX_HANDLE_SZ as nat, |i: int| 0u8),
            r.room() == r.bytes(),
    {
        let r = CFileHandle { handle_bytes: 128, handle_type: 0, f_handle: [0u8;128] };
        assert(r.bytes() =~= Seq::new(MAX_HANDLE_SZ as nat, |i: int| 0u8));
        assert(r.room() =~= r.bytes());
        r
    }
}

impl TryFrom<&SerializableFileHandle> for CFileHandle {
    type Error = FileHandleTooLong;

    /// The handle with the bytes and the kind of `sfh`, if the bytes fit. The rest of the room is
    /// filled with zeros.
    fn try_from(sfh: &SerializableFileHandle) -> (r: Result<Self, FileHandleTooLong>)
        ensures
            r is Ok <==> sfh.bytes().len() <= MAX_HANDLE_SZ,
            r matches Ok(handle) ==> {
                &&& handle.bytes() == sfh.bytes()
                &&& handle.kind() == sfh.kind()
                &&& handle.room() == sfh.bytes() + Seq::new(
                    (MAX_HANDLE_SZ - sfh.bytes().len()) as nat,
                    |i: int| 0u8,
                )
            },
    {
        let bytes = sfh.as_bytes();
        if bytes.len() > MAX_HANDLE_SZ {
            return Err(FileHandleTooLong);
        }
        let mut f_handle: [u8; 128] = [0u8;128];
        let mut i: usize = 0;
        while i < bytes.len()
            invariant
                i <= bytes.len() <= MAX_HANDLE_SZ,
                f_handle@.len() == MAX_HANDLE_SZ,
                f_handle@.take(i as int) == bytes@.take(i as int),
                forall|j: int| i <= j < MAX_HANDLE_SZ ==> f_handle@[j] == 0,
            decreases bytes.len() - i,
        {
            f_handle[i] = bytes[i];
            assert(f_handle@.take(i + 1) =~= bytes@.take(i + 1)) by {
                assert(bytes@.take(i + 1) =~= bytes@.take(i as int).push(bytes@[i as int]));
            }
            i += 1;
        }
        assert(bytes@.take(bytes@.len() as int) =~= bytes@);
        assert(f_handle@ =~= f_handle@.take(bytes@.len() as int) + Seq::new(
            (MAX_HANDLE_SZ - bytes@.len()) as nat,
            |j: int| 0u8,
        ));
        Ok(CFileHandle { handle_bytes: bytes.len() as u32, handle_type: sfh.handle_type(), f_handle })
    }
}

impl vstd::std_specs::convert::TryFromSpecImpl<&SerializableFileHandle> for CFileHandle {
    open spec fn obeys_try_from_spec() -> bool {
        false
    }

    open spec fn try_from_spec(sfh: &SerializableFileHandle) -> Result<Self, FileHandleTooLong> {
        Err(FileHandleTooLong)
    }
}

/// A handle is nothing but its kind, its bytes and its room, of which the bytes are the first
/// part.
pub proof fn law_handle_is_what_it_holds(a: CFileHandle, b: CFileHandle)
    requires
        a.wf(),
        b.wf(),
        a.kind() == b.kind(),
        a.bytes() == b.bytes(),
        a.room() == b.room(),
    ensures
        a.room().len() == 128,
        a.bytes().len() <= 128,
        a.bytes() == a.room().take(a.bytes().len() as int),
        a == b,
{
    assert(a.f_handle =~= b.f_handle);
}

} // verus!
