use virtiofsd::oslib::file_handle::{CFileHandle, FileHandleTooLong, MAX_HANDLE_SZ};
use virtiofsd::oslib::open_walk::{OpenBits, OpenCall, OpenError, OpenWalk};
use virtiofsd::oslib::pipe::{PipeCall, PipeState};
use virtiofsd::oslib::platform::{
    check_retval, check_zero, mount, move_mount, name_to_handle_at, open_by_handle_at, open_tree,
    retval_failed, umount2, OsError, OsFacts, MOVE_MOUNT_F_EMPTY_PATH,
};
use virtiofsd::passthrough::file_handle::SerializableFileHandle;

const BITS: OpenBits = OpenBits {
    rdonly: 0,
    nofollow: 0x100,
    directory: 0x200,
    cloexec: 0x400,
};

fn walk(path: &[u8], mode: Option<u32>) -> OpenWalk {
    OpenWalk::new(3, path, 2, mode, BITS)
}

fn fields(call: OpenCall) -> (i32, Vec<u8>, i32, u32) {
    (call.dir, call.name, call.flags, call.mode)
}

#[test]
fn walk_opens_one_name_below_the_other() {
    let mut w = walk(b"/a//./b/c", Some(0o100644));
    assert!(!w.is_done());
    assert_eq!(fields(w.call()), (3, b"a".to_vec(), 0x700, 0));
    w.answer(Ok(10));
    assert_eq!(fields(w.call()), (10, b"b".to_vec(), 0x700, 0));
    w.answer(Ok(11));
    assert_eq!(fields(w.call()), (11, b"c".to_vec(), 0x102, 0o644));
    w.answer(Ok(12));
    assert!(w.is_done());
    let (held, outcome) = w.finish();
    assert_eq!(held, vec![10, 11]);
    assert!(matches!(outcome, Some(Ok(12))));
}

#[test]
fn walk_of_the_directory_itself() {
    for (path, name) in [
        (&b""[..], &b""[..]),
        (b".", b"."),
        (b"/", b"."),
        (b"./.", b"."),
    ] {
        let mut w = walk(path, None);
        assert_eq!(fields(w.call()), (3, name.to_vec(), 0x102, 0));
        w.answer(Ok(20));
        let (held, outcome) = w.finish();
        assert!(held.is_empty());
        assert!(matches!(outcome, Some(Ok(20))));
    }
}

#[test]
fn walk_refuses_to_leave() {
    let w = walk(b"..", None);
    assert!(w.is_done());
    let (held, outcome) = w.finish();
    assert!(held.is_empty());
    assert!(matches!(outcome, Some(Err(OpenError::CrossDevice))));

    let mut w = walk(b"a/../b", None);
    assert_eq!(fields(w.call()), (3, b"a".to_vec(), 0x700, 0));
    w.answer(Ok(10));
    assert!(w.is_done());
    let (held, outcome) = w.finish();
    assert_eq!(held, vec![10]);
    assert!(matches!(outcome, Some(Err(OpenError::CrossDevice))));
}

#[test]
fn walk_ends_at_the_first_refusal() {
    let mut w = walk(b"a/b/c", None);
    w.answer(Ok(10));
    w.answer(Err(std::io::Error::from_raw_os_error(2)));
    assert!(w.is_done());
    let (held, outcome) = w.finish();
    assert_eq!(held, vec![10]);
    match outcome {
        Some(Err(OpenError::Os(e))) => assert_eq!(e.raw_os_error(), Some(2)),
        _ => panic!("expected an error of the system"),
    }
}

#[test]
fn walk_takes_names_that_are_not_unicode() {
    let mut w = walk(b"\xff/\xfe", None);
    assert_eq!(fields(w.call()), (3, vec![0xff], 0x700, 0));
    w.answer(Ok(10));
    assert_eq!(fields(w.call()), (10, vec![0xfe], 0x102, 0));
}

#[test]
fn pipe_is_set_up_end_by_end() {
    let s = PipeState::Create;
    assert_eq!(s.call(1), Some(PipeCall::Create));
    let s = s.created(0, 5, 6);
    assert_eq!(s.call(1), Some(PipeCall::GetFlags { fd: 5 }));
    let s = s.returned(4);
    assert_eq!(s.call(1), Some(PipeCall::SetFlags { fd: 5, flags: 5 }));
    let s = s.returned(0);
    assert_eq!(s.call(1), Some(PipeCall::GetFlags { fd: 6 }));
    let s = s.returned(0);
    assert_eq!(s.call(1), Some(PipeCall::SetFlags { fd: 6, flags: 1 }));
    let s = s.returned(0);
    assert_eq!(
        s,
        PipeState::Ready {
            reader: 5,
            writer: 6
        }
    );
    assert_eq!(s.call(1), None);
}

#[test]
fn pipe_is_abandoned_after_any_failure() {
    let refused = PipeState::Create.created(-1, 0, 0);
    assert_eq!(refused, PipeState::Refused);
    assert_eq!(refused.call(1), None);
    for failing in 0..4 {
        let mut s = PipeState::Create.created(0, 5, 6);
        for _ in 0..failing {
            s = s.returned(0);
        }
        s = s.returned(-1);
        assert_eq!(
            s,
            PipeState::Abandoned {
                reader: 5,
                writer: 6
            }
        );
        assert_eq!(s.call(1), None);
    }
}

#[test]
fn file_handles_keep_their_bytes() {
    for len in [0, 1, MAX_HANDLE_SZ] {
        let bytes: Vec<u8> = (0..len).map(|i| i as u8 + 1).collect();
        let handle = CFileHandle::try_from(&SerializableFileHandle::new(bytes.clone(), -7)).unwrap();
        assert_eq!(handle.as_bytes(), &bytes[..]);
        assert_eq!(handle.handle_type(), -7);
    }
}

#[test]
fn long_file_handles_are_refused() {
    let long = SerializableFileHandle::new(vec![1; MAX_HANDLE_SZ + 1], 0);
    assert_eq!(long.as_bytes().len(), MAX_HANDLE_SZ + 1);
    assert_eq!(long.handle_type(), 0);
    assert_eq!(CFileHandle::try_from(&long), Err(FileHandleTooLong));
    assert_eq!(FileHandleTooLong.message(), "File handle too long");
}

#[test]
fn default_file_handle_is_all_zeros() {
    let handle = CFileHandle::default();
    assert_eq!(handle.as_bytes(), &[0u8; MAX_HANDLE_SZ][..]);
    assert_eq!(handle.handle_type(), 0);
    assert!(handle == handle.clone());
    let other = CFileHandle::try_from(&SerializableFileHandle::new(vec![1], 0)).unwrap();
    assert!(other < handle);
}

#[test]
fn return_values_are_checked() {
    assert_eq!(check_retval(5i32).unwrap(), 5);
    assert_eq!(check_retval(0i64).unwrap(), 0);
    assert_eq!(check_retval(-2i32).unwrap(), -2);
    assert!(check_retval(-1i32).is_err());
    assert!(check_retval(-1i64).is_err());
    assert!(retval_failed(&-1i32));
    assert!(!retval_failed(&1i32));
}

#[test]
fn errors_are_those_of_the_last_call() {
    // A path that is not there leaves an error behind.
    assert!(std::path::Path::new("/no/such/file").metadata().is_err());
    let expected = std::io::Error::last_os_error().raw_os_error();
    let error = check_retval(-1i32).unwrap_err();
    assert_ne!(error.raw_os_error(), Some(0));
    assert_eq!(error.raw_os_error(), expected);
}

#[test]
fn zero_is_success() {
    assert!(check_zero(0).is_ok());
    assert!(check_zero(-1).is_err());
    assert!(check_zero(1).is_err());
}

#[test]
fn missing_calls_are_refused() {
    assert!(!OsFacts::new().has_openat2);
    assert_eq!(mount(None, "/", None, 0), Err(OsError::NoSys));
    assert_eq!(umount2("/", 0), Err(OsError::NoSys));
    assert_eq!(open_tree(None, b"", 0), Err(OsError::NoSys));
    assert_eq!(
        move_mount(None, b"", None, b"", MOVE_MOUNT_F_EMPTY_PATH),
        Err(OsError::NoSys)
    );
    assert_eq!(MOVE_MOUNT_F_EMPTY_PATH, 4);
}

#[test]
fn handles_cannot_be_looked_up() {
    let mut handle = CFileHandle::default();
    let mut mount_id = 9;
    assert_eq!(
        name_to_handle_at(3, b"a", &mut handle, &mut mount_id, 0),
        Err(OsError::OpNotSupp)
    );
    assert!(handle == CFileHandle::default());
    assert_eq!(mount_id, 9);
    assert_eq!(open_by_handle_at(3, &handle, 0), Err(OsError::OpNotSupp));
}

#[test]
fn file_handles_compare_by_what_they_hold() {
    let handle = |bytes: &[u8]| {
        CFileHandle::try_from(&SerializableFileHandle::new(bytes.to_vec(), 1)).unwrap()
    };
    assert!(handle(&[1, 2]) == handle(&[1, 2]));
    assert!(handle(&[1, 2]) != handle(&[1, 3]));
    assert!(handle(&[1]) != handle(&[1, 0]));
    // The room that is not used is filled with zeros, as it is in the default handle.
    let mut zeros = CFileHandle::try_from(&SerializableFileHandle::new(vec![0; 128], 0)).unwrap();
    assert!(zeros == CFileHandle::default());
    zeros = CFileHandle::try_from(&SerializableFileHandle::new(Vec::new(), 0)).unwrap();
    assert!(zeros < CFileHandle::default());
}
