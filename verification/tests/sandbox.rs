use std::io;
use virtiofsd::idmap::{GidMap, UidMap};
use virtiofsd::sandbox::{
    Canonical, EnterCall, EnterState, Error, PrefixError, Sandbox, SandboxMode,
};
use virtiofsd::seccomp::{enable_seccomp, Error as SeccompError, SeccompAction};

fn sandbox(mode: SandboxMode) -> Sandbox {
    Sandbox::new("/srv/data".to_string(), mode, Vec::new(), Vec::new())
}

#[test]
fn modes_are_named_in_any_case() {
    for (text, mode) in [
        ("namespace", SandboxMode::Namespace),
        ("NameSpace", SandboxMode::Namespace),
        ("chroot", SandboxMode::Chroot),
        ("CHROOT", SandboxMode::Chroot),
        ("none", SandboxMode::Disabled),
        ("NoNe", SandboxMode::Disabled),
    ] {
        assert_eq!(SandboxMode::from_str(text), Ok(mode));
        assert_eq!(text.parse::<SandboxMode>(), Ok(mode));
    }
    for text in ["", "chroot ", "pivot", "N\u{d6}NE"] {
        assert_eq!(SandboxMode::from_str(text), Err("Unknown sandbox mode"));
    }
}

#[test]
fn lowercase_names_are_taken_as_they_are() {
    assert_eq!(
        SandboxMode::from_lowercase("chroot".to_string()),
        Ok(SandboxMode::Chroot)
    );
    assert_eq!(
        SandboxMode::from_lowercase("Chroot".to_string()),
        Err("Unknown sandbox mode")
    );
}

#[test]
fn chroot_is_entered_by_two_calls() {
    for mode in [SandboxMode::Chroot, SandboxMode::Namespace] {
        let s = sandbox(mode);
        let state = s.enter();
        match s.enter_call(&state) {
            Some(EnterCall::Chroot { dir }) => assert_eq!(dir, "/srv/data"),
            other => panic!("unexpected {other:?}"),
        }
        let state = state.answer(Ok(()));
        match s.enter_call(&state) {
            Some(EnterCall::Chdir { dir }) => assert_eq!(dir, "/"),
            other => panic!("unexpected {other:?}"),
        }
        let state = state.answer(Ok(()));
        assert!(matches!(state, EnterState::Entered));
        assert!(s.enter_call(&state).is_none());
        assert_eq!(s.get_root_dir(), "/");
        assert_eq!(s.falls_back(), mode == SandboxMode::Namespace);
    }
}

#[test]
fn failures_to_enter_are_told_apart() {
    let s = sandbox(SandboxMode::Chroot);
    let failed = || Err(io::Error::from_raw_os_error(1));
    let state = s.enter().answer(failed());
    assert!(matches!(&state, EnterState::Failed(Error::Chroot(e)) if e.raw_os_error() == Some(1)));
    assert!(s.enter_call(&state).is_none());
    let state = s.enter().answer(Ok(())).answer(failed());
    assert!(matches!(state, EnterState::Failed(Error::ChrootChdir(_))));
}

#[test]
fn disabled_sandbox_does_nothing() {
    let s = sandbox(SandboxMode::Disabled);
    let state = s.enter();
    assert!(matches!(state, EnterState::Entered));
    assert!(s.enter_call(&state).is_none());
    assert_eq!(s.get_root_dir(), "/srv/data");
    assert!(!s.falls_back());
    assert!(matches!(
        state.answer(Err(io::Error::from_raw_os_error(1))),
        EnterState::Entered
    ));
}

#[test]
fn mount_table_prefix() {
    let s = sandbox(SandboxMode::Chroot);
    assert_eq!(s.mountinfo_prefix_source(), Some("/srv/data".to_string()));
    assert_eq!(
        s.get_mountinfo_prefix(Some(Canonical::Path("/real".to_string())))
            .unwrap(),
        Some("/real".to_string())
    );
    assert!(matches!(
        s.get_mountinfo_prefix(Some(Canonical::NotUnicode)),
        Err(PrefixError::InvalidPath)
    ));
    assert!(matches!(
        s.get_mountinfo_prefix(Some(Canonical::Failed(io::Error::from_raw_os_error(2)))),
        Err(PrefixError::Io(e)) if e.raw_os_error() == Some(2)
    ));
    for mode in [SandboxMode::Namespace, SandboxMode::Disabled] {
        let s = sandbox(mode);
        assert_eq!(s.mountinfo_prefix_source(), None);
        assert_eq!(s.get_mountinfo_prefix(None).unwrap(), None);
    }
}

#[test]
fn no_descriptors_are_held() {
    let uids = vec![UidMap {
        inside_uid: 0,
        outside_uid: 1000,
        count: 1,
    }];
    let gids = vec![GidMap {
        inside_gid: 0,
        outside_gid: 1000,
        count: 1,
    }];
    let mut s = Sandbox::new("/".to_string(), SandboxMode::Chroot, uids, gids);
    assert_eq!(s.get_proc_self_fd(), None);
    assert_eq!(s.get_mountinfo_fd(), None);
}

#[test]
fn sandbox_error_messages() {
    assert_eq!(
        Error::SandboxModeInvalidUID.message().unwrap(),
        "sandbox mode 'chroot' can only be used by root (Use '--sandbox namespace' instead)"
    );
    assert_eq!(
        Error::SandboxModeInvalidUidMap.message().unwrap(),
        "uid_map can only be used by unprivileged user where sandbox mod is namespace \
         (Use '--sandbox namespace' instead)"
    );
    assert_eq!(
        Error::SandboxModeInvalidGidMap.message().unwrap(),
        "gid_map can only be used by unprivileged user where sandbox mod is namespace \
         (Use '--sandbox namespace' instead)"
    );
    assert_eq!(
        Error::WriteUidMap("no such file".to_string())
            .message()
            .unwrap(),
        "write to uid map failed: no such file"
    );
    assert_eq!(
        Error::WriteGidMap("x".to_string()).message().unwrap(),
        "write to gid map failed: x"
    );
    assert!(Error::Fork(io::Error::from_raw_os_error(1))
        .message()
        .is_none());
    assert!(Error::PivotRoot(io::Error::from_raw_os_error(1))
        .message()
        .is_none());
}

#[test]
fn seccomp_is_always_enabled() {
    for action in [
        SeccompAction::Allow,
        SeccompAction::Kill,
        SeccompAction::Log,
        SeccompAction::Trap,
    ] {
        assert!(enable_seccomp(action, true).is_ok());
        assert!(enable_seccomp(action, false).is_ok());
    }
}

#[test]
fn seccomp_error_messages() {
    for error in [
        SeccompError::AllowSeccompSyscall(0),
        SeccompError::AllowSeccompSyscall(-42),
        SeccompError::AllowSeccompSyscall(i32::MIN),
        SeccompError::AllowSeccompSyscall(i32::MAX),
        SeccompError::LoadSeccompFilter,
        SeccompError::InitSeccompContext,
    ] {
        assert_eq!(
            error.message(),
            format!("virtiofsd_seccomp_error: {error:?}")
        );
    }
    assert_eq!(
        SeccompError::AllowSeccompSyscall(-42).message(),
        "virtiofsd_seccomp_error: AllowSeccompSyscall(-42)"
    );
}
