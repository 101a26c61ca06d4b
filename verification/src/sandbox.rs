//! Isolation of the daemon inside the directory that it shares.
//!
//! The operating system has no namespaces, so the daemon is isolated by changing its root
//! directory, or not at all. Entering the sandbox takes two system calls; [`EnterState`] tells
//! which one is next and takes in its answer.

use vstd::prelude::*;

use crate::idmap::{GidMap, UidMap};

verus! {

/// Mechanism by which the sandbox is set up.
#[derive(Debug, Clone, Copy, PartialEq, Eq, Structural)]
pub enum SandboxMode {
    /// By namespaces.
    Namespace,
    /// By changing the root directory.
    Chroot,
    /// Not at all.
    Disabled,
}

/// `str::to_lowercase` on the characters of a text.
pub uninterp spec fn lowercased(s: Seq<char>) -> Seq<char>;

/// The character is in the ASCII range.
pub open spec fn is_ascii_char(c: char) -> bool {
    (c as u32) < 128
}

/// The lowercase letter for an uppercase letter of the ASCII range; any other character as it is.
pub open spec fn ascii_lower(c: char) -> char {
    if 65 <= (c as u32) <= 90 {
        ((c as u32) + 32) as char
    } else {
        c
    }
}

/// `str::to_lowercase`, which gives the lowercase equivalent of a text by the rules of Unicode.
/// The result depends on the text alone. In a text of ASCII characters exactly the letters from
/// `A` to `Z` change, each to its counterpart from `a` to `z`.
#[verifier::external_body]
fn to_lowercase(s: &str) -> (r: String)
    ensures
        r@ == lowercased(s@),
        (forall|i: int| 0 <= i < s@.len() ==> is_ascii_char(#[trigger] s@[i])) ==> r@
            == s@.map_values(|c: char| ascii_lower(c)),
{
    s.to_lowercase()
}

/// The mode that a lowercase text names.
pub open spec fn mode_named(lower: Seq<char>) -> Option<SandboxMode> {
    if lower == "namespace"@ {
        Some(SandboxMode::Namespace)
    } else if lower == "chroot"@ {
        Some(SandboxMode::Chroot)
    } else if lower == "none"@ {
        Some(SandboxMode::Disabled)
    } else {
        None
    }
}

/// `mode`, or the message that there is none.
pub open spec fn mode_result(
    mode: Option<SandboxMode>,
    r: Result<SandboxMode, &'static str>,
) -> bool {
    match mode {
        Some(mode) => r == Ok::<SandboxMode, &'static str>(mode),
        None => r is Err && r->Err_0@ == "Unknown sandbox mode"@,
    }
}

impl SandboxMode {
    /// The mode that a lowercase text names.
    pub fn from_lowercase(lower: String) -> (r: Result<SandboxMode, &'static str>)
        ensures
            mode_result(mode_named(lower@), r),
    {
        if lower == "namespace".to_owned() {
            Ok(SandboxMode::Namespace)
        } else if lower == "chroot".to_owned() {
            Ok(SandboxMode::Chroot)
        } else if lower == "none".to_owned() {
            Ok(SandboxMode::Disabled)
        } else {
            Err("Unknown sandbox mode")
        }
    }

    /// The mode that a text names, in any mixture of lowercase and uppercase.
    pub fn from_str(s: &str) -> (r: Result<SandboxMode, &'static str>)
        ensures
            mode_result(mode_named(lowercased(s@)), r),
            (forall|i: int| 0 <= i < s@.len() ==> is_ascii_char(#[trigger] s@[i])) ==> mode_result(
                mode_named(s@.map_values(|c: char| ascii_lower(c))),
                r,
            ),
    {
        SandboxMode::from_lowercase(to_lowercase(s))
    }
}

impl std::str::FromStr for SandboxMode {
    type Err = &'static str;

    /// The mode that a text names, in any mixture of lowercase and uppercase.
    fn from_str(s: &str) -> (r: Result<SandboxMode, &'static str>)
        ensures
            mode_result(mode_named(lowercased(s@)), r),
            (forall|i: int| 0 <= i < s@.len() ==> is_ascii_char(#[trigger] s@[i])) ==> mode_result(
                mode_named(s@.map_values(|c: char| ascii_lower(c))),
                r,
            ),
    {
        SandboxMode::from_str(s)
    }
}

/// Why the sandbox could not be set up.
#[derive(Debug)]
pub enum Error {
    /// Failed to bind mount `/proc/self/fd` into a temporary directory.
    BindMountProcSelfFd(std::io::Error),
    /// Failed to bind mount the shared directory.
    BindMountSharedDir(std::io::Error),
    /// Failed to change to the old root directory.
    ChdirOldRoot(std::io::Error),
    /// Failed to change to the new root directory.
    ChdirNewRoot(std::io::Error),
    /// Failed to change the root directory.
    Chroot(std::io::Error),
    /// Failed to change to the root directory after it was changed.
    ChrootChdir(std::io::Error),
    /// Failed to clean the properties of the mount point.
    CleanMount(std::io::Error),
    /// Failed to create a temporary directory.
    CreateTempDir(std::io::Error),
    /// Failed to drop supplemental groups.
    DropSupplementalGroups(std::io::Error),
    /// Failed to fork.
    Fork(std::io::Error),
    /// Failed to get the number of supplemental groups.
    GetSupplementalGroups(std::io::Error),
    /// Failed to bind mount a directory.
    MountBind(std::io::Error),
    /// Failed to mount the old root.
    MountOldRoot(std::io::Error),
    /// Failed to mount `/proc`.
    MountProc(std::io::Error),
    /// Failed to mount the new root.
    MountNewRoot(std::io::Error),
    /// Failed to mount the target directory.
    MountTarget(std::io::Error),
    /// Failed to open `/proc/self/mountinfo`.
    OpenMountinfo(std::io::Error),
    /// Failed to open the new root.
    OpenNewRoot(std::io::Error),
    /// Failed to open the old root.
    OpenOldRoot(std::io::Error),
    /// Failed to stat the new root.
    StatNewRoot(std::io::Error),
    /// Failed to stat the old root.
    StatOldRoot(std::io::Error),
    /// Failed to open `/proc/self`.
    OpenProcSelf(std::io::Error),
    /// Failed to open `/proc/self/fd`.
    OpenProcSelfFd(std::io::Error),
    /// Failed to switch the root directory.
    PivotRoot(std::io::Error),
    /// Failed to remove a temporary directory.
    RmdirTempDir(std::io::Error),
    /// Failed to lazily unmount the old root.
    UmountOldRoot(std::io::Error),
    /// Failed to lazily unmount a temporary directory.
    UmountTempDir(std::io::Error),
    /// Failed to unshare.
    Unshare(std::io::Error),
    /// Failed to execute `newgidmap(1)`.
    WriteGidMap(String),
    /// Failed to write to `/proc/self/setgroups`.
    WriteSetGroups(std::io::Error),
    /// Failed to execute `newuidmap(1)`.
    WriteUidMap(String),
    /// The mode is not available to an unprivileged user.
    SandboxModeInvalidUID,
    /// An unprivileged user can map user identifiers only inside a namespace.
    SandboxModeInvalidUidMap,
    /// An unprivileged user can map group identifiers only inside a namespace.
    SandboxModeInvalidGidMap,
}

impl Error {
    /// What the error says, other than by its name and an underlying I/O error.
    pub open spec fn words(self) -> Option<Seq<char>> {
        match self {
            Error::SandboxModeInvalidUID => Some(
                "sandbox mode 'chroot' can only be used by root (Use '--sandbox namespace' instead)"@,
            ),
            Error::SandboxModeInvalidUidMap => Some(
                "uid_map can only be used by unprivileged user where sandbox mod is namespace (Use '--sandbox namespace' instead)"@,
            ),
            Error::SandboxModeInvalidGidMap => Some(
                "gid_map can only be used by unprivileged user where sandbox mod is namespace (Use '--sandbox namespace' instead)"@,
            ),
            Error::WriteUidMap(message) => Some("write to uid map failed: "@ + message@),
            Error::WriteGidMap(message) => Some("write to gid map failed: "@ + message@),
            _ => None,
        }
    }

    /// The message of the error; nothing where it is the name of the error with the underlying I/O
    /// error.
    pub fn message(&self) -> (r: Option<String>)
        ensures
            r is Some <==> self.words() is Some,
            r matches Some(message) ==> Some(message@) == self.words(),
    {
        match self {
            Error::SandboxModeInvalidUID => Some(
                "sandbox mode 'chroot' can only be used by root (Use '--sandbox namespace' instead)".to_owned(),
            ),
            Error::SandboxModeInvalidUidMap => Some(
                "uid_map can only be used by unprivileged user where sandbox mod is namespace (Use '--sandbox namespace' instead)".to_owned(),
            ),
            Error::SandboxModeInvalidGidMap => Some(
                "gid_map can only be used by unprivileged user where sandbox mod is namespace (Use '--sandbox namespace' instead)".to_owned(),
            ),
            Error::WriteUidMap(message) => {
                let mut r = "write to uid map failed: ".to_owned();
                r.append(message.as_str());
                Some(r)
            },
            Error::WriteGidMap(message) => {
                let mut r = "write to gid map failed: ".to_owned();
                r.append(message.as_str());
                Some(r)
            },
            _ => None,
        }
    }
}

/// A system call by which the sandbox is entered.
#[derive(Debug, Clone)]
pub enum EnterCall {
    /// Change the root directory to `dir`.
    Chroot { dir: String },
    /// Change the current directory to `dir`.
    Chdir { dir: String },
}

/// Mathematical counterpart of [`EnterCall`].
pub enum EnterCallView {
    Chroot { dir: Seq<char> },
    Chdir { dir: Seq<char> },
}

impl View for EnterCall {
    type V = EnterCallView;

    open spec fn view(&self) -> EnterCallView {
        match self {
            EnterCall::Chroot { dir } => EnterCallView::Chroot { dir: dir@ },
            EnterCall::Chdir { dir } => EnterCallView::Chdir { dir: dir@ },
        }
    }
}

/// How far the entering of a sandbox has come.
#[derive(Debug)]
pub enum EnterState {
    /// The root directory is to be changed.
    Chroot,
    /// The root directory was changed and is to become the current directory.
    Chdir,
    /// The sandbox is entered.
    Entered,
    /// A call failed.
    Failed(Error),
}

impl EnterState {
    /// The state after the call that it asked for had the outcome `result`.
    pub open spec fn after(self, result: Result<(), std::io::Error>) -> EnterState {
        match (self, result) {
            (EnterState::Chroot, Ok(_)) => EnterState::Chdir,
            (EnterState::Chroot, Err(e)) => EnterState::Failed(Error::Chroot(e)),
            (EnterState::Chdir, Ok(_)) => EnterState::Entered,
            (EnterState::Chdir, Err(e)) => EnterState::Failed(Error::ChrootChdir(e)),
            (state, _) => state,
        }
    }

    /// Takes in the outcome of the call that was asked for.
    pub fn answer(self, result: Result<(), std::io::Error>) -> (r: EnterState)
        ensures
            r == self.after(result),
    {
        match (self, result) {
            (EnterState::Chroot, Ok(_)) => EnterState::Chdir,
            (EnterState::Chroot, Err(e)) => EnterState::Failed(Error::Chroot(e)),
            (EnterState::Chdir, Ok(_)) => EnterState::Entered,
            (EnterState::Chdir, Err(e)) => EnterState::Failed(Error::ChrootChdir(e)),
            (state, _) => state,
        }
    }
}

/// What came of resolving the shared directory to a path without symbolic links.
#[derive(Debug)]
pub enum Canonical {
    /// It could not be resolved.
    Failed(std::io::Error),
    /// It is not valid Unicode.
    NotUnicode,
    /// The path.
    Path(String),
}

/// Why the prefix of the mount table is not known.
#[derive(Debug)]
pub enum PrefixError {
    /// The shared directory could not be resolved.
    Io(std::io::Error),
    /// The path of the shared directory is not valid Unicode.
    InvalidPath,
}

/// A sandbox around the service.
#[derive(Debug)]
pub struct Sandbox {
    shared_dir: String,
    proc_self_fd: Option<i32>,
    mountinfo_fd: Option<i32>,
    sandbox_mode: SandboxMode,
    uid_map: Vec<UidMap>,
    gid_map: Vec<GidMap>,
}

/// Mathematical counterpart of [`Sandbox`].
pub struct SandboxView {
    pub shared_dir: Seq<char>,
    pub proc_self_fd: Option<i32>,
    pub mountinfo_fd: Option<i32>,
    pub sandbox_mode: SandboxMode,
    pub uid_map: Seq<UidMap>,
    pub gid_map: Seq<GidMap>,
}

impl SandboxView {
    /// The state from which the sandbox is entered. A sandbox by namespaces is entered like one
    /// by changing the root directory.
    pub open spec fn entry(self) -> EnterState {
        match self.sandbox_mode {
            SandboxMode::Namespace | SandboxMode::Chroot => EnterState::Chroot,
            SandboxMode::Disabled => EnterState::Entered,
        }
    }

    /// The call that a state asks for.
    pub open spec fn call(self, state: EnterState) -> Option<EnterCallView> {
        match state {
            EnterState::Chroot => Some(EnterCallView::Chroot { dir: self.shared_dir }),
            EnterState::Chdir => Some(EnterCallView::Chdir { dir: "/"@ }),
            EnterState::Entered => None,
            EnterState::Failed(_) => None,
        }
    }

    /// The path by which the shared directory is known once the sandbox is entered.
    pub open spec fn root_dir(self) -> Seq<char> {
        match self.sandbox_mode {
            SandboxMode::Namespace | SandboxMode::Chroot => "/"@,
            SandboxMode::Disabled => self.shared_dir,
        }
    }
}

impl View for Sandbox {
    type V = SandboxView;

    closed spec fn view(&self) -> SandboxView {
        SandboxView {
            shared_dir: self.shared_dir@,
            proc_self_fd: self.proc_self_fd,
            mountinfo_fd: self.mountinfo_fd,
            sandbox_mode: self.sandbox_mode,
            uid_map: self.uid_map@,
            gid_map: self.gid_map@,
        }
    }
}

impl Sandbox {
    /// A sandbox that was not entered yet. There is no `/proc` to hold descriptors for.
    pub fn new(
        shared_dir: String,
        sandbox_mode: SandboxMode,
        uid_map: Vec<UidMap>,
        gid_map: Vec<GidMap>,
    ) -> (r: Self)
        ensures
            r@ == (SandboxView {
                shared_dir: shared_dir@,
                proc_self_fd: None,
                mountinfo_fd: None,
                sandbox_mode,
                uid_map: uid_map@,
                gid_map: gid_map@,
            }),
    {
        Sandbox {
            shared_dir,
            proc_self_fd: None,
            mountinfo_fd: None,
            sandbox_mode,
            uid_map,
            gid_map,
        }
    }

    /// The state from which the sandbox is entered.
    pub fn enter(&self) -> (r: EnterState)
        ensures
            r == self@.entry(),
    {
        match self.sandbox_mode {
            SandboxMode::Namespace => EnterState::Chroot,
            SandboxMode::Chroot => EnterState::Chroot,
            SandboxMode::Disabled => EnterState::Entered,
        }
    }

    /// The call that a state asks for; none at the end.
    pub fn enter_call(&self, state: &EnterState) -> (r: Option<EnterCall>)
        ensures
            r is Some <==> self@.call(*state) is Some,
            r matches Some(call) ==> Some(call@) == self@.call(*state),
    {
        match state {
            EnterState::Chroot => Some(EnterCall::Chroot { dir: self.shared_dir.clone() }),
            EnterState::Chdir => Some(EnterCall::Chdir { dir: "/".to_owned() }),
            EnterState::Entered => None,
            EnterState::Failed(_) => None,
        }
    }

    /// Whether the sandbox is entered by another mechanism than was asked for.
    pub fn falls_back(&self) -> (r: bool)
        ensures
            r == (self@.sandbox_mode is Namespace),
    {
        match self.sandbox_mode {
            SandboxMode::Namespace => true,
            _ => false,
        }
    }

    /// Hands out the descriptor of `/proc/self/fd`, at most once.
    pub fn get_proc_self_fd(&mut self) -> (r: Option<i32>)
        ensures
            r == old(self)@.proc_self_fd,
            final(self)@ == (SandboxView { proc_self_fd: None, ..old(self)@ }),
    {
        self.proc_self_fd.take()
    }

    /// Hands out the descriptor of `/proc/self/mountinfo`, at most once.
    pub fn get_mountinfo_fd(&mut self) -> (r: Option<i32>)
        ensures
            r == old(self)@.mountinfo_fd,
            final(self)@ == (SandboxView { mountinfo_fd: None, ..old(self)@ }),
    {
        self.mountinfo_fd.take()
    }

    /// The path by which the shared directory is known once the sandbox is entered.
    pub fn get_root_dir(&self) -> (r: String)
        ensures
            r@ == self@.root_dir(),
    {
        match self.sandbox_mode {
            SandboxMode::Namespace => "/".to_owned(),
            SandboxMode::Chroot => "/".to_owned(),
            SandboxMode::Disabled => self.shared_dir.clone(),
        }
    }

    /// The path to resolve for the prefix of the mount table, where there is one.
    pub fn mountinfo_prefix_source(&self) -> (r: Option<String>)
        ensures
            r is Some <==> self@.sandbox_mode is Chroot,
            r matches Some(path) ==> path@ == self@.shared_dir,
    {
        match self.sandbox_mode {
            SandboxMode::Chroot => Some(self.shared_dir.clone()),
            _ => None,
        }
    }

    /// The prefix to strip from the entries of the mount table, from what came of resolving the
    /// path of [`Sandbox::mountinfo_prefix_source`].
    pub fn get_mountinfo_prefix(&self, canonical: Option<Canonical>) -> (r: Result<
        Option<String>,
        PrefixError,
    >)
        requires
            self@.sandbox_mode is Chroot ==> canonical is Some,
        ensures
            !(self@.sandbox_mode is Chroot) ==> r == Ok::<Option<String>, PrefixError>(None),
            self@.sandbox_mode is Chroot ==> r == (match canonical->0 {
                Canonical::Failed(e) => Err::<Option<String>, PrefixError>(PrefixError::Io(e)),
                Canonical::NotUnicode => Err(PrefixError::InvalidPath),
                Canonical::Path(path) => Ok(Some(path)),
            }),
    {
        match self.sandbox_mode {
            SandboxMode::Chroot => match canonical {
                Some(Canonical::Failed(e)) => Err(PrefixError::Io(e)),
                Some(Canonical::NotUnicode) => Err(PrefixError::InvalidPath),
                Some(Canonical::Path(path)) => Ok(Some(path)),
                None => Ok(None),
            },
            _ => Ok(None),
        }
    }
}

/// A sandbox that is asked for by namespaces is entered as one by changing the root directory:
/// from the same state, with the same calls, and with the same root directory.
pub proof fn law_namespace_falls_back_to_chroot(sandbox: SandboxView, state: EnterState)
    requires
        sandbox.sandbox_mode is Namespace,
    ensures
        ({
            let chroot = SandboxView { sandbox_mode: SandboxMode::Chroot, ..sandbox };
            &&& sandbox.entry() == chroot.entry()
            &&& sandbox.call(state) == chroot.call(state)
            &&& sandbox.root_dir() == chroot.root_dir()
        }),
{
}

/// A sandbox is entered exactly when both calls succeed: the one that makes the shared directory
/// the root directory, and then the one that makes the root directory the current one. What
/// failed is told by the error. Afterwards the shared directory is known by the path that became
/// the current directory.
pub proof fn law_chroot_is_entered_by_two_calls(
    sandbox: SandboxView,
    first: Result<(), std::io::Error>,
    second: Result<(), std::io::Error>,
)
    requires
        !(sandbox.sandbox_mode is Disabled),
    ensures
        ({
            let middle = sandbox.entry().after(first);
            &&& sandbox.call(sandbox.entry()) == Some(
                EnterCallView::Chroot { dir: sandbox.shared_dir },
            )
            &&& first is Err ==> middle == EnterState::Failed(Error::Chroot(first->Err_0))
            &&& first is Ok ==> {
                &&& sandbox.call(middle) == Some(EnterCallView::Chdir { dir: sandbox.root_dir() })
                &&& second is Err ==> middle.after(second) == EnterState::Failed(
                    Error::ChrootChdir(second->Err_0),
                )
                &&& second is Ok ==> middle.after(second) == EnterState::Entered
            }
        }),
{
}

/// Without isolation there is nothing to do, and the shared directory keeps its path.
pub proof fn law_disabled_makes_no_call(sandbox: SandboxView)
    requires
        sandbox.sandbox_mode is Disabled,
    ensures
        sandbox.entry() == EnterState::Entered,
        sandbox.call(sandbox.entry()) is None,
        sandbox.root_dir() == sandbox.shared_dir,
{
}

} // verus!
