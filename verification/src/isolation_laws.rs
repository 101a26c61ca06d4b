//! What the modes of the sandbox are called, how it is entered, and what its errors say.

use vstd::prelude::*;

use crate::sandbox;
use crate::sandbox::{EnterCall, EnterCallView, EnterState, Error, SandboxMode, SandboxView};
use crate::seccomp;
use crate::text;

verus! {

/// Which text names which mode, character by character. Three texts name a mode each, and every
/// other text is answered with the same message.
pub proof fn law_names_of_the_modes(lower: Seq<char>, r: Result<SandboxMode, &'static str>)
    requires
        sandbox::mode_result(sandbox::mode_named(lower), r),
    ensures
        ({
            let namespace = seq!['n', 'a', 'm', 'e', 's', 'p', 'a', 'c', 'e'];
            let chroot = seq!['c', 'h', 'r', 'o', 'o', 't'];
            let none = seq!['n', 'o', 'n', 'e'];
            &&& r == Ok::<SandboxMode, &'static str>(SandboxMode::Namespace) <==> lower
                == namespace
            &&& r == Ok::<SandboxMode, &'static str>(SandboxMode::Chroot) <==> lower == chroot
            &&& r == Ok::<SandboxMode, &'static str>(SandboxMode::Disabled) <==> lower == none
            &&& r is Err <==> lower != namespace && lower != chroot && lower != none
            &&& r is Err ==> r->Err_0@ == "Unknown sandbox mode"@
        }),
{
    let namespace = seq!['n', 'a', 'm', 'e', 's', 'p', 'a', 'c', 'e'];
    let chroot = seq!['c', 'h', 'r', 'o', 'o', 't'];
    let none = seq!['n', 'o', 'n', 'e'];
    reveal_strlit("namespace");
    reveal_strlit("chroot");
    reveal_strlit("none");
    assert("namespace"@ =~= namespace);
    assert("chroot"@ =~= chroot);
    assert("none"@ =~= none);
    assert(namespace.len() == 9 && chroot.len() == 6 && none.len() == 4);
}

/// The uppercase letters of the ASCII range, and no other characters, have a lowercase letter, the
/// one that stands thirty-two places behind.
pub proof fn law_lowercase_letters(c: char)
    ensures
        'A' <= c && c <= 'Z' ==> sandbox::ascii_lower(c) as int == c as int + 32,
        !('A' <= c && c <= 'Z') ==> sandbox::ascii_lower(c) == c,
        sandbox::is_ascii_char(c) <==> (c as int) < 128,
{
}

/// How a sandbox is entered, for whatever the two calls come to. Without isolation there is no
/// call. Otherwise the shared directory becomes the root directory and then the root directory the
/// current one; the first failure ends it with its own error.
pub proof fn law_entering(
    sandbox: SandboxView,
    e: std::io::Error,
    any: Result<(), std::io::Error>,
)
    ensures
        sandbox.sandbox_mode == SandboxMode::Disabled ==> sandbox.entry() == EnterState::Entered,
        sandbox.sandbox_mode != SandboxMode::Disabled ==> {
            let second = sandbox.entry().after(Ok(()));
            &&& sandbox.call(sandbox.entry()) == Some(
                EnterCallView::Chroot { dir: sandbox.shared_dir },
            )
            &&& sandbox.entry().after(Err(e)) == EnterState::Failed(Error::Chroot(e))
            &&& sandbox.call(second) == Some(EnterCallView::Chdir { dir: seq!['/'] })
            &&& second.after(Err(e)) == EnterState::Failed(Error::ChrootChdir(e))
            &&& second.after(Ok(())) == EnterState::Entered
        },
        sandbox.call(EnterState::Entered) is None,
        sandbox.call(EnterState::Failed(Error::Chroot(e))) is None,
        sandbox.call(EnterState::Failed(Error::ChrootChdir(e))) is None,
        EnterState::Entered.after(any) == EnterState::Entered,
        EnterState::Failed(Error::Chroot(e)).after(any) == EnterState::Failed(Error::Chroot(e)),
        EnterState::Failed(Error::ChrootChdir(e)).after(any) == EnterState::Failed(
            Error::ChrootChdir(e),
        ),
{
    reveal_strlit("/");
    assert("/"@ =~= seq!['/']);
}

/// Inside a sandbox the shared directory is the root directory; without isolation it keeps its
/// path.
pub proof fn law_root_directory(sandbox: SandboxView)
    ensures
        sandbox.sandbox_mode == SandboxMode::Disabled ==> sandbox.root_dir() == sandbox.shared_dir,
        sandbox.sandbox_mode != SandboxMode::Disabled ==> sandbox.root_dir() == seq!['/'],
{
    reveal_strlit("/");
    assert("/"@ =~= seq!['/']);
}

/// A call stands for the path that it is made with.
pub proof fn law_calls_stand_for_their_paths(dir: String)
    ensures
        (EnterCall::Chroot { dir })@ == (EnterCallView::Chroot { dir: dir@ }),
        (EnterCall::Chdir { dir })@ == (EnterCallView::Chdir { dir: dir@ }),
{
}

/// What the errors of the sandbox say: three have a text of their own, two pass on the message of
/// a program, and all others say no more than what they are.
pub proof fn law_words_of_sandbox_errors(error: Error)
    ensures
        match error {
            Error::SandboxModeInvalidUID => error.words() == Some(
                "sandbox mode 'chroot' can only be used by root (Use '--sandbox namespace' instead)"@,
            ),
            Error::SandboxModeInvalidUidMap => error.words() == Some(
                "uid_map can only be used by unprivileged user where sandbox mod is namespace (Use '--sandbox namespace' instead)"@,
            ),
            Error::SandboxModeInvalidGidMap => error.words() == Some(
                "gid_map can only be used by unprivileged user where sandbox mod is namespace (Use '--sandbox namespace' instead)"@,
            ),
            Error::WriteUidMap(message) => error.words() == Some(
                "write to uid map failed: "@ + message@,
            ),
            Error::WriteGidMap(message) => error.words() == Some(
                "write to gid map failed: "@ + message@,
            ),
            _ => error.words() is None,
        },
{
}

/// What the errors of the filter of system calls say: their name behind a fixed text, with the
/// number of the call where there is one.
pub proof fn law_words_of_seccomp_errors(number: i32)
    ensures
        seccomp::Error::AllowSeccompSyscall(number).words() == "virtiofsd_seccomp_error: "@ + (
        "AllowSeccompSyscall("@ + text::signed_decimal(number as int) + ")"@),
        seccomp::Error::LoadSeccompFilter.words() == "virtiofsd_seccomp_error: "@
            + "LoadSeccompFilter"@,
        seccomp::Error::InitSeccompContext.words() == "virtiofsd_seccomp_error: "@
            + "InitSeccompContext"@,
{
}

} // verus!
