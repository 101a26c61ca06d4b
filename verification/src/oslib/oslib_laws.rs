//! What the sequences of system calls do, told from what they are given and how the operating
//! system answers.

use vstd::prelude::*;

use crate::oslib::file_handle;
use crate::oslib::open_walk;
use crate::oslib::open_walk::{OpenBits, OpenCall, OpenCallView, OpenError, WalkView};
use crate::oslib::pipe::{PipeCall, PipeState};
use crate::oslib::platform;
use crate::path;
use crate::Name;

verus! {

/// The answers by which `fds` were opened, one after the other.
pub open spec fn opening(fds: Seq<i32>) -> Seq<Result<i32, std::io::Error>> {
    Seq::new(fds.len(), |i: int| Ok(fds[i]))
}

/// What is opened for a path: its names, one below the other; the directory itself, by a single
/// dot, for a path that is not empty but has no names; and nothing but the empty name for the
/// empty path.
pub proof fn law_what_is_opened(path: Seq<u8>)
    ensures
        path::names(path).len() > 0 ==> open_walk::targets(path) == path::names(path),
        path::names(path).len() == 0 && path.len() > 0 ==> open_walk::targets(path) == seq![
            seq![46u8],
        ],
        path.len() == 0 ==> open_walk::targets(path) == seq![Seq::<u8>::empty()],
{
    if path.len() == 0 {
        crate::path_laws::law_last_piece_of_the_names(path, path);
    }
}

/// The walk as it stands while everything was opened so far and no name up to the next one is that
/// of the parent directory.
proof fn lemma_walk_goes_on(
    dir: i32,
    path: Seq<u8>,
    flags: i32,
    mode: Option<u32>,
    bits: OpenBits,
    fds: Seq<i32>,
)
    requires
        fds.len() < open_walk::targets(path).len(),
        forall|i: int|
            0 <= i <= fds.len() ==> #[trigger] open_walk::targets(path)[i] != seq![46u8, 46u8],
    ensures
        ({
            let walk = WalkView::start(dir, path, flags, mode, bits).after_all(opening(fds));
            &&& walk.outcome is None
            &&& walk.held == fds
            &&& walk.dir == dir
            &&& walk.targets == open_walk::targets(path)
            &&& walk.flags == flags
            &&& walk.mode == open_walk::masked_mode(mode)
            &&& walk.bits == bits
        }),
    decreases fds.len(),
{
    let all = open_walk::targets(path);
    let answers = opening(fds);
    assert(all[fds.len() as int] != seq![46u8, 46u8]);
    if fds.len() == 0 {
        assert(fds =~= Seq::empty());
    } else {
        let shorter = fds.drop_last();
        lemma_walk_goes_on(dir, path, flags, mode, bits, shorter);
        assert(answers.drop_last() =~= opening(shorter));
        assert(shorter.push(fds.last()) =~= fds);
    }
}

/// What the walk asks for next, after the directories `fds` were opened. It opens the next name in
/// the directory that was opened last, or in the one that it began in. A name on the way is opened
/// for reading, as a directory, without following a symbolic link and to be closed on execution.
/// The last name is opened with all of the flags that were given, without following a symbolic
/// link, with no other flag, and with the permission bits of the mode that was given.
pub proof fn law_next_call_of_a_walk(
    dir: i32,
    path: Seq<u8>,
    flags: i32,
    mode: Option<u32>,
    bits: OpenBits,
    fds: Seq<i32>,
)
    requires
        fds.len() < open_walk::targets(path).len(),
        forall|i: int|
            0 <= i <= fds.len() ==> #[trigger] open_walk::targets(path)[i] != seq![46u8, 46u8],
    ensures
        ({
            let walk = WalkView::start(dir, path, flags, mode, bits).after_all(opening(fds));
            let last = fds.len() + 1 == open_walk::targets(path).len();
            &&& walk.outcome is None
            &&& walk.call().name == open_walk::targets(path)[fds.len() as int]
            &&& walk.call().dir == (if fds.len() > 0 {
                fds.last()
            } else {
                dir
            })
            &&& last ==> walk.call().flags == flags | bits.nofollow
            &&& last && mode is Some ==> walk.call().mode == mode->0 & 0o7777u32
            &&& last && mode is None ==> walk.call().mode == 0
            &&& !last ==> walk.call().flags == bits.rdonly | bits.nofollow | bits.directory
                | bits.cloexec
            &&& !last ==> walk.call().mode == 0
        }),
{
    lemma_walk_goes_on(dir, path, flags, mode, bits, fds);
}

/// Whatever was answered before, the call for the last name carries every bit of the flags that
/// the walk was begun with and the bit against symbolic links, and no other bit.
pub proof fn law_last_call_keeps_the_flags(
    dir: i32,
    path: Seq<u8>,
    flags: i32,
    mode: Option<u32>,
    bits: OpenBits,
    answers: Seq<Result<i32, std::io::Error>>,
)
    ensures
        ({
            let walk = WalkView::start(dir, path, flags, mode, bits).after_all(answers);
            walk.outcome is None && walk.held.len() + 1 == walk.targets.len() ==> {
                &&& walk.call().flags & flags == flags
                &&& walk.call().flags & bits.nofollow == bits.nofollow
                &&& walk.call().flags & !(flags | bits.nofollow) == 0
                &&& walk.call().mode == (match mode {
                    Some(mode) => mode & 0o7777u32,
                    None => 0,
                })
            }
        }),
{
    let start = WalkView::start(dir, path, flags, mode, bits);
    lemma_setup_is_kept(start, answers);
    let n = bits.nofollow;
    assert((flags | n) & flags == flags) by (bit_vector);
    assert((flags | n) & n == n) by (bit_vector);
    assert((flags | n) & !(flags | n) == 0) by (bit_vector);
}

proof fn lemma_setup_is_kept(start: WalkView, answers: Seq<Result<i32, std::io::Error>>)
    ensures
        start.after_all(answers).dir == start.dir,
        start.after_all(answers).targets == start.targets,
        start.after_all(answers).bits == start.bits,
        start.after_all(answers).flags == start.flags,
        start.after_all(answers).mode == start.mode,
    decreases answers.len(),
{
    if answers.len() > 0 {
        lemma_setup_is_kept(start, answers.drop_last());
    }
}

/// How a walk ends. Where every name is opened and none is that of the parent directory, it gives
/// what was opened last, and all that was opened before is to be closed.
pub proof fn law_walk_succeeds(
    dir: i32,
    path: Seq<u8>,
    flags: i32,
    mode: Option<u32>,
    bits: OpenBits,
    fds: Seq<i32>,
)
    requires
        fds.len() == open_walk::targets(path).len(),
        forall|i: int|
            0 <= i < fds.len() ==> #[trigger] open_walk::targets(path)[i] != seq![46u8, 46u8],
    ensures
        ({
            let walk = WalkView::start(dir, path, flags, mode, bits).after_all(opening(fds));
            &&& walk.outcome == Some(Ok::<i32, OpenError>(fds.last()))
            &&& walk.held == fds.drop_last()
        }),
{
    let shorter = fds.drop_last();
    assert(open_walk::targets(path).len() > 0);
    lemma_walk_goes_on(dir, path, flags, mode, bits, shorter);
    assert(opening(fds).drop_last() =~= opening(shorter));
}

/// A walk whose next name is that of the parent directory ends there, as one that leads out of the
/// directory; all that was opened before is to be closed.
pub proof fn law_walk_refuses_the_parent(
    dir: i32,
    path: Seq<u8>,
    flags: i32,
    mode: Option<u32>,
    bits: OpenBits,
    fds: Seq<i32>,
)
    requires
        fds.len() < open_walk::targets(path).len(),
        forall|i: int|
            0 <= i < fds.len() ==> #[trigger] open_walk::targets(path)[i] != seq![46u8, 46u8],
        open_walk::targets(path)[fds.len() as int] == seq![46u8, 46u8],
    ensures
        ({
            let walk = WalkView::start(dir, path, flags, mode, bits).after_all(opening(fds));
            &&& walk.outcome == Some(Err::<i32, OpenError>(OpenError::CrossDevice))
            &&& walk.held == fds
        }),
{
    if fds.len() == 0 {
        assert(fds =~= Seq::empty());
    } else {
        let shorter = fds.drop_last();
        lemma_walk_goes_on(dir, path, flags, mode, bits, shorter);
        assert(opening(fds).drop_last() =~= opening(shorter));
        assert(shorter.push(fds.last()) =~= fds);
    }
}

/// A walk that the operating system refuses to go on ends with that error; all that was opened
/// before is to be closed. No answer changes a walk that has ended.
pub proof fn law_walk_fails(
    dir: i32,
    path: Seq<u8>,
    flags: i32,
    mode: Option<u32>,
    bits: OpenBits,
    fds: Seq<i32>,
    e: std::io::Error,
    later: Result<i32, std::io::Error>,
)
    requires
        fds.len() < open_walk::targets(path).len(),
        forall|i: int|
            0 <= i <= fds.len() ==> #[trigger] open_walk::targets(path)[i] != seq![46u8, 46u8],
    ensures
        ({
            let start = WalkView::start(dir, path, flags, mode, bits);
            let walk = start.after_all(opening(fds).push(Err(e)));
            &&& walk.outcome == Some(Err::<i32, OpenError>(OpenError::Os(e)))
            &&& walk.held == fds
            &&& start.after_all(opening(fds).push(Err(e)).push(later)) == walk
        }),
{
    lemma_walk_goes_on(dir, path, flags, mode, bits, fds);
    let answers = opening(fds).push(Err(e));
    assert(answers.drop_last() =~= opening(fds));
    assert(answers.push(later).drop_last() =~= answers);
}

/// One call of `openat` stands for its fields.
pub proof fn law_call_stands_for_its_fields(dir: i32, name: Name, flags: i32, mode: u32)
    ensures
        (OpenCall { dir, name, flags, mode })@ == (OpenCallView { dir, name: name@, flags, mode }),
{
}

/// The calls by which a pipe is made, and what becomes of it, for whatever is returned. Minus one
/// is a failure and everything else is not. Where the pipe is not made, that is the end. Otherwise
/// the flags of the reading end are read and set with the flag added, and then those of the
/// writing end; any failure leaves both ends to be closed, and without one the pipe is ready.
pub proof fn law_pipe_for_any_answers(
    made: i32,
    reader: i32,
    writer: i32,
    rets: (i32, i32, i32, i32),
    cloexec: i32,
)
    ensures
        ({
            let s0 = PipeState::Create.after_create(made, reader, writer);
            let s1 = s0.after_return(rets.0);
            let s2 = s1.after_return(rets.1);
            let s3 = s2.after_return(rets.2);
            let s4 = s3.after_return(rets.3);
            let abandoned = PipeState::Abandoned { reader, writer };
            &&& PipeState::Create.next_call(cloexec) == Some(PipeCall::Create)
            &&& made == -1 ==> s0 == PipeState::Refused && s0.next_call(cloexec) is None
            &&& made != -1 ==> s0.next_call(cloexec) == Some(PipeCall::GetFlags { fd: reader })
            &&& made != -1 && rets.0 == -1 ==> s1 == abandoned
            &&& made != -1 && rets.0 != -1 ==> {
                &&& s1.next_call(cloexec) == Some(
                    PipeCall::SetFlags { fd: reader, flags: rets.0 | cloexec },
                )
                &&& rets.1 == -1 ==> s2 == abandoned
                &&& rets.1 != -1 ==> {
                    &&& s2.next_call(cloexec) == Some(PipeCall::GetFlags { fd: writer })
                    &&& rets.2 == -1 ==> s3 == abandoned
                    &&& rets.2 != -1 ==> {
                        &&& s3.next_call(cloexec) == Some(
                            PipeCall::SetFlags { fd: writer, flags: rets.2 | cloexec },
                        )
                        &&& rets.3 == -1 ==> s4 == abandoned
                        &&& rets.3 != -1 ==> s4 == (PipeState::Ready { reader, writer })
                            && s4.next_call(cloexec) is None
                    }
                }
            }
            &&& abandoned.next_call(cloexec) is None
        }),
{
}

/// A return value of any width that system calls use signals a failure exactly where it is minus one.
pub proof fn law_minus_one_is_a_failure(a: i32, b: i64, c: isize)
    ensures
        platform::signals_by_minus_one::<isize>(),
        platform::is_failure(c) <==> c == -1,
        platform::signals_by_minus_one::<i32>(),
        platform::signals_by_minus_one::<i64>(),
        platform::is_failure(a) <==> a == -1,
        platform::is_failure(b) <==> b == -1,
{
}

/// The numbers that are fixed here.
pub proof fn law_fixed_numbers()
    ensures
        file_handle::MAX_HANDLE_SZ == 128,
        platform::MOVE_MOUNT_F_EMPTY_PATH == 4,
        open_walk::MODE_BITS == 0o7777,
{
}

} // verus!
