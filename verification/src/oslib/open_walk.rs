//! Opening a path below a directory without leaving the directory.
//!
//! Each component of the path is opened on its own and without following symbolic links, and a
//! component that names the parent directory ends the walk.

use vstd::prelude::*;

use crate::path;
use crate::path::{DOT, SEPARATOR};
use crate::Name;

verus! {

/// The bits by which the operating system spells what the walk asks for.
#[derive(Debug, Clone, Copy, PartialEq, Eq, Structural)]
pub struct OpenBits {
    /// Open for reading only.
    pub rdonly: i32,
    /// Do not follow a symbolic link.
    pub nofollow: i32,
    /// Open directories only.
    pub directory: i32,
    /// Close when another program is executed.
    pub cloexec: i32,
}

impl OpenBits {
    /// The flags for a directory on the way.
    pub open spec fn on_the_way(self) -> i32 {
        self.rdonly | self.nofollow | self.directory | self.cloexec
    }
}

/// The permission bits that a file may be created with.
pub const MODE_BITS: u32 = 0o7777;

/// Why a path was not opened.
#[derive(Debug)]
pub enum OpenError {
    /// The path leads out of the directory.
    CrossDevice,
    /// The operating system refused.
    Os(std::io::Error),
}

/// One call of `openat`.
pub struct OpenCall {
    /// The directory that `name` is looked up in.
    pub dir: i32,
    /// A single name.
    pub name: Name,
    pub flags: i32,
    pub mode: u32,
}

/// Mathematical counterpart of [`OpenCall`].
pub struct OpenCallView {
    pub dir: i32,
    pub name: Seq<u8>,
    pub flags: i32,
    pub mode: u32,
}

impl View for OpenCall {
    type V = OpenCallView;

    open spec fn view(&self) -> OpenCallView {
        OpenCallView { dir: self.dir, name: self.name@, flags: self.flags, mode: self.mode }
    }
}

/// The names that are opened for `path`, one below the other. A path without any name is the
/// directory itself.
pub open spec fn targets(path: Seq<u8>) -> Seq<Seq<u8>> {
    if path::names(path).len() > 0 {
        path::names(path)
    } else if path.len() > 0 {
        seq![seq![DOT]]
    } else {
        seq![Seq::empty()]
    }
}

/// The permission bits of `mode`, none where it is missing.
pub open spec fn masked_mode(mode: Option<u32>) -> u32 {
    match mode {
        Some(mode) => mode & MODE_BITS,
        None => 0,
    }
}

/// How far a walk has come.
pub struct WalkView {
    /// The directory to stay in.
    pub dir: i32,
    /// The names to open, one below the other.
    pub targets: Seq<Seq<u8>>,
    /// The flags and the mode for the last of them.
    pub flags: i32,
    pub mode: u32,
    pub bits: OpenBits,
    /// The directories that were opened on the way.
    pub held: Seq<i32>,
    /// What came out of it, at the end.
    pub outcome: Option<Result<i32, OpenError>>,
}

impl WalkView {
    /// A walk that has not begun.
    pub open spec fn start(
        dir: i32,
        path: Seq<u8>,
        flags: i32,
        mode: Option<u32>,
        bits: OpenBits,
    ) -> WalkView {
        (WalkView {
            dir,
            targets: targets(path),
            flags,
            mode: masked_mode(mode),
            bits,
            held: Seq::empty(),
            outcome: None,
        }).settled()
    }

    /// The innermost directory so far.
    pub open spec fn current(self) -> i32 {
        if self.held.len() > 0 {
            self.held.last()
        } else {
            self.dir
        }
    }

    /// Whether the name to open next is the last one.
    pub open spec fn at_last(self) -> bool {
        self.held.len() + 1 >= self.targets.len()
    }

    /// The call to make next.
    pub open spec fn call(self) -> OpenCallView {
        OpenCallView {
            dir: self.current(),
            name: self.targets[self.held.len() as int],
            flags: if self.at_last() {
                self.flags | self.bits.nofollow
            } else {
                self.bits.on_the_way()
            },
            mode: if self.at_last() {
                self.mode
            } else {
                0
            },
        }
    }

    /// The walk ends where the name to open next is that of the parent directory.
    pub open spec fn settled(self) -> WalkView {
        if self.outcome is None && path::is_parent(self.targets[self.held.len() as int]) {
            WalkView { outcome: Some(Err(OpenError::CrossDevice)), ..self }
        } else {
            self
        }
    }

    /// The walk after the call was answered.
    pub open spec fn after(self, answer: Result<i32, std::io::Error>) -> WalkView {
        match answer {
            Err(e) => WalkView { outcome: Some(Err(OpenError::Os(e))), ..self },
            Ok(fd) => if self.at_last() {
                WalkView { outcome: Some(Ok(fd)), ..self }
            } else {
                (WalkView { held: self.held.push(fd), ..self }).settled()
            },
        }
    }

    /// The walk after a run of answers, which it takes until it ends.
    pub open spec fn after_all(self, answers: Seq<Result<i32, std::io::Error>>) -> WalkView
        decreases answers.len(),
    {
        if answers.len() == 0 {
            self
        } else {
            let before = self.after_all(answers.drop_last());
            if before.outcome is None {
                before.after(answers.last())
            } else {
                before
            }
        }
    }

    /// There is a name to open as long as the walk has not ended.
    pub open spec fn wf(self) -> bool {
        &&& self.held.len() < self.targets.len()
        &&& self.outcome is None ==> !path::is_parent(self.targets[self.held.len() as int])
    }
}

/// A walk of a path below a directory.
pub struct OpenWalk {
    dir: i32,
    targets: Vec<Name>,
    flags: i32,
    mode: u32,
    bits: OpenBits,
    held: Vec<i32>,
    outcome: Option<Result<i32, OpenError>>,
}

impl View for OpenWalk {
    type V = WalkView;

    closed spec fn view(&self) -> WalkView {
        WalkView {
            dir: self.dir,
            targets: path::names_of(self.targets@),
            flags: self.flags,
            mode: self.mode,
            bits: self.bits,
            held: self.held@,
            outcome: self.outcome,
        }
    }
}

impl OpenWalk {
    /// A walk of `path` below the directory `dir`. The last component is opened with `flags` and
    /// `mode`.
    pub fn new(dir: i32, path: &[u8], flags: i32, mode: Option<u32>, bits: OpenBits) -> (r: Self)
        ensures
            r@.wf(),
            r@ == WalkView::start(dir, path@, flags, mode, bits),
    {
        let mut targets = path::split_names(path);
        let ghost found = targets@;
        if targets.len() == 0 {
            let mut itself: Name = Vec::new();
            if path.len() > 0 {
                itself.push(DOT);
            }
            assert(itself@ =~= (if path@.len() > 0 {
                seq![DOT]
            } else {
                Seq::empty()
            }));
            targets.push(itself);
            assert(path::names_of(targets@) =~= seq![itself@]);
        } else {
            assert(path::names_of(found).len() == found.len());
        }
        assert(path::names_of(targets@) =~= self::targets(path@)) by {
            assert(path::names_of(found).len() == found.len());
        }
        let mode: u32 = match mode {
            Some(mode) => mode & MODE_BITS,
            None => 0,
        };
        let mut walk = OpenWalk {
            dir,
            targets,
            flags,
            mode,
            bits,
            held: Vec::new(),
            outcome: None,
        };
        walk.settle();
        walk
    }

    /// Ends the walk where the next name is that of the parent directory.
    fn settle(&mut self)
        requires
            old(self)@.held.len() < old(self)@.targets.len(),
            old(self)@.outcome is None,
        ensures
            final(self)@.wf(),
            final(self)@ == old(self)@.settled(),
    {
        let at = self.held.len();
        let name = &self.targets[at];
        let ghost piece = name@;
        let parent = name.len() == 2 && name[0] == DOT && name[1] == DOT;
        proof {
            assert(piece == self@.targets[at as int]);
            if parent {
                assert(piece =~= seq![DOT, DOT]);
            } else if path::is_parent(piece) {
                assert(piece[0] == DOT && piece[1] == DOT);
            }
        }
        if parent {
            self.outcome = Some(Err(OpenError::CrossDevice));
        }
    }

    /// Whether the walk has ended.
    pub fn is_done(&self) -> (r: bool)
        ensures
            r == (self@.outcome is Some),
    {
        self.outcome.is_some()
    }

    /// The call to make next.
    pub fn call(&self) -> (r: OpenCall)
        requires
            self@.wf(),
            self@.outcome is None,
        ensures
            r@ == self@.call(),
    {
        let at = self.held.len();
        assert(self@.targets.len() == self.targets@.len());
        let dir = if at > 0 {
            self.held[at - 1]
        } else {
            self.dir
        };
        let last = at >= self.targets.len() - 1;
        let name = vstd::slice::slice_to_vec(self.targets[at].as_slice());
        assert(name@ == self@.targets[at as int]);
        if last {
            OpenCall { dir, name, flags: self.flags | self.bits.nofollow, mode: self.mode }
        } else {
            OpenCall {
                dir,
                name,
                flags: self.bits.rdonly | self.bits.nofollow | self.bits.directory
                    | self.bits.cloexec,
                mode: 0,
            }
        }
    }

    /// Takes in the answer to the call.
    pub fn answer(&mut self, answer: Result<i32, std::io::Error>)
        requires
            old(self)@.wf(),
            old(self)@.outcome is None,
        ensures
            final(self)@.wf(),
            final(self)@ == old(self)@.after(answer),
    {
        match answer {
            Err(e) => {
                self.outcome = Some(Err(OpenError::Os(e)));
            },
            Ok(fd) => {
                assert(self@.targets.len() == self.targets@.len());
                if self.held.len() >= self.targets.len() - 1 {
                    self.outcome = Some(Ok(fd));
                } else {
                    self.held.push(fd);
                    self.settle();
                }
            },
        }
    }

    /// What came out of the walk, and the directories to close.
    pub fn finish(self) -> (r: (Vec<i32>, Option<Result<i32, OpenError>>))
        ensures
            r.0@ == self@.held,
            r.1 == self@.outcome,
    {
        (self.held, self.outcome)
    }
}

/// A piece between separators holds none.
proof fn lemma_pieces_hold_no_separator(path: Seq<u8>)
    ensures
        pieces_hold_no_separator(path::pieces(path)),
        path::pieces(path).len() > 0,
    decreases path.len(),
{
    let all = path::pieces(path);
    if path.len() > 0 {
        let before = path::pieces(path.drop_last());
        lemma_pieces_hold_no_separator(path.drop_last());
        assert forall|i: int, j: int|
            0 <= i < all.len() && 0 <= j < all[i].len() implies #[trigger] all[i][j]
            != SEPARATOR by {
            if i < before.len() {
                if j < before[i].len() {
                    assert(before[i][j] != SEPARATOR);
                }
            }
        }
    }
}

spec fn pieces_hold_no_separator(all: Seq<Seq<u8>>) -> bool {
    forall|i: int, j: int|
        0 <= i < all.len() && 0 <= j < all[i].len() ==> #[trigger] all[i][j] != SEPARATOR
}

/// None of the names that a walk opens holds a separator.
proof fn lemma_targets_hold_no_separator(path: Seq<u8>)
    ensures
        forall|i: int|
            0 <= i < targets(path).len() ==> !(#[trigger] targets(path)[i]).contains(SEPARATOR),
{
    lemma_pieces_hold_no_separator(path);
    let pred = |piece: Seq<u8>| path::is_name(piece);
    let all = path::pieces(path);
    assert forall|i: int| 0 <= i < targets(path).len() implies !(#[trigger] targets(
        path,
    )[i]).contains(SEPARATOR) by {
        if path::names(path).len() > 0 {
            let name = path::names(path)[i];
            assert(all.filter(pred).contains(name));
            all.lemma_filter_contains_rev(pred, name);
            let k = choose|k: int| 0 <= k < all.len() && all[k] == name;
            assert(forall|j: int| 0 <= j < all[k].len() ==> all[k][j] != SEPARATOR);
        }
    }
}

/// What no answer changes: the setup of the walk.
proof fn lemma_run_keeps_setup(start: WalkView, answers: Seq<Result<i32, std::io::Error>>)
    requires
        start.wf(),
    ensures
        start.after_all(answers).wf(),
        start.after_all(answers).dir == start.dir,
        start.after_all(answers).targets == start.targets,
        start.after_all(answers).bits == start.bits,
        start.after_all(answers).flags == start.flags,
        start.after_all(answers).mode == start.mode,
    decreases answers.len(),
{
    if answers.len() > 0 {
        lemma_run_keeps_setup(start, answers.drop_last());
    }
}

/// Whatever the operating system answers, the walk opens single names only, never that of the
/// parent directory, and never follows a symbolic link.
pub proof fn law_walk_stays_below(
    dir: i32,
    path: Seq<u8>,
    flags: i32,
    mode: Option<u32>,
    bits: OpenBits,
    answers: Seq<Result<i32, std::io::Error>>,
)
    ensures
        ({
            let walk = WalkView::start(dir, path, flags, mode, bits).after_all(answers);
            walk.outcome is None ==> {
                &&& !walk.call().name.contains(SEPARATOR)
                &&& !path::is_parent(walk.call().name)
                &&& walk.call().flags & bits.nofollow == bits.nofollow
            }
        }),
{
    let start = WalkView::start(dir, path, flags, mode, bits);
    lemma_targets_hold_no_separator(path);
    lemma_run_keeps_setup(start, answers);
    let walk = start.after_all(answers);
    let n = bits.nofollow;
    let r = bits.rdonly;
    let d = bits.directory;
    let c = bits.cloexec;
    assert((flags | n) & n == n) by (bit_vector);
    assert((r | n | d | c) & n == n) by (bit_vector);
}

/// Whether every answer opened something.
pub open spec fn all_opened(answers: Seq<Result<i32, std::io::Error>>) -> bool {
    forall|i: int| 0 <= i < answers.len() ==> (#[trigger] answers[i]) is Ok
}

/// What the answers opened.
pub open spec fn opened(answers: Seq<Result<i32, std::io::Error>>) -> Seq<i32> {
    answers.map_values(|answer: Result<i32, std::io::Error>| answer->Ok_0)
}

/// Each directory is looked up in the one that was opened just before, the first in the directory
/// that the walk began in. Every directory opened on the way is closed at the end, and what was
/// asked for is not: while the walk goes on it holds all that was opened, after a success all but
/// the last, and after a failure all that was opened before.
pub proof fn law_walk_holds_what_it_opened(
    start: WalkView,
    answers: Seq<Result<i32, std::io::Error>>,
)
    requires
        start.wf(),
        start.held.len() == 0,
        start.outcome is None,
        answers.len() > 0 ==> start.after_all(answers.drop_last()).outcome is None,
    ensures
        ({
            let walk = start.after_all(answers);
            match walk.outcome {
                None => {
                    &&& all_opened(answers)
                    &&& walk.held == opened(answers)
                    &&& walk.call().dir == (if answers.len() > 0 {
                        opened(answers).last()
                    } else {
                        start.dir
                    })
                },
                Some(Ok(fd)) => {
                    &&& all_opened(answers)
                    &&& answers.len() == start.targets.len()
                    &&& walk.held.push(fd) == opened(answers)
                },
                Some(Err(OpenError::CrossDevice)) => {
                    &&& all_opened(answers)
                    &&& walk.held == opened(answers)
                },
                Some(Err(OpenError::Os(e))) => {
                    &&& answers.len() > 0
                    &&& answers.last() == Err::<i32, std::io::Error>(e)
                    &&& all_opened(answers.drop_last())
                    &&& walk.held == opened(answers.drop_last())
                },
            }
        }),
    decreases answers.len(),
{
    lemma_run_keeps_setup(start, answers);
    if answers.len() > 0 {
        let earlier = answers.drop_last();
        lemma_run_keeps_setup(start, earlier);
        assert(earlier.len() > 0 ==> start.after_all(earlier.drop_last()).outcome is None) by {
            if earlier.len() > 0 && start.after_all(earlier.drop_last()).outcome is Some {
                assert(start.after_all(earlier) == start.after_all(earlier.drop_last()));
            }
        }
        law_walk_holds_what_it_opened(start, earlier);
        let before = start.after_all(earlier);
        if answers.last() is Ok {
            assert forall|i: int| 0 <= i < answers.len() implies (#[trigger] answers[i]) is Ok by {
                if i < earlier.len() {
                    assert(earlier[i] is Ok);
                }
            }
            assert(opened(answers) =~= opened(earlier).push(answers.last()->Ok_0));
        }
    } else {
        assert(opened(answers) =~= Seq::<i32>::empty());
    }
}

} // verus!
