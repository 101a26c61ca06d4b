//! Normalized events of the host filesystem.
//!
//! The kernel interfaces for watching a tree differ, and so do the raw events that reach the
//! daemon. Here they are classified, and handed on through a bounded channel. Where events may be
//! lost, because the backend failed, because an event could not be classified or because the
//! channel had no room, the receiver is sent [`HostEventKind::Overflow`] and can fall back to
//! invalidating everything. An overflow that finds no room itself is kept, and offered again with
//! every report and every [`EventSink::retry`] until the channel takes it.

use vstd::prelude::*;

use crate::path::HostPath;
use crossbeam_channel::Sender;

verus! {

/// Room in the channel for normalized events. Bounded so that a slow receiver cannot run the
/// daemon out of memory; an event that finds the channel full is lost like one that the kernel
/// dropped.
pub const EVENT_CHANNEL_SIZE: usize = 4096;

/// Number of subdirectories from which on watching the tree may exhaust the watches that the
/// system grants by default.
pub const INOTIFY_WATCH_WARN_THRESHOLD: usize = 8000;

/// Number of subdirectories at which counting stops.
pub const SCAN_CAP: usize = 8001;

/// How much a raw rename event tells.
#[derive(Debug, Clone, Copy, PartialEq, Eq, Structural)]
pub enum RenameMode {
    Any,
    /// Only the new path.
    To,
    /// Only the old path.
    From,
    /// The old path and the new one.
    Both,
    Other,
}

/// What a raw event tells of a modification.
#[derive(Debug, Clone, Copy, PartialEq, Eq, Structural)]
pub enum ModifyKind {
    Any,
    /// The content changed.
    Data,
    /// The attributes changed.
    Metadata,
    /// The name changed.
    Name(RenameMode),
    Other,
}

/// What a raw event is about.
#[derive(Debug, Clone, Copy, PartialEq, Eq, Structural)]
pub enum RawEventKind {
    /// Nothing is known of what happened.
    Any,
    /// Something was accessed and nothing changed.
    Access,
    /// Something was created.
    Create,
    /// Something was modified.
    Modify(ModifyKind),
    /// Something was removed.
    Remove,
    /// Something about the watch itself, such as events that were dropped.
    Other,
}

/// An event as the backend reports it.
#[derive(Debug, Clone)]
pub struct RawEvent {
    pub kind: RawEventKind,
    /// What the event is about; of a rename, the old path first.
    pub paths: Vec<HostPath>,
}

/// The backend failed to report an event.
#[derive(Debug, Clone, Copy)]
pub struct BackendError;

/// A normalized event of the host filesystem.
#[derive(Debug, Clone)]
pub struct HostEvent {
    pub kind: HostEventKind,
}

/// What a normalized event is about.
#[derive(Debug, Clone)]
pub enum HostEventKind {
    /// Content or metadata of a file or directory changed.
    Modify { path: HostPath },
    /// An entry was created in its parent directory.
    Create { path: HostPath },
    /// An entry was removed from its parent directory.
    Remove { path: HostPath },
    /// An entry was renamed. Either side may be missing, such as when the rename crosses the
    /// boundary of the watched tree.
    Rename { from: Option<HostPath>, to: Option<HostPath> },
    /// Events were lost. Every cached inode is to be invalidated.
    Overflow,
}

/// Mathematical counterpart of [`HostEventKind`].
pub enum HostEventView {
    Modify { path: Seq<u8> },
    Create { path: Seq<u8> },
    Remove { path: Seq<u8> },
    Rename { from: Option<Seq<u8>>, to: Option<Seq<u8>> },
    Overflow,
}

/// The bytes of a path, if there is one.
pub open spec fn path_view(path: Option<HostPath>) -> Option<Seq<u8>> {
    match path {
        Some(path) => Some(path@),
        None => None,
    }
}

impl View for HostEventKind {
    type V = HostEventView;

    open spec fn view(&self) -> HostEventView {
        match self {
            HostEventKind::Modify { path } => HostEventView::Modify { path: path@ },
            HostEventKind::Create { path } => HostEventView::Create { path: path@ },
            HostEventKind::Remove { path } => HostEventView::Remove { path: path@ },
            HostEventKind::Rename { from, to } => HostEventView::Rename {
                from: path_view(*from),
                to: path_view(*to),
            },
            HostEventKind::Overflow => HostEventView::Overflow,
        }
    }
}

impl From<HostEventKind> for HostEvent {
    fn from(kind: HostEventKind) -> (r: Self) {
        HostEvent { kind }
    }
}

impl vstd::std_specs::convert::FromSpecImpl<HostEventKind> for HostEvent {
    open spec fn obeys_from_spec() -> bool {
        true
    }

    open spec fn from_spec(kind: HostEventKind) -> Self {
        HostEvent { kind }
    }
}

impl TryFrom<HostEvent> for HostEventKind {
    type Error = std::convert::Infallible;

    fn try_from(event: HostEvent) -> (r: Result<Self, std::convert::Infallible>) {
        Ok(event.kind)
    }
}

impl vstd::std_specs::convert::TryFromSpecImpl<HostEvent> for HostEventKind {
    open spec fn obeys_try_from_spec() -> bool {
        true
    }

    open spec fn try_from_spec(event: HostEvent) -> Result<Self, std::convert::Infallible> {
        Ok(event.kind)
    }
}

impl RawEvent {
    /// The path at `i`, if the event has that many.
    pub open spec fn path(self, i: int) -> Option<Seq<u8>> {
        if 0 <= i < self.paths@.len() {
            Some(self.paths@[i]@)
        } else {
            None
        }
    }

    /// The old and the new path of a rename, as far as the event tells.
    pub open spec fn rename_sides(self) -> HostEventView {
        match self.kind {
            RawEventKind::Modify(ModifyKind::Name(RenameMode::From)) => HostEventView::Rename {
                from: self.path(0),
                to: None,
            },
            RawEventKind::Modify(ModifyKind::Name(RenameMode::To)) => HostEventView::Rename {
                from: None,
                to: self.path(0),
            },
            _ => HostEventView::Rename { from: self.path(0), to: self.path(1) },
        }
    }

    /// What the event is normalized to; nothing for an access, and for an event that would need a
    /// path and has none.
    pub open spec fn classified(self) -> Option<HostEventView> {
        match self.kind {
            RawEventKind::Create => match self.path(0) {
                Some(path) => Some(HostEventView::Create { path }),
                None => None,
            },
            RawEventKind::Modify(ModifyKind::Name(_)) => Some(self.rename_sides()),
            RawEventKind::Modify(_) | RawEventKind::Any => match self.path(0) {
                Some(path) => Some(HostEventView::Modify { path }),
                None => None,
            },
            RawEventKind::Remove => match self.path(0) {
                Some(path) => Some(HostEventView::Remove { path }),
                None => None,
            },
            RawEventKind::Access => None,
            RawEventKind::Other => Some(HostEventView::Overflow),
        }
    }

    /// A copy of the path at `i`, if the event has that many.
    fn path_at(&self, i: usize) -> (r: Option<HostPath>)
        ensures
            path_view(r) == self.path(i as int),
    {
        if i < self.paths.len() {
            Some(self.paths[i].clone())
        } else {
            None
        }
    }
}

/// Normalizes a raw event. There is no event to hand on for an access, nor for an event that would
/// need a path and has none; [`EventSink::handle_raw_event`] takes the latter for an overflow.
pub fn classify(event: &RawEvent) -> (r: Option<HostEventKind>)
    ensures
        r is Some <==> event.classified() is Some,
        r matches Some(kind) ==> Some(kind@) == event.classified(),
{
    let path = event.path_at(0);
    match event.kind {
        RawEventKind::Create => match path {
            Some(path) => Some(HostEventKind::Create { path }),
            None => None,
        },
        RawEventKind::Modify(ModifyKind::Name(_)) => Some(classify_rename(event)),
        RawEventKind::Modify(_) | RawEventKind::Any => match path {
            Some(path) => Some(HostEventKind::Modify { path }),
            None => None,
        },
        RawEventKind::Remove => match path {
            Some(path) => Some(HostEventKind::Remove { path }),
            None => None,
        },
        RawEventKind::Access => None,
        RawEventKind::Other => Some(HostEventKind::Overflow),
    }
}

/// Normalizes a raw rename. The backend reports it with both paths, or as two halves; whatever is
/// there is handed on.
pub fn classify_rename(event: &RawEvent) -> (r: HostEventKind)
    ensures
        r@ == event.rename_sides(),
{
    match event.kind {
        RawEventKind::Modify(ModifyKind::Name(RenameMode::From)) => HostEventKind::Rename {
            from: event.path_at(0),
            to: None,
        },
        RawEventKind::Modify(ModifyKind::Name(RenameMode::To)) => HostEventKind::Rename {
            from: None,
            to: event.path_at(0),
        },
        _ => HostEventKind::Rename { from: event.path_at(0), to: event.path_at(1) },
    }
}

/// `crossbeam_channel::Sender`, the sending end of a channel.
#[verifier::external_type_specification]
#[verifier::external_body]
#[verifier::reject_recursive_types(T)]
pub struct ExSender<T>(crossbeam_channel::Sender<T>);

/// What was offered to a channel, each with whether the channel took it, from the first to the
/// last.
pub type Offers = Seq<(HostEventView, bool)>;

/// What was offered to its channel through a sending end.
pub uninterp spec fn offered(tx: Sender<HostEvent>) -> Seq<(HostEventView, bool)>;

/// Puts `event` into the channel if there is room, by `crossbeam_channel`'s `Sender::try_send`.
/// This is one more offer, and the result tells whether it was taken; an event that is not taken
/// comes back. Which of the two depends on the receiver.
#[verifier::external_body]
fn try_send(tx: &mut Sender<HostEvent>, event: HostEvent) -> (r: Result<(), HostEvent>)
    ensures
        offered(*final(tx)) == offered(*old(tx)).push((event.kind@, r is Ok)),
        r matches Err(back) ==> back == event,
{
    match tx.try_send(event) {
        Ok(()) => Ok(()),
        Err(refused) => Err(refused.into_inner()),
    }
}

/// Whether something was refused of which the receiver has not been told by an overflow since.
pub open spec fn lost(offers: Offers) -> bool
    decreases offers.len(),
{
    if offers.len() == 0 {
        false
    } else {
        let (event, taken) = offers.last();
        if !taken {
            true
        } else if event is Overflow {
            false
        } else {
            lost(offers.drop_last())
        }
    }
}

/// What a raw report is normalized to. A failure of the backend counts as events lost, and so does
/// an event that cannot be classified; only an access calls for nothing.
pub open spec fn report_view(report: Result<RawEvent, BackendError>) -> Option<HostEventView> {
    match report {
        Ok(event) => match event.classified() {
            Some(event) => Some(event),
            None => if event.kind is Access {
                None
            } else {
                Some(HostEventView::Overflow)
            },
        },
        Err(_) => Some(HostEventView::Overflow),
    }
}

/// `offers` is what a raw report calls for. While events are known to be lost, an overflow comes
/// before the event itself; behind an event that is refused comes another one.
pub open spec fn handled(
    pending: bool,
    report: Result<RawEvent, BackendError>,
    offers: Offers,
) -> bool {
    let ahead: int = if pending && report is Ok {
        1
    } else {
        0
    };
    &&& match report_view(report) {
        None => offers.len() == ahead,
        Some(event) => {
            &&& offers.len() > ahead
            &&& offers[ahead].0 == event
            &&& offers.len() == ahead + (if report is Ok && !offers[ahead].1 {
                2int
            } else {
                1int
            })
        },
    }
    &&& forall|i: int|
        0 <= i < offers.len() && i != ahead ==> (#[trigger] offers[i]).0 is Overflow
}

/// Feeds normalized events into the channel.
pub struct EventSink {
    tx: Sender<HostEvent>,
    overflow_pending: bool,
    earlier: Ghost<int>,
}

impl EventSink {
    /// The sending end of the channel.
    pub closed spec fn channel(&self) -> Sender<HostEvent> {
        self.tx
    }

    /// What the sink has offered to the channel so far.
    pub closed spec fn offers(&self) -> Offers {
        offered(self.tx).skip(self.earlier@)
    }

    /// Whether the receiver is still to be told that events were lost.
    pub closed spec fn pending(&self) -> bool {
        self.overflow_pending
    }

    /// The receiver is still to be told exactly where something was lost.
    pub closed spec fn wf(&self) -> bool {
        &&& 0 <= self.earlier@ <= offered(self.tx).len()
        &&& self.pending() == lost(self.offers())
    }

    /// A sink for the channel behind `tx`.
    pub fn new(tx: Sender<HostEvent>) -> (r: Self)
        ensures
            r.wf(),
            r.channel() == tx,
            !r.pending(),
            r.offers() == Offers::empty(),
    {
        let earlier: Ghost<int> = Ghost(offered(tx).len() as int);
        let r = EventSink { tx, overflow_pending: false, earlier };
        assert(r.offers() =~= Offers::empty());
        r
    }

    /// Offers one event to the channel, and tells whether it was taken.
    fn offer(&mut self, kind: HostEventKind) -> (taken: bool)
        requires
            old(self).wf(),
        ensures
            final(self).wf(),
            final(self).offers() == old(self).offers().push((kind@, taken)),
            offered(final(self).channel()) == offered(old(self).channel()).push((kind@, taken)),
    {
        let overflow = match &kind {
            HostEventKind::Overflow => true,
            _ => false,
        };
        let taken = match try_send(&mut self.tx, HostEvent { kind }) {
            Ok(()) => true,
            Err(_) => false,
        };
        if !taken {
            self.overflow_pending = true;
        } else if overflow {
            self.overflow_pending = false;
        }
        assert(self.offers() =~= old(self).offers().push((kind@, taken)));
        assert(self.offers().drop_last() =~= old(self).offers());
        taken
    }

    /// Whether the receiver is still to be told that events were lost.
    pub fn is_pending(&self) -> (r: bool)
        ensures
            r == self.pending(),
    {
        self.overflow_pending
    }

    /// Offers the overflow again of which the receiver is still to be told. To be called whenever
    /// the receiver has made room.
    pub fn retry(&mut self)
        requires
            old(self).wf(),
        ensures
            final(self).wf(),
            final(self).pending() == lost(final(self).offers()),
            !old(self).pending() ==> final(self).offers() == old(self).offers(),
            old(self).pending() ==> final(self).offers() == old(self).offers().push(
                (HostEventView::Overflow, !final(self).pending()),
            ),
            offered(final(self).channel()) == offered(old(self).channel())
                + final(self).offers().skip(old(self).offers().len() as int),
    {
        if self.overflow_pending {
            let taken = self.offer(HostEventKind::Overflow);
            assert(taken == !self.pending());
        }
        assert(offered(self.channel()) =~= offered(old(self).channel()) + self.offers().skip(
            old(self).offers().len() as int,
        ));
    }

    /// Normalizes a raw report and hands it on, and tells whether the channel refused anything.
    ///
    /// A failure of the backend is handed on as an overflow, and so is an event that cannot be
    /// classified. An event that finds no room in the channel is dropped; the overflow that tells
    /// of it is offered at once and, as long as it finds no room either, again with every further
    /// report and every [`EventSink::retry`].
    pub fn handle_raw_event(&mut self, report: Result<RawEvent, BackendError>) -> (refused: bool)
        requires
            old(self).wf(),
        ensures
            final(self).wf(),
            final(self).pending() == lost(final(self).offers()),
            final(self).offers().len() >= old(self).offers().len(),
            final(self).offers().take(old(self).offers().len() as int) == old(self).offers(),
            handled(
                old(self).pending(),
                report,
                final(self).offers().skip(old(self).offers().len() as int),
            ),
            offered(final(self).channel()) == offered(old(self).channel())
                + final(self).offers().skip(old(self).offers().len() as int),
            refused == exists|i: int|
                old(self).offers().len() <= i < final(self).offers().len() && !(
                #[trigger] final(self).offers()[i]).1,
    {
        let ghost before = self.offers();
        let ghost mut at: int = before.len() as int;
        let mut refused = false;
        match report {
            Err(_) => {
                refused = !self.offer(HostEventKind::Overflow);
            },
            Ok(event) => {
                if self.overflow_pending {
                    refused = !self.offer(HostEventKind::Overflow);
                }
                let kind = match (classify(&event), event.kind) {
                    (Some(kind), _) => Some(kind),
                    (None, RawEventKind::Access) => None,
                    (None, _) => Some(HostEventKind::Overflow),
                };
                match kind {
                    Some(kind) => {
                        if !self.offer(kind) {
                            refused = true;
                            proof {
                                at = self.offers().len() - 1;
                            }
                            let _ = self.offer(HostEventKind::Overflow);
                        }
                    },
                    None => {},
                }
            },
        }
        assert(self.offers().take(before.len() as int) =~= before);
        assert(offered(self.channel()) =~= offered(old(self).channel()) + self.offers().skip(
            before.len() as int,
        ));
        assert(refused ==> !self.offers()[at].1);
        refused
    }
}

/// No event is lost silently: behind one that the channel refused there is an overflow that the
/// channel took, unless the receiver is still to be told.
pub proof fn law_refused_event_is_followed_by_overflow(offers: Offers, i: int)
    requires
        0 <= i < offers.len(),
        !offers[i].1,
        !lost(offers),
    ensures
        exists|j: int|
            i < j < offers.len() && (#[trigger] offers[j]).0 is Overflow && offers[j].1,
    decreases offers.len(),
{
    let last = offers.len() - 1;
    if offers[last].0 is Overflow && offers[last].1 {
        assert(i < last);
    } else {
        let shorter = offers.drop_last();
        assert(shorter[i] == offers[i]);
        law_refused_event_is_followed_by_overflow(shorter, i);
        let j = choose|j: int|
            i < j < shorter.len() && (#[trigger] shorter[j]).0 is Overflow && shorter[j].1;
        assert(offers[j] == shorter[j]);
    }
}

/// What came of resolving the path of a directory to watch.
#[derive(Debug, Clone)]
pub enum Resolved {
    /// There is no such path.
    Missing,
    /// The path without symbolic links, and whether it is a directory.
    Found { path: HostPath, is_dir: bool },
}

/// A path that cannot be watched.
#[derive(Debug, Clone)]
pub struct InvalidPath(pub HostPath);

/// The directory to watch for `shared_dir`: what it resolves to. Where it does not resolve, it is
/// at fault itself; where it resolves to something else than a directory, that is at fault.
pub open spec fn watched(shared_dir: HostPath, resolved: Resolved) -> Result<
    HostPath,
    InvalidPath,
> {
    match resolved {
        Resolved::Missing => Err(InvalidPath(shared_dir)),
        Resolved::Found { path, is_dir } => if is_dir {
            Ok(path)
        } else {
            Err(InvalidPath(path))
        },
    }
}

/// The directory to watch for `shared_dir`.
pub fn watch_root(shared_dir: HostPath, resolved: Resolved) -> (r: Result<HostPath, InvalidPath>)
    ensures
        r == watched(shared_dir, resolved),
{
    match resolved {
        Resolved::Missing => Err(InvalidPath(shared_dir)),
        Resolved::Found { path, is_dir } => if is_dir {
            Ok(path)
        } else {
            Err(InvalidPath(path))
        },
    }
}

/// Count of the subdirectories of a tree, up to a cap. Watching a tree may take one watch for each
/// directory, so a large count is worth a warning.
pub struct DirScan {
    count: usize,
    stack: Vec<HostPath>,
}

/// The paths that a list stands for.
pub open spec fn paths_of(list: Seq<HostPath>) -> Seq<Seq<u8>> {
    list.map_values(|path: HostPath| path@)
}

/// The entries of a directory, each with whether it is a directory itself.
pub open spec fn listing_of(list: Seq<(HostPath, bool)>) -> Seq<(Seq<u8>, bool)> {
    list.map_values(|entry: (HostPath, bool)| (entry.0@, entry.1))
}

/// The count and the directories still to list, after the entries of `listing`.
pub open spec fn scanned(count: nat, stack: Seq<Seq<u8>>, listing: Seq<(Seq<u8>, bool)>) -> (
    nat,
    Seq<Seq<u8>>,
)
    decreases listing.len(),
{
    if listing.len() == 0 || count >= SCAN_CAP {
        (count, stack)
    } else if !listing[0].1 {
        scanned(count, stack, listing.drop_first())
    } else if count + 1 >= SCAN_CAP {
        (count + 1, stack)
    } else {
        scanned(count + 1, stack.push(listing[0].0), listing.drop_first())
    }
}

/// The number of directories in a listing.
pub open spec fn dirs_in(listing: Seq<(Seq<u8>, bool)>) -> nat
    decreases listing.len(),
{
    if listing.len() == 0 {
        0
    } else {
        dirs_in(listing.drop_first()) + if listing[0].1 {
            1nat
        } else {
            0nat
        }
    }
}

/// A listing adds its directories to the count, up to the cap. As long as the cap is not reached,
/// each of them is to be listed in turn, and nothing else is.
pub proof fn law_scan_counts_up_to_the_cap(
    count: nat,
    stack: Seq<Seq<u8>>,
    listing: Seq<(Seq<u8>, bool)>,
)
    requires
        count <= SCAN_CAP,
    ensures
        ({
            let (after, rest) = scanned(count, stack, listing);
            &&& after == (if count + dirs_in(listing) < SCAN_CAP {
                count + dirs_in(listing)
            } else {
                SCAN_CAP as nat
            })
            &&& after < SCAN_CAP ==> rest.len() == stack.len() + dirs_in(listing)
            &&& count < SCAN_CAP ==> rest.len() - stack.len() < SCAN_CAP - count
            &&& stack.is_prefix_of(rest)
        }),
    decreases listing.len(),
{
    if listing.len() > 0 && count < SCAN_CAP {
        if !listing[0].1 {
            law_scan_counts_up_to_the_cap(count, stack, listing.drop_first());
        } else if count + 1 < SCAN_CAP {
            let longer = stack.push(listing[0].0);
            law_scan_counts_up_to_the_cap(count + 1, longer, listing.drop_first());
            let rest = scanned(count, stack, listing).1;
            assert forall|i: int| 0 <= i < stack.len() implies stack[i] == rest[i] by {
                assert(longer[i] == rest.take(longer.len() as int)[i]);
            }
            assert(stack =~= rest.take(stack.len() as int));
        }
    }
}

/// Entries may be taken in all at once or part by part.
pub proof fn law_listing_in_parts(
    count: nat,
    stack: Seq<Seq<u8>>,
    first: Seq<(Seq<u8>, bool)>,
    second: Seq<(Seq<u8>, bool)>,
)
    ensures
        ({
            let (middle, rest) = scanned(count, stack, first);
            scanned(count, stack, first + second) == scanned(middle, rest, second)
        }),
    decreases first.len(),
{
    let all = first + second;
    if first.len() == 0 {
        assert(all =~= second);
    } else if count < SCAN_CAP {
        assert(all.drop_first() =~= first.drop_first() + second);
        if !first[0].1 {
            law_listing_in_parts(count, stack, first.drop_first(), second);
        } else if count + 1 < SCAN_CAP {
            law_listing_in_parts(
                count + 1,
                stack.push(first[0].0),
                first.drop_first(),
                second,
            );
        }
    }
}

/// A scan that goes on with `listings`, each that of the directory that comes next, until all
/// directories are listed or the cap is reached. Gives the count, the directories still to list,
/// and how many of the listings were taken in.
pub open spec fn scan_run(
    count: nat,
    stack: Seq<Seq<u8>>,
    listings: Seq<Seq<(Seq<u8>, bool)>>,
) -> (nat, Seq<Seq<u8>>, nat)
    decreases listings.len(),
{
    if listings.len() == 0 || stack.len() == 0 || count >= SCAN_CAP {
        (count, stack, 0)
    } else {
        let (after, rest) = scanned(count, stack.drop_last(), listings[0]);
        let (end, left, n) = scan_run(after, rest, listings.drop_first());
        (end, left, n + 1)
    }
}

/// The number of directories in all of `listings`.
pub open spec fn all_dirs_in(listings: Seq<Seq<(Seq<u8>, bool)>>) -> nat
    decreases listings.len(),
{
    if listings.len() == 0 {
        0
    } else {
        dirs_in(listings[0]) + all_dirs_in(listings.drop_first())
    }
}

proof fn lemma_scan_run(
    count: nat,
    stack: Seq<Seq<u8>>,
    listings: Seq<Seq<(Seq<u8>, bool)>>,
)
    requires
        count <= SCAN_CAP,
    ensures
        ({
            let (end, left, n) = scan_run(count, stack, listings);
            let found = count + all_dirs_in(listings.take(n as int));
            &&& n <= listings.len()
            &&& n < listings.len() ==> left.len() == 0 || end >= SCAN_CAP
            &&& end == (if found < SCAN_CAP {
                found
            } else {
                SCAN_CAP as nat
            })
            &&& end < SCAN_CAP ==> n + left.len() == stack.len() + end - count
            &&& count < SCAN_CAP ==> n + left.len() < stack.len() + SCAN_CAP - count
        }),
    decreases listings.len(),
{
    let (end, left, n) = scan_run(count, stack, listings);
    if listings.len() == 0 || stack.len() == 0 || count >= SCAN_CAP {
        assert(listings.take(0).len() == 0);
    } else {
        law_scan_counts_up_to_the_cap(count, stack.drop_last(), listings[0]);
        let (after, rest) = scanned(count, stack.drop_last(), listings[0]);
        lemma_scan_run(after, rest, listings.drop_first());
        let taken = listings.take(n as int);
        assert(taken.drop_first() =~= listings.drop_first().take(n - 1));
        assert(taken[0] == listings[0]);
    }
}

/// A scan of a whole tree counts the subdirectories in what was listed, up to the cap, and lists
/// no more directories than the cap. Where all are listed before the cap is reached, those are
/// the root and every subdirectory that was counted, so that the count is that of the tree.
pub proof fn law_scan_of_a_tree(root: Seq<u8>, listings: Seq<Seq<(Seq<u8>, bool)>>)
    ensures
        ({
            let (count, left, n) = scan_run(0, seq![root], listings);
            let found = all_dirs_in(listings.take(n as int));
            &&& count == (if found < SCAN_CAP {
                found
            } else {
                SCAN_CAP as nat
            })
            &&& n <= listings.len()
            &&& n <= SCAN_CAP
            &&& n < listings.len() ==> left.len() == 0 || count == SCAN_CAP
            &&& left.len() == 0 && count < SCAN_CAP ==> n == count + 1
        }),
{
    lemma_scan_run(0, seq![root], listings);
}

impl DirScan {
    /// The number of subdirectories found so far.
    pub closed spec fn count(&self) -> nat {
        self.count as nat
    }

    /// The directories that are still to be listed; the last one comes next.
    pub closed spec fn stack(&self) -> Seq<Seq<u8>> {
        paths_of(self.stack@)
    }

    /// The count never passes the cap.
    pub open spec fn wf(&self) -> bool {
        self.count() <= SCAN_CAP
    }

    /// A scan of the tree under `root`.
    pub fn new(root: HostPath) -> (r: Self)
        ensures
            r.wf(),
            r.count() == 0,
            r.stack() == seq![root@],
    {
        let mut stack: Vec<HostPath> = Vec::new();
        stack.push(root);
        let r = DirScan { count: 0, stack };
        assert(r.stack() =~= seq![root@]);
        r
    }

    /// The directory to list next; none when all are listed or the cap is reached.
    pub fn next_dir(&mut self) -> (r: Option<HostPath>)
        requires
            old(self).wf(),
        ensures
            final(self).wf(),
            final(self).count() == old(self).count(),
            final(self).stack() == (if old(self).stack().len() > 0 {
                old(self).stack().drop_last()
            } else {
                old(self).stack()
            }),
            r is Some <==> old(self).stack().len() > 0 && old(self).count() < SCAN_CAP,
            r matches Some(dir) ==> dir@ == old(self).stack().last(),
    {
        let next = self.stack.pop();
        proof {
            if old(self).stack@.len() > 0 {
                assert(self.stack() =~= old(self).stack().drop_last());
            }
        }
        if self.count >= SCAN_CAP {
            return None;
        }
        next
    }

    /// Takes in the entries of a directory.
    pub fn record(&mut self, listing: Vec<(HostPath, bool)>)
        requires
            old(self).wf(),
        ensures
            final(self).wf(),
            (final(self).count(), final(self).stack()) == scanned(
                old(self).count(),
                old(self).stack(),
                listing_of(listing@),
            ),
    {
        let ghost all = listing_of(listing@);
        let mut i: usize = 0;
        assert(all.skip(0) =~= all);
        while i < listing.len() && self.count < SCAN_CAP
            invariant
                i <= listing.len(),
                self.wf(),
                all == listing_of(listing@),
                scanned(old(self).count(), old(self).stack(), all) == scanned(
                    self.count(),
                    self.stack(),
                    all.skip(i as int),
                ),
            decreases listing.len() - i,
        {
            let ghost before = self.stack@;
            proof {
                assert(all.skip(i as int)[0] == (listing@[i as int].0@, listing@[i as int].1));
                assert(all.skip(i as int).drop_first() =~= all.skip(i + 1));
            }
            if listing[i].1 {
                self.count = self.count + 1;
                if self.count < SCAN_CAP {
                    self.stack.push(listing[i].0.clone());
                    assert(paths_of(self.stack@) =~= paths_of(before).push(
                        listing@[i as int].0@,
                    ));
                }
            }
            i += 1;
        }
    }

    /// The number of subdirectories found so far, up to the cap.
    pub fn found(&self) -> (r: usize)
        ensures
            r == self.count(),
    {
        self.count
    }

    /// Whether the tree is large enough to warn about.
    pub fn is_oversized(&self) -> (r: bool)
        ensures
            r == (self.count() >= INOTIFY_WATCH_WARN_THRESHOLD),
    {
        self.count >= INOTIFY_WATCH_WARN_THRESHOLD
    }
}

} // verus!
