//! What becomes of raw reports, told from their kinds and paths, and of the listings of a scan.

use vstd::prelude::*;

use crate::notify_invalidate::watcher;
use crate::notify_invalidate::watcher::{
    BackendError, HostEvent, HostEventKind, HostEventView, InvalidPath, ModifyKind, Offers,
    RawEvent, RawEventKind, RenameMode, Resolved,
};
use crate::path::HostPath;

verus! {

/// The name of something changed.
pub open spec fn is_rename(kind: RawEventKind) -> bool {
    kind is Modify && kind->Modify_0 is Name
}

/// Something changed, and not by its name.
pub open spec fn is_content(kind: RawEventKind) -> bool {
    kind is Modify && !(kind->Modify_0 is Name)
}

/// The normalized events that a raw event with a path may become: a creation becomes a creation of
/// the first path, a removal a removal of it, and a modification, or an event of which nothing is
/// known, a modification of it. A rename keeps the sides that it tells: the old one alone, the new
/// one alone, or the first path as the old and the second as the new one.
pub proof fn law_events_keep_their_kind_and_path(event: RawEvent, kind: HostEventKind)
    requires
        event.paths@.len() > 0,
        Some(kind@) == event.classified(),
    ensures
        event.kind is Create ==> (kind matches HostEventKind::Create { path } && path@
            == event.paths@[0]@),
        event.kind is Remove ==> (kind matches HostEventKind::Remove { path } && path@
            == event.paths@[0]@),
        event.kind is Any ==> (kind matches HostEventKind::Modify { path } && path@
            == event.paths@[0]@),
        is_content(event.kind) ==> (kind matches HostEventKind::Modify { path } && path@
            == event.paths@[0]@),
        event.kind == RawEventKind::Modify(ModifyKind::Name(RenameMode::From)) ==> (
        kind matches HostEventKind::Rename { from: Some(from), to: None } && from@
            == event.paths@[0]@),
        event.kind == RawEventKind::Modify(ModifyKind::Name(RenameMode::To)) ==> (
        kind matches HostEventKind::Rename { from: None, to: Some(to) } && to@
            == event.paths@[0]@),
        is_rename(event.kind) && event.kind != RawEventKind::Modify(
            ModifyKind::Name(RenameMode::From),
        ) && event.kind != RawEventKind::Modify(ModifyKind::Name(RenameMode::To)) ==> (kind matches HostEventKind::Rename { from: Some(from), to } && from@
            == event.paths@[0]@ && (event.paths@.len() > 1 ==> to is Some && to->0@
            == event.paths@[1]@) && (event.paths@.len() == 1 ==> to is None)),
        event.kind is Other ==> kind is Overflow,
        !(event.kind is Access),
{
}

/// Every event with a path is classified, unless it is an access. Without a path only a rename
/// and an event about the watch itself are.
pub proof fn law_what_is_classified(event: RawEvent)
    ensures
        event.paths@.len() > 0 ==> (event.classified() is Some <==> !(event.kind is Access)),
        event.paths@.len() == 0 ==> (event.classified() is Some <==> event.kind is Other
            || is_rename(event.kind)),
        event.paths@.len() == 0 && event.kind is Other ==> event.classified() == Some(
            HostEventView::Overflow,
        ),
        event.paths@.len() == 0 && event.kind is Modify && event.classified() is Some
            ==> event.classified() == Some(HostEventView::Rename { from: None, to: None }),
{
}

/// What a report with an event leads to. While events are known to be lost, an overflow is offered
/// first. An access leads to nothing more. Any other event with a path leads to an offer of its
/// own kind and with its own path, and one without a path, unless it is a rename, to an overflow.
/// Behind an offer that was refused comes one overflow, and nothing else is offered.
pub proof fn law_report_leads_to_its_event(pending: bool, event: RawEvent, offers: Offers)
    requires
        watcher::handled(pending, Ok(event), offers),
    ensures
        ({
            let ahead: int = if pending {
                1
            } else {
                0
            };
            &&& pending ==> offers.len() > 0 && offers[0].0 is Overflow
            &&& event.kind is Access ==> offers.len() == ahead
            &&& !(event.kind is Access) ==> {
                let offer = offers[ahead].0;
                &&& offers.len() == (if offers[ahead].1 {
                    ahead + 1
                } else {
                    ahead + 2
                })
                &&& !offers[ahead].1 ==> offers[ahead + 1].0 is Overflow
                &&& event.kind is Other ==> offer is Overflow
                &&& event.paths@.len() == 0 && !is_rename(event.kind) ==> offer is Overflow
                &&& event.paths@.len() > 0 ==> {
                    let first = event.paths@[0]@;
                    &&& event.kind is Create ==> offer == HostEventView::Create { path: first }
                    &&& event.kind is Remove ==> offer == HostEventView::Remove { path: first }
                    &&& event.kind is Any ==> offer == HostEventView::Modify { path: first }
                    &&& is_content(event.kind) ==> offer == HostEventView::Modify { path: first }
                    &&& is_rename(event.kind) ==> offer == (if event.kind == RawEventKind::Modify(
                        ModifyKind::Name(RenameMode::From),
                    ) {
                        HostEventView::Rename { from: Some(first), to: None }
                    } else if event.kind == RawEventKind::Modify(
                        ModifyKind::Name(RenameMode::To),
                    ) {
                        HostEventView::Rename { from: None, to: Some(first) }
                    } else if event.paths@.len() > 1 {
                        HostEventView::Rename {
                            from: Some(first),
                            to: Some(event.paths@[1]@),
                        }
                    } else {
                        HostEventView::Rename { from: Some(first), to: None }
                    })
                }
            }
        }),
{
}

/// A failure of the backend leads to one offer, of an overflow.
pub proof fn law_failure_leads_to_an_overflow(pending: bool, error: BackendError, offers: Offers)
    requires
        watcher::handled(pending, Err(error), offers),
    ensures
        offers.len() == 1,
        offers[0].0 is Overflow,
{
}

/// Whether the receiver is still to be told, told from the offers: something was refused behind
/// which the channel has taken no overflow.
pub proof fn law_loss_is_known_until_told(offers: Offers)
    ensures
        watcher::lost(offers) <==> exists|i: int|
            0 <= i < offers.len() && !(#[trigger] offers[i]).1 && forall|j: int|
                i < j < offers.len() ==> !((#[trigger] offers[j]).0 is Overflow && offers[j].1),
    decreases offers.len(),
{
    if watcher::lost(offers) {
        lemma_lost_at(offers);
    }
    if exists|i: int|
        0 <= i < offers.len() && !(#[trigger] offers[i]).1 && forall|j: int|
            i < j < offers.len() ==> !((#[trigger] offers[j]).0 is Overflow && offers[j].1) {
        let i = choose|i: int|
            0 <= i < offers.len() && !(#[trigger] offers[i]).1 && forall|j: int|
                i < j < offers.len() ==> !((#[trigger] offers[j]).0 is Overflow && offers[j].1);
        if !watcher::lost(offers) {
            watcher::law_refused_event_is_followed_by_overflow(offers, i);
        }
    }
}

/// Where something is lost, there is a refused offer that no overflow has made up for.
proof fn lemma_lost_at(offers: Offers)
    requires
        watcher::lost(offers),
    ensures
        exists|i: int|
            0 <= i < offers.len() && !(#[trigger] offers[i]).1 && forall|j: int|
                i < j < offers.len() ==> !((#[trigger] offers[j]).0 is Overflow && offers[j].1),
    decreases offers.len(),
{
    let last = offers.len() - 1;
    if !offers[last].1 {
        assert(!offers[last].1);
    } else {
        let shorter = offers.drop_last();
        lemma_lost_at(shorter);
        let i = choose|i: int|
            0 <= i < shorter.len() && !(#[trigger] shorter[i]).1 && forall|j: int|
                i < j < shorter.len() ==> !((#[trigger] shorter[j]).0 is Overflow
                    && shorter[j].1);
        assert(!offers[i].1);
        assert forall|j: int| i < j < offers.len() implies !((#[trigger] offers[j]).0 is Overflow
            && offers[j].1) by {
            if j < last {
                assert(offers[j] == shorter[j]);
            }
        }
    }
}

/// A normalized event stands for its kind and the bytes of its paths.
pub proof fn law_events_stand_for_their_bytes(a: HostPath, b: HostPath)
    ensures
        (HostEventKind::Modify { path: a })@ == (HostEventView::Modify { path: a@ }),
        (HostEventKind::Create { path: a })@ == (HostEventView::Create { path: a@ }),
        (HostEventKind::Remove { path: a })@ == (HostEventView::Remove { path: a@ }),
        (HostEventKind::Rename { from: Some(a), to: Some(b) })@ == (HostEventView::Rename {
            from: Some(a@),
            to: Some(b@),
        }),
        (HostEventKind::Rename { from: Some(a), to: None })@ == (HostEventView::Rename {
            from: Some(a@),
            to: None,
        }),
        (HostEventKind::Rename { from: None, to: Some(b) })@ == (HostEventView::Rename {
            from: None,
            to: Some(b@),
        }),
        (HostEventKind::Rename { from: None, to: None })@ == (HostEventView::Rename {
            from: None,
            to: None,
        }),
        HostEventKind::Overflow@ == HostEventView::Overflow,
        watcher::path_view(Some(a)) == Some(a@),
        watcher::path_view(None) is None,
{
}

/// An event is made from its kind and taken apart into it again.
pub proof fn law_event_and_kind(kind: HostEventKind)
    ensures
        <HostEvent as vstd::std_specs::convert::FromSpec<HostEventKind>>::obeys_from_spec(),
        <HostEvent as vstd::std_specs::convert::FromSpec<HostEventKind>>::from_spec(kind).kind
            == kind,
        <HostEventKind as vstd::std_specs::convert::TryFromSpec<HostEvent>>::obeys_try_from_spec(),
        <HostEventKind as vstd::std_specs::convert::TryFromSpec<HostEvent>>::try_from_spec(
            HostEvent { kind },
        ) == Ok::<HostEventKind, std::convert::Infallible>(kind),
{
}

/// Only a directory is watched, by the path that the shared directory resolves to. What does not
/// resolve is at fault itself, and what resolves to no directory is at fault by its resolved path.
pub proof fn law_only_directories_are_watched(
    shared: HostPath,
    path: HostPath,
    is_dir: bool,
)
    ensures
        watcher::watched(shared, Resolved::Missing) == Err::<HostPath, InvalidPath>(
            InvalidPath(shared),
        ),
        watcher::watched(shared, Resolved::Found { path, is_dir: true }) == Ok::<
            HostPath,
            InvalidPath,
        >(path),
        watcher::watched(shared, Resolved::Found { path, is_dir: false }) == Err::<
            HostPath,
            InvalidPath,
        >(InvalidPath(path)),
        watcher::watched(shared, Resolved::Found { path, is_dir }) is Ok <==> is_dir,
{
}

/// The paths of the directories in a listing, in order.
pub open spec fn dir_paths(listing: Seq<(Seq<u8>, bool)>) -> Seq<Seq<u8>> {
    listing.filter(|entry: (Seq<u8>, bool)| entry.1).map_values(
        |entry: (Seq<u8>, bool)| entry.0,
    )
}

/// The first entry of a listing comes first among its directories, if it is one.
proof fn lemma_dir_paths_first(listing: Seq<(Seq<u8>, bool)>)
    requires
        listing.len() > 0,
    ensures
        dir_paths(listing) == (if listing[0].1 {
            seq![listing[0].0]
        } else {
            Seq::empty()
        }) + dir_paths(listing.drop_first()),
{
    let pred = |entry: (Seq<u8>, bool)| entry.1;
    let first = seq![listing[0]];
    assert(first + listing.drop_first() =~= listing);
    Seq::filter_distributes_over_add(first, listing.drop_first(), pred);
    assert(first.filter(pred) =~= (if listing[0].1 {
        first
    } else {
        Seq::empty()
    })) by {
        reveal(Seq::filter);
        let none = Seq::<(Seq<u8>, bool)>::empty();
        assert(first.drop_last() =~= none);
        assert(none.filter(pred) =~= none);
        assert(first.last() == listing[0]);
    }
    assert(dir_paths(listing) =~= (if listing[0].1 {
        seq![listing[0].0]
    } else {
        Seq::empty()
    }) + dir_paths(listing.drop_first()));
}

/// What a listing adds to a scan. Its directories are counted up to eight thousand and one, and
/// they are put behind the directories still to list, in order, but for the one that reaches that
/// number and all behind it. What is no directory adds nothing.
pub proof fn law_listing_adds_its_directories(
    count: nat,
    stack: Seq<Seq<u8>>,
    listing: Seq<(Seq<u8>, bool)>,
)
    requires
        count <= 8001,
    ensures
        ({
            let dirs = dir_paths(listing);
            let (after, rest) = watcher::scanned(count, stack, listing);
            &&& after == (if count + dirs.len() <= 8001 {
                count + dirs.len()
            } else {
                8001
            })
            &&& rest == stack + dirs.take(
                if count + dirs.len() <= 8000 {
                    dirs.len() as int
                } else if count <= 8000 {
                    8000 - count
                } else {
                    0
                },
            )
        }),
    decreases listing.len(),
{
    let dirs = dir_paths(listing);
    let (after, rest) = watcher::scanned(count, stack, listing);
    if listing.len() == 0 {
        assert(dirs =~= Seq::<Seq<u8>>::empty()) by {
            reveal(Seq::filter);
        }
        assert(rest =~= stack + dirs.take(0));
    } else if count >= 8001 {
        assert(rest =~= stack + dirs.take(0));
    } else {
        lemma_dir_paths_first(listing);
        let others = dir_paths(listing.drop_first());
        if !listing[0].1 {
            law_listing_adds_its_directories(count, stack, listing.drop_first());
            assert(dirs =~= others);
        } else if count + 1 >= 8001 {
            assert(rest =~= stack + dirs.take(0));
        } else {
            let longer = stack.push(listing[0].0);
            law_listing_adds_its_directories(count + 1, longer, listing.drop_first());
            assert(dirs =~= seq![listing[0].0] + others);
            let n: int = if count + dirs.len() <= 8000 {
                dirs.len() as int
            } else {
                8000 - count
            };
            assert(rest =~= longer + others.take(n - 1));
            assert(stack + dirs.take(n) =~= longer + others.take(n - 1));
        }
    }
}

/// Lists of owned paths and entries stand for their bytes, one by one.
pub proof fn law_scan_lists_stand_for_their_bytes(
    paths: Seq<HostPath>,
    listing: Seq<(HostPath, bool)>,
)
    ensures
        watcher::paths_of(paths).len() == paths.len(),
        forall|i: int| 0 <= i < paths.len() ==> #[trigger] watcher::paths_of(paths)[i] == paths[i]@,
        watcher::listing_of(listing).len() == listing.len(),
        forall|i: int|
            0 <= i < listing.len() ==> #[trigger] watcher::listing_of(listing)[i] == (
                listing[i].0@,
                listing[i].1,
            ),
{
}

/// The sizes that the watch goes by: the room of the channel, and the number of directories from
/// which on there is a warning, which is one below the number at which counting stops.
pub proof fn law_sizes_of_the_watch()
    ensures
        watcher::EVENT_CHANNEL_SIZE == 4096,
        watcher::INOTIFY_WATCH_WARN_THRESHOLD == 8000,
        watcher::SCAN_CAP == 8001,
{
}

} // verus!
