//! What holds of the translation of host events, whatever the index knows.

use vstd::prelude::*;

use crate::notify_invalidate::notifier::{
    CapturingNotifier, History, NotificationView, Notifier,
};
use crate::notify_invalidate::translate;
use crate::notify_invalidate::translate::{Scene, TranslateError};
use crate::notify_invalidate::watcher::HostEventView;
use crate::passthrough::dentry_index;
use crate::passthrough::index_laws;
use crate::path;
use crate::path::ComponentView;
use crate::Inode;

verus! {

/// The path, if there is one, lies outside the shared directory.
pub open spec fn side_is_outside(scene: Scene, side: Option<Seq<u8>>) -> bool {
    match side {
        Some(path) => scene.relative(path) is None,
        None => true,
    }
}

/// Every path of the event lies outside the shared directory.
pub open spec fn is_outside(scene: Scene, event: HostEventView) -> bool {
    match event {
        HostEventView::Modify { path } => scene.relative(path) is None,
        HostEventView::Create { path } => scene.relative(path) is None,
        HostEventView::Remove { path } => scene.relative(path) is None,
        HostEventView::Rename { from, to } => side_is_outside(scene, from) && side_is_outside(
            scene,
            to,
        ),
        HostEventView::Overflow => false,
    }
}

/// An event about paths outside the shared directory calls for nothing.
pub proof fn law_outside_paths_are_ignored(scene: Scene, event: HostEventView)
    requires
        is_outside(scene, event),
    ensures
        scene.plan(event) == Seq::<NotificationView>::empty(),
{
    assert(scene.plan(event) =~= Seq::<NotificationView>::empty());
}

/// The names of a path below the shared directory that the guest has not looked up.
pub open spec fn unknown_names(scene: Scene, parts: Seq<ComponentView>) -> Seq<Seq<u8>> {
    dentry_index::walk(scene.entries, scene.root, path::normal_names(parts)).1
}

/// A name at the end is the last of the names.
proof fn lemma_last_name(parts: Seq<ComponentView>)
    requires
        parts.len() > 0,
    ensures
        parts.last() is Normal ==> path::normal_names(parts) == path::normal_names(
            parts.drop_last(),
        ).push(parts.last()->0),
        parts.last() !is Normal ==> path::normal_names(parts) == path::normal_names(
            parts.drop_last(),
        ),
{
}

/// A path in the shared directory with two or more names that the guest has not looked up calls
/// for nothing, whether something at that path was modified, created, removed or renamed.
pub proof fn law_unknown_subtree_is_ignored(scene: Scene, path: Seq<u8>)
    requires
        scene.relative(path) matches Some(parts) && unknown_names(scene, parts).len() >= 2,
    ensures
        scene.on_modify(path) == Seq::<NotificationView>::empty(),
        scene.on_parent_change(path) == Seq::<NotificationView>::empty(),
        scene.on_remove(path) == Seq::<NotificationView>::empty(),
{
    let parts = scene.relative(path)->0;
    let steps = path::normal_names(parts);
    if parts.len() > 0 {
        lemma_last_name(parts);
        if parts.last() is Normal {
            index_laws::law_walk_in_parts(
                scene.entries,
                scene.root,
                path::normal_names(parts.drop_last()),
                seq![parts.last()->0],
            );
            assert(steps =~= path::normal_names(parts.drop_last()) + seq![parts.last()->0]);
            let (reached, rest) = dentry_index::walk(
                scene.entries,
                scene.root,
                path::normal_names(parts.drop_last()),
            );
            if rest.len() == 0 {
                index_laws::law_walk_goes_as_deep_as_known(
                    scene.entries,
                    reached,
                    seq![parts.last()->0],
                );
            }
        }
    }
    assert(scene.on_remove(path) =~= Seq::<NotificationView>::empty());
}

/// A path of which the guest has looked up all but the last name is announced to its parent, by
/// the inode that the walk gives and the name that it leaves; its leaf calls for nothing.
pub proof fn law_unknown_leaf_is_announced_to_its_parent(scene: Scene, path: Seq<u8>)
    requires
        scene.relative(path) matches Some(parts) && parts.len() > 0 && parts.last() is Normal
            && unknown_names(scene, parts).len() == 1,
    ensures
        ({
            let (parent, rest) = dentry_index::walk(
                scene.entries,
                scene.root,
                path::normal_names(scene.relative(path)->0),
            );
            &&& scene.on_modify(path) == Seq::<NotificationView>::empty()
            &&& scene.on_parent_change(path) == seq![
                NotificationView::InvalEntry { parent, name: rest[0] },
            ]
            &&& scene.on_remove(path) == scene.on_parent_change(path)
        }),
{
    let parts = scene.relative(path)->0;
    let steps = path::normal_names(parts);
    lemma_last_name(parts);
    index_laws::law_one_name_left_is_below_the_parent(scene.entries, scene.root, steps);
    assert(steps.drop_last() =~= path::normal_names(parts.drop_last()));
    assert(scene.on_remove(path) =~= scene.on_parent_change(path));
}

/// Neither a removal nor a rename invalidates the inode of the shared directory.
pub proof fn law_root_is_spared(scene: Scene, event: HostEventView)
    requires
        event is Remove || event is Rename || event is Create,
    ensures
        !scene.plan(event).contains(NotificationView::InvalInode { inode: scene.root }),
{
    let n = NotificationView::InvalInode { inode: scene.root };
    let plan = scene.plan(event);
    assert forall|i: int| 0 <= i < plan.len() implies plan[i] != n by {
        match event {
            HostEventView::Remove { path } => {
                let first = scene.on_parent_change(path);
                if i >= first.len() {
                    assert(plan[i] == scene.on_gone(path)[i - first.len()]);
                }
            },
            HostEventView::Rename { from, to } => {
                let first = scene.on_side(from) + scene.on_side(to);
                if i >= first.len() {
                    assert(from is Some);
                    assert(plan[i] == scene.on_gone(from->0)[i - first.len()]);
                } else {
                    assert(plan[i] == first[i]);
                }
            },
            _ => {},
        }
    }
}

/// A single event calls for at most three notifications: one for a modification or a creation,
/// two for a removal, three for a rename.
pub proof fn law_few_notifications(scene: Scene, event: HostEventView)
    ensures
        scene.plan(event).len() <= (match event {
            HostEventView::Modify { .. } => 1nat,
            HostEventView::Create { .. } => 1,
            HostEventView::Remove { .. } => 2,
            HostEventView::Rename { .. } => 3,
            HostEventView::Overflow => 0,
        }),
{
}

/// A rename of which only the old path is known is a removal, and one of which only the new path
/// is known is a creation.
pub proof fn law_half_renames(scene: Scene, path: Seq<u8>)
    ensures
        scene.on_rename(Some(path), None) == scene.on_remove(path),
        scene.on_rename(None, Some(path)) == scene.on_parent_change(path),
        scene.on_rename(None, None) == Seq::<NotificationView>::empty(),
{
    assert(scene.on_rename(Some(path), None) =~= scene.on_remove(path));
    assert(scene.on_rename(None, Some(path)) =~= scene.on_parent_change(path));
    assert(scene.on_rename(None, None) =~= Seq::<NotificationView>::empty());
}

/// The inode is that of the shared directory, or the guest has looked it up.
pub open spec fn is_known(scene: Scene, inode: Inode) -> bool {
    inode == scene.root || scene.entries.contains_value(inode)
}

/// The inode that the notification is about.
pub open spec fn subject(n: NotificationView) -> Inode {
    match n {
        NotificationView::InvalInode { inode } => inode,
        NotificationView::InvalEntry { parent, .. } => parent,
    }
}

proof fn lemma_inode_at_is_known(scene: Scene, parts: Seq<ComponentView>)
    ensures
        scene.inode_at(parts) matches Some(inode) ==> is_known(scene, inode),
{
    index_laws::law_walk_ends_at_a_known_inode(
        scene.entries,
        scene.root,
        path::normal_names(parts),
    );
}

proof fn lemma_path_subjects(scene: Scene, path: Seq<u8>)
    ensures
        forall|i: int|
            0 <= i < scene.on_modify(path).len() ==> is_known(
                scene,
                subject(#[trigger] scene.on_modify(path)[i]),
            ),
        forall|i: int|
            0 <= i < scene.on_parent_change(path).len() ==> is_known(
                scene,
                subject(#[trigger] scene.on_parent_change(path)[i]),
            ),
        forall|i: int|
            0 <= i < scene.on_gone(path).len() ==> is_known(
                scene,
                subject(#[trigger] scene.on_gone(path)[i]),
            ),
{
    if let Some(parts) = scene.relative(path) {
        lemma_inode_at_is_known(scene, parts);
        if parts.len() > 0 {
            lemma_inode_at_is_known(scene, parts.drop_last());
        }
    }
}

/// Only what the guest knows is ever invalidated: every notification is about the inode of the
/// shared directory or about one that the guest has looked up.
pub proof fn law_only_known_inodes_are_invalidated(scene: Scene, event: HostEventView, i: int)
    requires
        0 <= i < scene.plan(event).len(),
    ensures
        is_known(scene, subject(scene.plan(event)[i])),
{
    let plan = scene.plan(event);
    match event {
        HostEventView::Modify { path } => {
            lemma_path_subjects(scene, path);
        },
        HostEventView::Create { path } => {
            lemma_path_subjects(scene, path);
        },
        HostEventView::Remove { path } => {
            lemma_path_subjects(scene, path);
            let first = scene.on_parent_change(path);
            if i >= first.len() {
                assert(plan[i] == scene.on_gone(path)[i - first.len()]);
            } else {
                assert(plan[i] == first[i]);
            }
        },
        HostEventView::Rename { from, to } => {
            if from is Some {
                lemma_path_subjects(scene, from->0);
            }
            if to is Some {
                lemma_path_subjects(scene, to->0);
            }
            let a = scene.on_side(from);
            let b = scene.on_side(to);
            if i < a.len() {
                assert(plan[i] == a[i]);
            } else if i < a.len() + b.len() {
                assert(plan[i] == b[i - a.len()]);
            } else {
                assert(plan[i] == scene.on_gone(from->0)[i - a.len() - b.len()]);
            }
        },
        HostEventView::Overflow => {},
    }
}

/// An overflow makes up for whatever was lost: any inode other than that of the shared directory
/// that some event would have invalidated is among those that the overflow invalidates.
pub proof fn law_overflow_covers_lost_events(
    scene: Scene,
    lost: HostEventView,
    sent: Seq<NotificationView>,
    inode: Inode,
)
    requires
        scene.is_bulk(sent),
        scene.plan(lost).contains(NotificationView::InvalInode { inode }),
        inode != scene.root,
    ensures
        sent.contains(NotificationView::InvalInode { inode }),
{
    let n = NotificationView::InvalInode { inode };
    let i = choose|i: int| 0 <= i < scene.plan(lost).len() && scene.plan(lost)[i] == n;
    law_only_known_inodes_are_invalidated(scene, lost, i);
}

/// A bulk invalidation names each inode once: as many as are known, without that of the shared
/// directory.
pub proof fn law_bulk_names_each_inode_once(scene: Scene, sent: Seq<NotificationView>)
    requires
        scene.is_bulk(sent),
    ensures
        sent.no_duplicates(),
        scene.entries.values().remove(scene.root).finite(),
        sent.len() == scene.entries.values().remove(scene.root).len(),
{
    let inodes = sent.map_values(|n: NotificationView| subject(n));
    assert forall|i: int, j: int| 0 <= i < sent.len() && 0 <= j < sent.len() && i
        != j implies inodes[i] != inodes[j] && sent[i] != sent[j] by {
        assert(sent[i] is InvalInode && sent[j] is InvalInode);
        if i < j {
            assert(sent[i]->inode < sent[j]->inode);
        } else {
            assert(sent[j]->inode < sent[i]->inode);
        }
    }
    let known = scene.entries.values().remove(scene.root);
    assert forall|inode: Inode| inodes.to_set().contains(inode) == known.contains(inode) by {
        let n = NotificationView::InvalInode { inode };
        assert(sent.contains(n) <==> scene.entries.contains_value(inode) && inode != scene.root);
        if inodes.contains(inode) {
            let i = choose|i: int| 0 <= i < inodes.len() && inodes[i] == inode;
            assert(sent[i] is InvalInode);
            assert(sent[i] == n);
        }
        if sent.contains(n) {
            let i = choose|i: int| 0 <= i < sent.len() && sent[i] == n;
            assert(inodes[i] == inode);
        }
    }
    assert(inodes.to_set() =~= known);
    vstd::seq_lib::seq_to_set_is_finite(inodes);
    inodes.unique_seq_to_set();
}

/// The shared directory is known by its own path.
pub proof fn law_shared_directory_is_the_root(scene: Scene)
    ensures
        scene.leaf(scene.shared) == Some(scene.root),
{
    let base = path::components(scene.shared);
    assert(base.skip(base.len() as int) =~= Seq::<ComponentView>::empty());
}

/// What is seen in a directory that the guest knows reaches the guest: a modified entry that it
/// has looked up is invalidated, and a created one is announced. With the shared directory for
/// the first directory, this goes down the whole tree.
pub proof fn law_change_below_a_known_directory_is_seen(
    scene: Scene,
    dir: Seq<u8>,
    at: Inode,
    name: Seq<u8>,
)
    requires
        dir.len() > 0,
        path::is_entry_name(name),
        scene.leaf(dir) == Some(at),
    ensures
        ({
            let path = path::joined(dir, name);
            &&& scene.leaf(path) == scene.entries.get((at, name))
            &&& scene.plan(HostEventView::Create { path }) == seq![
                NotificationView::InvalEntry { parent: at, name },
            ]
            &&& scene.entries.get((at, name)) matches Some(inode) ==> scene.plan(
                HostEventView::Modify { path },
            ) == seq![NotificationView::InvalInode { inode }]
        }),
{
    let path = path::joined(dir, name);
    path::law_joined_adds_a_component(dir, name);
    let base = path::components(scene.shared);
    let whole = path::components(path);
    let parts = scene.relative(dir)->0;
    assert(base.is_prefix_of(whole)) by {
        assert(whole.take(base.len() as int) =~= path::components(dir).take(base.len() as int));
    }
    let longer = whole.skip(base.len() as int);
    assert(longer =~= parts.push(ComponentView::Normal(name)));
    assert(longer.drop_last() =~= parts);
    let steps = path::normal_names(parts);
    assert(path::normal_names(longer) =~= steps + seq![name]);
    index_laws::law_walk_in_parts(scene.entries, scene.root, steps, seq![name]);
    reveal_with_fuel(dentry_index::walk, 2);
}

/// A capturing notifier takes every notification, so an event other than an overflow is dispatched
/// in full: what waits to be drained grows by what the event calls for.
pub proof fn law_capturing_notifier_gets_the_plan(
    before: CapturingNotifier,
    plan: Seq<NotificationView>,
    after: CapturingNotifier,
    result: Result<(), TranslateError>,
)
    requires
        translate::dispatched(before.history(), plan, after.history(), result),
    ensures
        result is Ok,
        after.captured() == before.captured() + plan,
{
    let n = before.history().len() as int;
    let sent = translate::sent_of(after.history().skip(n));
    if after.history().len() > 0 {
        assert(after.history().last().1 is Ok);
    }
    assert(sent =~= plan);
    assert forall|i: int| 0 <= i < after.captured().len() implies after.captured()[i] == (
    before.captured() + plan)[i] by {
        if i < n {
            assert(after.history().take(n)[i] == before.history()[i]);
        } else {
            assert(sent[i - n] == after.captured()[i]);
        }
    }
    assert(after.captured() =~= before.captured() + plan);
}

/// After an overflow, what waits to be drained by a capturing notifier has grown by an
/// invalidation of every known inode but that of the shared directory.
pub proof fn law_capturing_notifier_gets_the_bulk(
    scene: Scene,
    before: CapturingNotifier,
    after: CapturingNotifier,
)
    requires
        before.history().is_prefix_of(after.history()),
        scene.is_bulk(
            translate::sent_of(after.history().skip(before.history().len() as int)),
        ),
    ensures
        before.captured().is_prefix_of(after.captured()),
        scene.is_bulk(after.captured().skip(before.captured().len() as int)),
{
    let n = before.history().len() as int;
    assert(translate::sent_of(after.history().skip(n)) =~= after.captured().skip(n));
    assert forall|i: int| 0 <= i < n implies before.captured()[i] == after.captured()[i] by {
        assert(before.history()[i] == after.history().take(n)[i]);
    }
    assert(before.captured() =~= after.captured().take(n));
}

/// Everything that was handed over after `before` was taken.
pub open spec fn all_taken(before: History, after: History) -> bool {
    forall|i: int| before.len() <= i < after.len() ==> (#[trigger] after[i]).1 is Ok
}

/// A notifier that takes everything is handed the whole plan, in order, and the event succeeds.
pub proof fn law_accepting_notifier_gets_the_plan(
    before: History,
    plan: Seq<NotificationView>,
    after: History,
    result: Result<(), TranslateError>,
)
    requires
        translate::dispatched(before, plan, after, result),
        all_taken(before, after),
    ensures
        result is Ok,
        translate::sent_of(after.skip(before.len() as int)) == plan,
{
    assert(plan.take(plan.len() as int) =~= plan);
    if after.len() > before.len() {
        assert(after[after.len() - 1].1 is Ok);
    }
}

/// Handling an event leaves the index alone, so the same event again calls for the same: a
/// notifier that takes everything is sent the same notifications once more, in the same order.
pub proof fn law_repeated_event_sends_the_same(
    scene: Scene,
    event: HostEventView,
    start: History,
    middle: History,
    end: History,
    results: (Result<(), TranslateError>, Result<(), TranslateError>),
)
    requires
        translate::dispatched(start, scene.plan(event), middle, results.0),
        translate::dispatched(middle, scene.plan(event), end, results.1),
        all_taken(start, middle),
        all_taken(middle, end),
    ensures
        results.0 is Ok,
        results.1 is Ok,
        translate::sent_of(middle.skip(start.len() as int)) == translate::sent_of(
            end.skip(middle.len() as int),
        ),
{
    law_accepting_notifier_gets_the_plan(start, scene.plan(event), middle, results.0);
    law_accepting_notifier_gets_the_plan(middle, scene.plan(event), end, results.1);
}

/// Before any place in a bulk stand exactly the smaller ones of its inodes.
proof fn lemma_bulk_shorter(scene: Scene, sent: Seq<NotificationView>, k: int, inode: Inode)
    requires
        scene.is_bulk(sent),
        0 <= k < sent.len(),
    ensures
        sent.take(k).contains(NotificationView::InvalInode { inode }) <==> sent.contains(
            NotificationView::InvalInode { inode },
        ) && inode < sent[k]->inode,
{
    let n = NotificationView::InvalInode { inode };
    if sent.take(k).contains(n) {
        let i = choose|i: int| 0 <= i < k && sent.take(k)[i] == n;
        assert(sent[i] == n);
        assert(sent[i]->inode < sent[k]->inode);
    }
    if sent.contains(n) && inode < sent[k]->inode {
        let i = choose|i: int| 0 <= i < sent.len() && sent[i] == n;
        if i >= k {
            assert(i == k || sent[k]->inode < sent[i]->inode);
        }
        assert(sent.take(k)[i] == n);
    }
}

/// An overflow calls for one sequence of notifications only, so a second one sends the same again.
pub proof fn law_bulk_is_determined(
    scene: Scene,
    a: Seq<NotificationView>,
    b: Seq<NotificationView>,
)
    requires
        scene.is_bulk(a),
        scene.is_bulk(b),
    ensures
        a == b,
{
    law_bulk_names_each_inode_once(scene, a);
    law_bulk_names_each_inode_once(scene, b);
    assert forall|k: int| 0 <= k < a.len() implies a[k] == b[k] by {
        lemma_bulk_position(scene, a, b, k);
    }
    assert(a =~= b);
}

/// Two bulks agree up to and at any place.
proof fn lemma_bulk_position(
    scene: Scene,
    a: Seq<NotificationView>,
    b: Seq<NotificationView>,
    k: int,
)
    requires
        scene.is_bulk(a),
        scene.is_bulk(b),
        a.len() == b.len(),
        0 <= k < a.len(),
    ensures
        a[k] == b[k],
    decreases k,
{
    let x = a[k]->inode;
    let y = b[k]->inode;
    assert(a[k] is InvalInode && b[k] is InvalInode);
    assert(a.contains(a[k]) && b.contains(b[k]));
    assert(a[k] == NotificationView::InvalInode { inode: x });
    assert(b[k] == NotificationView::InvalInode { inode: y });
    assert(b.contains(NotificationView::InvalInode { inode: x }));
    assert(a.contains(NotificationView::InvalInode { inode: y }));
    if x < y {
        lemma_bulk_shorter(scene, b, k, x);
        let i = choose|i: int| 0 <= i < k && b.take(k)[i] == NotificationView::InvalInode {
            inode: x,
        };
        lemma_bulk_position(scene, a, b, i);
        assert(a[i]->inode < a[k]->inode);
    }
    if y < x {
        lemma_bulk_shorter(scene, a, k, y);
        let i = choose|i: int| 0 <= i < k && a.take(k)[i] == NotificationView::InvalInode {
            inode: y,
        };
        lemma_bulk_position(scene, a, b, i);
        assert(b[i]->inode < b[k]->inode);
    }
}

/// A modification calls for one notification exactly where the path lies in the shared directory
/// and all of its names are known: the invalidation of the inode that they lead to. Otherwise it
/// calls for nothing, not even for a word to a parent that is known. The shared directory itself
/// is its root.
pub proof fn law_modify_policy(scene: Scene, path: Seq<u8>)
    ensures
        match scene.relative(path) {
            Some(parts) => {
                let (inode, rest) = dentry_index::walk(
                    scene.entries,
                    scene.root,
                    path::normal_names(parts),
                );
                scene.on_modify(path) == (if rest.len() == 0 {
                    seq![NotificationView::InvalInode { inode }]
                } else {
                    Seq::empty()
                })
            },
            None => scene.on_modify(path) == Seq::<NotificationView>::empty(),
        },
        scene.on_modify(scene.shared) == seq![NotificationView::InvalInode { inode: scene.root }],
{
    law_shared_directory_is_the_root(scene);
}

/// A creation, and the entry's side of a removal, calls for one notification exactly where the
/// path lies strictly below the shared directory, ends in a name, and has a parent that is known:
/// the invalidation of that name under that parent. Otherwise it calls for nothing.
pub proof fn law_parent_change_policy(scene: Scene, path: Seq<u8>)
    ensures
        match scene.relative(path) {
            Some(parts) => {
                let (parent, rest) = dentry_index::walk(
                    scene.entries,
                    scene.root,
                    path::normal_names(parts.drop_last()),
                );
                scene.on_parent_change(path) == (if parts.len() > 0 && parts.last() is Normal
                    && rest.len() == 0 {
                    seq![NotificationView::InvalEntry { parent, name: parts.last()->0 }]
                } else {
                    Seq::empty()
                })
            },
            None => scene.on_parent_change(path) == Seq::<NotificationView>::empty(),
        },
{
}

/// Of a changed entry only the parent counts: whether the guest has looked up the entry itself
/// makes no difference, as long as the way to the parent is the same.
pub proof fn law_only_the_parent_counts(a: Scene, b: Scene, path: Seq<u8>)
    requires
        a.root == b.root,
        a.shared == b.shared,
        a.relative(path) matches Some(parts) ==> a.inode_at(parts.drop_last()) == b.inode_at(
            parts.drop_last(),
        ),
    ensures
        a.on_parent_change(path) == b.on_parent_change(path),
{
}

/// A rename calls for what either side calls for in its parent, the old one first, and then for
/// the invalidation of the inode exactly where that is known by its old path and is not that of
/// the shared directory. An inode that is known by its new path alone is not invalidated.
pub proof fn law_rename_policy(scene: Scene, from: Option<Seq<u8>>, to: Option<Seq<u8>>)
    ensures
        ({
            let entries = scene.on_side(from) + scene.on_side(to);
            let inode = match from {
                Some(path) => scene.gone(path),
                None => None,
            };
            &&& scene.on_rename(from, to) == entries + (match inode {
                Some(inode) => seq![NotificationView::InvalInode { inode }],
                None => Seq::empty(),
            })
            &&& forall|i: int| 0 <= i < entries.len() ==> (#[trigger] entries[i]) is InvalEntry
        }),
{
    let entries = scene.on_side(from) + scene.on_side(to);
    assert forall|i: int| 0 <= i < entries.len() implies (#[trigger] entries[i]) is InvalEntry by {
        if i < scene.on_side(from).len() {
            assert(entries[i] == scene.on_side(from)[i]);
        } else {
            assert(entries[i] == scene.on_side(to)[i - scene.on_side(from).len()]);
        }
    }
}

} // verus!
