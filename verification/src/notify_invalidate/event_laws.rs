//! What host events call for, told from the bytes of their paths and the entries of the index.

use vstd::prelude::*;

use crate::notify_invalidate::notifier::{History, NotificationView, Notifier};
use crate::notify_invalidate::translate;
use crate::notify_invalidate::translate::{Batch, Scene, TranslateError, Translator};
use crate::notify_invalidate::watcher::HostEventView;
use crate::passthrough::dentry_index;
use crate::passthrough::dentry_table::DentryKey;
use crate::passthrough::index_laws;
use crate::path;
use crate::path::ComponentView;
use crate::path_laws;
use crate::Inode;

verus! {

/// Each of the first steps has an entry that leads from one inode of `chain` to the next, and
/// there is no further step or none with an entry.
pub open spec fn followed(
    entries: Map<DentryKey, Inode>,
    steps: Seq<Seq<u8>>,
    chain: Seq<Inode>,
) -> bool {
    &&& 1 <= chain.len() <= steps.len() + 1
    &&& forall|i: int|
        0 <= i < chain.len() - 1 ==> entries.get((#[trigger] chain[i], steps[i])) == Some(
            chain[i + 1],
        )
    &&& chain.len() <= steps.len() ==> entries.get((chain.last(), steps[chain.len() - 1])) is None
}

/// The components of `path` are those of the shared directory and then `parts`.
proof fn lemma_relative(scene: Scene, path: Seq<u8>, parts: Seq<ComponentView>)
    requires
        path::components(path) == path::components(scene.shared) + parts,
    ensures
        scene.relative(path) == Some(parts),
{
    let base = path::components(scene.shared);
    let whole = path::components(path);
    assert(whole.take(base.len() as int) =~= base);
    assert(whole.skip(base.len() as int) =~= parts);
}

/// What a modification calls for. The names behind the shared directory are followed through the
/// index from its root. Where each has an entry, the inode at the end is invalidated; otherwise
/// nothing is.
pub proof fn law_modification(
    scene: Scene,
    path: Seq<u8>,
    parts: Seq<ComponentView>,
    chain: Seq<Inode>,
)
    requires
        path::components(path) == path::components(scene.shared) + parts,
        followed(scene.entries, path::normal_names(parts), chain),
        chain[0] == scene.root,
    ensures
        scene.plan(HostEventView::Modify { path }) == (if chain.len() > path::normal_names(
            parts,
        ).len() {
            seq![NotificationView::InvalInode { inode: chain.last() }]
        } else {
            Seq::empty()
        }),
{
    lemma_relative(scene, path, parts);
    index_laws::law_walk_follows_the_entries(scene.entries, path::normal_names(parts), chain);
}

/// What a creation calls for. Where the path ends in a name behind the shared directory and each
/// name before it has an entry, that name is invalidated under the inode at the end; otherwise
/// nothing is.
pub proof fn law_creation(
    scene: Scene,
    path: Seq<u8>,
    parts: Seq<ComponentView>,
    last: ComponentView,
    chain: Seq<Inode>,
)
    requires
        path::components(path) == path::components(scene.shared) + parts.push(last),
        followed(scene.entries, path::normal_names(parts), chain),
        chain[0] == scene.root,
    ensures
        scene.plan(HostEventView::Create { path }) == (match last {
            ComponentView::Normal(name) => if chain.len() > path::normal_names(parts).len() {
                seq![NotificationView::InvalEntry { parent: chain.last(), name }]
            } else {
                Seq::empty()
            },
            _ => Seq::empty(),
        }),
{
    lemma_relative(scene, path, parts.push(last));
    assert(parts.push(last).drop_last() =~= parts);
    index_laws::law_walk_follows_the_entries(scene.entries, path::normal_names(parts), chain);
}

/// What a removal calls for: what the creation of the same path calls for and then, where each
/// name behind the shared directory has an entry and they lead to another inode than the root,
/// the invalidation of that inode.
pub proof fn law_removal(
    scene: Scene,
    path: Seq<u8>,
    parts: Seq<ComponentView>,
    chain: Seq<Inode>,
)
    requires
        path::components(path) == path::components(scene.shared) + parts,
        followed(scene.entries, path::normal_names(parts), chain),
        chain[0] == scene.root,
    ensures
        scene.plan(HostEventView::Remove { path }) == scene.plan(HostEventView::Create { path })
            + (if chain.len() > path::normal_names(parts).len() && chain.last() != scene.root {
            seq![NotificationView::InvalInode { inode: chain.last() }]
        } else {
            Seq::empty()
        }),
{
    lemma_relative(scene, path, parts);
    index_laws::law_walk_follows_the_entries(scene.entries, path::normal_names(parts), chain);
}

/// What a rename calls for: what a creation of the old path and one of the new path call for, and
/// then what a removal of the old path calls for beyond a creation. A rename of which the old path
/// is missing is a creation of the new one, one of which the new path is missing is a removal of
/// the old one, and one without either calls for nothing.
pub proof fn law_rename(scene: Scene, from: Seq<u8>, to: Seq<u8>)
    ensures
        ({
            let left = scene.plan(HostEventView::Create { path: from });
            let gone = scene.plan(HostEventView::Remove { path: from });
            let arrived = scene.plan(HostEventView::Create { path: to });
            &&& gone.take(left.len() as int) == left
            &&& scene.plan(HostEventView::Rename { from: Some(from), to: Some(to) }) == left
                + arrived + gone.skip(left.len() as int)
            &&& scene.plan(HostEventView::Rename { from: Some(from), to: None }) == gone
            &&& scene.plan(HostEventView::Rename { from: None, to: Some(to) }) == arrived
            &&& scene.plan(HostEventView::Rename { from: None, to: None }) == Seq::<
                NotificationView,
            >::empty()
        }),
{
    let left = scene.plan(HostEventView::Create { path: from });
    let gone = scene.plan(HostEventView::Remove { path: from });
    let arrived = scene.plan(HostEventView::Create { path: to });
    assert(gone.take(left.len() as int) =~= left);
    assert(gone.skip(left.len() as int) =~= scene.on_gone(from));
    assert(scene.plan(HostEventView::Rename { from: Some(from), to: Some(to) }) =~= left + arrived
        + gone.skip(left.len() as int));
    assert(scene.plan(HostEventView::Rename { from: Some(from), to: None }) =~= gone);
    assert(scene.plan(HostEventView::Rename { from: None, to: Some(to) }) =~= arrived);
    assert(scene.plan(HostEventView::Rename { from: None, to: None }) =~= Seq::<
        NotificationView,
    >::empty());
}

/// An event at a path that does not begin with the components of the shared directory calls for
/// nothing, and neither does the creation of the shared directory itself.
pub proof fn law_outside(scene: Scene, path: Seq<u8>)
    ensures
        !path::components(scene.shared).is_prefix_of(path::components(path)) ==> {
            &&& scene.plan(HostEventView::Modify { path }) == Seq::<NotificationView>::empty()
            &&& scene.plan(HostEventView::Create { path }) == Seq::<NotificationView>::empty()
            &&& scene.plan(HostEventView::Remove { path }) == Seq::<NotificationView>::empty()
        },
        path::components(path) == path::components(scene.shared) ==> {
            &&& scene.plan(HostEventView::Modify { path }) == seq![
                NotificationView::InvalInode { inode: scene.root },
            ]
            &&& scene.plan(HostEventView::Create { path }) == Seq::<NotificationView>::empty()
            &&& scene.plan(HostEventView::Remove { path }) == Seq::<NotificationView>::empty()
        },
{
    if path::components(path) == path::components(scene.shared) {
        let none = Seq::<ComponentView>::empty();
        assert(path::components(scene.shared) + none =~= path::components(scene.shared));
        lemma_relative(scene, path, none);
        assert(path::normal_names(none) =~= Seq::<Seq<u8>>::empty());
    }
    if !path::components(scene.shared).is_prefix_of(path::components(path)) {
        assert(scene.plan(HostEventView::Remove { path }) =~= Seq::<NotificationView>::empty());
    } else if path::components(path) == path::components(scene.shared) {
        assert(scene.plan(HostEventView::Remove { path }) =~= Seq::<NotificationView>::empty());
    }
}

/// What the guest is told of an entry of which all names are known, at any depth below the shared
/// directory: a modification invalidates its inode, a creation its name under its parent, a
/// removal and a rename away first the name and then, unless it is the root, the inode.
pub proof fn law_known_entry(scene: Scene, names: Seq<Seq<u8>>, chain: Seq<Inode>)
    requires
        scene.shared.len() > 0,
        names.len() > 0,
        forall|i: int| 0 <= i < names.len() ==> path_laws::plain(#[trigger] names[i]),
        chain.len() == names.len() + 1,
        chain[0] == scene.root,
        forall|i: int|
            0 <= i < names.len() ==> scene.entries.get((chain[i], #[trigger] names[i])) == Some(
                chain[i + 1],
            ),
    ensures
        ({
            let path = path_laws::below(scene.shared, names);
            let inode = NotificationView::InvalInode { inode: chain.last() };
            let entry = NotificationView::InvalEntry {
                parent: chain[chain.len() - 2],
                name: names.last(),
            };
            let gone = if chain.last() != scene.root {
                seq![entry, inode]
            } else {
                seq![entry]
            };
            &&& scene.plan(HostEventView::Modify { path }) == seq![inode]
            &&& scene.plan(HostEventView::Create { path }) == seq![entry]
            &&& scene.plan(HostEventView::Remove { path }) == gone
            &&& scene.plan(HostEventView::Rename { from: Some(path), to: None }) == gone
            &&& scene.plan(HostEventView::Rename { from: None, to: Some(path) }) == seq![entry]
        }),
{
    let path = path_laws::below(scene.shared, names);
    let parts = Seq::new(names.len(), |i: int| ComponentView::Normal(names[i]));
    path_laws::law_components_below(scene.shared, names);
    assert forall|i: int| 0 <= i < chain.len() - 1 implies scene.entries.get(
        (#[trigger] chain[i], names[i]),
    ) == Some(chain[i + 1]) by {
        assert(path_laws::plain(names[i]));
    }
    law_modification(scene, path, parts, chain);
    law_removal(scene, path, parts, chain);
    lemma_last_is_announced(scene, names, chain.drop_last());
    law_rename(scene, path, path);
    let gone = scene.plan(HostEventView::Remove { path });
    let entry = NotificationView::InvalEntry {
        parent: chain[chain.len() - 2],
        name: names.last(),
    };
    let inode = NotificationView::InvalInode { inode: chain.last() };
    assert(gone =~= (if chain.last() != scene.root {
        seq![entry, inode]
    } else {
        seq![entry]
    }));
}

/// The creation of an entry whose parent is known.
proof fn lemma_last_is_announced(scene: Scene, names: Seq<Seq<u8>>, chain: Seq<Inode>)
    requires
        scene.shared.len() > 0,
        names.len() > 0,
        forall|i: int| 0 <= i < names.len() ==> path_laws::plain(#[trigger] names[i]),
        chain.len() == names.len(),
        chain[0] == scene.root,
        forall|i: int|
            0 <= i < chain.len() - 1 ==> scene.entries.get((#[trigger] chain[i], names[i])) == Some(
                chain[i + 1],
            ),
    ensures
        scene.plan(HostEventView::Create { path: path_laws::below(scene.shared, names) }) == seq![
            NotificationView::InvalEntry { parent: chain.last(), name: names.last() },
        ],
{
    let shorter = names.drop_last();
    let before = Seq::new(shorter.len(), |i: int| ComponentView::Normal(shorter[i]));
    let parts = Seq::new(names.len(), |i: int| ComponentView::Normal(names[i]));
    path_laws::law_components_below(scene.shared, names);
    assert forall|i: int| 0 <= i < shorter.len() implies path_laws::plain(
        #[trigger] shorter[i],
    ) by {
        assert(path_laws::plain(names[i]));
    }
    path_laws::law_components_below(scene.shared, shorter);
    assert(parts =~= before.push(ComponentView::Normal(names.last())));
    assert forall|i: int| 0 <= i < chain.len() - 1 implies scene.entries.get(
        (#[trigger] chain[i], shorter[i]),
    ) == Some(chain[i + 1]) by {
        assert(scene.entries.get((chain[i], names[i])) == Some(chain[i + 1]));
    }
    law_creation(
        scene,
        path_laws::below(scene.shared, names),
        before,
        ComponentView::Normal(names.last()),
        chain,
    );
}

/// What the guest is told of an entry of which it does not know all names, at any depth: a
/// modification calls for nothing. Where only the last name is missing, a creation, a removal and
/// either half of a rename invalidate that name under its parent, and where more are missing,
/// they call for nothing.
pub proof fn law_unknown_entry(scene: Scene, names: Seq<Seq<u8>>, chain: Seq<Inode>)
    requires
        scene.shared.len() > 0,
        forall|i: int| 0 <= i < names.len() ==> path_laws::plain(#[trigger] names[i]),
        1 <= chain.len() <= names.len(),
        chain[0] == scene.root,
        forall|i: int|
            0 <= i < chain.len() - 1 ==> scene.entries.get((#[trigger] chain[i], names[i])) == Some(
                chain[i + 1],
            ),
        scene.entries.get((chain.last(), names[chain.len() - 1])) is None,
    ensures
        ({
            let path = path_laws::below(scene.shared, names);
            let told = if chain.len() == names.len() {
                seq![NotificationView::InvalEntry { parent: chain.last(), name: names.last() }]
            } else {
                Seq::empty()
            };
            &&& scene.plan(HostEventView::Modify { path }) == Seq::<NotificationView>::empty()
            &&& scene.plan(HostEventView::Create { path }) == told
            &&& scene.plan(HostEventView::Remove { path }) == told
            &&& scene.plan(HostEventView::Rename { from: Some(path), to: None }) == told
            &&& scene.plan(HostEventView::Rename { from: None, to: Some(path) }) == told
        }),
{
    let path = path_laws::below(scene.shared, names);
    let parts = Seq::new(names.len(), |i: int| ComponentView::Normal(names[i]));
    path_laws::law_components_below(scene.shared, names);
    law_modification(scene, path, parts, chain);
    law_removal(scene, path, parts, chain);
    law_rename(scene, path, path);
    if chain.len() == names.len() {
        lemma_last_is_announced(scene, names, chain);
    } else {
        let shorter = names.drop_last();
        let before = Seq::new(shorter.len(), |i: int| ComponentView::Normal(shorter[i]));
        assert forall|i: int| 0 <= i < shorter.len() implies path_laws::plain(
            #[trigger] shorter[i],
        ) by {
            assert(path_laws::plain(names[i]));
        }
        path_laws::law_components_below(scene.shared, shorter);
        assert(parts =~= before.push(ComponentView::Normal(names.last())));
        assert forall|i: int| 0 <= i < chain.len() - 1 implies scene.entries.get(
            (#[trigger] chain[i], shorter[i]),
        ) == Some(chain[i + 1]) by {
            assert(scene.entries.get((chain[i], names[i])) == Some(chain[i + 1]));
        }
        law_creation(scene, path, before, ComponentView::Normal(names.last()), chain);
    }
    assert(scene.plan(HostEventView::Remove { path }) =~= scene.plan(
        HostEventView::Create { path },
    ));
}

/// The notification is the invalidation of an inode other than the root that some entry stands
/// for.
pub open spec fn names_a_known_inode(scene: Scene, n: NotificationView) -> bool {
    match n {
        NotificationView::InvalInode { inode } => {
            &&& inode != scene.root
            &&& exists|key: DentryKey| #[trigger] scene.entries.get(key) == Some(inode)
        },
        NotificationView::InvalEntry { .. } => false,
    }
}

/// A bulk invalidation, told inode by inode: everything sent is the invalidation of an inode that
/// some entry stands for and that is not the root, each such inode is among what is sent, and the
/// inodes ascend, so that none is sent twice.
pub proof fn law_bulk(scene: Scene, sent: Seq<NotificationView>)
    requires
        scene.is_bulk(sent),
    ensures
        forall|i: int| 0 <= i < sent.len() ==> names_a_known_inode(scene, #[trigger] sent[i]),
        forall|key: DentryKey| #[trigger]
            scene.entries.contains_key(key) && scene.entries[key] != scene.root
                ==> exists|i: int|
                0 <= i < sent.len() && #[trigger] sent[i] == (NotificationView::InvalInode {
                    inode: scene.entries[key],
                }),
        forall|i: int, j: int|
            0 <= i < j < sent.len() ==> (#[trigger] sent[i])->inode < (#[trigger] sent[j])->inode,
{
    assert forall|i: int| 0 <= i < sent.len() implies names_a_known_inode(
        scene,
        #[trigger] sent[i],
    ) by {
        let inode = sent[i]->inode;
        assert(sent[i] == NotificationView::InvalInode { inode });
        assert(sent.contains(NotificationView::InvalInode { inode }));
        let key = choose|key: DentryKey| #[trigger]
            scene.entries.dom().contains(key) && scene.entries[key] == inode;
        assert(scene.entries.get(key) == Some(inode));
    }
    assert forall|key: DentryKey| #[trigger]
        scene.entries.contains_key(key) && scene.entries[key] != scene.root implies exists|
        i: int,
    | 0 <= i < sent.len() && #[trigger] sent[i] == (NotificationView::InvalInode {
        inode: scene.entries[key],
    }) by {
        let inode = scene.entries[key];
        assert(scene.entries.contains_value(inode));
        assert(sent.contains(NotificationView::InvalInode { inode }));
    }
}

/// What dispatching a plan means, offer by offer. What was handed over before stays as it was. The
/// plan is handed over from its beginning and in order. Every notification but the last one that
/// was handed over was taken; where that one was taken too, all of the plan was handed over and
/// the result is a success, and where it was refused, the result is its error.
pub proof fn law_dispatch(
    before: History,
    plan: Seq<NotificationView>,
    after: History,
    result: Result<(), TranslateError>,
)
    requires
        translate::dispatched(before, plan, after, result),
    ensures
        before.len() <= after.len() <= before.len() + plan.len(),
        forall|i: int| 0 <= i < before.len() ==> #[trigger] after[i] == before[i],
        forall|i: int|
            before.len() <= i < after.len() ==> (#[trigger] after[i]).0 == plan[i - before.len()],
        forall|i: int| before.len() <= i < after.len() - 1 ==> (#[trigger] after[i]).1 is Ok,
        result is Ok ==> {
            &&& after.len() == before.len() + plan.len()
            &&& forall|i: int| before.len() <= i < after.len() ==> (#[trigger] after[i]).1 is Ok
        },
        result is Err ==> {
            &&& after.len() > before.len()
            &&& after.last().1 is Err
            &&& result == Err::<(), TranslateError>(TranslateError::Notifier(
                after.last().1->Err_0,
            ))
        },
{
    let n = before.len() as int;
    let sent = translate::sent_of(after.skip(n));
    assert forall|i: int| 0 <= i < before.len() implies #[trigger] after[i] == before[i] by {
        assert(after.take(n)[i] == after[i]);
    }
    assert forall|i: int| n <= i < after.len() implies (#[trigger] after[i]).0 == plan[i - n] by {
        assert(sent[i - n] == after[i].0);
        assert(plan.take(after.len() - n)[i - n] == plan[i - n]);
    }
}

/// What a delivery means: a plan is dispatched, and of a bulk every notification is handed over,
/// in order and whatever the answers, behind what was handed over before.
pub proof fn law_delivery(
    batch: Batch,
    before: History,
    after: History,
    result: Result<(), TranslateError>,
)
    requires
        batch.delivered(before, after, result),
    ensures
        match batch {
            Batch::Plan(list) => translate::dispatched(
                before,
                Seq::new(list@.len(), |i: int| list@[i]@),
                after,
                result,
            ),
            Batch::Bulk(list) => {
                &&& result is Ok
                &&& after.len() == before.len() + list@.len()
                &&& forall|i: int| 0 <= i < before.len() ==> #[trigger] after[i] == before[i]
                &&& forall|i: int|
                    before.len() <= i < after.len() ==> (#[trigger] after[i]).0
                        == list@[i - before.len()]@
            },
        },
{
    let n = before.len() as int;
    match batch {
        Batch::Plan(list) => {
            assert(crate::notify_invalidate::notifier::views_of(list@) =~= Seq::new(
                list@.len(),
                |i: int| list@[i]@,
            ));
        },
        Batch::Bulk(list) => {
            let sent = translate::sent_of(after.skip(n));
            assert(sent.len() == after.len() - n);
            assert forall|i: int| n <= i < after.len() implies (#[trigger] after[i]).0 == list@[i
                - n]@ by {
                assert(sent[i - n] == after[i].0);
            }
            assert forall|i: int| 0 <= i < before.len() implies #[trigger] after[i]
                == before[i] by {
                assert(after.take(n)[i] == after[i]);
            }
        },
    }
}

/// The notifications of a history are those that were handed over, one by one.
pub proof fn law_sent_notifications(history: History)
    ensures
        translate::sent_of(history).len() == history.len(),
        forall|i: int|
            0 <= i < history.len() ==> #[trigger] translate::sent_of(history)[i] == history[i].0,
{
}

/// A translator decides by its own root, its own shared directory and the index that it is given,
/// and has the same setup as another one exactly where both agree in the first two.
pub proof fn law_setup<N: Notifier>(
    a: Translator<N>,
    b: Translator<N>,
    entries: Map<DentryKey, Inode>,
)
    ensures
        a.scene(entries).root == a.root_inode,
        a.scene(entries).shared == a.shared_dir@,
        a.scene(entries).entries == entries,
        a.same_setup(&b) <==> a.root_inode == b.root_inode && a.shared_dir == b.shared_dir,
{
}

} // verus!
