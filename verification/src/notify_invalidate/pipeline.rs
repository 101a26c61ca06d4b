//! The way of host events to the guest, from the start of the watch on.

use vstd::prelude::*;

use crate::notify_invalidate::notifier;
use crate::notify_invalidate::notifier::Notifier;
use crate::notify_invalidate::translate;
use crate::notify_invalidate::translate::{Batch, Scene, TranslateError, Translator};
use crate::notify_invalidate::watcher;
use crate::notify_invalidate::watcher::{HostEvent, InvalidPath, Resolved};
use crate::passthrough::dentry_index::DentryIndex;
use crate::path::HostPath;
use crate::Inode;

verus! {

/// Dispatches host events for as long as the watch lives.
pub struct Pipeline<N: Notifier> {
    pub translator: Translator<N>,
}

impl<N: Notifier> Pipeline<N> {
    /// A pipeline for a watch that has just begun. What changed between the start of the daemon
    /// and that of the watch was not seen, so every inode that `index` knows is invalidated first.
    pub fn start(root_inode: Inode, shared_dir: HostPath, notifier: N, index: &DentryIndex) -> (r:
        Self)
        requires
            index.wf(),
        ensures
            r.translator.root_inode == root_inode,
            r.translator.shared_dir == shared_dir,
            ({
                let before = notifier.history();
                let after = r.translator.notifier.history();
                let scene = Scene { root: root_inode, shared: shared_dir@, entries: index@ };
                &&& before.is_prefix_of(after)
                &&& scene.is_bulk(translate::sent_of(after.skip(before.len() as int)))
            }),
    {
        let mut translator = Translator::new(root_inode, shared_dir, notifier);
        let _ = translator.bulk_invalidate(index);
        Pipeline { translator }
    }

    /// A pipeline for a watch that has just begun on what `shared_dir` resolves to. Events are
    /// reported by the path that is watched, so that one is taken for the shared directory, and
    /// not `shared_dir` itself, which may be a symbolic link. Where there is nothing to watch,
    /// nothing is sent, and the notifier comes back as it was.
    pub fn start_resolved(
        root_inode: Inode,
        shared_dir: HostPath,
        resolved: Resolved,
        notifier: N,
        index: &DentryIndex,
    ) -> (r: Result<Self, (InvalidPath, N)>)
        requires
            index.wf(),
        ensures
            match watcher::watched(shared_dir, resolved) {
                Err(invalid) => r == Err::<Self, (InvalidPath, N)>((invalid, notifier)),
                Ok(path) => {
                    &&& r is Ok
                    &&& r->Ok_0.translator.root_inode == root_inode
                    &&& r->Ok_0.translator.shared_dir == path
                    &&& ({
                        let before = notifier.history();
                        let after = r->Ok_0.translator.notifier.history();
                        let scene = Scene { root: root_inode, shared: path@, entries: index@ };
                        &&& before.is_prefix_of(after)
                        &&& scene.is_bulk(translate::sent_of(after.skip(before.len() as int)))
                    })
                },
            },
    {
        match watcher::watch_root(shared_dir, resolved) {
            Ok(path) => Ok(Pipeline::start(root_inode, path, notifier, index)),
            Err(invalid) => Err((invalid, notifier)),
        }
    }

    /// The first half of [`Pipeline::start_resolved`]: nothing is sent yet. The batch that comes
    /// with the pipeline is to be delivered before any other, and `index` is not needed for that.
    pub fn prepare_resolved(
        root_inode: Inode,
        shared_dir: HostPath,
        resolved: Resolved,
        notifier: N,
        index: &DentryIndex,
    ) -> (r: Result<(Self, Batch), (InvalidPath, N)>)
        requires
            index.wf(),
        ensures
            match watcher::watched(shared_dir, resolved) {
                Err(invalid) => r == Err::<(Self, Batch), (InvalidPath, N)>((invalid, notifier)),
                Ok(path) => {
                    &&& r is Ok
                    &&& r->Ok_0.0.translator.root_inode == root_inode
                    &&& r->Ok_0.0.translator.shared_dir == path
                    &&& r->Ok_0.0.translator.notifier == notifier
                    &&& r->Ok_0.1 matches Batch::Bulk(list) && (Scene {
                        root: root_inode,
                        shared: path@,
                        entries: index@,
                    }).is_bulk(notifier::views_of(list@))
                },
            },
    {
        match watcher::watch_root(shared_dir, resolved) {
            Ok(path) => {
                let translator = Translator::new(root_inode, path, notifier);
                let first = translator.prepare_bulk(index);
                Ok((Pipeline { translator }, first))
            },
            Err(invalid) => Err((invalid, notifier)),
        }
    }

    /// Dispatches one event. A failure concerns that event alone: the pipeline goes on with the
    /// next one as if it had been sent.
    pub fn dispatch(&mut self, event: HostEvent, index: &DentryIndex) -> (result: Result<
        (),
        TranslateError,
    >)
        requires
            index.wf(),
        ensures
            final(self).translator.same_setup(&old(self).translator),
            event.kind@ !is Overflow ==> translate::dispatched(
                old(self).translator.notifier.history(),
                old(self).translator.scene(index@).plan(event.kind@),
                final(self).translator.notifier.history(),
                result,
            ),
            event.kind@ is Overflow ==> {
                let before = old(self).translator.notifier.history();
                let after = final(self).translator.notifier.history();
                &&& result is Ok
                &&& before.is_prefix_of(after)
                &&& old(self).translator.scene(index@).is_bulk(
                    translate::sent_of(after.skip(before.len() as int)),
                )
            },
    {
        self.translator.handle(event, index)
    }
}

} // verus!
