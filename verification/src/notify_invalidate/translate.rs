//! From normalized host events to notifications.
//!
//! * A modified path whose inode is known calls for an invalidation of that inode. Where the leaf
//!   is not known, the guest has not cached it and nothing can be stale.
//! * A created or removed entry whose parent is known calls for an invalidation of that entry, so
//!   that the guest lists the parent anew. A removed entry whose inode is known calls for an
//!   invalidation of that inode too.
//! * A renamed entry is treated as removed from one place and created in another; its inode, if
//!   known, is invalidated last.
//! * After an overflow every inode that the index has seen is invalidated.

use vstd::prelude::*;

use crate::notify_invalidate::notifier;
use crate::notify_invalidate::notifier::{
    History, Notification, NotificationView, Notifier, NotifierError,
};
use crate::notify_invalidate::watcher;
use crate::notify_invalidate::watcher::{HostEvent, HostEventKind, HostEventView};
use crate::passthrough::dentry_index;
use crate::passthrough::dentry_index::DentryIndex;
use crate::passthrough::dentry_table::DentryKey;
use crate::path;
use crate::path::{ComponentView, HostPath, PathComponent};
use crate::{Inode, Name};

verus! {

/// Why an event could not be dispatched.
#[derive(Debug)]
pub enum TranslateError {
    /// A notification was not sent.
    Notifier(NotifierError),
    /// An I/O error.
    Io(std::io::Error),
}

impl TranslateError {
    /// What the error says, other than by the text of an underlying I/O error.
    pub open spec fn words(self) -> Option<Seq<char>> {
        match self {
            TranslateError::Notifier(e) => e.words(),
            TranslateError::Io(_) => None,
        }
    }

    /// The message of the error; nothing where it is that of an underlying I/O error.
    pub fn message(&self) -> (r: Option<String>)
        ensures
            r is Some <==> self.words() is Some,
            r matches Some(message) ==> Some(message@) == self.words(),
    {
        match self {
            TranslateError::Notifier(e) => e.message(),
            TranslateError::Io(_) => None,
        }
    }
}

impl From<NotifierError> for TranslateError {
    fn from(e: NotifierError) -> (r: Self) {
        TranslateError::Notifier(e)
    }
}

impl vstd::std_specs::convert::FromSpecImpl<NotifierError> for TranslateError {
    open spec fn obeys_from_spec() -> bool {
        true
    }

    open spec fn from_spec(e: NotifierError) -> Self {
        TranslateError::Notifier(e)
    }
}

/// What the translation of an event depends on besides the event.
pub struct Scene {
    /// Inode of the shared directory.
    pub root: Inode,
    /// Path of the shared directory.
    pub shared: Seq<u8>,
    /// What the guest has looked up.
    pub entries: Map<DentryKey, Inode>,
}

impl Scene {
    /// The components of `path` below the shared directory; none where it is outside.
    pub open spec fn relative(self, path: Seq<u8>) -> Option<Seq<ComponentView>> {
        let base = path::components(self.shared);
        let whole = path::components(path);
        if base.is_prefix_of(whole) {
            Some(whole.skip(base.len() as int))
        } else {
            None
        }
    }

    /// The inode that the names among `parts` lead to from the shared directory, if all of them
    /// are known.
    pub open spec fn inode_at(self, parts: Seq<ComponentView>) -> Option<Inode> {
        let (inode, rest) = dentry_index::walk(
            self.entries,
            self.root,
            path::normal_names(parts),
        );
        if rest.len() == 0 {
            Some(inode)
        } else {
            None
        }
    }

    /// The inode of `path`, if it lies in the shared directory and is known.
    pub open spec fn leaf(self, path: Seq<u8>) -> Option<Inode> {
        match self.relative(path) {
            Some(parts) => self.inode_at(parts),
            None => None,
        }
    }

    /// What calls for an invalidation of the inode of `path`.
    pub open spec fn on_modify(self, path: Seq<u8>) -> Seq<NotificationView> {
        match self.leaf(path) {
            Some(inode) => seq![NotificationView::InvalInode { inode }],
            None => Seq::empty(),
        }
    }

    /// What a change of the entry at `path` calls for in its parent.
    pub open spec fn on_parent_change(self, path: Seq<u8>) -> Seq<NotificationView> {
        match self.relative(path) {
            Some(parts) => if parts.len() > 0 {
                match (parts.last(), self.inode_at(parts.drop_last())) {
                    (ComponentView::Normal(name), Some(parent)) => seq![
                        NotificationView::InvalEntry { parent, name },
                    ],
                    _ => Seq::empty(),
                }
            } else {
                Seq::empty()
            },
            None => Seq::empty(),
        }
    }

    /// The inode of `path`, if it is known and not that of the shared directory.
    pub open spec fn gone(self, path: Seq<u8>) -> Option<Inode> {
        match self.leaf(path) {
            Some(inode) => if inode != self.root {
                Some(inode)
            } else {
                None
            },
            None => None,
        }
    }

    /// What the departure of the inode at `path` calls for.
    pub open spec fn on_gone(self, path: Seq<u8>) -> Seq<NotificationView> {
        match self.gone(path) {
            Some(inode) => seq![NotificationView::InvalInode { inode }],
            None => Seq::empty(),
        }
    }

    /// What the removal of `path` calls for.
    pub open spec fn on_remove(self, path: Seq<u8>) -> Seq<NotificationView> {
        self.on_parent_change(path) + self.on_gone(path)
    }

    /// What one side of a rename calls for in its parent.
    pub open spec fn on_side(self, side: Option<Seq<u8>>) -> Seq<NotificationView> {
        match side {
            Some(path) => self.on_parent_change(path),
            None => Seq::empty(),
        }
    }

    /// What a rename calls for.
    pub open spec fn on_rename(self, from: Option<Seq<u8>>, to: Option<Seq<u8>>) -> Seq<
        NotificationView,
    > {
        self.on_side(from) + self.on_side(to) + (match from {
            Some(path) => self.on_gone(path),
            None => Seq::empty(),
        })
    }

    /// What an event other than an overflow calls for.
    pub open spec fn plan(self, event: HostEventView) -> Seq<NotificationView> {
        match event {
            HostEventView::Modify { path } => self.on_modify(path),
            HostEventView::Create { path } => self.on_parent_change(path),
            HostEventView::Remove { path } => self.on_remove(path),
            HostEventView::Rename { from, to } => self.on_rename(from, to),
            HostEventView::Overflow => Seq::empty(),
        }
    }

    /// `sent` invalidates every known inode but that of the shared directory, each once and in
    /// ascending order.
    pub open spec fn is_bulk(self, sent: Seq<NotificationView>) -> bool {
        &&& forall|i: int| 0 <= i < sent.len() ==> (#[trigger] sent[i]) is InvalInode
        &&& forall|i: int, j: int|
            0 <= i < j < sent.len() ==> (#[trigger] sent[i])->inode < (#[trigger] sent[j])->inode
        &&& forall|inode: Inode| #[trigger]
            sent.contains(NotificationView::InvalInode { inode })
                <==> self.entries.contains_value(inode) && inode != self.root
    }
}

/// The notifications of `history`, without the answers.
pub open spec fn sent_of(history: History) -> Seq<NotificationView> {
    history.map_values(|entry: (NotificationView, Result<(), NotifierError>)| entry.0)
}

/// `plan` was handed over one by one until it was done or one was refused, and `result` tells
/// which.
pub open spec fn dispatched(
    before: History,
    plan: Seq<NotificationView>,
    after: History,
    result: Result<(), TranslateError>,
) -> bool {
    let n = after.len() - before.len();
    &&& 0 <= n <= plan.len()
    &&& after.take(before.len() as int) == before
    &&& sent_of(after.skip(before.len() as int)) == plan.take(n)
    &&& forall|i: int| before.len() <= i < after.len() - 1 ==> (#[trigger] after[i]).1 is Ok
    &&& match result {
        Ok(()) => n == plan.len() && (n > 0 ==> after.last().1 is Ok),
        Err(TranslateError::Notifier(e)) => n > 0 && after.last().1 == Err::<(), NotifierError>(e),
        Err(TranslateError::Io(_)) => false,
    }
}

/// Notifications that wait to be handed over.
pub enum Batch {
    /// What an event calls for. It is handed over until it is done or one is refused.
    Plan(Vec<Notification>),
    /// What an overflow calls for. All of it is handed over, whatever is refused.
    Bulk(Vec<Notification>),
}

impl Batch {
    /// The batch was handed over: a plan until it was done or one was refused, all of a bulk.
    pub open spec fn delivered(
        self,
        before: History,
        after: History,
        result: Result<(), TranslateError>,
    ) -> bool {
        match self {
            Batch::Plan(list) => dispatched(before, notifier::views_of(list@), after, result),
            Batch::Bulk(list) => {
                &&& result is Ok
                &&& before.is_prefix_of(after)
                &&& sent_of(after.skip(before.len() as int)) == notifier::views_of(list@)
            },
        }
    }
}

/// Turns host events into notifications.
pub struct Translator<N: Notifier> {
    /// Inode of the shared directory.
    pub root_inode: Inode,
    /// Path of the shared directory.
    pub shared_dir: HostPath,
    /// Where notifications go.
    pub notifier: N,
}

impl<N: Notifier> Translator<N> {
    /// What the translation of an event depends on, with the index `entries`.
    pub open spec fn scene(&self, entries: Map<DentryKey, Inode>) -> Scene {
        Scene { root: self.root_inode, shared: self.shared_dir@, entries }
    }

    /// The translator is set up as `other` is, whatever was sent in between.
    pub open spec fn same_setup(&self, other: &Self) -> bool {
        &&& self.root_inode == other.root_inode
        &&& self.shared_dir == other.shared_dir
    }

    /// A translator for the directory `shared_dir`, whose inode is `root_inode`.
    pub fn new(root_inode: Inode, shared_dir: HostPath, notifier: N) -> (r: Self)
        ensures
            r.root_inode == root_inode,
            r.shared_dir == shared_dir,
            r.notifier == notifier,
    {
        Translator { root_inode, shared_dir, notifier }
    }

    /// Processes one normalized event against `index`.
    pub fn handle(&mut self, event: HostEvent, index: &DentryIndex) -> (result: Result<
        (),
        TranslateError,
    >)
        requires
            index.wf(),
        ensures
            final(self).same_setup(old(self)),
            event.kind@ !is Overflow ==> dispatched(
                old(self).notifier.history(),
                old(self).scene(index@).plan(event.kind@),
                final(self).notifier.history(),
                result,
            ),
            event.kind@ is Overflow ==> {
                let before = old(self).notifier.history();
                let after = final(self).notifier.history();
                &&& result is Ok
                &&& before.is_prefix_of(after)
                &&& old(self).scene(index@).is_bulk(sent_of(after.skip(before.len() as int)))
            },
    {
        match event.kind {
            HostEventKind::Modify { path } => self.handle_modify(&path, index),
            HostEventKind::Create { path } => self.handle_parent_change(&path, index),
            HostEventKind::Remove { path } => self.handle_remove(&path, index),
            HostEventKind::Rename { from, to } => self.handle_rename(&from, &to, index),
            HostEventKind::Overflow => self.bulk_invalidate(index),
        }
    }

    /// What one normalized event calls for, without handing it over. With [`Translator::deliver`]
    /// this does what [`Translator::handle`] does, and needs `index` for the first half only.
    pub fn prepare(&self, event: HostEvent, index: &DentryIndex) -> (r: Batch)
        requires
            index.wf(),
        ensures
            match r {
                Batch::Plan(list) => event.kind@ !is Overflow && notifier::views_of(list@)
                    == self.scene(index@).plan(event.kind@),
                Batch::Bulk(list) => event.kind@ is Overflow && self.scene(index@).is_bulk(
                    notifier::views_of(list@),
                ),
            },
    {
        match event.kind {
            HostEventKind::Modify { path } => Batch::Plan(self.plan_modify(&path, index)),
            HostEventKind::Create { path } => Batch::Plan(self.plan_parent_change(&path, index)),
            HostEventKind::Remove { path } => Batch::Plan(self.plan_remove(&path, index)),
            HostEventKind::Rename { from, to } => Batch::Plan(self.plan_rename(&from, &to, index)),
            HostEventKind::Overflow => self.prepare_bulk(index),
        }
    }

    /// Hands over a batch.
    pub fn deliver(&mut self, batch: Batch) -> (result: Result<(), TranslateError>)
        ensures
            final(self).same_setup(old(self)),
            batch.delivered(
                old(self).notifier.history(),
                final(self).notifier.history(),
                result,
            ),
    {
        match batch {
            Batch::Plan(list) => self.deliver_plan(list),
            Batch::Bulk(list) => {
                self.deliver_bulk(list);
                Ok(())
            },
        }
    }

    /// Hands over `list` until it is done or one is refused.
    fn deliver_plan(&mut self, list: Vec<Notification>) -> (result: Result<(), TranslateError>)
        ensures
            final(self).same_setup(old(self)),
            dispatched(
                old(self).notifier.history(),
                notifier::views_of(list@),
                final(self).notifier.history(),
                result,
            ),
    {
        let ghost before = self.notifier.history();
        let ghost plan = notifier::views_of(list@);
        let ghost all = list@;
        assert(before.take(before.len() as int) =~= before);
        assert(sent_of(before.skip(before.len() as int)) =~= plan.take(0));
        for notification in it: list
            invariant
                it.seq() == all,
                plan == notifier::views_of(all),
                self.same_setup(old(self)),
                before == old(self).notifier.history(),
                self.notifier.history().len() == before.len() + it.index(),
                self.notifier.history().take(before.len() as int) == before,
                sent_of(self.notifier.history().skip(before.len() as int)) == plan.take(
                    it.index() as int,
                ),
                forall|i: int|
                    before.len() <= i < self.notifier.history().len() ==> (
                    #[trigger] self.notifier.history()[i]).1 is Ok,
        {
            let ghost start = self.notifier.history();
            let ghost n = notification@;
            let ghost k = it.index() as int;
            let answer = self.notifier.send(notification);
            proof {
                let now = self.notifier.history();
                assert(now.take(before.len() as int) =~= start.take(before.len() as int));
                assert(plan.take(k + 1) =~= plan.take(k).push(n));
                assert(sent_of(now.skip(before.len() as int)) =~= sent_of(
                    start.skip(before.len() as int),
                ).push(n));
            }
            match answer {
                Ok(()) => {},
                Err(e) => {
                    return Err(TranslateError::from(e));
                },
            }
        }
        assert(plan.take(plan.len() as int) =~= plan);
        Ok(())
    }

    /// Hands over all of `list`, whatever is refused.
    fn deliver_bulk(&mut self, list: Vec<Notification>)
        ensures
            final(self).same_setup(old(self)),
            old(self).notifier.history().is_prefix_of(final(self).notifier.history()),
            sent_of(
                final(self).notifier.history().skip(old(self).notifier.history().len() as int),
            ) == notifier::views_of(list@),
    {
        let ghost before = self.notifier.history();
        let ghost views = notifier::views_of(list@);
        let ghost all = list@;
        assert(sent_of(before.skip(before.len() as int)) =~= views.take(0));
        for notification in it: list
            invariant
                it.seq() == all,
                views == notifier::views_of(all),
                self.same_setup(old(self)),
                before == old(self).notifier.history(),
                before.is_prefix_of(self.notifier.history()),
                sent_of(self.notifier.history().skip(before.len() as int)) == views.take(
                    it.index() as int,
                ),
        {
            let ghost start = self.notifier.history();
            let ghost n = notification@;
            let ghost k = it.index() as int;
            let _ = self.notifier.send(notification);
            proof {
                let now = self.notifier.history();
                assert(views.take(k + 1) =~= views.take(k).push(n));
                assert(sent_of(now.skip(before.len() as int)) =~= sent_of(
                    start.skip(before.len() as int),
                ).push(n));
            }
        }
        assert(views.take(views.len() as int) =~= views);
    }

    /// The components of `host_path` below the shared directory; none where it is outside, as
    /// targets of symbolic links may be.
    fn relativize(&self, host_path: &HostPath) -> (r: Option<Vec<PathComponent>>)
        ensures
            match r {
                Some(parts) => self.scene(Map::empty()).relative(host_path@) == Some(
                    path::components_of(parts@),
                ),
                None => self.scene(Map::empty()).relative(host_path@) is None,
            },
    {
        let r = host_path.strip_prefix(&self.shared_dir);
        proof {
            if r is Some {
                let base = path::components(self.shared_dir@);
                assert(path::components(host_path@).skip(base.len() as int)
                    =~= path::components_of(r->0@));
            }
        }
        r
    }

    /// The inode that the names among `parts` lead to, if all of them are known.
    fn resolve(&self, parts: &[PathComponent], index: &DentryIndex) -> (r: Option<Inode>)
        requires
            index.wf(),
        ensures
            r == self.scene(index@).inode_at(path::components_of(parts@)),
    {
        let names = path::collect_names(parts);
        let (inode, rest) = index.resolve_names(self.root_inode, names);
        assert(path::names_of(rest@).len() == rest@.len());
        if rest.len() == 0 {
            Some(inode)
        } else {
            None
        }
    }

    /// The inode of `host_path`, if it lies in the shared directory and is known.
    fn resolve_leaf(&self, host_path: &HostPath, index: &DentryIndex) -> (r: Option<Inode>)
        requires
            index.wf(),
        ensures
            r == self.scene(index@).leaf(host_path@),
    {
        match self.relativize(host_path) {
            Some(parts) => self.resolve(parts.as_slice(), index),
            None => None,
        }
    }

    /// The notification for `inode`, if there is one.
    fn inode_list(inode: Option<Inode>) -> (r: Vec<Notification>)
        ensures
            notifier::views_of(r@) == (match inode {
                Some(inode) => seq![NotificationView::InvalInode { inode }],
                None => Seq::empty(),
            }),
    {
        let mut list: Vec<Notification> = Vec::new();
        if let Some(inode) = inode {
            list.push(Notification::InvalInode { inode });
        }
        assert(notifier::views_of(list@) =~= (match inode {
            Some(inode) => seq![NotificationView::InvalInode { inode }],
            None => Seq::empty(),
        }));
        list
    }

    /// A known leaf is invalidated. For an unknown one nothing is done: a fresh entry under a
    /// known parent is announced by an event of its own.
    fn plan_modify(&self, host_path: &HostPath, index: &DentryIndex) -> (r: Vec<Notification>)
        requires
            index.wf(),
        ensures
            notifier::views_of(r@) == self.scene(index@).on_modify(host_path@),
    {
        Self::inode_list(self.resolve_leaf(host_path, index))
    }

    /// Processes a modification: a known leaf is invalidated.
    pub fn handle_modify(
        &mut self,
        host_path: &HostPath,
        index: &DentryIndex,
    ) -> (result: Result<(), TranslateError>)
        requires
            index.wf(),
        ensures
            final(self).same_setup(old(self)),
            dispatched(
                old(self).notifier.history(),
                old(self).scene(index@).on_modify(host_path@),
                final(self).notifier.history(),
                result,
            ),
    {
        let list = self.plan_modify(host_path, index);
        self.deliver_plan(list)
    }

    /// The entry under a known parent is invalidated, so that the guest lists the parent anew.
    fn plan_parent_change(&self, host_path: &HostPath, index: &DentryIndex) -> (r: Vec<
        Notification,
    >)
        requires
            index.wf(),
        ensures
            notifier::views_of(r@) == self.scene(index@).on_parent_change(host_path@),
    {
        let mut list: Vec<Notification> = Vec::new();
        assert(notifier::views_of(list@) =~= Seq::<NotificationView>::empty());
        let mut parts = match self.relativize(host_path) {
            Some(parts) => parts,
            None => {
                return list;
            },
        };
        let ghost all = path::components_of(parts@);
        let name: Name = match parts.pop() {
            Some(PathComponent::Normal(name)) => name,
            _ => {
                return list;
            },
        };
        assert(path::components_of(parts@) =~= all.drop_last());
        if let Some(parent) = self.resolve(parts.as_slice(), index) {
            let ghost n = NotificationView::InvalEntry { parent, name: name@ };
            list.push(Notification::InvalEntry { parent, name });
            assert(notifier::views_of(list@) =~= seq![n]);
        }
        list
    }

    /// Processes a change of an entry in its parent, for a creation and for either side of a
    /// rename: the entry under a known parent is invalidated.
    pub fn handle_parent_change(
        &mut self,
        host_path: &HostPath,
        index: &DentryIndex,
    ) -> (result: Result<(), TranslateError>)
        requires
            index.wf(),
        ensures
            final(self).same_setup(old(self)),
            dispatched(
                old(self).notifier.history(),
                old(self).scene(index@).on_parent_change(host_path@),
                final(self).notifier.history(),
                result,
            ),
    {
        let list = self.plan_parent_change(host_path, index);
        self.deliver_plan(list)
    }

    /// The inode of `host_path`, if it is known and not that of the shared directory.
    fn resolve_gone(&self, host_path: &HostPath, index: &DentryIndex) -> (r: Option<Inode>)
        requires
            index.wf(),
        ensures
            r == self.scene(index@).gone(host_path@),
    {
        match self.resolve_leaf(host_path, index) {
            Some(inode) => if inode != self.root_inode {
                Some(inode)
            } else {
                None
            },
            None => None,
        }
    }

    /// The entry under a known parent is invalidated, and then the inode, if it is known: a file
    /// that later gets the same name must not be served from data of the old one.
    fn plan_remove(&self, host_path: &HostPath, index: &DentryIndex) -> (r: Vec<Notification>)
        requires
            index.wf(),
        ensures
            notifier::views_of(r@) == self.scene(index@).on_remove(host_path@),
    {
        let mut list = self.plan_parent_change(host_path, index);
        let mut gone = Self::inode_list(self.resolve_gone(host_path, index));
        let ghost first = list@;
        let ghost second = gone@;
        list.append(&mut gone);
        assert(notifier::views_of(list@) =~= notifier::views_of(first) + notifier::views_of(second));
        list
    }

    /// Processes a removal: the entry under a known parent is invalidated, and then the inode.
    pub fn handle_remove(
        &mut self,
        host_path: &HostPath,
        index: &DentryIndex,
    ) -> (result: Result<(), TranslateError>)
        requires
            index.wf(),
        ensures
            final(self).same_setup(old(self)),
            dispatched(
                old(self).notifier.history(),
                old(self).scene(index@).on_remove(host_path@),
                final(self).notifier.history(),
                result,
            ),
    {
        let list = self.plan_remove(host_path, index);
        self.deliver_plan(list)
    }

    /// What one side of a rename calls for, if that side is known.
    fn plan_side(&self, side: &Option<HostPath>, index: &DentryIndex) -> (r: Vec<Notification>)
        requires
            index.wf(),
        ensures
            notifier::views_of(r@) == self.scene(index@).on_side(watcher::path_view(*side)),
    {
        match side {
            Some(path) => self.plan_parent_change(path, index),
            None => Self::inode_list(None),
        }
    }

    /// The entries of both sides are invalidated as far as they are known, and then the inode that
    /// was renamed.
    fn plan_rename(
        &self,
        from: &Option<HostPath>,
        to: &Option<HostPath>,
        index: &DentryIndex,
    ) -> (r: Vec<Notification>)
        requires
            index.wf(),
        ensures
            notifier::views_of(r@) == self.scene(index@).on_rename(
                watcher::path_view(*from),
                watcher::path_view(*to),
            ),
    {
        let renamed = match from {
            Some(path) => self.resolve_gone(path, index),
            None => None,
        };
        let mut list = self.plan_side(from, index);
        let mut other = self.plan_side(to, index);
        let mut gone = Self::inode_list(renamed);
        let ghost a = list@;
        let ghost b = other@;
        let ghost c = gone@;
        list.append(&mut other);
        list.append(&mut gone);
        assert(notifier::views_of(list@) =~= notifier::views_of(a) + notifier::views_of(b)
            + notifier::views_of(c));
        list
    }

    /// Processes a rename: the entries of both sides are invalidated, and then the inode.
    pub fn handle_rename(
        &mut self,
        from: &Option<HostPath>,
        to: &Option<HostPath>,
        index: &DentryIndex,
    ) -> (result: Result<(), TranslateError>)
        requires
            index.wf(),
        ensures
            final(self).same_setup(old(self)),
            dispatched(
                old(self).notifier.history(),
                old(self).scene(index@).on_rename(
                    watcher::path_view(*from),
                    watcher::path_view(*to),
                ),
                final(self).notifier.history(),
                result,
            ),
    {
        let list = self.plan_rename(from, to, index);
        self.deliver_plan(list)
    }

    /// An invalidation of every inode that `index` knows, but for that of the shared directory.
    pub fn prepare_bulk(&self, index: &DentryIndex) -> (r: Batch)
        requires
            index.wf(),
        ensures
            r matches Batch::Bulk(list) && self.scene(index@).is_bulk(notifier::views_of(list@)),
    {
        Batch::Bulk(self.bulk_list(index))
    }

    /// An invalidation of every inode that `index` knows, in ascending order and without that of
    /// the shared directory.
    fn bulk_list(&self, index: &DentryIndex) -> (r: Vec<Notification>)
        requires
            index.wf(),
        ensures
            self.scene(index@).is_bulk(notifier::views_of(r@)),
    {
        let inodes = index.all_inodes();
        let ghost scene = self.scene(index@);
        let mut list: Vec<Notification> = Vec::new();
        let mut i: usize = 0;
        assert(notifier::views_of(list@) =~= Seq::<NotificationView>::empty());
        while i < inodes.len()
            invariant
                i <= inodes.len(),
                scene == self.scene(index@),
                forall|a: int, b: int| 0 <= a < b < inodes@.len() ==> inodes@[a] < inodes@[b],
                ({
                    let sent = notifier::views_of(list@);
                    &&& forall|a: int| 0 <= a < sent.len() ==> (#[trigger] sent[a]) is InvalInode
                    &&& forall|a: int, b: int|
                        0 <= a < b < sent.len() ==> (#[trigger] sent[a])->inode < (
                        #[trigger] sent[b])->inode
                    &&& forall|a: int, b: int|
                        0 <= a < sent.len() && i <= b < inodes@.len() ==> (
                        #[trigger] sent[a])->inode < #[trigger] inodes@[b]
                    &&& forall|inode: Inode| #[trigger]
                        sent.contains(NotificationView::InvalInode { inode })
                            <==> inodes@.take(i as int).contains(inode) && inode != scene.root
                }),
            decreases inodes.len() - i,
        {
            let inode = inodes[i];
            let ghost sent = notifier::views_of(list@);
            if inode != self.root_inode {
                list.push(Notification::InvalInode { inode });
                assert(notifier::views_of(list@) =~= sent.push(
                    NotificationView::InvalInode { inode },
                ));
            }
            proof {
                lemma_bulk_step(
                    sent,
                    notifier::views_of(list@),
                    inodes@,
                    i as int,
                    scene.root,
                );
            }
            i += 1;
        }
        proof {
            let sent = notifier::views_of(list@);
            assert(inodes@.take(inodes@.len() as int) =~= inodes@);
            assert forall|inode: Inode| #[trigger]
                sent.contains(NotificationView::InvalInode { inode }) <==> index@.contains_value(
                inode,
            ) && inode != scene.root by {
                assert(inodes@.to_set().contains(inode) == index@.values().contains(inode));
            }
        }
        list
    }

    /// Invalidates every inode that `index` knows, but for that of the shared directory: for that
    /// one it would be little short of a fresh mount. A notification that is not sent does not
    /// keep the others from being sent.
    pub fn bulk_invalidate(&mut self, index: &DentryIndex) -> (result: Result<(), TranslateError>)
        requires
            index.wf(),
        ensures
            final(self).same_setup(old(self)),
            result is Ok,
            ({
                let before = old(self).notifier.history();
                let after = final(self).notifier.history();
                &&& before.is_prefix_of(after)
                &&& old(self).scene(index@).is_bulk(sent_of(after.skip(before.len() as int)))
            }),
    {
        let list = self.bulk_list(index);
        self.deliver_bulk(list);
        Ok(())
    }
}

/// One more inode of the list has been dealt with.
proof fn lemma_bulk_step(
    sent: Seq<NotificationView>,
    now: Seq<NotificationView>,
    inodes: Seq<Inode>,
    i: int,
    root: Inode,
)
    requires
        0 <= i < inodes.len(),
        now == (if inodes[i] != root {
            sent.push(NotificationView::InvalInode { inode: inodes[i] })
        } else {
            sent
        }),
        forall|inode: Inode| #[trigger]
            sent.contains(NotificationView::InvalInode { inode }) <==> inodes.take(i).contains(
                inode,
            ) && inode != root,
    ensures
        forall|inode: Inode| #[trigger]
            now.contains(NotificationView::InvalInode { inode }) <==> inodes.take(i + 1).contains(
                inode,
            ) && inode != root,
{
    let fresh = NotificationView::InvalInode { inode: inodes[i] };
    assert(inodes.take(i + 1) =~= inodes.take(i).push(inodes[i]));
    assert forall|inode: Inode| #[trigger]
        now.contains(NotificationView::InvalInode { inode }) <==> inodes.take(i + 1).contains(inode)
            && inode != root by {
        let n = NotificationView::InvalInode { inode };
        broadcast use vstd::seq_lib::group_seq_properties;
        assert(sent.contains(n) <==> inodes.take(i).contains(inode) && inode != root);
        assert(sent.push(fresh).contains(n) <==> sent.contains(n) || n == fresh);
        assert(inodes.take(i).push(inodes[i]).contains(inode) <==> inodes.take(i).contains(inode)
            || inode == inodes[i]);
    }
}

} // verus!
