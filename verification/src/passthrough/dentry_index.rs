//! Reverse dentry index for push-based cache invalidation.
//!
//! Serving the guest only takes a map from inodes to host files. To turn a host filesystem event
//! ("`/shared/foo/bar.txt` was modified") into a notification, the inverse is needed: given a path
//! on the host, find the inode, if any, that the guest currently has cached.
//!
//! The index is keyed by parent inode and name, not by absolute path: the shared directory may be
//! relocated under the daemon's feet, and a host path is resolved from the root anyway. A lookup
//! walks the components until the leaf is found or a component is missing, which means that the
//! guest never cached that subtree and that there is nothing to invalidate.

use vstd::prelude::*;

use crate::passthrough::dentry_table;
use crate::passthrough::dentry_table::{DentryKey, DentryTable};
use crate::path;
use crate::path::HostPath;
use crate::{Inode, Name};
use std::collections::BTreeMap;

verus! {

broadcast use vstd::std_specs::btree::group_btree_axioms;

/// The entries after a rename: what stood at the destination is dropped first, then the source
/// moves there.
pub open spec fn renamed(
    entries: Map<DentryKey, Inode>,
    from: DentryKey,
    to: DentryKey,
) -> Map<DentryKey, Inode> {
    let cleared = entries.remove(to);
    if cleared.contains_key(from) {
        cleared.remove(from).insert(to, cleared[from])
    } else {
        cleared
    }
}

/// The entries that do not stand for `inode`.
pub open spec fn without_child(entries: Map<DentryKey, Inode>, inode: Inode) -> Map<
    DentryKey,
    Inode,
> {
    Map::new(
        |key: DentryKey| entries.contains_key(key) && entries[key] != inode,
        |key: DentryKey| entries[key],
    )
}

/// Every key that stands for `inode`.
pub open spec fn keys_for(entries: Map<DentryKey, Inode>, inode: Inode) -> Set<DentryKey> {
    Set::new(|key: DentryKey| entries.contains_pair(key, inode))
}

/// Walks from `start` by `steps` as long as there is an entry for the next name. Gives the inode
/// that was reached and the names that are left.
pub open spec fn walk(entries: Map<DentryKey, Inode>, start: Inode, steps: Seq<Seq<u8>>) -> (
    Inode,
    Seq<Seq<u8>>,
)
    decreases steps.len(),
{
    if steps.len() > 0 && entries.contains_key((start, steps[0])) {
        walk(entries, entries[(start, steps[0])], steps.drop_first())
    } else {
        (start, steps)
    }
}

/// The keys of a list of parents and names.
pub open spec fn pairs_of(list: Seq<(Inode, Name)>) -> Seq<DentryKey> {
    list.map_values(|pair: (Inode, Name)| (pair.0, pair.1@))
}

/// The entries filed under `at`, none where there is no table.
spec fn table_at(shelf: Map<Inode, DentryTable>, at: Inode) -> Map<DentryKey, Inode> {
    if shelf.contains_key(at) {
        shelf[at]@
    } else {
        Map::empty()
    }
}

/// Every table is in order, and none is empty.
spec fn shelf_wf(shelf: Map<Inode, DentryTable>) -> bool {
    forall|at: Inode| #[trigger]
        shelf.contains_key(at) ==> shelf[at].wf() && shelf[at]@ != Map::<
            DentryKey,
            Inode,
        >::empty()
}

/// Every entry is filed under its own parent.
spec fn filed_by_parent(shelf: Map<Inode, DentryTable>) -> bool {
    forall|at: Inode, key: DentryKey| #[trigger]
        table_at(shelf, at).contains_key(key) ==> key.0 == at
}

/// Every entry that stands for `child` is filed under `child`, and nothing else is.
spec fn filed_by_child(shelf: Map<Inode, DentryTable>, entries: Map<DentryKey, Inode>) -> bool {
    forall|child: Inode, key: DentryKey| #[trigger]
        table_at(shelf, child).contains_key(key) <==> entries.contains_pair(key, child)
}

/// The entries of all tables, where each is filed under its own parent.
spec fn all_entries(shelf: Map<Inode, DentryTable>) -> Map<DentryKey, Inode> {
    Map::new(
        |key: DentryKey| table_at(shelf, key.0).contains_key(key),
        |key: DentryKey| table_at(shelf, key.0)[key],
    )
}

/// `count` is `n`, as far as a machine word can tell.
spec fn counts(count: usize, n: nat) -> bool {
    count as int == n as int % (usize::MAX + 1)
}

proof fn lemma_counts_zero()
    ensures
        counts(0, 0),
{
    vstd::arithmetic::div_mod::lemma_small_mod(0, (usize::MAX + 1) as nat);
}

/// One more on both sides, or one less.
proof fn lemma_counts_step(count: usize, n: nat)
    ensures
        counts(count, n) ==> counts(count.wrapping_add(1), n + 1),
        counts(count, n + 1) ==> counts(count.wrapping_sub(1), n),
{
    let m: int = usize::MAX + 1;
    let q: int = n as int / m;
    let rest: int = n as int % m;
    assert(n == q * m + rest && 0 <= rest < m) by (nonlinear_arith)
        requires
            m > 0,
            q == n as int / m,
            rest == n as int % m,
    ;
    if rest + 1 < m {
        assert((n + 1) as int % m == rest + 1) by (nonlinear_arith)
            requires
                n == q * m + rest,
                0 <= rest,
                rest + 1 < m,
        ;
    } else {
        assert((n + 1) as int % m == 0) by (nonlinear_arith)
            requires
                n == q * m + rest,
                rest + 1 == m,
                m > 0,
        ;
    }
}

/// Files an entry under `at`, and gives back what stood for its key there before.
fn file(
    shelf: &mut BTreeMap<Inode, DentryTable>,
    at: Inode,
    parent: Inode,
    name: Name,
    child: Inode,
) -> (r: Option<Inode>)
    requires
        shelf_wf(old(shelf)@),
    ensures
        shelf_wf(final(shelf)@),
        table_at(final(shelf)@, at) == table_at(old(shelf)@, at).insert((parent, name@), child),
        forall|other: Inode|
            other != at ==> #[trigger] table_at(final(shelf)@, other) == table_at(
                old(shelf)@,
                other,
            ),
        r == table_at(old(shelf)@, at).get((parent, name@)),
{
    let ghost key = (parent, name@);
    let mut table = match shelf.remove(&at) {
        Some(table) => table,
        None => DentryTable::new(),
    };
    let previous = table.insert(parent, name, child);
    proof {
        assert(table@.contains_key(key));
        assert(table@ != Map::<DentryKey, Inode>::empty());
    }
    shelf.insert(at, table);
    previous
}

/// Takes the entry for `parent` and `name` out from under `at`, and gives back its child.
fn unfile(
    shelf: &mut BTreeMap<Inode, DentryTable>,
    at: Inode,
    parent: Inode,
    name: &[u8],
) -> (r: Option<Inode>)
    requires
        shelf_wf(old(shelf)@),
    ensures
        shelf_wf(final(shelf)@),
        table_at(final(shelf)@, at) == table_at(old(shelf)@, at).remove((parent, name@)),
        forall|other: Inode|
            other != at ==> #[trigger] table_at(final(shelf)@, other) == table_at(
                old(shelf)@,
                other,
            ),
        r == table_at(old(shelf)@, at).get((parent, name@)),
{
    match shelf.remove(&at) {
        Some(mut table) => {
            let gone = table.remove(parent, name);
            if !table.is_empty() {
                shelf.insert(at, table);
            }
            gone
        },
        None => {
            assert(table_at(old(shelf)@, at) =~= table_at(old(shelf)@, at).remove((parent, name@)));
            None
        },
    }
}

/// A bidirectional map between inodes and directory entries.
///
/// From parent and name to child, for resolving the path of a host event to an inode that may be
/// cached on the guest. From child to every parent and name, for invalidating all names that
/// stand for an inode and for cleaning up when an inode is forgotten without being unlinked.
#[derive(Debug)]
pub struct DentryIndex {
    by_parent: BTreeMap<Inode, DentryTable>,
    by_child: BTreeMap<Inode, DentryTable>,
    count: usize,
}

impl View for DentryIndex {
    type V = Map<DentryKey, Inode>;

    closed spec fn view(&self) -> Map<DentryKey, Inode> {
        all_entries(self.by_parent@)
    }
}

impl DentryIndex {
    /// Both directions tell of the same entries.
    pub closed spec fn wf(&self) -> bool {
        &&& shelf_wf(self.by_parent@)
        &&& shelf_wf(self.by_child@)
        &&& filed_by_parent(self.by_parent@)
        &&& filed_by_child(self.by_child@, self@)
        &&& self@.dom().finite()
        &&& counts(self.count, self@.len())
    }

    /// An index without entries.
    pub fn new() -> (r: Self)
        ensures
            r.wf(),
            r@ == Map::<DentryKey, Inode>::empty(),
    {
        let r = DentryIndex { by_parent: BTreeMap::new(), by_child: BTreeMap::new(), count: 0 };
        assert(r@ =~= Map::<DentryKey, Inode>::empty());
        proof {
            lemma_counts_zero();
        }
        r
    }

    /// Records that `name` under `parent` stands for `child`.
    ///
    /// What was recorded for that name before is overwritten, in both directions. This is the
    /// common case of a lookup that finds another inode than the one cached, after the host file
    /// at that path was replaced.
    pub fn insert(&mut self, parent: Inode, name: &[u8], child: Inode)
        requires
            old(self).wf(),
        ensures
            final(self).wf(),
            final(self)@ == old(self)@.insert((parent, name@), child),
    {
        let ghost key = (parent, name@);
        let ghost entries = self@;
        let previous = file(
            &mut self.by_parent,
            parent,
            parent,
            vstd::slice::slice_to_vec(name),
            child,
        );
        assert(self@ =~= entries.insert(key, child));
        match previous {
            Some(previous) => {
                assert(entries.contains_pair(key, previous));
                if previous != child {
                    let _ = unfile(&mut self.by_child, previous, parent, name);
                }
            },
            None => {
                proof {
                    lemma_counts_step(self.count, entries.len());
                }
                self.count = self.count.wrapping_add(1);
            },
        }
        let _ = file(&mut self.by_child, child, parent, vstd::slice::slice_to_vec(name), child);
    }

    /// Forgets what `name` under `parent` stands for. For names that are unlinked.
    pub fn remove(&mut self, parent: Inode, name: &[u8])
        requires
            old(self).wf(),
        ensures
            final(self).wf(),
            final(self)@ == old(self)@.remove((parent, name@)),
    {
        let _ = self.take(parent, name);
    }

    /// Forgets what `name` under `parent` stands for, and gives it back.
    fn take(&mut self, parent: Inode, name: &[u8]) -> (r: Option<Inode>)
        requires
            old(self).wf(),
        ensures
            final(self).wf(),
            final(self)@ == old(self)@.remove((parent, name@)),
            r == old(self)@.get((parent, name@)),
    {
        let ghost key = (parent, name@);
        let ghost entries = self@;
        let gone = unfile(&mut self.by_parent, parent, parent, name);
        assert(self@ =~= entries.remove(key));
        if let Some(child) = gone {
            assert(entries.contains_pair(key, child));
            let _ = unfile(&mut self.by_child, child, parent, name);
            proof {
                lemma_counts_step(self.count, self@.len());
            }
            self.count = self.count.wrapping_sub(1);
        }
        gone
    }

    /// Moves what `old_name` under `old_parent` stands for to `new_name` under `new_parent`.
    ///
    /// What the new name stood for before is dropped first.
    pub fn rename(
        &mut self,
        old_parent: Inode,
        old_name: &[u8],
        new_parent: Inode,
        new_name: &[u8],
    )
        requires
            old(self).wf(),
        ensures
            final(self).wf(),
            final(self)@ == renamed(old(self)@, (old_parent, old_name@), (new_parent, new_name@)),
    {
        let _ = self.take(new_parent, new_name);
        if let Some(child) = self.take(old_parent, old_name) {
            self.insert(new_parent, new_name, child);
        }
        assert(self@ =~= renamed(
            old(self)@,
            (old_parent, old_name@),
            (new_parent, new_name@),
        ));
    }

    /// Drops every name of `inode`. For an inode that the guest has forgotten; the entries below
    /// it stay, the guest forgets those separately.
    pub fn forget_inode(&mut self, inode: Inode)
        requires
            old(self).wf(),
        ensures
            final(self).wf(),
            final(self)@ == without_child(old(self)@, inode),
    {
        let ghost entries = self@;
        let table = match self.by_child.remove(&inode) {
            Some(table) => table,
            None => {
                proof {
                    assert forall|key: DentryKey| entries.contains_key(key) implies entries[key]
                        != inode by {
                        assert(!table_at(old(self).by_child@, inode).contains_key(key));
                        assert(!entries.contains_pair(key, inode));
                    }
                    assert(without_child(entries, inode) =~= entries);
                    assert(self.by_child@ =~= old(self).by_child@);
                }
                return ;
            },
        };
        let list = table.entries();
        let ghost keys = dentry_table::keys_of(list@);
        let mut i: usize = 0;
        proof {
            assert(keys.take(0).to_set() =~= Set::<DentryKey>::empty());
            assert(entries =~= entries.remove_keys(keys.take(0).to_set()));
            dentry_table::lemma_ascending_distinct(keys);
            assert forall|j: int| 0 <= j < keys.len() implies entries.contains_key(
                #[trigger] keys[j],
            ) by {
                assert(keys[j] == list@[j].key());
                assert(table_at(old(self).by_child@, inode).contains_key(keys[j]));
                assert(entries.contains_pair(keys[j], inode));
            }
        }
        while i < list.len()
            invariant
                i <= list.len(),
                keys == dentry_table::keys_of(list@),
                shelf_wf(self.by_parent@),
                filed_by_parent(self.by_parent@),
                self@.dom().finite(),
                counts(self.count, self@.len()),
                self@ == entries.remove_keys(keys.take(i as int).to_set()),
                keys.no_duplicates(),
                forall|j: int| 0 <= j < keys.len() ==> entries.contains_key(#[trigger] keys[j]),
                self.by_child@ == old(self).by_child@.remove(inode),
            decreases list.len() - i,
        {
            let ghost before = self@;
            let ghost key = keys[i as int];
            proof {
                assert(key == list@[i as int].key());
                assert(!keys.take(i as int).contains(key));
                assert(before.contains_key(key));
                assert(keys.take(i + 1).to_set() =~= keys.take(i as int).to_set().insert(key)) by {
                    assert(keys.take(i + 1) =~= keys.take(i as int).push(key));
                    keys.take(i as int).lemma_push_to_set_commute(key);
                }
            }
            let _ = unfile(
                &mut self.by_parent,
                list[i].parent,
                list[i].parent,
                list[i].name.as_slice(),
            );
            proof {
                assert(self@ =~= before.remove(key));
                assert(self@ =~= entries.remove_keys(keys.take(i + 1).to_set()));
                lemma_counts_step(self.count, self@.len());
            }
            self.count = self.count.wrapping_sub(1);
            i += 1;
        }
        proof {
            assert(keys.take(keys.len() as int) =~= keys);
            assert forall|key: DentryKey| keys.to_set().contains(key) <==> entries.contains_pair(
                key,
                inode,
            ) by {
                assert(table_at(old(self).by_child@, inode).contains_key(key)
                    <==> entries.contains_pair(key, inode));
            }
            assert(self@ =~= without_child(entries, inode));
            assert forall|child: Inode, key: DentryKey| #[trigger]
                table_at(self.by_child@, child).contains_key(key) <==> self@.contains_pair(
                key,
                child,
            ) by {
                assert(table_at(old(self).by_child@, child).contains_key(key)
                    <==> entries.contains_pair(key, child));
            }
        }
    }

    /// What `name` under `parent` stands for, if that is recorded.
    pub fn get(&self, parent: Inode, name: &[u8]) -> (r: Option<Inode>)
        requires
            self.wf(),
        ensures
            r == self@.get((parent, name@)),
    {
        match self.by_parent.get(&parent) {
            Some(table) => table.get(parent, name),
            None => None,
        }
    }

    /// Walks the names of `path` from `root`. Gives the deepest inode that the index knows on the
    /// way, at least `root`, and the names that are left.
    ///
    ///   * With no name left, the inode is that of the leaf.
    ///   * With one name left, the inode is that of the parent.
    ///   * With more, the guest has never looked up this subtree, and there is nothing to
    ///     invalidate.
    pub fn resolve_path(&self, root: Inode, path: &HostPath) -> (r: (Inode, Vec<Name>))
        requires
            self.wf(),
        ensures
            (r.0, path::names_of(r.1@)) == walk(
                self@,
                root,
                path::normal_names(path::components(path@)),
            ),
    {
        let parts = path.components();
        let steps = path::collect_names(parts.as_slice());
        self.resolve_names(root, steps)
    }

    /// Walks `steps` from `root`. Gives the deepest inode that the index knows on the way and the
    /// names that are left.
    pub fn resolve_names(&self, root: Inode, steps: Vec<Name>) -> (r: (Inode, Vec<Name>))
        requires
            self.wf(),
        ensures
            (r.0, path::names_of(r.1@)) == walk(self@, root, path::names_of(steps@)),
    {
        let ghost all = path::names_of(steps@);
        let mut current = root;
        let mut consumed: usize = 0;
        assert(all.skip(0) =~= all);
        while consumed < steps.len()
            invariant
                self.wf(),
                consumed <= steps.len(),
                all == path::names_of(steps@),
                walk(self@, root, all) == walk(self@, current, all.skip(consumed as int)),
            ensures
                consumed <= steps.len(),
                walk(self@, root, all) == (current, all.skip(consumed as int)),
            decreases steps.len() - consumed,
        {
            proof {
                assert(all.skip(consumed as int)[0] == steps@[consumed as int]@);
                assert(all.skip(consumed as int).drop_first() =~= all.skip(consumed + 1));
            }
            match self.get(current, steps[consumed].as_slice()) {
                Some(child) => {
                    current = child;
                    consumed += 1;
                },
                None => {
                    break ;
                },
            }
        }
        let mut steps = steps;
        let rest = steps.split_off(consumed);
        assert(path::names_of(rest@) =~= all.skip(consumed as int));
        (current, rest)
    }

    /// Every name of `inode`, by parent and name. For sending an invalidation to each when the
    /// inode itself changes.
    pub fn names_for(&self, inode: Inode) -> (r: Vec<(Inode, Name)>)
        requires
            self.wf(),
        ensures
            dentry_table::ascending(pairs_of(r@)),
            pairs_of(r@).to_set() == keys_for(self@, inode),
    {
        let mut found: Vec<(Inode, Name)> = Vec::new();
        match self.by_child.get(&inode) {
            Some(table) => {
                let list = table.entries();
                let ghost keys = dentry_table::keys_of(list@);
                let mut i: usize = 0;
                while i < list.len()
                    invariant
                        i <= list.len(),
                        keys == dentry_table::keys_of(list@),
                        pairs_of(found@) == keys.take(i as int),
                    decreases list.len() - i,
                {
                    let ghost before = found@;
                    found.push(
                        (list[i].parent, vstd::slice::slice_to_vec(list[i].name.as_slice())),
                    );
                    proof {
                        assert(pairs_of(found@) =~= pairs_of(before).push(keys[i as int]));
                        assert(keys.take(i + 1) =~= keys.take(i as int).push(keys[i as int]));
                    }
                    i += 1;
                }
                proof {
                    assert(keys.take(keys.len() as int) =~= keys);
                }
            },
            None => {},
        }
        proof {
            assert forall|key: DentryKey| pairs_of(found@).to_set().contains(key)
                == self@.contains_pair(key, inode) by {
                assert(table_at(self.by_child@, inode).contains_key(key)
                    <==> self@.contains_pair(key, inode));
            }
            assert(pairs_of(found@).to_set() =~= keys_for(self@, inode));
        }
        found
    }

    /// Every inode that some name stands for, in ascending order. For invalidating all of them
    /// after an overflow.
    pub fn all_inodes(&self) -> (r: Vec<Inode>)
        requires
            self.wf(),
        ensures
            forall|i: int, j: int| 0 <= i < j < r@.len() ==> r@[i] < r@[j],
            r@.to_set() == self@.values(),
    {
        let mut found: Vec<Inode> = Vec::new();
        let keys = self.by_child.keys();
        let ghost listed = vstd::std_specs::iter::IteratorSpec::remaining(&keys);
        for inode in it: keys
            invariant
                it.seq() == listed,
                found@ == listed.unref().take(it.index()),
        {
            found.push(*inode);
            assert(listed.unref().take(it.index() + 1) =~= listed.unref().take(it.index()).push(
                *inode,
            ));
        }
        proof {
            assert(found@ =~= listed.unref());
            assert forall|i: int, j: int| 0 <= i < j < found@.len() implies found@[i] < found@[j] by {
                assert(vstd::laws_cmp::obeys_cmp::<&Inode>());
                assert(vstd::std_specs::cmp::OrdSpec::cmp_spec(&listed[i], &listed[j]) is Less);
            }
            assert forall|inode: Inode| found@.to_set().contains(inode) == self@.values().contains(
                inode,
            ) by {
                self.lemma_tracked(inode);
            }
            assert(found@.to_set() =~= self@.values());
        }
        found
    }

    /// The index files something under `inode` exactly where some name stands for it.
    proof fn lemma_tracked(&self, inode: Inode)
        requires
            self.wf(),
        ensures
            self.by_child@.contains_key(inode) == self@.values().contains(inode),
    {
        let table = table_at(self.by_child@, inode);
        if self.by_child@.contains_key(inode) {
            if forall|key: DentryKey| !table.contains_key(key) {
                assert(table =~= Map::empty());
            }
            let key = choose|key: DentryKey| table.contains_key(key);
            assert(table.contains_key(key));
            assert(self@.contains_pair(key, inode));
        }
        if self@.values().contains(inode) {
            let key = choose|key: DentryKey| self@.contains_key(key) && self@[key] == inode;
            assert(self@.contains_pair(key, inode));
            assert(table.contains_key(key));
        }
    }

    /// There are finitely many entries.
    pub proof fn law_entries_are_finite(&self)
        requires
            self.wf(),
        ensures
            self@.dom().finite(),
    {
    }

    /// The number of entries, modulo the range of a machine word.
    pub fn len(&self) -> (r: usize)
        requires
            self.wf(),
        ensures
            self@.dom().finite(),
            r as int == self@.len() as int % (usize::MAX + 1),
            self@.len() <= usize::MAX ==> r == self@.len(),
    {
        proof {
            if self@.len() <= usize::MAX {
                vstd::arithmetic::div_mod::lemma_small_mod(
                    self@.len(),
                    (usize::MAX + 1) as nat,
                );
            }
        }
        self.count
    }

    /// Whether there is no entry.
    pub fn is_empty(&self) -> (r: bool)
        requires
            self.wf(),
        ensures
            r == (self@ == Map::<DentryKey, Inode>::empty()),
    {
        proof {
            if !self.by_parent@.is_empty() {
                let at = choose|at: Inode| self.by_parent@.contains_key(at);
                assert(self.by_parent@.contains_key(at));
                let table = table_at(self.by_parent@, at);
                if forall|key: DentryKey| !table.contains_key(key) {
                    assert(table =~= Map::empty());
                }
                let key = choose|key: DentryKey| table.contains_key(key);
                assert(table.contains_key(key));
                assert(self@.contains_key(key));
            } else {
                assert(self@ =~= Map::<DentryKey, Inode>::empty());
            }
        }
        self.by_parent.is_empty()
    }
}

impl Default for DentryIndex {
    fn default() -> (r: Self)
        ensures
            r.wf(),
            r@ == Map::<DentryKey, Inode>::empty(),
    {
        DentryIndex::new()
    }
}

} // verus!
