//! Directory entries, kept in the order of parent and name.

use vstd::prelude::*;

use crate::bytes;
use crate::{Inode, Name};

verus! {

/// What a directory entry is found by: the directory and the name in it.
pub type DentryKey = (Inode, Seq<u8>);

/// `a` stands strictly before `b`: by parent, and by name under one parent.
pub open spec fn key_precedes(a: DentryKey, b: DentryKey) -> bool {
    a.0 < b.0 || (a.0 == b.0 && bytes::precedes(a.1, b.1))
}

/// Keys in strictly ascending order.
pub open spec fn ascending(keys: Seq<DentryKey>) -> bool {
    forall|i: int, j: int|
        0 <= i < j < keys.len() ==> #[trigger] key_precedes(keys[i], keys[j])
}

proof fn lemma_key_order(a: DentryKey, b: DentryKey)
    ensures
        !key_precedes(a, a),
        a == b || key_precedes(a, b) || key_precedes(b, a),
{
    bytes::lemma_precedes_irreflexive(a.1);
    bytes::lemma_precedes_total(a.1, b.1);
}

proof fn lemma_key_transitive(a: DentryKey, b: DentryKey, c: DentryKey)
    requires
        key_precedes(a, b),
        key_precedes(b, c),
    ensures
        key_precedes(a, c),
{
    if a.0 == b.0 && b.0 == c.0 {
        bytes::lemma_precedes_transitive(a.1, b.1, c.1);
    }
}

/// Ascending keys are all different.
pub proof fn lemma_ascending_distinct(keys: Seq<DentryKey>)
    requires
        ascending(keys),
    ensures
        keys.no_duplicates(),
{
    assert forall|i: int, j: int| 0 <= i < keys.len() && 0 <= j < keys.len() && i
        != j implies keys[i] != keys[j] by {
        if i < j {
            assert(key_precedes(keys[i], keys[j]));
        } else {
            assert(key_precedes(keys[j], keys[i]));
        }
        lemma_key_order(keys[i], keys[i]);
    }
}

/// One directory entry: the name `name` under `parent` stands for `child`.
#[derive(Debug)]
pub struct Dentry {
    pub parent: Inode,
    pub name: Name,
    pub child: Inode,
}

impl Dentry {
    /// What the entry is found by.
    pub open spec fn key(self) -> DentryKey {
        (self.parent, self.name@)
    }

    /// Whether the entry stands before `parent` and `name`.
    fn before(&self, parent: Inode, name: &[u8]) -> (r: bool)
        ensures
            r == key_precedes(self.key(), (parent, name@)),
    {
        self.parent < parent || (self.parent == parent && bytes::before(self.name.as_slice(), name))
    }

    /// Whether the entry is the one for `parent` and `name`.
    fn is_at(&self, parent: Inode, name: &[u8]) -> (r: bool)
        ensures
            r == (self.key() == (parent, name@)),
    {
        self.parent == parent && bytes::equal(self.name.as_slice(), name)
    }
}

/// The keys of `entries`, in order.
pub open spec fn keys_of(entries: Seq<Dentry>) -> Seq<DentryKey> {
    entries.map_values(|e: Dentry| e.key())
}

/// Whether some entry of `entries` has the key `key`.
pub open spec fn has_key(entries: Seq<Dentry>, key: DentryKey) -> bool {
    exists|i: int| 0 <= i < entries.len() && (#[trigger] entries[i]).key() == key
}

/// Where in `entries` the entry with the key `key` stands.
pub open spec fn position(entries: Seq<Dentry>, key: DentryKey) -> int {
    choose|i: int| 0 <= i < entries.len() && (#[trigger] entries[i]).key() == key
}

/// The mapping from keys to children that `entries` spell.
pub open spec fn mapping(entries: Seq<Dentry>) -> Map<DentryKey, Inode> {
    Map::new(
        |key: DentryKey| has_key(entries, key),
        |key: DentryKey| entries[position(entries, key)].child,
    )
}

/// In ascending entries a key stands at one place only.
proof fn lemma_position_unique(entries: Seq<Dentry>, i: int)
    requires
        ascending(keys_of(entries)),
        0 <= i < entries.len(),
    ensures
        has_key(entries, entries[i].key()),
        position(entries, entries[i].key()) == i,
        mapping(entries).contains_key(entries[i].key()),
        mapping(entries)[entries[i].key()] == entries[i].child,
{
    let key = entries[i].key();
    let p = position(entries, key);
    assert(entries[i].key() == key);
    assert(entries[p].key() == key);
    lemma_key_order(key, key);
    let keys = keys_of(entries);
    if p < i {
        assert(key_precedes(keys[p], keys[i]));
    }
    if i < p {
        assert(key_precedes(keys[i], keys[p]));
    }
}

/// Ascending entries spell a finite mapping with one key for each entry.
proof fn lemma_mapping_finite(entries: Seq<Dentry>)
    requires
        ascending(keys_of(entries)),
    ensures
        mapping(entries).dom().finite(),
        mapping(entries).dom() == keys_of(entries).to_set(),
        mapping(entries).len() == entries.len(),
{
    let keys = keys_of(entries);
    assert forall|key: DentryKey| mapping(entries).dom().contains(key)
        == keys.to_set().contains(key) by {
        if has_key(entries, key) {
            let p = position(entries, key);
            assert(entries[p].key() == key);
            assert(keys[p] == key);
        }
        if keys.contains(key) {
            let i = choose|i: int| 0 <= i < keys.len() && keys[i] == key;
            assert(entries[i].key() == key);
        }
    }
    assert(mapping(entries).dom() =~= keys.to_set());
    vstd::seq_lib::seq_to_set_is_finite(keys);
    lemma_ascending_distinct(keys);
    keys.unique_seq_to_set();
}

/// Directory entries in ascending order, at most one for each parent and name.
#[derive(Debug)]
pub struct DentryTable {
    entries: Vec<Dentry>,
}

impl View for DentryTable {
    type V = Map<DentryKey, Inode>;

    closed spec fn view(&self) -> Map<DentryKey, Inode> {
        mapping(self.entries@)
    }
}

impl DentryTable {
    /// The entries stand in strictly ascending order.
    pub closed spec fn wf(&self) -> bool {
        ascending(keys_of(self.entries@))
    }

    /// A table without entries.
    pub fn new() -> (r: Self)
        ensures
            r.wf(),
            r@ == Map::<DentryKey, Inode>::empty(),
    {
        let r = DentryTable { entries: Vec::new() };
        assert(r@ =~= Map::<DentryKey, Inode>::empty());
        r
    }

    /// Whether there is no entry.
    pub fn is_empty(&self) -> (r: bool)
        requires
            self.wf(),
        ensures
            r == (self@ == Map::<DentryKey, Inode>::empty()),
    {
        proof {
            if self.entries@.len() > 0 {
                lemma_position_unique(self.entries@, 0);
            } else {
                assert(self@ =~= Map::<DentryKey, Inode>::empty());
            }
        }
        self.entries.len() == 0
    }

    /// The number of entries that stand before `parent` and `name`.
    fn search(&self, parent: Inode, name: &[u8]) -> (r: usize)
        requires
            self.wf(),
        ensures
            r <= self.entries@.len(),
            forall|i: int|
                0 <= i < r ==> key_precedes((#[trigger] self.entries@[i]).key(), (parent, name@)),
            forall|i: int|
                r <= i < self.entries@.len() ==> !key_precedes(
                    (#[trigger] self.entries@[i]).key(),
                    (parent, name@),
                ),
    {
        let mut lo: usize = 0;
        let mut hi: usize = self.entries.len();
        while lo < hi
            invariant
                self.wf(),
                lo <= hi <= self.entries@.len(),
                forall|i: int|
                    0 <= i < lo ==> key_precedes(
                        (#[trigger] self.entries@[i]).key(),
                        (parent, name@),
                    ),
                forall|i: int|
                    hi <= i < self.entries@.len() ==> !key_precedes(
                        (#[trigger] self.entries@[i]).key(),
                        (parent, name@),
                    ),
            decreases hi - lo,
        {
            let mid: usize = lo + (hi - lo) / 2;
            let ghost target = (parent, name@);
            let ghost keys = keys_of(self.entries@);
            if self.entries[mid].before(parent, name) {
                proof {
                    assert forall|i: int| 0 <= i <= mid implies key_precedes(
                        (#[trigger] self.entries@[i]).key(),
                        target,
                    ) by {
                        if i < mid {
                            assert(key_precedes(keys[i], keys[mid as int]));
                            lemma_key_transitive(keys[i], keys[mid as int], target);
                        }
                    }
                }
                lo = mid + 1;
            } else {
                proof {
                    assert forall|i: int| mid <= i < self.entries@.len() implies !key_precedes(
                        (#[trigger] self.entries@[i]).key(),
                        target,
                    ) by {
                        if i > mid && key_precedes(keys[i], target) {
                            assert(key_precedes(keys[mid as int], keys[i]));
                            lemma_key_transitive(keys[mid as int], keys[i], target);
                        }
                    }
                }
                hi = mid;
            }
        }
        lo
    }

    /// The child recorded for `parent` and `name`.
    pub fn get(&self, parent: Inode, name: &[u8]) -> (r: Option<Inode>)
        requires
            self.wf(),
        ensures
            r == self@.get((parent, name@)),
    {
        let at = self.search(parent, name);
        if at < self.entries.len() && self.entries[at].is_at(parent, name) {
            proof {
                lemma_position_unique(self.entries@, at as int);
            }
            Some(self.entries[at].child)
        } else {
            proof {
                self.lemma_absent(at as int, (parent, name@));
            }
            None
        }
    }

    /// A key that is not at the place where it would stand is nowhere.
    proof fn lemma_absent(&self, at: int, key: DentryKey)
        requires
            self.wf(),
            0 <= at <= self.entries@.len(),
            forall|i: int| 0 <= i < at ==> key_precedes((#[trigger] self.entries@[i]).key(), key),
            forall|i: int|
                at <= i < self.entries@.len() ==> !key_precedes(
                    (#[trigger] self.entries@[i]).key(),
                    key,
                ),
            at < self.entries@.len() ==> self.entries@[at].key() != key,
        ensures
            !self@.contains_key(key),
            forall|i: int|
                at <= i < self.entries@.len() ==> key_precedes(
                    key,
                    (#[trigger] self.entries@[i]).key(),
                ),
    {
        let keys = keys_of(self.entries@);
        lemma_key_order(key, key);
        if at < keys.len() {
            lemma_key_order(keys[at], key);
        }
        assert forall|i: int| at <= i < keys.len() implies key_precedes(
            key,
            (#[trigger] self.entries@[i]).key(),
        ) by {
            if i > at {
                assert(key_precedes(keys[at], keys[i]));
                lemma_key_transitive(key, keys[at], keys[i]);
            }
        }
        if has_key(self.entries@, key) {
            let p = position(self.entries@, key);
            assert(self.entries@[p].key() == key);
        }
    }

    /// Records `child` for `parent` and `name`, and gives back what was recorded before.
    pub fn insert(&mut self, parent: Inode, name: Name, child: Inode) -> (r: Option<Inode>)
        requires
            old(self).wf(),
        ensures
            final(self).wf(),
            final(self)@ == old(self)@.insert((parent, name@), child),
            r == old(self)@.get((parent, name@)),
    {
        let ghost key = (parent, name@);
        let ghost before = self.entries@;
        let at = self.search(parent, name.as_slice());
        if at < self.entries.len() && self.entries[at].is_at(parent, name.as_slice()) {
            let previous = self.entries[at].child;
            self.entries[at] = Dentry { parent, name, child };
            proof {
                lemma_position_unique(before, at as int);
                assert(keys_of(self.entries@) =~= keys_of(before));
                assert forall|k: DentryKey| mapping(self.entries@).contains_key(k)
                    == mapping(before).insert(key, child).contains_key(k) by {
                    if has_key(before, k) {
                        let p = position(before, k);
                        assert(self.entries@[p].key() == before[p].key());
                    }
                    if has_key(self.entries@, k) {
                        let p = position(self.entries@, k);
                        assert(self.entries@[p].key() == before[p].key());
                    }
                }
                assert forall|k: DentryKey| mapping(self.entries@).contains_key(k) implies mapping(
                    self.entries@,
                )[k] == mapping(before).insert(key, child)[k] by {
                    let p = position(self.entries@, k);
                    assert(self.entries@[p].key() == before[p].key());
                    lemma_position_unique(before, p);
                    lemma_position_unique(self.entries@, p);
                    lemma_position_unique(self.entries@, at as int);
                }
                assert(self@ =~= old(self)@.insert(key, child));
            }
            Some(previous)
        } else {
            proof {
                self.lemma_absent(at as int, key);
            }
            self.entries.insert(at, Dentry { parent, name, child });
            proof {
                let now = self.entries@;
                assert(now.len() == before.len() + 1);
                assert forall|i: int, j: int| 0 <= i < j < now.len() implies #[trigger] key_precedes(
                    keys_of(now)[i],
                    keys_of(now)[j],
                ) by {
                    let keys = keys_of(before);
                    if i < at && j < at {
                        assert(key_precedes(keys[i], keys[j]));
                    } else if i < at && j > at {
                        assert(key_precedes(keys[i], keys[j - 1]));
                    } else if i > at && j > at {
                        assert(key_precedes(keys[i - 1], keys[j - 1]));
                    } else if i < at {
                        assert(key_precedes(before[i].key(), key));
                    } else {
                        assert(key_precedes(key, before[j - 1].key()));
                    }
                }
                assert forall|k: DentryKey| mapping(now).contains_key(k) == mapping(
                    before,
                ).insert(key, child).contains_key(k) by {
                    if has_key(before, k) {
                        let p = position(before, k);
                        if p < at {
                            assert(now[p].key() == k);
                        } else {
                            assert(now[p + 1].key() == k);
                        }
                    }
                    if k == key {
                        assert(now[at as int].key() == key);
                    }
                    if has_key(now, k) {
                        let p = position(now, k);
                        assert(now[p].key() == k);
                        if p < at {
                            assert(before[p].key() == k);
                        } else if p > at {
                            assert(before[p - 1].key() == k);
                        }
                    }
                }
                assert forall|k: DentryKey| mapping(now).contains_key(k) implies mapping(now)[k]
                    == mapping(before).insert(key, child)[k] by {
                    let p = position(now, k);
                    assert(now[p].key() == k);
                    lemma_position_unique(now, at as int);
                    if p < at {
                        lemma_position_unique(before, p);
                    } else if p > at {
                        lemma_position_unique(before, p - 1);
                    }
                }
                assert(self@ =~= old(self)@.insert(key, child));
            }
            None
        }
    }

    /// Forgets what is recorded for `parent` and `name`, and gives it back.
    pub fn remove(&mut self, parent: Inode, name: &[u8]) -> (r: Option<Inode>)
        requires
            old(self).wf(),
        ensures
            final(self).wf(),
            final(self)@ == old(self)@.remove((parent, name@)),
            r == old(self)@.get((parent, name@)),
    {
        let ghost key = (parent, name@);
        let ghost before = self.entries@;
        let at = self.search(parent, name);
        if at < self.entries.len() && self.entries[at].is_at(parent, name) {
            let gone = self.entries.remove(at);
            proof {
                let now = self.entries@;
                lemma_position_unique(before, at as int);
                assert forall|i: int, j: int| 0 <= i < j < now.len() implies #[trigger] key_precedes(
                    keys_of(now)[i],
                    keys_of(now)[j],
                ) by {
                    let keys = keys_of(before);
                    let a = if i < at { i } else { i + 1 };
                    let b = if j < at { j } else { j + 1 };
                    assert(key_precedes(keys[a], keys[b]));
                }
                assert forall|k: DentryKey| mapping(now).contains_key(k) == mapping(
                    before,
                ).remove(key).contains_key(k) by {
                    if has_key(now, k) {
                        let p = position(now, k);
                        assert(now[p].key() == k);
                        if p < at {
                            assert(before[p].key() == k);
                            lemma_position_unique(before, p);
                        } else {
                            assert(before[p + 1].key() == k);
                            lemma_position_unique(before, p + 1);
                        }
                    }
                    if has_key(before, k) && k != key {
                        let p = position(before, k);
                        assert(before[p].key() == k);
                        if p < at {
                            assert(now[p].key() == k);
                        } else if p > at {
                            assert(now[p - 1].key() == k);
                        }
                    }
                }
                assert forall|k: DentryKey| mapping(now).contains_key(k) implies mapping(now)[k]
                    == mapping(before).remove(key)[k] by {
                    let p = position(now, k);
                    assert(now[p].key() == k);
                    lemma_position_unique(now, p);
                    if p < at {
                        lemma_position_unique(before, p);
                    } else {
                        lemma_position_unique(before, p + 1);
                    }
                }
                assert(self@ =~= old(self)@.remove(key));
            }
            Some(gone.child)
        } else {
            proof {
                self.lemma_absent(at as int, key);
                assert(self@ =~= old(self)@.remove(key));
            }
            None
        }
    }

    /// The entries, in ascending order.
    pub fn entries(&self) -> (r: &Vec<Dentry>)
        requires
            self.wf(),
        ensures
            ascending(keys_of(r@)),
            self@.dom() == keys_of(r@).to_set(),
            forall|i: int|
                0 <= i < r@.len() ==> self@.contains_key((#[trigger] r@[i]).key())
                    && self@[r@[i].key()] == r@[i].child,
    {
        proof {
            lemma_mapping_finite(self.entries@);
            assert forall|i: int| 0 <= i < self.entries@.len() implies self@.contains_key(
                (#[trigger] self.entries@[i]).key(),
            ) && self@[self.entries@[i].key()] == self.entries@[i].child by {
                lemma_position_unique(self.entries@, i);
            }
        }
        &self.entries
    }
}

} // verus!
