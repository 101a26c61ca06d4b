//! What holds of the dentry index across its operations.

use vstd::prelude::*;

use crate::bytes;
use crate::passthrough::dentry_index;
use crate::passthrough::dentry_table;
use crate::passthrough::dentry_table::DentryKey;
use crate::path;
use crate::path::ComponentView;
use crate::path_laws;
use crate::{Inode, Name};

verus! {

/// Both directions agree: a key is among the names of an inode exactly where a lookup of that key
/// finds the inode, and an inode is tracked exactly where it has a name.
pub proof fn law_directions_agree(entries: Map<DentryKey, Inode>, key: DentryKey, inode: Inode)
    ensures
        dentry_index::keys_for(entries, inode).contains(key) <==> entries.get(key) == Some(inode),
        entries.contains_value(inode) <==> exists|k: DentryKey|
            dentry_index::keys_for(entries, inode).contains(k),
{
    if entries.contains_value(inode) {
        let k = choose|k: DentryKey| #[trigger] entries.dom().contains(k) && entries[k] == inode;
        assert(entries.contains_pair(k, inode));
        assert(dentry_index::keys_for(entries, inode).contains(k));
    }
    if exists|k: DentryKey| dentry_index::keys_for(entries, inode).contains(k) {
        let k = choose|k: DentryKey| dentry_index::keys_for(entries, inode).contains(k);
        assert(entries.contains_pair(k, inode));
    }
}

/// An entry that was recorded is found and is among the names of its inode, every other lookup
/// finds what it found before, there is one entry more exactly where the name was not known, and
/// recording the same again changes nothing.
pub proof fn law_insert_is_found(
    entries: Map<DentryKey, Inode>,
    key: DentryKey,
    child: Inode,
    other: DentryKey,
)
    requires
        entries.dom().finite(),
    ensures
        ({
            let after = entries.insert(key, child);
            &&& after.get(key) == Some(child)
            &&& dentry_index::keys_for(after, child).contains(key)
            &&& other != key ==> after.get(other) == entries.get(other)
            &&& after.len() == entries.len() + (if entries.contains_key(key) {
                0nat
            } else {
                1nat
            })
            &&& after.insert(key, child) == after
        }),
{
    let after = entries.insert(key, child);
    assert(after.contains_pair(key, child));
    assert(after.insert(key, child) =~= after);
    if entries.contains_key(key) {
        assert(after.dom() =~= entries.dom());
    }
}

/// An entry that is recorded anew is no longer among the names of the inode that it stood for,
/// and is among those of the new one; other names of either stay. The former inode is no longer
/// tracked exactly where that was its only name.
pub proof fn law_overwrite_cleans_names(
    entries: Map<DentryKey, Inode>,
    key: DentryKey,
    previous: Inode,
    child: Inode,
)
    requires
        entries.contains_pair(key, previous),
        previous != child,
    ensures
        ({
            let after = entries.insert(key, child);
            &&& dentry_index::keys_for(after, previous) == dentry_index::keys_for(
                entries,
                previous,
            ).remove(key)
            &&& dentry_index::keys_for(after, child) == dentry_index::keys_for(
                entries,
                child,
            ).insert(key)
            &&& !after.contains_value(previous) <==> dentry_index::keys_for(entries, previous)
                == set![key]
        }),
{
    let after = entries.insert(key, child);
    lemma_untracked(after, previous);
    lemma_only_name(entries, key, previous);
    assert(dentry_index::keys_for(after, previous) =~= dentry_index::keys_for(
        entries,
        previous,
    ).remove(key));
    assert(dentry_index::keys_for(after, child) =~= dentry_index::keys_for(entries, child).insert(
        key,
    ));
}

/// An inode is not tracked exactly where it has no names.
proof fn lemma_untracked(entries: Map<DentryKey, Inode>, inode: Inode)
    ensures
        !entries.contains_value(inode) <==> dentry_index::keys_for(entries, inode) == Set::<
            DentryKey,
        >::empty(),
{
    let keys = dentry_index::keys_for(entries, inode);
    if entries.contains_value(inode) {
        let k = choose|k: DentryKey| #[trigger] entries.dom().contains(k) && entries[k] == inode;
        assert(keys.contains(k));
    } else {
        assert forall|k: DentryKey| !keys.contains(k) by {
            if entries.contains_pair(k, inode) {
                assert(entries.contains_value(inode));
            }
        }
        assert(keys =~= Set::empty());
    }
}

/// Without one of its names an inode has none left exactly where that was the only one.
proof fn lemma_only_name(entries: Map<DentryKey, Inode>, key: DentryKey, inode: Inode)
    requires
        entries.contains_pair(key, inode),
    ensures
        dentry_index::keys_for(entries, inode).remove(key) == Set::<DentryKey>::empty()
            <==> dentry_index::keys_for(entries, inode) == set![key],
{
    let keys = dentry_index::keys_for(entries, inode);
    assert(keys.contains(key));
    if keys.remove(key) == Set::<DentryKey>::empty() {
        assert forall|k: DentryKey| keys.contains(k) <==> k == key by {
            if k != key {
                assert(!keys.remove(key).contains(k));
            }
        }
        assert(keys =~= set![key]);
    }
    if keys == set![key] {
        assert(keys.remove(key) =~= Set::empty());
    }
}

/// A removed entry is not found and is among the names of no inode; every other entry stays.
/// There is one entry less exactly where the name was known, and otherwise nothing changes. The
/// inode that the name stood for is no longer tracked exactly where that was its only name.
pub proof fn law_remove_clears_both_directions(
    entries: Map<DentryKey, Inode>,
    key: DentryKey,
    other: DentryKey,
    inode: Inode,
)
    requires
        entries.dom().finite(),
    ensures
        ({
            let after = entries.remove(key);
            &&& after.get(key) is None
            &&& dentry_index::keys_for(after, inode) == dentry_index::keys_for(
                entries,
                inode,
            ).remove(key)
            &&& other != key ==> after.get(other) == entries.get(other)
            &&& after.len() == entries.len() - (if entries.contains_key(key) {
                1int
            } else {
                0int
            })
            &&& !entries.contains_key(key) ==> after == entries
            &&& entries.get(key) == Some(inode) ==> (!after.contains_value(inode)
                <==> dentry_index::keys_for(entries, inode) == set![key])
        }),
{
    let after = entries.remove(key);
    assert(dentry_index::keys_for(after, inode) =~= dentry_index::keys_for(entries, inode).remove(
        key,
    ));
    if !entries.contains_key(key) {
        assert(after =~= entries);
    }
    if entries.get(key) == Some(inode) {
        assert(entries.contains_pair(key, inode));
        lemma_untracked(after, inode);
        lemma_only_name(entries, key, inode);
    }
}

/// Recording a fresh entry and removing it again leaves the index as it was.
pub proof fn law_remove_undoes_insert(
    entries: Map<DentryKey, Inode>,
    key: DentryKey,
    child: Inode,
)
    requires
        !entries.contains_key(key),
    ensures
        entries.insert(key, child).remove(key) == entries,
{
    assert(entries.insert(key, child).remove(key) =~= entries);
}

/// A rename of a known entry moves it: the old name is gone, the new one stands for what the old
/// one stood for, the inode has the new name in place of the old one, an inode that had the new
/// name before has lost it, and every other entry stays. There is one entry less exactly where
/// something stood at the destination.
pub proof fn law_rename_moves(
    entries: Map<DentryKey, Inode>,
    from: DentryKey,
    to: DentryKey,
    other: DentryKey,
    inode: Inode,
)
    requires
        entries.dom().finite(),
        entries.contains_key(from),
        from != to,
    ensures
        ({
            let after = dentry_index::renamed(entries, from, to);
            &&& after.len() == entries.len() - (if entries.contains_key(to) {
                1int
            } else {
                0int
            })
            &&& after.get(from) is None
            &&& after.get(to) == entries.get(from)
            &&& other != from && other != to ==> after.get(other) == entries.get(other)
            &&& inode == entries[from] ==> dentry_index::keys_for(after, inode)
                == dentry_index::keys_for(entries, inode).remove(from).insert(to)
            &&& inode != entries[from] ==> dentry_index::keys_for(after, inode)
                == dentry_index::keys_for(entries, inode).remove(to)
        }),
{
    let after = dentry_index::renamed(entries, from, to);
    if inode == entries[from] {
        assert(dentry_index::keys_for(after, inode) =~= dentry_index::keys_for(
            entries,
            inode,
        ).remove(from).insert(to));
    } else {
        assert(dentry_index::keys_for(after, inode) =~= dentry_index::keys_for(
            entries,
            inode,
        ).remove(to));
    }
}

/// A rename of an entry that is not known only drops what stood at the destination, and so does a
/// rename of an entry onto itself.
pub proof fn law_rename_without_source_drops(
    entries: Map<DentryKey, Inode>,
    from: DentryKey,
    to: DentryKey,
)
    requires
        !entries.contains_key(from) || from == to,
    ensures
        dentry_index::renamed(entries, from, to) == entries.remove(to),
{
}

/// Renaming a known entry to a free name and back leaves the index as it was.
pub proof fn law_rename_back(entries: Map<DentryKey, Inode>, from: DentryKey, to: DentryKey)
    requires
        entries.contains_key(from),
        !entries.contains_key(to),
    ensures
        dentry_index::renamed(dentry_index::renamed(entries, from, to), to, from) == entries,
{
    assert(dentry_index::renamed(dentry_index::renamed(entries, from, to), to, from) =~= entries);
}

/// The entries are those for `inode` and those for all others.
proof fn lemma_forget_len(entries: Map<DentryKey, Inode>, inode: Inode)
    requires
        entries.dom().finite(),
    ensures
        dentry_index::keys_for(entries, inode).finite(),
        dentry_index::without_child(entries, inode).dom().finite(),
        entries.len() == dentry_index::without_child(entries, inode).len()
            + dentry_index::keys_for(entries, inode).len(),
{
    let keys = dentry_index::keys_for(entries, inode);
    let rest = dentry_index::without_child(entries, inode).dom();
    assert(keys.subset_of(entries.dom()));
    assert(rest.subset_of(entries.dom()));
    vstd::set_lib::lemma_len_subset(keys, entries.dom());
    vstd::set_lib::lemma_len_subset(rest, entries.dom());
    assert(keys.disjoint(rest));
    vstd::set_lib::lemma_set_disjoint_lens(keys, rest);
    assert(keys + rest =~= entries.dom());
}

/// A forgotten inode has no names left and is not tracked; every entry for another inode stays,
/// among them those directly below the forgotten one. There are as many entries less as the inode
/// had names. Forgetting it again, or one that is not known, changes nothing.
pub proof fn law_forget_drops_one_level(
    entries: Map<DentryKey, Inode>,
    inode: Inode,
    other: DentryKey,
)
    requires
        entries.dom().finite(),
    ensures
        ({
            let after = dentry_index::without_child(entries, inode);
            &&& dentry_index::keys_for(after, inode) == Set::<DentryKey>::empty()
            &&& !after.contains_value(inode)
            &&& entries.get(other) == Some(inode) ==> after.get(other) is None
            &&& entries.get(other) != Some(inode) ==> after.get(other) == entries.get(other)
            &&& after.len() == entries.len() - dentry_index::keys_for(entries, inode).len()
            &&& dentry_index::without_child(after, inode) == after
            &&& !entries.contains_value(inode) ==> after == entries
        }),
{
    let after = dentry_index::without_child(entries, inode);
    assert(dentry_index::keys_for(after, inode) =~= Set::empty());
    lemma_forget_len(entries, inode);
    assert(dentry_index::without_child(after, inode) =~= after);
    if !entries.contains_value(inode) {
        assert forall|k: DentryKey| entries.contains_key(k) implies entries[k] != inode by {
            assert(entries.contains_value(entries[k]));
        }
        assert(after =~= entries);
    }
}

/// The number of names that the inodes of a list have, in all.
pub open spec fn names_in_all(entries: Map<DentryKey, Inode>, inodes: Seq<Inode>) -> nat
    decreases inodes.len(),
{
    if inodes.len() == 0 {
        0
    } else {
        names_in_all(entries, inodes.drop_last()) + dentry_index::keys_for(
            entries,
            inodes.last(),
        ).len()
    }
}

/// The names of the inodes of a list that leaves `inode` out, with and without its entries.
proof fn lemma_names_without(entries: Map<DentryKey, Inode>, inode: Inode, inodes: Seq<Inode>)
    requires
        !inodes.contains(inode),
    ensures
        names_in_all(dentry_index::without_child(entries, inode), inodes) == names_in_all(
            entries,
            inodes,
        ),
    decreases inodes.len(),
{
    if inodes.len() > 0 {
        let last = inodes.last();
        assert(inodes[inodes.len() - 1] != inode);
        assert(!inodes.drop_last().contains(inode)) by {
            assert forall|i: int| 0 <= i < inodes.drop_last().len() implies inodes.drop_last()[i]
                != inode by {
                assert(inodes.contains(inodes[i]));
            }
        }
        lemma_names_without(entries, inode, inodes.drop_last());
        assert(dentry_index::keys_for(dentry_index::without_child(entries, inode), last)
            =~= dentry_index::keys_for(entries, last));
    }
}

/// The names of all tracked inodes are all the entries: the lengths of the lists of names add up
/// to the number of entries.
pub proof fn law_names_add_up(entries: Map<DentryKey, Inode>, inodes: Seq<Inode>)
    requires
        entries.dom().finite(),
        inodes.no_duplicates(),
        inodes.to_set() == entries.values(),
    ensures
        names_in_all(entries, inodes) == entries.len(),
    decreases inodes.len(),
{
    if inodes.len() == 0 {
        assert forall|k: DentryKey| !entries.contains_key(k) by {
            if entries.contains_key(k) {
                assert(entries.values().contains(entries[k]));
                assert(inodes.to_set().contains(entries[k]));
            }
        }
        assert(entries.dom() =~= Set::empty());
    } else {
        let last = inodes.last();
        let rest = inodes.drop_last();
        let fewer = dentry_index::without_child(entries, last);
        lemma_forget_len(entries, last);
        assert(!rest.contains(last)) by {
            assert forall|i: int| 0 <= i < rest.len() implies rest[i] != last by {
                assert(inodes[i] != inodes[inodes.len() - 1]);
            }
        }
        assert forall|inode: Inode| rest.to_set().contains(inode) == fewer.values().contains(
            inode,
        ) by {
            if rest.contains(inode) {
                let i = choose|i: int| 0 <= i < rest.len() && rest[i] == inode;
                assert(inodes[i] == inode);
                assert(inodes.to_set().contains(inode));
                let k = choose|k: DentryKey| #[trigger]
                    entries.dom().contains(k) && entries[k] == inode;
                assert(fewer.contains_key(k) && fewer[k] == inode);
            }
            if fewer.values().contains(inode) {
                let k = choose|k: DentryKey| #[trigger]
                    fewer.dom().contains(k) && fewer[k] == inode;
                assert(entries.values().contains(entries[k]));
                assert(inodes.to_set().contains(inode));
                let i = choose|i: int| 0 <= i < inodes.len() && inodes[i] == inode;
                assert(rest[i] == inode);
            }
        }
        assert(rest.to_set() =~= fewer.values());
        law_names_add_up(fewer, rest);
        lemma_names_without(entries, last, rest);
    }
}

/// A list of names in ascending order names nothing twice, and is as long as there are names.
pub proof fn law_ascending_names_are_distinct(
    entries: Map<DentryKey, Inode>,
    inode: Inode,
    keys: Seq<DentryKey>,
)
    requires
        dentry_table::ascending(keys),
        keys.to_set() == dentry_index::keys_for(entries, inode),
    ensures
        keys.no_duplicates(),
        keys.len() == dentry_index::keys_for(entries, inode).len(),
        keys.len() == 0 <==> !entries.contains_value(inode),
{
    dentry_table::lemma_ascending_distinct(keys);
    keys.unique_seq_to_set();
    lemma_untracked(entries, inode);
    if keys.len() == 0 {
        assert(keys.to_set() =~= Set::empty());
    } else {
        assert(keys.to_set().contains(keys[0]));
    }
}

/// A walk consumes a first part of the steps, of which each leads from one known inode to the
/// next, and leaves the rest. It stops only where the next step is not known: the inode that it
/// gives is the deepest one on the way.
pub proof fn law_walk_goes_as_deep_as_known(
    entries: Map<DentryKey, Inode>,
    start: Inode,
    steps: Seq<Seq<u8>>,
)
    ensures
        ({
            let (reached, rest) = dentry_index::walk(entries, start, steps);
            &&& rest.len() <= steps.len()
            &&& rest == steps.skip(steps.len() - rest.len())
            &&& dentry_index::walk(entries, start, steps.take(steps.len() - rest.len())) == (
                reached,
                Seq::<Seq<u8>>::empty(),
            )
            &&& rest.len() > 0 ==> !entries.contains_key((reached, rest[0]))
        }),
    decreases steps.len(),
{
    let (reached, rest) = dentry_index::walk(entries, start, steps);
    if steps.len() > 0 && entries.contains_key((start, steps[0])) {
        let next = entries[(start, steps[0])];
        law_walk_goes_as_deep_as_known(entries, next, steps.drop_first());
        let taken = steps.take(steps.len() - rest.len());
        assert(taken.drop_first() =~= steps.drop_first().take(
            steps.drop_first().len() - rest.len(),
        ));
        assert(rest =~= steps.skip(steps.len() - rest.len()));
    } else {
        assert(rest =~= steps.skip(0));
        assert(steps.take(0) =~= Seq::empty());
    }
}

/// A walk by steps in two parts goes on with the second part where the first one ended, if all of
/// the first one is known, and leaves the second part untouched otherwise.
pub proof fn law_walk_in_parts(
    entries: Map<DentryKey, Inode>,
    start: Inode,
    first: Seq<Seq<u8>>,
    second: Seq<Seq<u8>>,
)
    ensures
        ({
            let (reached, rest) = dentry_index::walk(entries, start, first);
            dentry_index::walk(entries, start, first + second) == (if rest.len() == 0 {
                dentry_index::walk(entries, reached, second)
            } else {
                (reached, rest + second)
            })
        }),
    decreases first.len(),
{
    let all = first + second;
    if first.len() == 0 {
        assert(all =~= second);
    } else if entries.contains_key((start, first[0])) {
        law_walk_in_parts(entries, entries[(start, first[0])], first.drop_first(), second);
        assert(all.drop_first() =~= first.drop_first() + second);
    }
}

/// Where a walk leaves exactly one name, the inode that it gives is the parent: the steps before
/// the last one lead there.
pub proof fn law_one_name_left_is_below_the_parent(
    entries: Map<DentryKey, Inode>,
    start: Inode,
    steps: Seq<Seq<u8>>,
)
    requires
        dentry_index::walk(entries, start, steps).1.len() == 1,
    ensures
        steps.len() > 0,
        dentry_index::walk(entries, start, steps).1 == seq![steps.last()],
        dentry_index::walk(entries, start, steps.drop_last()) == (
            dentry_index::walk(entries, start, steps).0,
            Seq::<Seq<u8>>::empty(),
        ),
{
    law_walk_goes_as_deep_as_known(entries, start, steps);
    assert(steps.take(steps.len() - 1) =~= steps.drop_last());
    assert(steps.skip(steps.len() - 1) =~= seq![steps.last()]);
}

/// A walk ends at its start or at an inode that some entry stands for.
pub proof fn law_walk_ends_at_a_known_inode(
    entries: Map<DentryKey, Inode>,
    start: Inode,
    steps: Seq<Seq<u8>>,
)
    ensures
        ({
            let reached = dentry_index::walk(entries, start, steps).0;
            reached == start || entries.contains_value(reached)
        }),
    decreases steps.len(),
{
    if steps.len() > 0 && entries.contains_key((start, steps[0])) {
        let next = entries[(start, steps[0])];
        assert(entries.contains_value(next));
        law_walk_ends_at_a_known_inode(entries, next, steps.drop_first());
    }
}

/// Names stand in the order of their parents, and under one parent in the order of a dictionary:
/// of two names that agree in their first `k` bytes, the one that ends there or goes on with the
/// smaller byte comes first.
pub proof fn law_order_of_names(keys: Seq<DentryKey>, i: int, j: int, k: int)
    requires
        dentry_table::ascending(keys),
        0 <= i < keys.len(),
        0 <= j < keys.len(),
        keys[i].0 < keys[j].0 || ({
            let (a, b) = (keys[i].1, keys[j].1);
            &&& keys[i].0 == keys[j].0
            &&& 0 <= k <= a.len()
            &&& k < b.len()
            &&& forall|n: int| 0 <= n < k ==> a[n] == b[n]
            &&& k == a.len() || a[k] < b[k]
        }),
    ensures
        i < j,
{
    if keys[i].0 == keys[j].0 {
        bytes::law_order_of_a_dictionary(keys[i].1, keys[j].1, k);
    }
    if j < i {
        assert(dentry_table::key_precedes(keys[j], keys[i]));
    }
}

/// A list of parents and names stands for the keys that they make, one by one.
pub proof fn law_pairs_stand_for_keys(list: Seq<(Inode, Name)>)
    ensures
        dentry_index::pairs_of(list).len() == list.len(),
        forall|i: int|
            0 <= i < list.len() ==> #[trigger] dentry_index::pairs_of(list)[i] == (
                list[i].0,
                list[i].1@,
            ),
{
}

/// A walk follows the entries. Where each of the first steps has an entry that leads from one
/// inode of `chain` to the next, and there is no further step or none with an entry, the walk ends
/// at the last inode of `chain` and leaves the other steps.
pub proof fn law_walk_follows_the_entries(
    entries: Map<DentryKey, Inode>,
    steps: Seq<Seq<u8>>,
    chain: Seq<Inode>,
)
    requires
        1 <= chain.len() <= steps.len() + 1,
        forall|i: int|
            0 <= i < chain.len() - 1 ==> entries.get((#[trigger] chain[i], steps[i])) == Some(
                chain[i + 1],
            ),
        chain.len() <= steps.len() ==> entries.get((chain.last(), steps[chain.len() - 1])) is None,
    ensures
        dentry_index::walk(entries, chain[0], steps) == (
            chain.last(),
            steps.skip(chain.len() - 1),
        ),
    decreases chain.len(),
{
    if chain.len() == 1 {
        assert(steps.skip(0) =~= steps);
    } else {
        let rest = chain.drop_first();
        let others = steps.drop_first();
        assert(entries.get((chain[0], steps[0])) == Some(chain[1]));
        assert forall|i: int| 0 <= i < rest.len() - 1 implies entries.get(
            (#[trigger] rest[i], others[i]),
        ) == Some(rest[i + 1]) by {
            assert(entries.get((chain[i + 1], steps[i + 1])) == Some(chain[i + 2]));
        }
        law_walk_follows_the_entries(entries, others, rest);
        assert(others.skip(rest.len() - 1) =~= steps.skip(chain.len() - 1));
    }
}

/// A path below the directory that a walk begins in leads along its names: where all of them have
/// entries, to the inode of the last one, and where one has none, to the inode before it, with
/// that name and all behind it left.
pub proof fn law_path_leads_along_its_names(
    entries: Map<DentryKey, Inode>,
    names: Seq<Seq<u8>>,
    chain: Seq<Inode>,
)
    requires
        names.len() > 0,
        forall|i: int| 0 <= i < names.len() ==> path_laws::plain(#[trigger] names[i]),
        1 <= chain.len() <= names.len() + 1,
        forall|i: int|
            0 <= i < chain.len() - 1 ==> entries.get((#[trigger] chain[i], names[i])) == Some(
                chain[i + 1],
            ),
        chain.len() <= names.len() ==> entries.get((chain.last(), names[chain.len() - 1])) is None,
    ensures
        dentry_index::walk(
            entries,
            chain[0],
            path::normal_names(
                path::components(path_laws::below(names[0], names.drop_first())),
            ),
        ) == (chain.last(), names.skip(chain.len() - 1)),
{
    let rest = names.drop_first();
    assert forall|i: int| 0 <= i < rest.len() implies path_laws::plain(#[trigger] rest[i]) by {
        assert(path_laws::plain(names[i + 1]));
    }
    assert(path_laws::plain(names[0]));
    path_laws::law_components_below(names[0], rest);
    path_laws::law_any_name_is_a_component(names[0], names[0]);
    path_laws::law_names_among_components(
        path::components(names[0]),
        Seq::new(rest.len(), |i: int| ComponentView::Normal(rest[i])),
    );
    path_laws::law_name_of_a_component(names[0]);
    assert(seq![names[0]] + rest =~= names);
    law_walk_follows_the_entries(entries, names, chain);
}

} // verus!
