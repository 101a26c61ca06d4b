use virtiofsd::passthrough::dentry_index::DentryIndex;
use virtiofsd::path::HostPath;
use virtiofsd::Inode;

const ROOT: Inode = 1;

fn path(text: &str) -> HostPath {
    HostPath::from_bytes(text.as_bytes())
}

#[test]
fn insert_lookup() {
    let mut idx = DentryIndex::new();
    idx.insert(ROOT, b"foo", 2);
    idx.insert(2, b"bar", 3);
    assert_eq!(idx.get(ROOT, b"foo"), Some(2));
    assert_eq!(idx.get(2, b"bar"), Some(3));
    assert_eq!(idx.get(ROOT, b"missing"), None);
}

#[test]
fn remove_clears_both_directions() {
    let mut idx = DentryIndex::new();
    idx.insert(ROOT, b"foo", 2);
    idx.insert(2, b"bar", 3);
    idx.remove(2, b"bar");
    assert_eq!(idx.get(2, b"bar"), None);
    assert!(idx.names_for(3).is_empty());
    // sibling still there
    assert_eq!(idx.get(ROOT, b"foo"), Some(2));
}

#[test]
fn rename_moves_entry() {
    let mut idx = DentryIndex::new();
    idx.insert(ROOT, b"a", 2);
    idx.insert(ROOT, b"b", 3);
    idx.rename(ROOT, b"a", ROOT, b"c");
    assert_eq!(idx.get(ROOT, b"a"), None);
    assert_eq!(idx.get(ROOT, b"c"), Some(2));
    assert_eq!(idx.names_for(2), vec![(ROOT, b"c".to_vec())]);
}

#[test]
fn rename_overwrites_destination() {
    let mut idx = DentryIndex::new();
    idx.insert(ROOT, b"src", 2);
    idx.insert(ROOT, b"dst", 3);
    idx.rename(ROOT, b"src", ROOT, b"dst");
    assert_eq!(idx.get(ROOT, b"src"), None);
    assert_eq!(idx.get(ROOT, b"dst"), Some(2));
    // Inode 3 was overwritten: its dentry record is gone.
    assert!(idx.names_for(3).is_empty());
    assert_eq!(idx.names_for(2), vec![(ROOT, b"dst".to_vec())]);
}

#[test]
fn hardlink_records_multiple_names() {
    let mut idx = DentryIndex::new();
    idx.insert(ROOT, b"a", 2);
    idx.insert(ROOT, b"b", 2);
    let mut names = idx.names_for(2);
    names.sort();
    assert_eq!(
        names,
        vec![(ROOT, b"a".to_vec()), (ROOT, b"b".to_vec())]
    );
}

#[test]
fn forget_inode_drops_everything() {
    let mut idx = DentryIndex::new();
    idx.insert(ROOT, b"a", 2);
    idx.insert(ROOT, b"b", 2);
    idx.insert(2, b"c", 3);
    idx.forget_inode(2);
    assert_eq!(idx.get(ROOT, b"a"), None);
    assert_eq!(idx.get(ROOT, b"b"), None);
    // The child of `2` is still indexed (forget cascades only one level).
    assert_eq!(idx.get(2, b"c"), Some(3));
}

#[test]
fn resolve_path_walks_index() {
    let mut idx = DentryIndex::new();
    idx.insert(ROOT, b"a", 2);
    idx.insert(2, b"b", 3);
    idx.insert(3, b"c", 4);

    let (ino, rem) = idx.resolve_path(ROOT, &path("a/b/c"));
    assert_eq!(ino, 4);
    assert!(rem.is_empty());

    let (ino, rem) = idx.resolve_path(ROOT, &path("a/b/missing"));
    assert_eq!(ino, 3);
    assert_eq!(rem, vec![b"missing".to_vec()]);

    let (ino, rem) = idx.resolve_path(ROOT, &path("a/x/y"));
    assert_eq!(ino, 2);
    assert_eq!(rem, vec![b"x".to_vec(), b"y".to_vec()]);
}

#[test]
fn insert_overwrite_cleans_old_reverse() {
    let mut idx = DentryIndex::new();
    idx.insert(ROOT, b"foo", 2);
    // Same path now points at a different inode: typical when a file is
    // replaced out-of-band on the host and the guest re-looks-up.
    idx.insert(ROOT, b"foo", 5);
    assert!(idx.names_for(2).is_empty());
    assert_eq!(idx.names_for(5), vec![(ROOT, b"foo".to_vec())]);
}

#[test]
fn length_counts_entries() {
    let mut idx = DentryIndex::default();
    assert!(idx.is_empty());
    assert_eq!(idx.len(), 0);
    idx.insert(ROOT, b"a", 2);
    idx.insert(ROOT, b"b", 2);
    idx.insert(2, b"a", 3);
    assert_eq!(idx.len(), 3);
    idx.insert(ROOT, b"a", 4);
    assert_eq!(idx.len(), 3);
    idx.insert(ROOT, b"a", 4);
    assert_eq!(idx.len(), 3);
    idx.remove(ROOT, b"missing");
    assert_eq!(idx.len(), 3);
    idx.rename(ROOT, b"a", ROOT, b"b");
    assert_eq!(idx.len(), 2);
    idx.forget_inode(4);
    assert_eq!(idx.len(), 1);
    assert!(!idx.is_empty());
    idx.remove(2, b"a");
    assert_eq!(idx.len(), 0);
    assert!(idx.is_empty());
}

#[test]
fn tracked_inodes_ascend() {
    let mut idx = DentryIndex::new();
    assert!(idx.all_inodes().is_empty());
    idx.insert(ROOT, b"a", 70);
    idx.insert(ROOT, b"b", 3);
    idx.insert(ROOT, b"c", 70);
    idx.insert(3, b"d", 12);
    assert_eq!(idx.all_inodes(), vec![3, 12, 70]);
    idx.remove(ROOT, b"a");
    assert_eq!(idx.all_inodes(), vec![3, 12, 70]);
    idx.remove(ROOT, b"c");
    assert_eq!(idx.all_inodes(), vec![3, 12]);
}

#[test]
fn names_ascend_by_parent_and_name() {
    let mut idx = DentryIndex::new();
    idx.insert(9, b"b", 2);
    idx.insert(3, b"zz", 2);
    idx.insert(9, b"", 2);
    idx.insert(9, b"ab", 2);
    idx.insert(9, b"a", 2);
    assert_eq!(
        idx.names_for(2),
        vec![
            (3, b"zz".to_vec()),
            (9, b"".to_vec()),
            (9, b"a".to_vec()),
            (9, b"ab".to_vec()),
            (9, b"b".to_vec()),
        ]
    );
    assert!(idx.names_for(8).is_empty());
}

#[test]
fn rename_of_an_unknown_entry_drops_the_destination() {
    let mut idx = DentryIndex::new();
    idx.insert(ROOT, b"dst", 3);
    idx.rename(ROOT, b"src", ROOT, b"dst");
    assert_eq!(idx.get(ROOT, b"dst"), None);
    assert!(idx.is_empty());
}

#[test]
fn rename_onto_itself_drops_the_entry() {
    let mut idx = DentryIndex::new();
    idx.insert(ROOT, b"a", 3);
    idx.rename(ROOT, b"a", ROOT, b"a");
    assert_eq!(idx.get(ROOT, b"a"), None);
}

#[test]
fn rename_over_another_name_of_the_same_inode() {
    let mut idx = DentryIndex::new();
    idx.insert(ROOT, b"a", 3);
    idx.insert(ROOT, b"b", 3);
    idx.rename(ROOT, b"a", ROOT, b"b");
    assert_eq!(idx.names_for(3), vec![(ROOT, b"b".to_vec())]);
}

#[test]
fn rename_and_back() {
    let mut idx = DentryIndex::new();
    idx.insert(ROOT, b"a", 3);
    idx.insert(3, b"x", 4);
    idx.rename(ROOT, b"a", 3, b"b");
    idx.rename(3, b"b", ROOT, b"a");
    assert_eq!(idx.get(ROOT, b"a"), Some(3));
    assert_eq!(idx.get(3, b"b"), None);
    assert_eq!(idx.get(3, b"x"), Some(4));
    assert_eq!(idx.len(), 2);
}

#[test]
fn removal_undoes_insertion() {
    let mut idx = DentryIndex::new();
    idx.insert(ROOT, b"a", 3);
    idx.insert(ROOT, b"b", 3);
    idx.remove(ROOT, b"b");
    assert_eq!(idx.names_for(3), vec![(ROOT, b"a".to_vec())]);
    assert_eq!(idx.all_inodes(), vec![3]);
}

#[test]
fn forgetting_an_unknown_inode_changes_nothing() {
    let mut idx = DentryIndex::new();
    idx.insert(ROOT, b"a", 3);
    idx.forget_inode(77);
    assert_eq!(idx.get(ROOT, b"a"), Some(3));
    assert_eq!(idx.len(), 1);
}

#[test]
fn walks_skip_what_is_no_name() {
    let mut idx = DentryIndex::new();
    idx.insert(ROOT, b"a", 2);
    idx.insert(2, b"b", 3);
    for text in ["/a//b/", "./a/./b", "../a/../b", "a/b/.."] {
        assert_eq!(idx.resolve_path(ROOT, &path(text)), (3, Vec::new()));
    }
    assert_eq!(idx.resolve_path(ROOT, &path("")), (ROOT, Vec::new()));
    assert_eq!(
        idx.resolve_path(2, &path("a/b")),
        (2, vec![b"a".to_vec(), b"b".to_vec()])
    );
}

#[test]
fn name_lists_add_up_to_the_entries() {
    let mut idx = DentryIndex::new();
    for i in 0..50u64 {
        idx.insert(i % 7, format!("n{i}").as_bytes(), 100 + i % 11);
    }
    idx.rename(0, b"n0", 3, b"n3");
    idx.forget_inode(104);
    let total: usize = idx
        .all_inodes()
        .iter()
        .map(|inode| idx.names_for(*inode).len())
        .sum();
    assert_eq!(total, idx.len());
}

#[test]
fn length_drops_by_the_names_of_a_forgotten_inode() {
    let mut idx = DentryIndex::new();
    idx.insert(ROOT, b"a", 2);
    idx.insert(ROOT, b"b", 2);
    idx.insert(2, b"c", 3);
    idx.forget_inode(2);
    assert_eq!(idx.len(), 1);
    assert_eq!(idx.all_inodes(), vec![3]);
    idx.forget_inode(2);
    assert_eq!(idx.len(), 1);
}

#[test]
fn overwritten_inode_is_tracked_while_it_has_a_name() {
    let mut idx = DentryIndex::new();
    idx.insert(ROOT, b"a", 2);
    idx.insert(ROOT, b"b", 2);
    idx.insert(ROOT, b"a", 3);
    assert_eq!(idx.all_inodes(), vec![2, 3]);
    idx.insert(ROOT, b"b", 3);
    assert_eq!(idx.all_inodes(), vec![3]);
}
