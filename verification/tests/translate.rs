use virtiofsd::notify_invalidate::notifier::{
    CapturingNotifier, Notification, Notifier, NotifierError,
};
use virtiofsd::notify_invalidate::pipeline::Pipeline;
use virtiofsd::notify_invalidate::translate::{Batch, TranslateError, Translator};
use virtiofsd::notify_invalidate::watcher::{HostEvent, HostEventKind, InvalidPath, Resolved};
use virtiofsd::passthrough::dentry_index::DentryIndex;
use virtiofsd::path::HostPath;
use virtiofsd::Inode;

const ROOT: Inode = 1;

fn path(text: &str) -> HostPath {
    HostPath::from_bytes(text.as_bytes())
}

fn fixture() -> (Translator<CapturingNotifier>, DentryIndex) {
    let idx = DentryIndex::new();
    let t = Translator::new(ROOT, path("/shared"), CapturingNotifier::new());
    (t, idx)
}

#[test]
fn modify_known_leaf_emits_inval_inode() {
    let (mut t, mut idx) = fixture();
    idx.insert(ROOT, b"a", 2);
    idx.insert(2, b"b.txt", 3);
    t.handle(
        HostEvent {
            kind: HostEventKind::Modify {
                path: path("/shared/a/b.txt"),
            },
        },
        &idx,
    )
    .unwrap();
    let captured = t.notifier.drain();
    assert_eq!(captured.len(), 1);
    assert!(matches!(captured[0], Notification::InvalInode { inode: 3 }));
}

#[test]
fn modify_unknown_path_emits_nothing() {
    let (mut t, idx) = fixture();
    t.handle(
        HostEvent {
            kind: HostEventKind::Modify {
                path: path("/shared/nope/missing.txt"),
            },
        },
        &idx,
    )
    .unwrap();
    assert!(t.notifier.drain().is_empty());
}

#[test]
fn create_emits_inval_entry_against_parent() {
    let (mut t, mut idx) = fixture();
    idx.insert(ROOT, b"dir", 5);
    t.handle(
        HostEvent {
            kind: HostEventKind::Create {
                path: path("/shared/dir/new.txt"),
            },
        },
        &idx,
    )
    .unwrap();
    let captured = t.notifier.drain();
    assert_eq!(captured.len(), 1);
    match &captured[0] {
        Notification::InvalEntry { parent, name } => {
            assert_eq!(*parent, 5);
            assert_eq!(name, b"new.txt");
        }
        _ => panic!("expected InvalEntry"),
    }
}

#[test]
fn remove_emits_entry_and_inode_invalidations() {
    let (mut t, mut idx) = fixture();
    idx.insert(ROOT, b"dir", 5);
    idx.insert(5, b"old.txt", 7);
    t.handle(
        HostEvent {
            kind: HostEventKind::Remove {
                path: path("/shared/dir/old.txt"),
            },
        },
        &idx,
    )
    .unwrap();
    let captured = t.notifier.drain();
    assert_eq!(captured.len(), 2);
    // parent INVAL_ENTRY first
    match &captured[0] {
        Notification::InvalEntry { parent, name } => {
            assert_eq!(*parent, 5);
            assert_eq!(name, b"old.txt");
        }
        _ => panic!("expected InvalEntry first"),
    }
    // then leaf INVAL_INODE
    match &captured[1] {
        Notification::InvalInode { inode } => assert_eq!(*inode, 7),
        _ => panic!("expected InvalInode second"),
    }
}

#[test]
fn rename_paired_emits_both_sides_and_inode() {
    let (mut t, mut idx) = fixture();
    idx.insert(ROOT, b"dir", 5);
    idx.insert(5, b"old.txt", 7);
    t.handle(
        HostEvent {
            kind: HostEventKind::Rename {
                from: Some(path("/shared/dir/old.txt")),
                to: Some(path("/shared/dir/new.txt")),
            },
        },
        &idx,
    )
    .unwrap();
    let captured = t.notifier.drain();
    // Two INVAL_ENTRY (old, new) + one INVAL_INODE for the renamed leaf.
    assert_eq!(captured.len(), 3);
    assert_eq!(
        captured,
        vec![
            Notification::InvalEntry {
                parent: 5,
                name: b"old.txt".to_vec()
            },
            Notification::InvalEntry {
                parent: 5,
                name: b"new.txt".to_vec()
            },
            Notification::InvalInode { inode: 7 },
        ]
    );
}

#[test]
fn rename_only_from_still_invalidates_parent() {
    let (mut t, mut idx) = fixture();
    idx.insert(ROOT, b"dir", 5);
    idx.insert(5, b"x", 9);
    t.handle(
        HostEvent {
            kind: HostEventKind::Rename {
                from: Some(path("/shared/dir/x")),
                to: None,
            },
        },
        &idx,
    )
    .unwrap();
    let captured = t.notifier.drain();
    // INVAL_ENTRY for old + INVAL_INODE for the leaf.
    assert_eq!(captured.len(), 2);
}

#[test]
fn overflow_invalidates_every_known_inode_except_root() {
    let (mut t, mut idx) = fixture();
    idx.insert(ROOT, b"a", 2);
    idx.insert(ROOT, b"b", 3);
    idx.insert(2, b"c", 4);
    t.handle(
        HostEvent {
            kind: HostEventKind::Overflow,
        },
        &idx,
    )
    .unwrap();
    let captured = t.notifier.drain();
    // Three non-root inodes: 2, 3, 4.
    assert_eq!(captured.len(), 3);
    for n in &captured {
        assert!(matches!(n, Notification::InvalInode { .. }));
    }
}

#[test]
fn paths_outside_shared_dir_are_ignored() {
    let (mut t, idx) = fixture();
    t.handle(
        HostEvent {
            kind: HostEventKind::Modify {
                path: path("/etc/passwd"),
            },
        },
        &idx,
    )
    .unwrap();
    assert!(t.notifier.drain().is_empty());
}

fn sent(kind: HostEventKind, entries: &[(Inode, &[u8], Inode)]) -> Vec<Notification> {
    let (mut t, mut idx) = fixture();
    for (parent, name, child) in entries {
        idx.insert(*parent, name, *child);
    }
    t.handle(HostEvent::from(kind), &idx).unwrap();
    t.notifier.drain()
}

#[test]
fn outside_paths_call_for_nothing_whatever_happened() {
    let entries: &[(Inode, &[u8], Inode)] = &[(ROOT, b"a", 2)];
    for text in ["/etc/a", "/sharedx/a", "shared/a", "a", "", "/"] {
        assert!(sent(HostEventKind::Create { path: path(text) }, entries).is_empty());
        assert!(sent(HostEventKind::Modify { path: path(text) }, entries).is_empty());
        assert!(sent(HostEventKind::Remove { path: path(text) }, entries).is_empty());
        let rename = HostEventKind::Rename {
            from: Some(path(text)),
            to: Some(path(text)),
        };
        assert!(sent(rename, entries).is_empty());
    }
}

#[test]
fn paths_are_compared_by_component() {
    let entries: &[(Inode, &[u8], Inode)] = &[(ROOT, b"a", 2)];
    for text in ["/shared/a", "//shared///a/", "/./shared/./a/."] {
        assert_eq!(
            sent(HostEventKind::Modify { path: path(text) }, entries),
            vec![Notification::InvalInode { inode: 2 }]
        );
    }
}

#[test]
fn unknown_subtree_calls_for_nothing() {
    let entries: &[(Inode, &[u8], Inode)] = &[(ROOT, b"a", 2)];
    let deep = "/shared/a/x/y";
    assert!(sent(HostEventKind::Create { path: path(deep) }, entries).is_empty());
    assert!(sent(HostEventKind::Modify { path: path(deep) }, entries).is_empty());
    assert!(sent(HostEventKind::Remove { path: path(deep) }, entries).is_empty());
}

#[test]
fn unknown_leaf_is_announced_to_its_parent_only() {
    let entries: &[(Inode, &[u8], Inode)] = &[(ROOT, b"a", 2)];
    let fresh = "/shared/a/x";
    let announced = vec![Notification::InvalEntry {
        parent: 2,
        name: b"x".to_vec(),
    }];
    assert_eq!(
        sent(HostEventKind::Create { path: path(fresh) }, entries),
        announced
    );
    assert_eq!(
        sent(HostEventKind::Remove { path: path(fresh) }, entries),
        announced
    );
    assert!(sent(HostEventKind::Modify { path: path(fresh) }, entries).is_empty());
}

#[test]
fn shared_directory_itself() {
    let entries: &[(Inode, &[u8], Inode)] = &[(ROOT, b"a", 2)];
    let root = "/shared";
    assert_eq!(
        sent(HostEventKind::Modify { path: path(root) }, entries),
        vec![Notification::InvalInode { inode: ROOT }]
    );
    assert!(sent(HostEventKind::Create { path: path(root) }, entries).is_empty());
    assert!(sent(HostEventKind::Remove { path: path(root) }, entries).is_empty());
    let rename = HostEventKind::Rename {
        from: Some(path(root)),
        to: None,
    };
    assert!(sent(rename, entries).is_empty());
}

#[test]
fn root_is_spared_even_with_a_name_of_its_own() {
    let entries: &[(Inode, &[u8], Inode)] = &[(ROOT, b"self", ROOT), (ROOT, b"a", 2)];
    assert_eq!(
        sent(
            HostEventKind::Remove {
                path: path("/shared/self")
            },
            entries
        ),
        vec![Notification::InvalEntry {
            parent: ROOT,
            name: b"self".to_vec()
        }]
    );
    assert_eq!(
        sent(HostEventKind::Overflow, entries),
        vec![Notification::InvalInode { inode: 2 }]
    );
}

#[test]
fn half_renames() {
    let entries: &[(Inode, &[u8], Inode)] = &[(ROOT, b"a", 2)];
    let known = "/shared/a";
    let from = HostEventKind::Rename {
        from: Some(path(known)),
        to: None,
    };
    let to = HostEventKind::Rename {
        from: None,
        to: Some(path(known)),
    };
    assert_eq!(
        sent(from, entries),
        sent(HostEventKind::Remove { path: path(known) }, entries)
    );
    assert_eq!(
        sent(to, entries),
        sent(HostEventKind::Create { path: path(known) }, entries)
    );
    let neither = HostEventKind::Rename {
        from: None,
        to: None,
    };
    assert!(sent(neither, entries).is_empty());
}

#[test]
fn overflow_goes_by_ascending_inode() {
    let entries: &[(Inode, &[u8], Inode)] = &[
        (ROOT, b"z", 9),
        (ROOT, b"y", 300),
        (9, b"x", 4),
        (ROOT, b"w", 9),
    ];
    assert_eq!(
        sent(HostEventKind::Overflow, entries),
        vec![
            Notification::InvalInode { inode: 4 },
            Notification::InvalInode { inode: 9 },
            Notification::InvalInode { inode: 300 },
        ]
    );
}

/// Takes a number of notifications and refuses the rest.
struct Limited {
    room: usize,
    taken: Vec<Notification>,
}

impl Notifier for Limited {
    fn send(&mut self, notification: Notification) -> Result<(), NotifierError> {
        if self.taken.len() == self.room {
            return Err(NotifierError::QueueNotNegotiated);
        }
        self.taken.push(notification);
        Ok(())
    }
}

fn limited(room: usize) -> (Translator<Limited>, DentryIndex) {
    let mut idx = DentryIndex::new();
    idx.insert(ROOT, b"dir", 5);
    idx.insert(5, b"old", 7);
    let notifier = Limited {
        room,
        taken: Vec::new(),
    };
    (Translator::new(ROOT, path("/shared"), notifier), idx)
}

#[test]
fn first_refusal_ends_a_rename() {
    for room in 0..3 {
        let (mut t, idx) = limited(room);
        let result = t.handle(
            HostEvent::from(HostEventKind::Rename {
                from: Some(path("/shared/dir/old")),
                to: Some(path("/shared/new")),
            }),
            &idx,
        );
        assert!(matches!(
            result,
            Err(TranslateError::Notifier(NotifierError::QueueNotNegotiated))
        ));
        assert_eq!(t.notifier.taken.len(), room);
    }
}

#[test]
fn refusals_do_not_end_a_bulk_invalidation() {
    let (mut t, idx) = limited(1);
    assert!(t.bulk_invalidate(&idx).is_ok());
    assert_eq!(
        t.notifier.taken,
        vec![Notification::InvalInode { inode: 5 }]
    );
}

#[test]
fn bulk_invalidation_of_an_empty_index_sends_nothing() {
    let (mut t, idx) = fixture();
    assert!(t.bulk_invalidate(&idx).is_ok());
    assert!(t.notifier.drain().is_empty());
}

#[test]
fn translate_error_messages() {
    assert_eq!(
        TranslateError::from(NotifierError::QueueFull)
            .message()
            .unwrap(),
        "notification queue full"
    );
    assert!(TranslateError::Io(std::io::Error::other("x"))
        .message()
        .is_none());
}

#[test]
fn pipeline_begins_with_a_bulk_invalidation() {
    let mut idx = DentryIndex::new();
    idx.insert(ROOT, b"a", 2);
    idx.insert(2, b"b", 3);
    let mut p = Pipeline::start(ROOT, path("/shared"), CapturingNotifier::new(), &idx);
    assert_eq!(
        p.translator.notifier.drain(),
        vec![
            Notification::InvalInode { inode: 2 },
            Notification::InvalInode { inode: 3 },
        ]
    );
    let event = HostEvent::from(HostEventKind::Modify {
        path: path("/shared/a"),
    });
    assert!(p.dispatch(event, &idx).is_ok());
    assert_eq!(
        p.translator.notifier.drain(),
        vec![Notification::InvalInode { inode: 2 }]
    );
}

#[test]
fn pipeline_goes_on_after_a_failure() {
    let (t, idx) = limited(0);
    let mut p = Pipeline { translator: t };
    let event = || {
        HostEvent::from(HostEventKind::Modify {
            path: path("/shared/dir"),
        })
    };
    assert!(p.dispatch(event(), &idx).is_err());
    p.translator.notifier.room = 1;
    assert!(p.dispatch(event(), &idx).is_ok());
    assert_eq!(p.translator.notifier.taken.len(), 1);
}

#[test]
fn pipeline_goes_by_the_path_that_is_watched() {
    let mut idx = DentryIndex::new();
    idx.insert(ROOT, b"f", 8);
    let start = |resolved| {
        Pipeline::start_resolved(
            ROOT,
            path("/link"),
            resolved,
            CapturingNotifier::new(),
            &idx,
        )
    };
    let mut p = start(Resolved::Found {
        path: path("/real"),
        is_dir: true,
    })
    .ok()
    .unwrap();
    let bulk = vec![Notification::InvalInode { inode: 8 }];
    assert_eq!(p.translator.notifier.drain(), bulk);
    let event = HostEvent::from(HostEventKind::Modify {
        path: path("/real/f"),
    });
    assert!(p.dispatch(event, &idx).is_ok());
    assert_eq!(p.translator.notifier.drain(), bulk);

    let file = Resolved::Found {
        path: path("/real"),
        is_dir: false,
    };
    for (resolved, wrong) in [(file, "/real"), (Resolved::Missing, "/link")] {
        match start(resolved) {
            Err((InvalidPath(p), mut notifier)) => {
                assert_eq!(p.as_bytes(), wrong.as_bytes());
                assert!(notifier.drain().is_empty());
            }
            Ok(_) => panic!("expected an invalid path"),
        }
    }
}

#[test]
fn changes_are_seen_down_the_whole_tree() {
    let entries: &[(Inode, &[u8], Inode)] = &[(ROOT, b"a", 2), (2, b"b", 3), (3, b"c", 4)];
    for (text, parent, inode, name) in [
        ("/shared/a", ROOT, 2, b"a"),
        ("/shared/a/b", 2, 3, b"b"),
        ("/shared/a/b/c", 3, 4, b"c"),
    ] {
        assert_eq!(
            sent(HostEventKind::Modify { path: path(text) }, entries),
            vec![Notification::InvalInode { inode }]
        );
        assert_eq!(
            sent(HostEventKind::Create { path: path(text) }, entries),
            vec![Notification::InvalEntry {
                parent,
                name: name.to_vec()
            }]
        );
    }
}

#[test]
fn captured_notifications_add_up() {
    let (mut t, mut idx) = fixture();
    idx.insert(ROOT, b"a", 2);
    let modify = || {
        HostEvent::from(HostEventKind::Modify {
            path: path("/shared/a"),
        })
    };
    assert!(t.handle(modify(), &idx).is_ok());
    assert!(t.handle(modify(), &idx).is_ok());
    assert!(t.handle(HostEvent::from(HostEventKind::Overflow), &idx).is_ok());
    assert_eq!(
        t.notifier.drain(),
        vec![Notification::InvalInode { inode: 2 }; 3]
    );
}

#[test]
fn prepared_pipeline_has_sent_nothing_yet() {
    let mut idx = DentryIndex::new();
    idx.insert(ROOT, b"f", 8);
    let found = Resolved::Found {
        path: path("/real"),
        is_dir: true,
    };
    let (mut p, first) = Pipeline::prepare_resolved(
        ROOT,
        path("/link"),
        found,
        CapturingNotifier::new(),
        &idx,
    )
    .ok()
    .unwrap();
    assert!(p.translator.notifier.drain().is_empty());
    assert!(p.translator.deliver(first).is_ok());
    assert_eq!(
        p.translator.notifier.drain(),
        vec![Notification::InvalInode { inode: 8 }]
    );
    let missing = Pipeline::prepare_resolved(
        ROOT,
        path("/link"),
        Resolved::Missing,
        CapturingNotifier::new(),
        &idx,
    );
    match missing {
        Err((InvalidPath(p), mut notifier)) => {
            assert_eq!(p.as_bytes(), b"/link");
            assert!(notifier.drain().is_empty());
        }
        Ok(_) => panic!("expected an invalid path"),
    }
}

fn some_events() -> Vec<HostEventKind> {
    vec![
        HostEventKind::Modify {
            path: path("/shared/dir/old"),
        },
        HostEventKind::Create {
            path: path("/shared/dir/new"),
        },
        HostEventKind::Remove {
            path: path("/shared/dir/old"),
        },
        HostEventKind::Rename {
            from: Some(path("/shared/dir/old")),
            to: Some(path("/shared/new")),
        },
        HostEventKind::Overflow,
        HostEventKind::Modify {
            path: path("/elsewhere"),
        },
    ]
}

#[test]
fn preparing_and_delivering_is_handling() {
    for room in 0..5 {
        for kind in some_events() {
            let (mut a, idx) = limited(room);
            let (mut b, _) = limited(room);
            let batch = a.prepare(HostEvent::from(kind.clone()), &idx);
            assert!(a.notifier.taken.is_empty());
            assert_eq!(
                matches!(batch, Batch::Bulk(_)),
                matches!(kind, HostEventKind::Overflow)
            );
            let halves = a.deliver(batch);
            let whole = b.handle(HostEvent::from(kind), &idx);
            assert_eq!(halves.is_ok(), whole.is_ok());
            assert_eq!(a.notifier.taken, b.notifier.taken);
        }
    }
}

#[test]
fn handling_leaves_the_index_alone_and_repeats() {
    for kind in some_events() {
        let (mut t, idx) = limited(100);
        t.handle(HostEvent::from(kind.clone()), &idx).unwrap();
        let once = t.notifier.taken.clone();
        t.handle(HostEvent::from(kind), &idx).unwrap();
        assert_eq!(t.notifier.taken, [once.clone(), once].concat());
        assert_eq!(idx.get(ROOT, b"dir"), Some(5));
        assert_eq!(idx.get(5, b"old"), Some(7));
        assert_eq!(idx.all_inodes(), vec![5, 7]);
        assert_eq!(idx.len(), 2);
    }
}

#[test]
fn single_steps_can_be_called_by_name() {
    let (mut t, idx) = limited(100);
    t.handle_modify(&path("/shared"), &idx).unwrap();
    t.handle_modify(&path("/shared/dir/missing"), &idx).unwrap();
    t.handle_parent_change(&path("/shared/dir"), &idx).unwrap();
    t.handle_remove(&path("/shared/dir"), &idx).unwrap();
    t.handle_rename(&None, &Some(path("/shared/dir/old")), &idx)
        .unwrap();
    let dir = Notification::InvalEntry {
        parent: ROOT,
        name: b"dir".to_vec(),
    };
    assert_eq!(
        t.notifier.taken,
        vec![
            Notification::InvalInode { inode: ROOT },
            dir.clone(),
            dir,
            Notification::InvalInode { inode: 5 },
            Notification::InvalEntry {
                parent: 5,
                name: b"old".to_vec()
            },
        ]
    );
}
