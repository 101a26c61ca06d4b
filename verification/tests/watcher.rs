use crossbeam_channel::{bounded, Receiver};
use virtiofsd::notify_invalidate::watcher::{
    classify, classify_rename, watch_root, BackendError, DirScan, EventSink, HostEvent,
    HostEventKind, InvalidPath, Resolved,
    ModifyKind, RawEvent, RawEventKind, RenameMode, EVENT_CHANNEL_SIZE, INOTIFY_WATCH_WARN_THRESHOLD, SCAN_CAP,
};
use virtiofsd::path::HostPath;

fn path(text: &str) -> HostPath {
    HostPath::from_bytes(text.as_bytes())
}

fn raw(kind: RawEventKind, paths: &[&str]) -> RawEvent {
    RawEvent {
        kind,
        paths: paths.iter().map(|text| path(text)).collect(),
    }
}

fn text(path: &HostPath) -> String {
    String::from_utf8(path.as_bytes().to_vec()).unwrap()
}

fn side(path: &Option<HostPath>) -> String {
    match path {
        Some(path) => text(path),
        None => "-".to_string(),
    }
}

fn shown(kind: &HostEventKind) -> String {
    match kind {
        HostEventKind::Modify { path } => format!("modify {}", text(path)),
        HostEventKind::Create { path } => format!("create {}", text(path)),
        HostEventKind::Remove { path } => format!("remove {}", text(path)),
        HostEventKind::Rename { from, to } => format!("rename {} {}", side(from), side(to)),
        HostEventKind::Overflow => "overflow".to_string(),
    }
}

fn classified(kind: RawEventKind, paths: &[&str]) -> Option<String> {
    classify(&raw(kind, paths)).map(|kind| shown(&kind))
}

fn says(text: &str) -> Option<String> {
    Some(text.to_string())
}

#[test]
fn events_are_classified_by_kind() {
    assert_eq!(classified(RawEventKind::Create, &["/a"]), says("create /a"));
    assert_eq!(classified(RawEventKind::Modify(ModifyKind::Any), &["/a"]), says("modify /a"));
    for how in [ModifyKind::Data, ModifyKind::Metadata, ModifyKind::Other] {
        assert_eq!(
            classified(RawEventKind::Modify(how), &["/a"]),
            says("modify /a")
        );
    }
    assert_eq!(classified(RawEventKind::Any, &["/a"]), says("modify /a"));
    assert_eq!(classified(RawEventKind::Remove, &["/a"]), says("remove /a"));
    assert_eq!(classified(RawEventKind::Other, &["/a"]), says("overflow"));
    assert_eq!(classified(RawEventKind::Other, &[]), says("overflow"));
    assert_eq!(classified(RawEventKind::Access, &["/a"]), None);
}

#[test]
fn only_the_first_path_counts() {
    assert_eq!(
        classified(RawEventKind::Create, &["/a", "/b"]),
        says("create /a")
    );
    assert_eq!(
        classified(RawEventKind::Remove, &["/a", "/b"]),
        says("remove /a")
    );
}

#[test]
fn events_without_a_path_are_not_classified() {
    assert_eq!(classified(RawEventKind::Create, &[]), None);
    assert_eq!(classified(RawEventKind::Modify(ModifyKind::Any), &[]), None);
    assert_eq!(classified(RawEventKind::Any, &[]), None);
    assert_eq!(classified(RawEventKind::Remove, &[]), None);
}

#[test]
fn renames_keep_the_sides_they_have() {
    let both = &["/a", "/b"][..];
    let one = &["/a"][..];
    let cases = [
        (RenameMode::Both, both, "rename /a /b"),
        (RenameMode::Both, one, "rename /a -"),
        (RenameMode::From, both, "rename /a -"),
        (RenameMode::To, both, "rename - /a"),
        (RenameMode::Any, both, "rename /a /b"),
        (RenameMode::Other, one, "rename /a -"),
        (RenameMode::To, &[][..], "rename - -"),
    ];
    for (mode, paths, expected) in cases {
        assert_eq!(
            classified(RawEventKind::Modify(ModifyKind::Name(mode)), paths),
            says(expected)
        );
        let event = raw(RawEventKind::Modify(ModifyKind::Name(mode)), paths);
        assert_eq!(shown(&classify_rename(&event)), expected);
    }
}

#[test]
fn events_and_kinds_convert() {
    let event = HostEvent::from(HostEventKind::Create { path: path("/a") });
    assert_eq!(shown(&event.kind), "create /a");
    let kind = HostEventKind::try_from(event).unwrap();
    assert_eq!(shown(&kind), "create /a");
}

fn sink(room: usize) -> (EventSink, Receiver<HostEvent>) {
    let (tx, rx) = bounded::<HostEvent>(room);
    (EventSink::new(tx), rx)
}

fn received(rx: &Receiver<HostEvent>) -> Vec<String> {
    rx.try_iter().map(|event| shown(&event.kind)).collect()
}

#[test]
fn events_go_through_the_channel() {
    let (mut sink, rx) = sink(EVENT_CHANNEL_SIZE);
    sink.handle_raw_event(Ok(raw(RawEventKind::Create, &["/a"])));
    sink.handle_raw_event(Ok(raw(RawEventKind::Access, &["/a"])));
    sink.handle_raw_event(Ok(raw(RawEventKind::Modify(ModifyKind::Data), &["/a"])));
    assert_eq!(received(&rx), vec!["create /a", "modify /a"]);
}

#[test]
fn backend_failure_is_an_overflow() {
    let (mut sink, rx) = sink(4);
    sink.handle_raw_event(Err(BackendError));
    assert_eq!(received(&rx), vec!["overflow"]);
}

#[test]
fn full_channel_is_made_up_for_by_an_overflow() {
    let (mut sink, rx) = sink(1);
    sink.handle_raw_event(Ok(raw(RawEventKind::Create, &["/a"])));
    // No room for the event, nor for the overflow.
    sink.handle_raw_event(Ok(raw(RawEventKind::Create, &["/b"])));
    assert_eq!(received(&rx), vec!["create /a"]);
    // With the next report the receiver is told, whatever that report is.
    sink.handle_raw_event(Ok(raw(RawEventKind::Access, &["/c"])));
    assert_eq!(received(&rx), vec!["overflow"]);
    // And is not told again.
    sink.handle_raw_event(Ok(raw(RawEventKind::Create, &["/d"])));
    assert_eq!(received(&rx), vec!["create /d"]);
}

#[test]
fn pending_overflow_goes_ahead_of_the_next_event() {
    let (mut sink, rx) = sink(2);
    sink.handle_raw_event(Ok(raw(RawEventKind::Create, &["/a"])));
    sink.handle_raw_event(Ok(raw(RawEventKind::Create, &["/b"])));
    sink.handle_raw_event(Ok(raw(RawEventKind::Create, &["/c"])));
    assert_eq!(received(&rx), vec!["create /a", "create /b"]);
    sink.handle_raw_event(Ok(raw(RawEventKind::Create, &["/d"])));
    assert_eq!(received(&rx), vec!["overflow", "create /d"]);
}

#[test]
fn unclassified_events_are_overflows() {
    for kind in [
        RawEventKind::Any,
        RawEventKind::Create,
        RawEventKind::Modify(ModifyKind::Data),
        RawEventKind::Remove,
        RawEventKind::Other,
    ] {
        let (mut sink, rx) = sink(1);
        assert!(!sink.handle_raw_event(Ok(raw(kind, &[]))));
        assert_eq!(received(&rx), vec!["overflow"]);
    }
    let (mut sink, rx) = sink(1);
    assert!(!sink.handle_raw_event(Ok(raw(RawEventKind::Access, &[]))));
    assert!(received(&rx).is_empty());
}

#[test]
fn refused_overflow_is_sent_once_there_is_room() {
    let (mut sink, rx) = sink(1);
    assert!(!sink.handle_raw_event(Ok(raw(RawEventKind::Create, &["/a"]))));
    sink.retry();
    assert!(!sink.is_pending());
    assert!(sink.handle_raw_event(Ok(raw(RawEventKind::Create, &["/b"]))));
    assert!(sink.is_pending());
    sink.retry();
    assert!(sink.is_pending());
    assert_eq!(received(&rx), vec!["create /a"]);
    // No further report comes.
    sink.retry();
    assert!(!sink.is_pending());
    sink.retry();
    assert_eq!(received(&rx), vec!["overflow"]);
}

#[test]
fn vanished_receiver_does_no_harm() {
    let (mut sink, rx) = sink(2);
    drop(rx);
    sink.handle_raw_event(Ok(raw(RawEventKind::Create, &["/a"])));
    sink.handle_raw_event(Err(BackendError));
}

#[test]
fn scan_counts_directories_from_the_last_one_found() {
    let mut scan = DirScan::new(path("/"));
    assert_eq!(text(&scan.next_dir().unwrap()), "/");
    scan.record(vec![
        (path("/a"), true),
        (path("/f"), false),
        (path("/b"), true),
    ]);
    assert_eq!(scan.found(), 2);
    assert_eq!(text(&scan.next_dir().unwrap()), "/b");
    scan.record(Vec::new());
    assert_eq!(text(&scan.next_dir().unwrap()), "/a");
    scan.record(vec![(path("/a/g"), false)]);
    assert!(scan.next_dir().is_none());
    assert_eq!(scan.found(), 2);
    assert!(!scan.is_oversized());
}

#[test]
fn scan_stops_at_the_cap() {
    let mut scan = DirScan::new(path("/"));
    assert!(scan.next_dir().is_some());
    let many: Vec<(HostPath, bool)> = (0..2 * SCAN_CAP).map(|_| (path("/d"), true)).collect();
    scan.record(many);
    assert_eq!(scan.found(), SCAN_CAP);
    assert!(scan.next_dir().is_none());
    assert!(scan.is_oversized());
}

#[test]
fn scan_of_a_tree_lists_each_directory_once() {
    // Three levels, with three directories and a file in each directory but those at the bottom.
    let mut scan = DirScan::new(path("r"));
    let mut listed = 0;
    while let Some(dir) = scan.next_dir() {
        listed += 1;
        let dir = text(&dir);
        if dir.len() < 4 {
            scan.record(vec![
                (path(&format!("{dir}a")), true),
                (path(&format!("{dir}f")), false),
            ]);
            scan.record(vec![
                (path(&format!("{dir}b")), true),
                (path(&format!("{dir}c")), true),
            ]);
        }
    }
    assert_eq!(scan.found(), 3 + 9 + 27);
    assert_eq!(listed, scan.found() + 1);
}

#[test]
fn scan_lists_no_more_than_the_cap() {
    // A chain without an end.
    let mut scan = DirScan::new(path("r"));
    let mut listed = 0;
    while let Some(dir) = scan.next_dir() {
        listed += 1;
        scan.record(vec![(dir, true)]);
    }
    assert_eq!(scan.found(), SCAN_CAP);
    assert_eq!(listed, SCAN_CAP);
}

#[test]
fn scan_warns_from_the_threshold_on() {
    for (count, warns) in [
        (INOTIFY_WATCH_WARN_THRESHOLD - 1, false),
        (INOTIFY_WATCH_WARN_THRESHOLD, true),
    ] {
        let mut scan = DirScan::new(path("/"));
        assert!(scan.next_dir().is_some());
        scan.record((0..count).map(|_| (path("/d"), true)).collect());
        assert_eq!(scan.found(), count);
        assert!(scan.next_dir().is_some());
        assert_eq!(scan.is_oversized(), warns);
    }
}

#[test]
fn only_directories_are_watched() {
    let found = |is_dir| Resolved::Found {
        path: path("/real"),
        is_dir,
    };
    let root = watch_root(path("/link"), found(true)).unwrap();
    assert_eq!(text(&root), "/real");
    let InvalidPath(wrong) = watch_root(path("/link"), found(false)).unwrap_err();
    assert_eq!(text(&wrong), "/real");
    let InvalidPath(wrong) = watch_root(path("/link"), Resolved::Missing).unwrap_err();
    assert_eq!(text(&wrong), "/link");
}
