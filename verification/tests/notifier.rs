use virtiofsd::fuse::{
    order_shown, ByteOrder, NotifyOpcode, NOTIFY_INVAL_ENTRY_OUT_SIZE, NOTIFY_INVAL_INODE_OUT_SIZE,
    OUT_HEADER_SIZE,
};
use virtiofsd::notify_invalidate::notifier::{
    CapturingNotifier, DropOnFullNotifier, LoggingNotifier, Notification, Notifier, NotifierError,
    ObservedNotifier, Observer,
};

fn u32_at(bytes: &[u8], at: usize) -> u32 {
    u32::from_ne_bytes(bytes[at..at + 4].try_into().unwrap())
}

fn i32_at(bytes: &[u8], at: usize) -> i32 {
    i32::from_ne_bytes(bytes[at..at + 4].try_into().unwrap())
}

fn u64_at(bytes: &[u8], at: usize) -> u64 {
    u64::from_ne_bytes(bytes[at..at + 8].try_into().unwrap())
}

fn i64_at(bytes: &[u8], at: usize) -> i64 {
    i64::from_ne_bytes(bytes[at..at + 8].try_into().unwrap())
}

#[test]
fn inval_inode_frame_layout() {
    let bytes = Notification::InvalInode { inode: 42 }.encode();
    assert_eq!(bytes.len(), OUT_HEADER_SIZE + NOTIFY_INVAL_INODE_OUT_SIZE);

    // Header: { len, error: -2 (InvalInode), unique: 0 }
    assert_eq!(u64_at(&bytes, 8), 0);
    assert_eq!(i32_at(&bytes, 4), -NotifyOpcode::InvalInode.code());
    assert_eq!(u32_at(&bytes, 0) as usize, bytes.len());

    // Body: { ino: 42, off: 0, len: -1 }
    assert_eq!(u64_at(&bytes, OUT_HEADER_SIZE), 42);
    assert_eq!(i64_at(&bytes, OUT_HEADER_SIZE + 8), 0);
    assert_eq!(i64_at(&bytes, OUT_HEADER_SIZE + 16), -1);
}

#[test]
fn inval_entry_frame_includes_trailing_nul() {
    let name = b"hello.txt".to_vec();
    let bytes = Notification::InvalEntry {
        parent: 7,
        name: name.clone(),
    }
    .encode();

    let expected_len = OUT_HEADER_SIZE + NOTIFY_INVAL_ENTRY_OUT_SIZE + name.len() + 1;
    assert_eq!(bytes.len(), expected_len);
    assert_eq!(*bytes.last().unwrap(), 0u8, "name must end with NUL");

    let body_offset = OUT_HEADER_SIZE;
    assert_eq!(u64_at(&bytes, body_offset), 7);
    assert_eq!(u32_at(&bytes, body_offset + 8) as usize, name.len());

    let name_offset = body_offset + NOTIFY_INVAL_ENTRY_OUT_SIZE;
    assert_eq!(&bytes[name_offset..name_offset + name.len()], &name[..]);
}

#[test]
fn capturing_notifier_records() {
    let mut n = CapturingNotifier::new();
    n.send(Notification::InvalInode { inode: 1 }).unwrap();
    n.send(Notification::InvalEntry {
        parent: 1,
        name: b"x".to_vec(),
    })
    .unwrap();
    let got = n.drain();
    assert_eq!(got.len(), 2);
}

/// Answers from a script, from its last answer to its first.
struct Scripted {
    answers: Vec<Result<(), NotifierError>>,
}

impl Notifier for Scripted {
    fn send(&mut self, _: Notification) -> Result<(), NotifierError> {
        self.answers.pop().unwrap()
    }
}

struct AlwaysFull;

impl Notifier for AlwaysFull {
    fn send(&mut self, _: Notification) -> Result<(), NotifierError> {
        Err(NotifierError::QueueFull)
    }
}

#[test]
fn drop_on_full_increments_counter() {
    let mut n = DropOnFullNotifier::new(AlwaysFull);
    for _ in 0..3 {
        n.send(Notification::InvalInode { inode: 1 }).unwrap();
    }
    assert_eq!(n.dropped_count(), 3);
}

#[test]
fn drop_on_full_hands_other_answers_on() {
    let mut n = DropOnFullNotifier::new(Scripted {
        answers: vec![
            Ok(()),
            Err(NotifierError::QueueFull),
            Err(NotifierError::QueueNotNegotiated),
            Ok(()),
        ],
    });
    assert_eq!(n.dropped_count(), 0);
    assert!(n.send(Notification::InvalInode { inode: 1 }).is_ok());
    assert!(matches!(
        n.send(Notification::InvalInode { inode: 1 }),
        Err(NotifierError::QueueNotNegotiated)
    ));
    assert_eq!(n.dropped_count(), 0);
    assert!(n.send(Notification::InvalInode { inode: 1 }).is_ok());
    assert_eq!(n.dropped_count(), 1);
    assert!(n.send(Notification::InvalInode { inode: 1 }).is_ok());
    assert_eq!(n.dropped_count(), 1);
}

#[test]
fn drained_notifications_come_in_order_and_once() {
    let mut n = CapturingNotifier::default();
    let first = Notification::InvalInode { inode: 9 };
    let second = Notification::InvalEntry {
        parent: 4,
        name: b"y".to_vec(),
    };
    n.send(first.clone()).unwrap();
    n.send(second.clone()).unwrap();
    assert_eq!(n.drain(), vec![first, second]);
    assert!(n.drain().is_empty());
}

#[test]
fn logging_notifier_takes_everything() {
    let mut n = LoggingNotifier::new();
    assert!(n.send(Notification::InvalInode { inode: 3 }).is_ok());
}

#[test]
fn frames_are_written_in_the_order_asked_for() {
    let inode = Notification::InvalInode { inode: 0x0102 };
    assert_eq!(
        inode.encode_in(ByteOrder::Little),
        vec![
            40, 0, 0, 0, 0xfe, 0xff, 0xff, 0xff, 0, 0, 0, 0, 0, 0, 0, 0, // header
            2, 1, 0, 0, 0, 0, 0, 0, // inode
            0, 0, 0, 0, 0, 0, 0, 0, // offset
            0xff, 0xff, 0xff, 0xff, 0xff, 0xff, 0xff, 0xff, // length
        ]
    );
    let entry = Notification::InvalEntry {
        parent: 5,
        name: b"ab".to_vec(),
    };
    assert_eq!(
        entry.encode_in(ByteOrder::Big),
        vec![
            0, 0, 0, 35, 0xff, 0xff, 0xff, 0xfd, 0, 0, 0, 0, 0, 0, 0, 0, // header
            0, 0, 0, 0, 0, 0, 0, 5, // parent
            0, 0, 0, 2, 0, 0, 0, 0, // length of the name, flags
            b'a', b'b', 0, // name
        ]
    );
}

#[test]
fn frames_use_the_order_of_the_machine() {
    let n = Notification::InvalInode { inode: 77 };
    let order = if cfg_is_little() {
        ByteOrder::Little
    } else {
        ByteOrder::Big
    };
    assert_eq!(n.encode(), n.encode_in(order));
    assert_eq!(order_shown(&1u16.to_ne_bytes()), order);
    assert_eq!(order_shown(&[1, 0]), ByteOrder::Little);
    assert_eq!(order_shown(&[0, 1]), ByteOrder::Big);
}

fn cfg_is_little() -> bool {
    1u32.to_ne_bytes()[0] == 1
}

#[test]
fn different_notifications_have_different_frames() {
    let list = vec![
        Notification::InvalInode { inode: 1 },
        Notification::InvalInode { inode: 2 },
        Notification::InvalEntry {
            parent: 1,
            name: Vec::new(),
        },
        Notification::InvalEntry {
            parent: 1,
            name: vec![0],
        },
        Notification::InvalEntry {
            parent: 2,
            name: Vec::new(),
        },
    ];
    for (i, a) in list.iter().enumerate() {
        for (j, b) in list.iter().enumerate() {
            assert_eq!(i == j, a.encode() == b.encode());
        }
    }
}

#[test]
fn opcode_names() {
    assert_eq!(
        Notification::InvalInode { inode: 1 }.opcode_name(),
        "FUSE_NOTIFY_INVAL_INODE"
    );
    assert_eq!(
        Notification::InvalEntry {
            parent: 1,
            name: Vec::new()
        }
        .opcode_name(),
        "FUSE_NOTIFY_INVAL_ENTRY"
    );
}

#[test]
fn notifier_error_messages() {
    assert_eq!(
        NotifierError::QueueNotNegotiated.message().unwrap(),
        "guest has not negotiated VIRTIO_FS_F_NOTIFICATION"
    );
    assert_eq!(
        NotifierError::QueueFull.message().unwrap(),
        "notification queue full"
    );
    assert_eq!(
        NotifierError::BufferTooSmall {
            needed: 1024,
            have: 0
        }
        .message()
        .unwrap(),
        "queue buffer too small (needed 1024, have 0)"
    );
    let wrapped = NotifierError::from(std::io::Error::other("gone"));
    assert!(wrapped.message().is_none());
    match wrapped {
        NotifierError::Io(e) => assert_eq!(e.to_string(), "gone"),
        _ => panic!("expected Io"),
    }
}

#[derive(Default)]
struct Journal {
    lines: Vec<String>,
}

impl Observer for Journal {
    fn sending(&mut self, notification: &Notification) {
        self.lines.push(notification.opcode_name().to_string());
    }

    fn answered(&mut self, answer: &Result<(), NotifierError>) {
        self.lines.push(match answer {
            Ok(()) => "sent".to_string(),
            Err(e) => e.message().unwrap(),
        });
    }
}

#[test]
fn observer_sees_what_is_sent_and_answered() {
    let mut n = DropOnFullNotifier::new(ObservedNotifier {
        inner: Scripted {
            answers: vec![Err(NotifierError::QueueFull), Ok(())],
        },
        observer: Journal::default(),
    });
    assert!(n.send(Notification::InvalInode { inode: 1 }).is_ok());
    assert!(n.send(Notification::InvalInode { inode: 1 }).is_ok());
    assert_eq!(n.dropped_count(), 1);

    let mut n = ObservedNotifier {
        inner: AlwaysFull,
        observer: Journal::default(),
    };
    assert!(matches!(
        n.send(Notification::InvalInode { inode: 1 }),
        Err(NotifierError::QueueFull)
    ));
    assert_eq!(
        n.observer.lines,
        vec!["FUSE_NOTIFY_INVAL_INODE", "notification queue full"]
    );
}
