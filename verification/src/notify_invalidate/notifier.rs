//! Framing and dispatch of notifications.
//!
//! A notification is framed like a reply, with two twists: the `unique` field of the header is
//! zero, by which the guest tells notifications from replies, and the `error` field holds the
//! negated opcode.

use vstd::prelude::*;

use crate::fuse;
use crate::fuse::{
    ByteOrder, NotifyInvalEntryOut, NotifyInvalInodeOut, NotifyOpcode, OutHeader,
};
use crate::text;
use crate::Inode;

verus! {

/// A single notification ready to frame and send.
#[derive(Debug, Clone, PartialEq, Eq)]
pub enum Notification {
    /// Drop the cached attributes and data of this inode.
    InvalInode { inode: Inode },
    /// Drop the entry of this name under `parent`. Used when a child is created, removed or
    /// renamed under a parent that the guest has already enumerated.
    InvalEntry { parent: Inode, name: Vec<u8> },
}

/// Mathematical counterpart of [`Notification`].
pub enum NotificationView {
    InvalInode { inode: Inode },
    InvalEntry { parent: Inode, name: Seq<u8> },
}

impl View for Notification {
    type V = NotificationView;

    open spec fn view(&self) -> NotificationView {
        match self {
            Notification::InvalInode { inode } => NotificationView::InvalInode { inode: *inode },
            Notification::InvalEntry { parent, name } => NotificationView::InvalEntry {
                parent: *parent,
                name: name@,
            },
        }
    }
}

impl NotificationView {
    /// What the notification is about.
    pub open spec fn opcode(self) -> NotifyOpcode {
        match self {
            NotificationView::InvalInode { .. } => NotifyOpcode::InvalInode,
            NotificationView::InvalEntry { .. } => NotifyOpcode::InvalEntry,
        }
    }

    /// The length of the whole frame.
    pub open spec fn frame_len(self) -> nat {
        match self {
            NotificationView::InvalInode { .. } => (fuse::OUT_HEADER_SIZE
                + fuse::NOTIFY_INVAL_INODE_OUT_SIZE) as nat,
            NotificationView::InvalEntry { name, .. } => (fuse::OUT_HEADER_SIZE
                + fuse::NOTIFY_INVAL_ENTRY_OUT_SIZE + name.len() + 1) as nat,
        }
    }

    /// The header of the frame.
    pub open spec fn header(self) -> OutHeader {
        OutHeader {
            len: (self.frame_len() % 0x1_0000_0000) as u32,
            error: (-self.opcode().code()) as i32,
            unique: 0,
        }
    }

    /// What follows the header.
    pub open spec fn body(self, order: ByteOrder) -> Seq<u8> {
        match self {
            NotificationView::InvalInode { inode } => (NotifyInvalInodeOut {
                ino: inode,
                off: 0,
                len: -1i64,
            }).wire(order),
            NotificationView::InvalEntry { parent, name } => (NotifyInvalEntryOut {
                parent,
                namelen: (name.len() % 0x1_0000_0000) as u32,
                flags: 0,
            }).wire(order) + name + seq![0u8],
        }
    }

    /// The notification on the wire: the header, the body and, for an entry, the name with the
    /// zero byte that ends it.
    pub open spec fn frame(self, order: ByteOrder) -> Seq<u8> {
        self.header().wire(order) + self.body(order)
    }
}

/// The frame is as long as it says, and a length that its field can hold is the one it holds.
pub proof fn law_frame_tells_its_length(n: NotificationView, order: ByteOrder)
    ensures
        n.frame(order).len() == n.frame_len(),
        n.frame_len() < 0x1_0000_0000 ==> n.frame(order).take(4) == fuse::number_bytes(
            n.frame(order).len() as int,
            4,
            order,
        ),
{
    lemma_frame_fields(n, order);
    if n.frame_len() < 0x1_0000_0000 {
        vstd::arithmetic::div_mod::lemma_small_mod(n.frame_len(), 0x1_0000_0000);
    }
}

/// In every frame `unique` is zero and `error` is the negated opcode.
pub proof fn law_frame_is_no_reply(n: NotificationView, order: ByteOrder)
    ensures
        n.frame(order).subrange(4, 8) == fuse::number_bytes(
            -(n.opcode().code() as int),
            4,
            order,
        ),
        n.frame(order).subrange(8, 16) == fuse::number_bytes(0, 8, order),
{
    lemma_frame_fields(n, order);
}

/// The frame of an entry ends with its name and a zero byte.
pub proof fn law_entry_frame_ends_with_name(parent: Inode, name: Seq<u8>, order: ByteOrder)
    ensures
        ({
            let frame = (NotificationView::InvalEntry { parent, name }).frame(order);
            &&& frame.last() == 0
            &&& frame.subrange(frame.len() - 1 - name.len(), frame.len() - 1) == name
        }),
{
    let n = NotificationView::InvalEntry { parent, name };
    lemma_frame_fields(n, order);
    let frame = n.frame(order);
    assert(frame.subrange(frame.len() - 1 - name.len(), frame.len() - 1) =~= name);
}

/// Two notifications with the same frame are the same.
pub proof fn law_frame_determines_notification(
    a: NotificationView,
    b: NotificationView,
    order: ByteOrder,
)
    requires
        a.frame(order) == b.frame(order),
    ensures
        a == b,
{
    lemma_frame_fields(a, order);
    lemma_frame_fields(b, order);
    let frame = a.frame(order);
    assert(fuse::span(4) == 0x1_0000_0000 && fuse::span(8) == 0x1_0000_0000_0000_0000) by {
        reveal_with_fuel(fuse::span, 9);
    }
    let m: int = 0x1_0000_0000;
    let ea = -(a.opcode().code() as int);
    let eb = -(b.opcode().code() as int);
    assert(fuse::number_bytes(ea, 4, order) == fuse::number_bytes(ea % m, 4, order)) by {
        assert((ea % m) % m == ea % m);
    }
    assert(fuse::number_bytes(eb, 4, order) == fuse::number_bytes(eb % m, 4, order)) by {
        assert((eb % m) % m == eb % m);
    }
    fuse::lemma_number_bytes_injective(ea % m, eb % m, 4, order);
    assert(a.opcode() == b.opcode());
    match (a, b) {
        (
            NotificationView::InvalInode { inode: x },
            NotificationView::InvalInode { inode: y },
        ) => {
            fuse::lemma_number_bytes_injective(x as int, y as int, 8, order);
        },
        (
            NotificationView::InvalEntry { parent: x, name: p },
            NotificationView::InvalEntry { parent: y, name: q },
        ) => {
            fuse::lemma_number_bytes_injective(x as int, y as int, 8, order);
            assert(p =~= frame.subrange(32, 32 + p.len() as int));
            assert(q =~= frame.subrange(32, 32 + q.len() as int));
        },
        _ => {},
    }
}

/// Where the fields of a frame stand.
proof fn lemma_frame_fields(n: NotificationView, order: ByteOrder)
    ensures
        n.frame(order).len() == n.frame_len(),
        n.frame(order).take(4) == fuse::number_bytes(n.header().len as int, 4, order),
        n.frame(order).subrange(4, 8) == fuse::number_bytes(
            -(n.opcode().code() as int),
            4,
            order,
        ),
        n.frame(order).subrange(8, 16) == fuse::number_bytes(0, 8, order),
        n matches NotificationView::InvalInode { inode } ==> n.frame(order).subrange(16, 24)
            == fuse::number_bytes(inode as int, 8, order),
        n matches NotificationView::InvalEntry { parent, name } ==> {
            &&& n.frame(order).subrange(16, 24) == fuse::number_bytes(parent as int, 8, order)
            &&& n.frame(order).subrange(32, 32 + name.len() as int) == name
            &&& n.frame(order).last() == 0
        },
{
    let h = n.header();
    let frame = n.frame(order);
    fuse::lemma_number_bytes_len(h.len as int, 4, order);
    fuse::lemma_number_bytes_len(h.error as int, 4, order);
    fuse::lemma_number_bytes_len(h.unique as int, 8, order);
    match n {
        NotificationView::InvalInode { inode } => {
            fuse::lemma_number_bytes_len(inode as int, 8, order);
            fuse::lemma_number_bytes_len(0, 8, order);
            fuse::lemma_number_bytes_len(-1, 8, order);
        },
        NotificationView::InvalEntry { parent, name } => {
            fuse::lemma_number_bytes_len(parent as int, 8, order);
            fuse::lemma_number_bytes_len((name.len() % 0x1_0000_0000) as int, 4, order);
            fuse::lemma_number_bytes_len(0, 4, order);
            assert(frame.subrange(32, 32 + name.len() as int) =~= name);
        },
    }
    assert(h.wire(order).len() == 16);
    assert(frame.take(4) =~= fuse::number_bytes(h.len as int, 4, order));
    assert(frame.subrange(4, 8) =~= fuse::number_bytes(h.error as int, 4, order));
    assert(frame.subrange(8, 16) =~= fuse::number_bytes(0, 8, order));
    match n {
        NotificationView::InvalInode { inode } => {
            assert(frame.subrange(16, 24) =~= fuse::number_bytes(inode as int, 8, order));
        },
        NotificationView::InvalEntry { parent, name } => {
            assert(frame.subrange(16, 24) =~= fuse::number_bytes(parent as int, 8, order));
        },
    }
}

impl Notification {
    /// The bytes of the notification on the wire, in the byte order that the machine answers with
    /// when it is asked.
    pub fn encode(&self) -> (r: Vec<u8>)
        ensures
            exists|order: ByteOrder| r@ == #[trigger] self@.frame(order),
            exists|order: ByteOrder|
                call_ensures(fuse::native_order, (), order) && fuse::shown_by_memory(order) && r@
                    == #[trigger] self@.frame(order),
    {
        let ask = fuse::native_order;
        let order = ask();
        self.encode_in(order)
    }

    /// The bytes of the notification on the wire, in the byte order `order`.
    pub fn encode_in(&self, order: ByteOrder) -> (r: Vec<u8>)
        ensures
            r@ == self@.frame(order),
    {
        let mut out: Vec<u8> = Vec::new();
        match self {
            Notification::InvalInode { inode } => {
                let header = OutHeader {
                    len: (fuse::OUT_HEADER_SIZE + fuse::NOTIFY_INVAL_INODE_OUT_SIZE) as u32,
                    error: -NotifyOpcode::InvalInode.code(),
                    unique: 0,
                };
                let body = NotifyInvalInodeOut { ino: *inode, off: 0, len: -1 };
                header.put(&mut out, order);
                body.put(&mut out, order);
                assert(header == self@.header());
            },
            Notification::InvalEntry { parent, name } => {
                let namelen: u64 = name.len() as u64 % 0x1_0000_0000;
                // The zero byte that ends the name counts in the length of the frame, not in that
                // of the name.
                let fixed: u64 = (fuse::OUT_HEADER_SIZE + fuse::NOTIFY_INVAL_ENTRY_OUT_SIZE
                    + 1) as u64;
                let header = OutHeader {
                    len: ((namelen + fixed) % 0x1_0000_0000) as u32,
                    error: -NotifyOpcode::InvalEntry.code(),
                    unique: 0,
                };
                let body = NotifyInvalEntryOut {
                    parent: *parent,
                    namelen: namelen as u32,
                    flags: 0,
                };
                header.put(&mut out, order);
                body.put(&mut out, order);
                out.extend_from_slice(name.as_slice());
                out.push(0);
                assert(header == self@.header());
            },
        }
        assert(out@ =~= self@.frame(order));
        out
    }

    /// Name of the opcode, for logging.
    pub fn opcode_name(&self) -> (r: &'static str)
        ensures
            r@ == (match self@.opcode() {
                NotifyOpcode::InvalInode => "FUSE_NOTIFY_INVAL_INODE"@,
                NotifyOpcode::InvalEntry => "FUSE_NOTIFY_INVAL_ENTRY"@,
            }),
    {
        match self {
            Notification::InvalInode { .. } => "FUSE_NOTIFY_INVAL_INODE",
            Notification::InvalEntry { .. } => "FUSE_NOTIFY_INVAL_ENTRY",
        }
    }
}

/// Why a notification was not sent.
#[derive(Debug)]
pub enum NotifierError {
    /// The guest has not negotiated a notification queue to write to.
    QueueNotNegotiated,
    /// No buffer is available on the notification queue. The caller may try again, or drop the
    /// notification and signal an overflow.
    QueueFull,
    /// A buffer was available, but it is too small for this notification.
    BufferTooSmall { needed: usize, have: usize },
    /// An I/O error on the way into the queue.
    Io(std::io::Error),
}

impl NotifierError {
    /// What the error says, other than by the text of an underlying I/O error.
    pub open spec fn words(self) -> Option<Seq<char>> {
        match self {
            NotifierError::QueueNotNegotiated => Some(
                "guest has not negotiated VIRTIO_FS_F_NOTIFICATION"@,
            ),
            NotifierError::QueueFull => Some("notification queue full"@),
            NotifierError::BufferTooSmall { needed, have } => Some(
                "queue buffer too small (needed "@ + text::decimal(needed as nat) + ", have "@
                    + text::decimal(have as nat) + ")"@,
            ),
            NotifierError::Io(_) => None,
        }
    }

    /// The message of the error; nothing where it is that of the underlying I/O error.
    pub fn message(&self) -> (r: Option<String>)
        ensures
            r is Some <==> self.words() is Some,
            r matches Some(message) ==> Some(message@) == self.words(),
    {
        match self {
            NotifierError::QueueNotNegotiated => Some(
                "guest has not negotiated VIRTIO_FS_F_NOTIFICATION".to_owned(),
            ),
            NotifierError::QueueFull => Some("notification queue full".to_owned()),
            NotifierError::BufferTooSmall { needed, have } => {
                let mut message = "queue buffer too small (needed ".to_owned();
                message.append(text::decimal_text(*needed as u64).as_str());
                message.append(", have ");
                message.append(text::decimal_text(*have as u64).as_str());
                message.append(")");
                Some(message)
            },
            NotifierError::Io(_) => None,
        }
    }
}

impl From<std::io::Error> for NotifierError {
    fn from(e: std::io::Error) -> (r: Self) {
        NotifierError::Io(e)
    }
}

impl vstd::std_specs::convert::FromSpecImpl<std::io::Error> for NotifierError {
    open spec fn obeys_from_spec() -> bool {
        true
    }

    open spec fn from_spec(e: std::io::Error) -> Self {
        NotifierError::Io(e)
    }
}

/// What was handed to a notifier, each with the answer, from the first to the last.
pub type History = Seq<(NotificationView, Result<(), NotifierError>)>;

/// Sink for notifications. In production it forwards them into the notification queue of the
/// guest.
pub trait Notifier: Send + Sync {
    /// What has been handed to the notifier, as far as it still keeps it. It exists for proofs
    /// alone: every notifier that is proved says what it is, and one that is not proved has
    /// nothing to provide.
    open spec fn history(&self) -> History {
        History::empty()
    }

    /// Hands over one notification.
    fn send(&mut self, notification: Notification) -> (result: Result<(), NotifierError>)
        ensures
            final(self).history() == old(self).history().push((notification@, result)),
    ;
}

/// Notifier that takes every notification and sends none. For use before the notification queue
/// is there.
pub struct LoggingNotifier {
    history: Ghost<History>,
}

impl LoggingNotifier {
    /// A notifier to which nothing was handed yet.
    pub fn new() -> (r: Self)
        ensures
            r.history() == History::empty(),
    {
        LoggingNotifier { history: Ghost(Seq::empty()) }
    }
}

impl Notifier for LoggingNotifier {
    closed spec fn history(&self) -> History {
        self.history@
    }

    fn send(&mut self, notification: Notification) -> (result: Result<(), NotifierError>)
        ensures
            result is Ok,
    {
        let result = Ok(());
        self.history = Ghost(self.history@.push((notification@, result)));
        result
    }
}

/// The notifications that a list stands for.
pub open spec fn views_of(list: Seq<Notification>) -> Seq<NotificationView> {
    list.map_values(|n: Notification| n@)
}

/// In-memory notifier that keeps every notification.
pub struct CapturingNotifier {
    captured: Vec<Notification>,
}

impl CapturingNotifier {
    /// The notifications that wait to be drained.
    pub closed spec fn captured(&self) -> Seq<NotificationView> {
        views_of(self.captured@)
    }

    /// A notifier to which nothing was handed yet.
    pub fn new() -> (r: Self)
        ensures
            r.captured() == Seq::<NotificationView>::empty(),
    {
        let r = CapturingNotifier { captured: Vec::new() };
        assert(r.captured() =~= Seq::<NotificationView>::empty());
        r
    }

    /// Gives out what was captured since the last time, and keeps none of it.
    pub fn drain(&mut self) -> (r: Vec<Notification>)
        ensures
            views_of(r@) == old(self).captured(),
            final(self).captured() == Seq::<NotificationView>::empty(),
    {
        let mut drained: Vec<Notification> = Vec::new();
        std::mem::swap(&mut drained, &mut self.captured);
        assert(self.captured() =~= Seq::<NotificationView>::empty());
        drained
    }
}

impl Default for CapturingNotifier {
    fn default() -> (r: Self)
        ensures
            r.captured() == Seq::<NotificationView>::empty(),
    {
        CapturingNotifier::new()
    }
}

impl Notifier for CapturingNotifier {
    /// What waits to be drained, all of it taken.
    open spec fn history(&self) -> History {
        self.captured().map_values(|n: NotificationView| (n, Ok::<(), NotifierError>(())))
    }

    fn send(&mut self, notification: Notification) -> (result: Result<(), NotifierError>)
        ensures
            result is Ok,
            final(self).captured() == old(self).captured().push(notification@),
    {
        let ghost sent = notification@;
        self.captured.push(notification);
        assert(self.captured() =~= old(self).captured().push(sent));
        assert(self.history() =~= old(self).history().push((sent, Ok(()))));
        Ok(())
    }
}

/// How many notifications of `history` found the queue full.
pub open spec fn full_answers(history: History) -> nat
    decreases history.len(),
{
    if history.len() == 0 {
        0
    } else {
        full_answers(history.drop_last()) + if history.last().1 == Err::<(), NotifierError>(
            NotifierError::QueueFull,
        ) {
            1nat
        } else {
            0nat
        }
    }
}

/// The answer that is given in place of `answer`, where a full queue counts as success.
pub open spec fn softened(answer: Result<(), NotifierError>) -> Result<(), NotifierError> {
    if answer == Err::<(), NotifierError>(NotifierError::QueueFull) {
        Ok(())
    } else {
        answer
    }
}

/// `history` with a full queue counted as success.
pub open spec fn softened_history(history: History) -> History {
    history.map_values(
        |entry: (NotificationView, Result<(), NotifierError>)| (entry.0, softened(entry.1)),
    )
}

/// Notifier that hands on to another one and drops what finds the queue full, with a count of
/// what was dropped. The count tells when to fall back to invalidating everything.
pub struct DropOnFullNotifier<N: Notifier> {
    inner: N,
    dropped: u64,
}

impl<N: Notifier> DropOnFullNotifier<N> {
    /// The notifier that is handed on to.
    pub closed spec fn inner(&self) -> N {
        self.inner
    }

    /// The number of dropped notifications, modulo the range of the counter.
    pub closed spec fn dropped(&self) -> u64 {
        self.dropped
    }

    /// A notifier that hands on to `inner` and has dropped nothing yet.
    pub fn new(inner: N) -> (r: Self)
        ensures
            r.inner() == inner,
            r.dropped() == 0,
    {
        DropOnFullNotifier { inner, dropped: 0 }
    }

    /// How many notifications were dropped.
    pub fn dropped_count(&self) -> (r: u64)
        ensures
            r == self.dropped(),
    {
        self.dropped
    }
}

impl<N: Notifier> Notifier for DropOnFullNotifier<N> {
    /// What was handed on, with a full queue counted as success.
    open spec fn history(&self) -> History {
        softened_history(self.inner().history())
    }

    fn send(&mut self, notification: Notification) -> (result: Result<(), NotifierError>)
        ensures
            ({
                let answer = final(self).inner().history().last().1;
                let full = answer == Err::<(), NotifierError>(NotifierError::QueueFull);
                &&& final(self).inner().history() == old(self).inner().history().push(
                    (notification@, answer),
                )
                &&& result == softened(answer)
                &&& result != Err::<(), NotifierError>(NotifierError::QueueFull)
                &&& final(self).dropped() == (if full {
                    old(self).dropped().wrapping_add(1)
                } else {
                    old(self).dropped()
                })
            }),
            (final(self).dropped() - full_answers(final(self).inner().history())) % 0x1_0000_0000_0000_0000
                == (old(self).dropped() - full_answers(old(self).inner().history())) % 0x1_0000_0000_0000_0000,
    {
        let ghost sent = notification@;
        let answer = self.inner.send(notification);
        let ghost given = answer;
        assert(self.inner.history().drop_last() =~= old(self).inner.history());
        let result = match answer {
            Err(NotifierError::QueueFull) => {
                self.dropped = self.dropped.wrapping_add(1);
                Ok(())
            },
            other => other,
        };
        assert(self.history() =~= old(self).history().push((sent, softened(given))));
        result
    }
}

/// Looks on while notifications are sent, such as to log them. It decides nothing.
pub trait Observer: Send + Sync {
    /// A notification is about to be sent.
    fn sending(&mut self, notification: &Notification);

    /// The notification before was answered.
    fn answered(&mut self, answer: &Result<(), NotifierError>);
}

/// Notifier that hands on to another one while an observer looks on.
pub struct ObservedNotifier<N: Notifier, O: Observer> {
    pub inner: N,
    pub observer: O,
}

impl<N: Notifier, O: Observer> Notifier for ObservedNotifier<N, O> {
    /// What was handed on.
    open spec fn history(&self) -> History {
        self.inner.history()
    }

    fn send(&mut self, notification: Notification) -> (result: Result<(), NotifierError>) {
        self.observer.sending(&notification);
        let answer = self.inner.send(notification);
        self.observer.answered(&answer);
        answer
    }
}

} // verus!
