//! What stands where in a frame, and what notifiers keep of what they are handed.

use vstd::prelude::*;

use crate::fuse;
use crate::fuse::ByteOrder;
use crate::fuse_laws;
use crate::notify_invalidate::notifier;
use crate::notify_invalidate::notifier::{
    CapturingNotifier, DropOnFullNotifier, History, Notification, NotificationView, Notifier,
    NotifierError, ObservedNotifier, Observer,
};
use crate::notify_invalidate::translate::TranslateError;
use crate::text;
use crate::Inode;

verus! {

/// A number is written by what it is modulo the range of its bytes.
proof fn lemma_four_bytes(v: int, order: ByteOrder)
    ensures
        fuse::number_bytes(v % 0x1_0000_0000, 4, order) == fuse::number_bytes(v, 4, order),
{
    assert(fuse::span(4) == 0x1_0000_0000) by {
        reveal_with_fuel(fuse::span, 5);
    }
    assert((v % 0x1_0000_0000) % 0x1_0000_0000 == v % 0x1_0000_0000);
}

/// The frame of an inode, field by field: its length of forty bytes, the negated opcode two, a
/// zero in place of a request, the inode, and the range from zero with a length of minus one, for
/// all of the data.
pub proof fn law_frame_of_an_inode(inode: Inode, order: ByteOrder)
    ensures
        ({
            let frame = (NotificationView::InvalInode { inode }).frame(order);
            &&& frame.len() == 40
            &&& frame.subrange(0, 4) == fuse::number_bytes(40, 4, order)
            &&& frame.subrange(4, 8) == fuse::number_bytes(-2, 4, order)
            &&& frame.subrange(8, 16) == fuse::number_bytes(0, 8, order)
            &&& frame.subrange(16, 24) == fuse::number_bytes(inode as int, 8, order)
            &&& frame.subrange(24, 32) == fuse::number_bytes(0, 8, order)
            &&& frame.subrange(32, 40) == fuse::number_bytes(-1, 8, order)
        }),
{
    let n = NotificationView::InvalInode { inode };
    let frame = n.frame(order);
    let body = fuse::NotifyInvalInodeOut { ino: inode, off: 0, len: -1i64 };
    let entry = fuse::NotifyInvalEntryOut { parent: 0, namelen: 0, flags: 0 };
    fuse_laws::law_structures_on_the_wire(n.header(), body, entry, order);
    let head = n.header().wire(order);
    assert(frame.subrange(0, 4) =~= head.subrange(0, 4));
    assert(frame.subrange(4, 8) =~= head.subrange(4, 8));
    assert(frame.subrange(8, 16) =~= head.subrange(8, 16));
    assert(frame.subrange(16, 24) =~= body.wire(order).subrange(0, 8));
    assert(frame.subrange(24, 32) =~= body.wire(order).subrange(8, 16));
    assert(frame.subrange(32, 40) =~= body.wire(order).subrange(16, 24));
}

/// The frame of an entry, field by field: its length, the negated opcode three, a zero in place of
/// a request, the parent, the length of the name, a zero for the flags, the name, and the zero
/// byte that ends it. The length of the frame counts that byte, and the length of the name does
/// not. Either length is written modulo the range of its four bytes.
pub proof fn law_frame_of_an_entry(parent: Inode, name: Seq<u8>, order: ByteOrder)
    ensures
        ({
            let frame = (NotificationView::InvalEntry { parent, name }).frame(order);
            &&& frame.len() == 33 + name.len()
            &&& frame.subrange(0, 4) == fuse::number_bytes(33 + name.len() as int, 4, order)
            &&& frame.subrange(4, 8) == fuse::number_bytes(-3, 4, order)
            &&& frame.subrange(8, 16) == fuse::number_bytes(0, 8, order)
            &&& frame.subrange(16, 24) == fuse::number_bytes(parent as int, 8, order)
            &&& frame.subrange(24, 28) == fuse::number_bytes(name.len() as int, 4, order)
            &&& frame.subrange(28, 32) == fuse::number_bytes(0, 4, order)
            &&& frame.subrange(32, 32 + name.len() as int) == name
            &&& frame[32 + name.len() as int] == 0
        }),
{
    let n = NotificationView::InvalEntry { parent, name };
    let frame = n.frame(order);
    let length = (name.len() % 0x1_0000_0000) as u32;
    let body = fuse::NotifyInvalEntryOut { parent, namelen: length, flags: 0 };
    let inode = fuse::NotifyInvalInodeOut { ino: 0, off: 0, len: 0 };
    fuse_laws::law_structures_on_the_wire(n.header(), inode, body, order);
    lemma_four_bytes(33 + name.len() as int, order);
    lemma_four_bytes(name.len() as int, order);
    let head = n.header().wire(order);
    assert(frame.subrange(0, 4) =~= head.subrange(0, 4));
    assert(frame.subrange(4, 8) =~= head.subrange(4, 8));
    assert(frame.subrange(8, 16) =~= head.subrange(8, 16));
    assert(frame.subrange(16, 24) =~= body.wire(order).subrange(0, 8));
    assert(frame.subrange(24, 28) =~= body.wire(order).subrange(8, 12));
    assert(frame.subrange(28, 32) =~= body.wire(order).subrange(12, 16));
    assert(frame.subrange(32, 32 + name.len() as int) =~= name);
}

/// A name that is shorter than four gigabytes is told by its length: the four bytes of the length
/// field of two frames agree exactly where the names are equally long.
pub proof fn law_length_field_tells_the_name(
    a: (Inode, Seq<u8>),
    b: (Inode, Seq<u8>),
    order: ByteOrder,
)
    requires
        a.1.len() < 0x1_0000_0000,
        b.1.len() < 0x1_0000_0000,
    ensures
        (NotificationView::InvalEntry { parent: a.0, name: a.1 }).frame(order).subrange(24, 28) == (
        NotificationView::InvalEntry { parent: b.0, name: b.1 }).frame(order).subrange(24, 28)
            <==> a.1.len() == b.1.len(),
{
    law_frame_of_an_entry(a.0, a.1, order);
    law_frame_of_an_entry(b.0, b.1, order);
    assert(fuse::span(4) == 0x1_0000_0000) by {
        reveal_with_fuel(fuse::span, 5);
    }
    if fuse::number_bytes(a.1.len() as int, 4, order) == fuse::number_bytes(
        b.1.len() as int,
        4,
        order,
    ) {
        fuse::lemma_number_bytes_injective(a.1.len() as int, b.1.len() as int, 4, order);
    }
}

/// A notification stands for its inode, or for its parent and the bytes of its name, and a list of
/// them for what its elements stand for, one by one.
pub proof fn law_notifications_stand_for_their_fields(
    inode: Inode,
    name: Vec<u8>,
    list: Seq<Notification>,
)
    ensures
        (Notification::InvalInode { inode })@ == (NotificationView::InvalInode { inode }),
        (Notification::InvalEntry { parent: inode, name })@ == (NotificationView::InvalEntry {
            parent: inode,
            name: name@,
        }),
        notifier::views_of(list).len() == list.len(),
        forall|i: int| 0 <= i < list.len() ==> #[trigger] notifier::views_of(list)[i] == list[i]@,
        (NotificationView::InvalInode { inode }).opcode() == fuse::NotifyOpcode::InvalInode,
        (NotificationView::InvalEntry { parent: inode, name: name@ }).opcode()
            == fuse::NotifyOpcode::InvalEntry,
{
}

/// What a capturing notifier was handed is what it has captured, each with a success.
pub proof fn law_captured_is_handed_over(n: CapturingNotifier)
    ensures
        n.history().len() == n.captured().len(),
        forall|i: int|
            0 <= i < n.captured().len() ==> (#[trigger] n.history()[i]).0 == n.captured()[i]
                && n.history()[i].1 is Ok,
{
}

/// What a dropping notifier was handed is what the notifier behind it was handed, with the same
/// answers but for a full queue, which it answers with a success.
pub proof fn law_dropping_softens_a_full_queue<N: Notifier>(n: DropOnFullNotifier<N>)
    ensures
        n.history().len() == n.inner().history().len(),
        forall|i: int|
            0 <= i < n.history().len() ==> {
                let (sent, answer) = n.inner().history()[i];
                &&& (#[trigger] n.history()[i]).0 == sent
                &&& answer == Err::<(), NotifierError>(NotifierError::QueueFull)
                    ==> n.history()[i].1 is Ok
                &&& answer != Err::<(), NotifierError>(NotifierError::QueueFull)
                    ==> n.history()[i].1 == answer
            },
{
}

/// A full queue, and nothing else, is answered with a success in place of its error.
pub proof fn law_softened_answers(answer: Result<(), NotifierError>)
    ensures
        answer == Err::<(), NotifierError>(NotifierError::QueueFull) ==> notifier::softened(
            answer,
        ) is Ok,
        answer != Err::<(), NotifierError>(NotifierError::QueueFull) ==> notifier::softened(answer)
            == answer,
{
}

/// What an observed notifier was handed is what the notifier behind it was handed.
pub proof fn law_observing_changes_nothing<N: Notifier, O: Observer>(n: ObservedNotifier<N, O>)
    ensures
        n.history() == n.inner.history(),
{
}

/// The full answers of a history are those of its entries that found the queue full.
pub proof fn law_full_answers_are_counted(history: History)
    ensures
        notifier::full_answers(history) == history.filter(
            |entry: (NotificationView, Result<(), NotifierError>)|
                entry.1 == Err::<(), NotifierError>(NotifierError::QueueFull),
        ).len(),
    decreases history.len(),
{
    reveal(Seq::filter);
    if history.len() > 0 {
        law_full_answers_are_counted(history.drop_last());
    }
}

/// What the errors of a notifier say. The numbers of a buffer that is too small are written out in
/// full, and an I/O error speaks for itself.
pub proof fn law_words_of_notifier_errors(needed: usize, have: usize, e: std::io::Error)
    ensures
        NotifierError::QueueNotNegotiated.words() == Some(
            "guest has not negotiated VIRTIO_FS_F_NOTIFICATION"@,
        ),
        NotifierError::QueueFull.words() == Some("notification queue full"@),
        (NotifierError::BufferTooSmall { needed, have }).words() == Some(
            "queue buffer too small (needed "@ + text::decimal(needed as nat) + ", have "@
                + text::decimal(have as nat) + ")"@,
        ),
        NotifierError::Io(e).words() is None,
        TranslateError::Io(e).words() is None,
        forall|n: NotifierError| #[trigger] TranslateError::Notifier(n).words() == n.words(),
{
}

/// An error of a lower layer is kept as it is.
pub proof fn law_errors_are_kept(e: std::io::Error, n: NotifierError)
    ensures
        <NotifierError as vstd::std_specs::convert::FromSpec<std::io::Error>>::obeys_from_spec(),
        <NotifierError as vstd::std_specs::convert::FromSpec<std::io::Error>>::from_spec(e)
            == NotifierError::Io(e),
        <TranslateError as vstd::std_specs::convert::FromSpec<NotifierError>>::obeys_from_spec(),
        <TranslateError as vstd::std_specs::convert::FromSpec<NotifierError>>::from_spec(n)
            == TranslateError::Notifier(n),
{
}

} // verus!
