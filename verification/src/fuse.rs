//! The parts of the FUSE wire format that notifications are made of.

use vm_memory::ByteValued;
use vstd::prelude::*;

verus! {

/// The order in which the bytes of a number stand in memory.
#[derive(Debug, Clone, Copy, PartialEq, Eq, Structural)]
pub enum ByteOrder {
    /// Lowest byte first.
    Little,
    /// Highest byte first.
    Big,
}

/// The `width` lowest bytes of `v`, lowest first.
pub open spec fn low_bytes(v: nat, width: nat) -> Seq<u8>
    decreases width,
{
    if width == 0 {
        Seq::empty()
    } else {
        seq![(v % 256) as u8] + low_bytes(v / 256, (width - 1) as nat)
    }
}

/// The number that bytes spell, lowest first.
pub open spec fn value_of(bytes: Seq<u8>) -> nat
    decreases bytes.len(),
{
    if bytes.len() == 0 {
        0
    } else {
        bytes[0] as nat + 256 * value_of(bytes.drop_first())
    }
}

/// The number of values that `width` bytes can spell.
pub open spec fn span(width: nat) -> nat
    decreases width,
{
    if width == 0 {
        1
    } else {
        256 * span((width - 1) as nat)
    }
}

/// `v` in `width` bytes; a negative number in two's complement.
pub open spec fn number_bytes(v: int, width: nat, order: ByteOrder) -> Seq<u8> {
    let low = low_bytes((v % (span(width) as int)) as nat, width);
    match order {
        ByteOrder::Little => low,
        ByteOrder::Big => low.reverse(),
    }
}

proof fn lemma_spans()
    ensures
        span(2) == 0x1_0000,
        span(4) == 0x1_0000_0000,
        span(8) == 0x1_0000_0000_0000_0000,
{
    reveal_with_fuel(span, 9);
}

proof fn lemma_low_bytes_len(v: nat, width: nat)
    ensures
        low_bytes(v, width).len() == width,
    decreases width,
{
    if width > 0 {
        lemma_low_bytes_len(v / 256, (width - 1) as nat);
    }
}

proof fn lemma_low_bytes_value(v: nat, width: nat)
    requires
        v < span(width),
    ensures
        value_of(low_bytes(v, width)) == v,
    decreases width,
{
    if width > 0 {
        let rest = low_bytes(v / 256, (width - 1) as nat);
        lemma_low_bytes_value(v / 256, (width - 1) as nat);
        assert(low_bytes(v, width).drop_first() =~= rest);
    }
}

/// A number takes the bytes it is given.
pub proof fn lemma_number_bytes_len(v: int, width: nat, order: ByteOrder)
    ensures
        number_bytes(v, width, order).len() == width,
{
    lemma_low_bytes_len((v % (span(width) as int)) as nat, width);
}

/// The bytes of a number tell it, among those that `width` bytes can spell.
pub proof fn lemma_number_bytes_injective(a: int, b: int, width: nat, order: ByteOrder)
    requires
        0 <= a < span(width),
        0 <= b < span(width),
        number_bytes(a, width, order) == number_bytes(b, width, order),
    ensures
        a == b,
{
    let x = low_bytes(a as nat, width);
    let y = low_bytes(b as nat, width);
    vstd::arithmetic::div_mod::lemma_small_mod(a as nat, span(width));
    vstd::arithmetic::div_mod::lemma_small_mod(b as nat, span(width));
    if order == ByteOrder::Big {
        assert(x.reverse().reverse() =~= x);
        assert(y.reverse().reverse() =~= y);
    }
    lemma_low_bytes_value(a as nat, width);
    lemma_low_bytes_value(b as nat, width);
}

/// The bytes of `v` as they stand in memory, from `vm_memory`'s `ByteValued::as_slice`. They are
/// those of its value, in the byte order of the machine, which is one of the two.
#[verifier::external_body]
fn memory_bytes(v: u16) -> (r: Vec<u8>)
    ensures
        r@ == number_bytes(v as int, 2, ByteOrder::Little) || r@ == number_bytes(
            v as int,
            2,
            ByteOrder::Big,
        ),
{
    v.as_slice().to_vec()
}

/// The byte order in which the number one was written out as `bytes`.
pub fn order_shown(bytes: &[u8]) -> (r: ByteOrder)
    requires
        bytes@ == number_bytes(1, 2, ByteOrder::Little) || bytes@ == number_bytes(
            1,
            2,
            ByteOrder::Big,
        ),
    ensures
        bytes@ == number_bytes(1, 2, r),
{
    proof {
        lemma_number_bytes_len(1, 2, ByteOrder::Little);
        lemma_number_bytes_len(1, 2, ByteOrder::Big);
        lemma_spans();
        reveal_with_fuel(low_bytes, 3);
    }
    if bytes[0] == 1 {
        ByteOrder::Little
    } else {
        ByteOrder::Big
    }
}

/// The number one may stand in memory in this order.
pub closed spec fn shown_by_memory(order: ByteOrder) -> bool {
    exists|one: Vec<u8>| #[trigger]
        call_ensures(memory_bytes, (1u16,), one) && one@ == number_bytes(1, 2, order)
}

/// An order is shown by memory only where the number one, asked for in memory, came in that order.
proof fn law_memory_shows_its_order(order: ByteOrder)
    requires
        shown_by_memory(order),
    ensures
        exists|one: Vec<u8>| #[trigger]
            call_ensures(memory_bytes, (1u16,), one) && one@ == number_bytes(1, 2, order),
{
}

/// The byte order of the machine, as a number in its memory shows it.
pub fn native_order() -> (r: ByteOrder)
    ensures
        shown_by_memory(r),
{
    let ask = memory_bytes;
    let one = ask(1);
    order_shown(one.as_slice())
}

/// Appends the `width` lowest bytes of `v` to `out`.
fn put_low(out: &mut Vec<u8>, v: u64, width: usize, order: ByteOrder)
    requires
        v < span(width as nat),
    ensures
        final(out)@ == old(out)@ + number_bytes(v as int, width as nat, order),
{
    let ghost all = low_bytes(v as nat, width as nat);
    proof {
        vstd::arithmetic::div_mod::lemma_small_mod(v as nat, span(width as nat));
        lemma_low_bytes_len(v as nat, width as nat);
    }
    let mut low: Vec<u8> = Vec::new();
    let mut rest: u64 = v;
    while low.len() < width
        invariant
            low.len() <= width,
            low@ + low_bytes(rest as nat, (width - low.len()) as nat) == all,
        decreases width - low.len(),
    {
        let ghost before = low@;
        let b = (rest % 256) as u8;
        proof {
            let n = (width - low.len()) as nat;
            assert(low_bytes(rest as nat, n) == seq![b] + low_bytes(
                rest as nat / 256,
                (n - 1) as nat,
            ));
            assert(before.push(b) + low_bytes(rest as nat / 256, (n - 1) as nat) =~= before
                + low_bytes(rest as nat, n));
        }
        low.push(b);
        rest = rest / 256;
    }
    assert(low@ =~= all);
    match order {
        ByteOrder::Little => {
            out.append(&mut low);
        },
        ByteOrder::Big => {
            let ghost start = out@;
            while low.len() > 0
                invariant
                    low@.len() <= all.len(),
                    low@ == all.take(low@.len() as int),
                    out@ == start + all.reverse().take(all.len() - low@.len()),
                decreases low.len(),
            {
                let ghost n = all.len() - low@.len();
                match low.pop() {
                    Some(b) => {
                        out.push(b);
                        assert(all.reverse()[n] == b);
                        assert(all.reverse().take(n + 1) =~= all.reverse().take(n).push(b));
                        assert(out@ =~= start + all.reverse().take(n + 1));
                    },
                    None => {},
                }
            }
            assert(all.reverse().take(all.len() as int) =~= all.reverse());
        },
    }
}

/// Appends the eight bytes of `v`.
pub fn put_u64(out: &mut Vec<u8>, v: u64, order: ByteOrder)
    ensures
        final(out)@ == old(out)@ + number_bytes(v as int, 8, order),
{
    proof {
        lemma_spans();
    }
    put_low(out, v, 8, order);
}

/// Appends the four bytes of `v`.
pub fn put_u32(out: &mut Vec<u8>, v: u32, order: ByteOrder)
    ensures
        final(out)@ == old(out)@ + number_bytes(v as int, 4, order),
{
    proof {
        lemma_spans();
    }
    put_low(out, v as u64, 4, order);
}

/// Appends the eight bytes of `v`.
pub fn put_i64(out: &mut Vec<u8>, v: i64, order: ByteOrder)
    ensures
        final(out)@ == old(out)@ + number_bytes(v as int, 8, order),
{
    proof {
        lemma_spans();
    }
    let bits: u64 = if v >= 0 {
        v as u64
    } else {
        u64::MAX - ((-(v + 1)) as u64)
    };
    assert(bits as int == v as int % 0x1_0000_0000_0000_0000);
    put_low(out, bits, 8, order);
}

/// Appends the four bytes of `v`.
pub fn put_i32(out: &mut Vec<u8>, v: i32, order: ByteOrder)
    ensures
        final(out)@ == old(out)@ + number_bytes(v as int, 4, order),
{
    proof {
        lemma_spans();
    }
    let bits: u32 = if v >= 0 {
        v as u32
    } else {
        u32::MAX - ((-(v + 1)) as u32)
    };
    assert(bits as int == v as int % 0x1_0000_0000);
    put_low(out, bits as u64, 4, order);
}

/// What a notification is about.
#[derive(Debug, Clone, Copy, PartialEq, Eq, Structural)]
pub enum NotifyOpcode {
    /// Cached attributes and data of an inode are to be dropped.
    InvalInode,
    /// A cached directory entry is to be dropped.
    InvalEntry,
}

impl NotifyOpcode {
    /// The number of the opcode on the wire.
    pub open spec fn spec_code(self) -> i32 {
        match self {
            NotifyOpcode::InvalInode => 2,
            NotifyOpcode::InvalEntry => 3,
        }
    }

    /// The number of the opcode on the wire.
    #[verifier::when_used_as_spec(spec_code)]
    pub fn code(self) -> (r: i32)
        ensures
            r == self.code(),
    {
        match self {
            NotifyOpcode::InvalInode => 2,
            NotifyOpcode::InvalEntry => 3,
        }
    }
}

/// What every message to the guest begins with.
#[derive(Debug, Clone, Copy, PartialEq, Eq, Structural)]
pub struct OutHeader {
    /// Length of the whole message.
    pub len: u32,
    /// Negated error number of a reply, negated opcode of a notification.
    pub error: i32,
    /// The request that a reply answers; zero in a notification.
    pub unique: u64,
}

/// Bytes of an [`OutHeader`] on the wire.
pub const OUT_HEADER_SIZE: usize = 16;

impl OutHeader {
    /// The header on the wire.
    pub open spec fn wire(self, order: ByteOrder) -> Seq<u8> {
        number_bytes(self.len as int, 4, order) + number_bytes(self.error as int, 4, order)
            + number_bytes(self.unique as int, 8, order)
    }

    /// Appends the header to `out`.
    pub fn put(&self, out: &mut Vec<u8>, order: ByteOrder)
        ensures
            final(out)@ == old(out)@ + self.wire(order),
    {
        put_u32(out, self.len, order);
        put_i32(out, self.error, order);
        put_u64(out, self.unique, order);
        assert(out@ =~= old(out)@ + self.wire(order));
    }
}

/// Body of the notification that drops what is cached of an inode.
#[derive(Debug, Clone, Copy, PartialEq, Eq, Structural)]
pub struct NotifyInvalInodeOut {
    pub ino: u64,
    /// First byte of the range of data to drop.
    pub off: i64,
    /// Length of that range; negative for all of the data.
    pub len: i64,
}

/// Bytes of a [`NotifyInvalInodeOut`] on the wire.
pub const NOTIFY_INVAL_INODE_OUT_SIZE: usize = 24;

impl NotifyInvalInodeOut {
    /// The body on the wire.
    pub open spec fn wire(self, order: ByteOrder) -> Seq<u8> {
        number_bytes(self.ino as int, 8, order) + number_bytes(self.off as int, 8, order)
            + number_bytes(self.len as int, 8, order)
    }

    /// Appends the body to `out`.
    pub fn put(&self, out: &mut Vec<u8>, order: ByteOrder)
        ensures
            final(out)@ == old(out)@ + self.wire(order),
    {
        put_u64(out, self.ino, order);
        put_i64(out, self.off, order);
        put_i64(out, self.len, order);
        assert(out@ =~= old(out)@ + self.wire(order));
    }
}

/// Body of the notification that drops a directory entry, before the name.
#[derive(Debug, Clone, Copy, PartialEq, Eq, Structural)]
pub struct NotifyInvalEntryOut {
    pub parent: u64,
    /// Length of the name, without the byte that ends it.
    pub namelen: u32,
    pub flags: u32,
}

/// Bytes of a [`NotifyInvalEntryOut`] on the wire.
pub const NOTIFY_INVAL_ENTRY_OUT_SIZE: usize = 16;

impl NotifyInvalEntryOut {
    /// The body on the wire.
    pub open spec fn wire(self, order: ByteOrder) -> Seq<u8> {
        number_bytes(self.parent as int, 8, order) + number_bytes(self.namelen as int, 4, order)
            + number_bytes(self.flags as int, 4, order)
    }

    /// Appends the body to `out`.
    pub fn put(&self, out: &mut Vec<u8>, order: ByteOrder)
        ensures
            final(out)@ == old(out)@ + self.wire(order),
    {
        put_u64(out, self.parent, order);
        put_u32(out, self.namelen, order);
        put_u32(out, self.flags, order);
        assert(out@ =~= old(out)@ + self.wire(order));
    }
}

} // verus!
