//! What the bytes of a number are.

use vstd::prelude::*;

use crate::fuse;
use crate::fuse::ByteOrder;
use vstd::arithmetic::power;

verus! {

proof fn lemma_span_is_a_power(width: nat)
    ensures
        fuse::span(width) == power::pow(256, width),
        power::pow(256, width) > 0,
    decreases width,
{
    power::lemma_pow_positive(256, width);
    reveal(power::pow);
    if width > 0 {
        lemma_span_is_a_power((width - 1) as nat);
    }
}

proof fn lemma_low_byte(v: nat, width: nat, i: int)
    requires
        0 <= i < width,
    ensures
        fuse::low_bytes(v, width).len() == width,
        fuse::low_bytes(v, width)[i] == (v as int / power::pow(256, i as nat)) % 256,
    decreases width,
{
    let rest = fuse::low_bytes(v / 256, (width - 1) as nat);
    lemma_low_len(v, width);
    lemma_low_len(v / 256, (width - 1) as nat);
    reveal(power::pow);
    if i == 0 {
        assert(power::pow(256, 0) == 1);
        assert(v as int / 1 == v);
    } else {
        lemma_low_byte(v / 256, (width - 1) as nat, i - 1);
        assert(fuse::low_bytes(v, width)[i] == rest[i - 1]);
        power::lemma_pow_positive(256, (i - 1) as nat);
        vstd::arithmetic::div_mod::lemma_div_denominator(
            v as int,
            256,
            power::pow(256, (i - 1) as nat),
        );
        assert(power::pow(256, i as nat) == 256 * power::pow(256, (i - 1) as nat));
    }
}

proof fn lemma_low_len(v: nat, width: nat)
    ensures
        fuse::low_bytes(v, width).len() == width,
    decreases width,
{
    if width > 0 {
        lemma_low_len(v / 256, (width - 1) as nat);
    }
}

/// Of what a number is modulo `p * 256 * r`, the part from `p` on is the same modulo 256.
proof fn lemma_digit_of_remainder(v: int, p: int, r: int)
    requires
        p > 0,
        r > 0,
    ensures
        ((v % (p * (256 * r))) / p) % 256 == (v / p) % 256,
{
    let q = v / p;
    let a = v % p;
    let k = q / (256 * r);
    let t = q % (256 * r);
    let s = 256 * r;
    vstd::arithmetic::div_mod::lemma_fundamental_div_mod(v, p);
    vstd::arithmetic::div_mod::lemma_fundamental_div_mod(q, s);
    assert(v == (p * s) * k + (p * t + a)) by (nonlinear_arith)
        requires
            v == p * q + a,
            q == s * k + t,
    ;
    assert(0 <= p * t + a < p * s) by (nonlinear_arith)
        requires
            0 <= a < p,
            0 <= t < s,
    ;
    assert(p * s > 0) by (nonlinear_arith)
        requires
            p > 0,
            s > 0,
    ;
    vstd::arithmetic::div_mod::lemma_fundamental_div_mod_converse(v, p * s, k, p * t + a);
    vstd::arithmetic::div_mod::lemma_fundamental_div_mod_converse(p * t + a, p, t, a);
    assert((v % (p * s)) / p == t);
    let c = t / 256;
    let d = t % 256;
    assert(q == 256 * (r * k + c) + d) by (nonlinear_arith)
        requires
            q == s * k + t,
            s == 256 * r,
            t == 256 * c + d,
    ;
    vstd::arithmetic::div_mod::lemma_fundamental_div_mod_converse(q, 256, r * k + c, d);
}

/// The bytes of a number are its digits to the base 256, those of a negative number in two's
/// complement: lowest first in one order, and highest first in the other.
pub proof fn law_bytes_are_digits(v: int, width: nat, i: int)
    requires
        0 <= i < width,
    ensures
        fuse::number_bytes(v, width, ByteOrder::Little).len() == width,
        fuse::number_bytes(v, width, ByteOrder::Big).len() == width,
        fuse::number_bytes(v, width, ByteOrder::Little)[i] == (v / power::pow(256, i as nat)) % 256,
        fuse::number_bytes(v, width, ByteOrder::Big)[width - 1 - i] == (v / power::pow(256, i as nat))
            % 256,
{
    let m = (v % (fuse::span(width) as int)) as nat;
    let p = power::pow(256, i as nat);
    let r = power::pow(256, (width - 1 - i) as nat);
    lemma_span_is_a_power(width);
    power::lemma_pow_positive(256, i as nat);
    power::lemma_pow_positive(256, (width - 1 - i) as nat);
    lemma_low_byte(m, width, i);
    power::lemma_pow_adds(256, i as nat, (width - i) as nat);
    assert(power::pow(256, (width - i) as nat) == 256 * r) by {
        reveal(power::pow);
    }
    assert(power::pow(256, width) == p * (256 * r));
    lemma_digit_of_remainder(v, p, r);
}

/// The sizes of the parts of a frame, and the numbers of the opcodes.
pub proof fn law_sizes_and_opcodes()
    ensures
        fuse::OUT_HEADER_SIZE == 16,
        fuse::NOTIFY_INVAL_INODE_OUT_SIZE == 24,
        fuse::NOTIFY_INVAL_ENTRY_OUT_SIZE == 16,
        fuse::NotifyOpcode::InvalInode.code() == 2,
        fuse::NotifyOpcode::InvalEntry.code() == 3,
{
}

/// The three structures of the wire are their fields in the order in which they are declared, each
/// in as many bytes as its type has.
pub proof fn law_structures_on_the_wire(
    header: fuse::OutHeader,
    inode: fuse::NotifyInvalInodeOut,
    entry: fuse::NotifyInvalEntryOut,
    order: ByteOrder,
)
    ensures
        header.wire(order).len() == 16,
        header.wire(order).subrange(0, 4) == fuse::number_bytes(header.len as int, 4, order),
        header.wire(order).subrange(4, 8) == fuse::number_bytes(header.error as int, 4, order),
        header.wire(order).subrange(8, 16) == fuse::number_bytes(header.unique as int, 8, order),
        inode.wire(order).len() == 24,
        inode.wire(order).subrange(0, 8) == fuse::number_bytes(inode.ino as int, 8, order),
        inode.wire(order).subrange(8, 16) == fuse::number_bytes(inode.off as int, 8, order),
        inode.wire(order).subrange(16, 24) == fuse::number_bytes(inode.len as int, 8, order),
        entry.wire(order).len() == 16,
        entry.wire(order).subrange(0, 8) == fuse::number_bytes(entry.parent as int, 8, order),
        entry.wire(order).subrange(8, 12) == fuse::number_bytes(entry.namelen as int, 4, order),
        entry.wire(order).subrange(12, 16) == fuse::number_bytes(entry.flags as int, 4, order),
{
    fuse::lemma_number_bytes_len(header.len as int, 4, order);
    fuse::lemma_number_bytes_len(header.error as int, 4, order);
    fuse::lemma_number_bytes_len(header.unique as int, 8, order);
    fuse::lemma_number_bytes_len(inode.ino as int, 8, order);
    fuse::lemma_number_bytes_len(inode.off as int, 8, order);
    fuse::lemma_number_bytes_len(inode.len as int, 8, order);
    fuse::lemma_number_bytes_len(entry.parent as int, 8, order);
    fuse::lemma_number_bytes_len(entry.namelen as int, 4, order);
    fuse::lemma_number_bytes_len(entry.flags as int, 4, order);
    assert(header.wire(order).subrange(0, 4) =~= fuse::number_bytes(header.len as int, 4, order));
    assert(header.wire(order).subrange(4, 8) =~= fuse::number_bytes(
        header.error as int,
        4,
        order,
    ));
    assert(header.wire(order).subrange(8, 16) =~= fuse::number_bytes(
        header.unique as int,
        8,
        order,
    ));
    assert(inode.wire(order).subrange(0, 8) =~= fuse::number_bytes(inode.ino as int, 8, order));
    assert(inode.wire(order).subrange(8, 16) =~= fuse::number_bytes(inode.off as int, 8, order));
    assert(inode.wire(order).subrange(16, 24) =~= fuse::number_bytes(inode.len as int, 8, order));
    assert(entry.wire(order).subrange(0, 8) =~= fuse::number_bytes(entry.parent as int, 8, order));
    assert(entry.wire(order).subrange(8, 12) =~= fuse::number_bytes(
        entry.namelen as int,
        4,
        order,
    ));
    assert(entry.wire(order).subrange(12, 16) =~= fuse::number_bytes(
        entry.flags as int,
        4,
        order,
    ));
}

} // verus!
