//! The RFC 1071 checksum and the part of a packet that it covers.
use internet_checksum::Checksum;
use vstd::prelude::*;
use vstd::slice::slice_subrange;

verus! {

/// The sum of the big-endian 16-bit words of `b`; an odd last byte is the high
/// half of a word whose low half is zero.
pub open spec fn word_sum(b: Seq<u8>) -> nat
    decreases b.len(),
{
    if b.len() == 0 {
        0
    } else if b.len() == 1 {
        (b[0] * 0x100) as nat
    } else {
        (b[0] * 0x100 + b[1]) as nat + word_sum(b.subrange(2, b.len() as int))
    }
}

/// `word_sum(b)` folded into 16 bits with end-around carry: zero only when every
/// word is zero, otherwise in `1 ..= 0xffff` and equal to the sum modulo `0xffff`.
pub open spec fn ones_complement_sum(b: Seq<u8>) -> nat {
    let t = word_sum(b);
    if t == 0 {
        0
    } else {
        ((t - 1) as nat % 0xffff + 1) as nat
    }
}

/// The internet checksum of `b`: the complement of its ones'-complement sum.
pub open spec fn rfc1071_checksum(b: Seq<u8>) -> u16 {
    (0xffff - ones_complement_sum(b)) as u16
}

#[verifier::external_type_specification]
#[verifier::external_body]
pub struct ExChecksum(Checksum);

/// The bytes added to a checksum accumulator so far, in order.
pub uninterp spec fn added_bytes(c: Checksum) -> Seq<u8>;

/// Relies on `internet_checksum::Checksum::new`: an accumulator with nothing added.
#[verifier::external_body]
fn checksum_new() -> (r: Checksum)
    ensures
        added_bytes(r) == Seq::<u8>::empty(),
{
    Checksum::new()
}

/// Relies on `internet_checksum::Checksum::add_bytes`: adds `bytes` after those
/// added before (an odd byte left over pairs with the next one). Under 64 bytes
/// it sums word by word; its path for longer inputs can drop a carry, so it is
/// only ever given fewer.
#[verifier::external_body]
fn checksum_add(c: &mut Checksum, bytes: &[u8])
    requires
        bytes@.len() < 64,
    ensures
        added_bytes(*final(c)) == added_bytes(*old(c)) + bytes@,
{
    c.add_bytes(bytes)
}

/// Relies on `internet_checksum::Checksum::checksum`: the RFC 1071 checksum of
/// the bytes added, as two bytes in network order.
#[verifier::external_body]
fn checksum_value(c: &Checksum) -> (r: u16)
    ensures
        r == rfc1071_checksum(added_bytes(*c)),
{
    u16::from_be_bytes(c.checksum())
}

/// The bytes that a packet's checksum covers: the whole packet, with the
/// checksum field (bytes 12 and 13) read as zero and the eight authentication
/// bytes (16 to 23) left out.
pub open spec fn checksum_region(b: Seq<u8>) -> Seq<u8> {
    b.subrange(0, 12) + seq![0u8, 0u8] + b.subrange(14, 16) + b.subrange(24, b.len() as int)
}

/// The checksum that a packet whose bytes are `b` must carry.
pub open spec fn packet_checksum(b: Seq<u8>) -> u16 {
    rfc1071_checksum(checksum_region(b))
}

/// Computes the checksum that the packet `b` must carry.
pub fn compute_packet_checksum(b: &[u8]) -> (r: u16)
    requires
        b@.len() >= 24,
    ensures
        r == packet_checksum(b@),
{
    let mut c = checksum_new();
    checksum_add(&mut c, slice_subrange(b, 0, 12));
    checksum_add(&mut c, &[0u8, 0u8]);
    checksum_add(&mut c, slice_subrange(b, 14, 16));
    let ghost head = b@.subrange(0, 12) + seq![0u8, 0u8] + b@.subrange(14, 16);
    proof {
        assert(added_bytes(c) =~= head + b@.subrange(24, 24));
    }
    let mut i: usize = 24;
    while i < b.len()
        invariant
            24 <= i <= b@.len(),
            head == b@.subrange(0, 12) + seq![0u8, 0u8] + b@.subrange(14, 16),
            added_bytes(c) == head + b@.subrange(24, i as int),
        decreases b@.len() - i,
    {
        let end = if b.len() - i > 32 {
            i + 32
        } else {
            b.len()
        };
        checksum_add(&mut c, slice_subrange(b, i, end));
        proof {
            assert(b@.subrange(24, i as int) + b@.subrange(i as int, end as int) =~= b@.subrange(
                24,
                end as int,
            ));
        }
        i = end;
    }
    proof {
        assert(added_bytes(c) =~= checksum_region(b@));
    }
    checksum_value(&c)
}

} // verus!
