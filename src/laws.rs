//! What holds across decoding and encoding.
use vstd::arithmetic::div_mod::lemma_fundamental_div_mod;
use vstd::prelude::*;
use crate::checksum::{checksum_region, ones_complement_sum, packet_checksum, word_sum};
use crate::lsa::{
    lemma_lsas_exact, lemma_lsas_round_trip, lemma_lsas_too_few, lsa_wf, lsas_wire, LsaModel,
    OspfLsaHeader,
};
use crate::packet::{
    db_desc_wire, encoded_len, hello_wire, packet_wf, packet_wire, payload_type, payload_wf,
    payload_wire, spec_parse, spec_parse_db_desc, spec_parse_hello, spec_parse_payload,
    unsealed_wire, DbDescModel, HelloModel, OspfLsRequestEntry, PacketModel, PayloadModel,
};
use crate::types::{Ipv4Address, OspfType};
use crate::wire::{
    be16_at, be32_at, be32_bytes, be64_at, be64_bytes, lemma_be16, lemma_be16_bytes, lemma_be32,
    lemma_be32_bytes, lemma_be64, lemma_be64_bytes, lemma_many0_exact, lemma_many0_round_trip, wires, DecodeError,
    ParseBe,
};

verus! {

/// Decoding the bytes of a well-formed payload gives the payload back.
#[verifier::spinoff_prover]
pub proof fn lemma_payload_round_trip(m: PayloadModel)
    requires
        payload_wf(m),
    ensures
        spec_parse_payload(payload_wire(m), payload_type(m)) == Ok::<PayloadModel, DecodeError>(m),
{
    let w = payload_wire(m);
    match m {
        PayloadModel::Hello(v) => {
            lemma_hello_round_trip(v);
        },
        PayloadModel::DbDesc(v) => {
            lemma_db_desc_round_trip(v);
        },
        PayloadModel::LsRequest(v) => {
            lemma_many0_round_trip(v);
        },
        PayloadModel::LsUpdate(v) => {
            lemma_be32(v.num_adv);
            lemma_lsas_round_trip(v.lsas);
            assert(w.subrange(4, w.len() as int) =~= lsas_wire(v.lsas));
        },
        PayloadModel::LsAck(v) => {
            lemma_many0_round_trip(v);
        },
        PayloadModel::Unknown(_, _) => {
        },
    }
}

#[verifier::spinoff_prover]
proof fn lemma_hello_round_trip(v: HelloModel)
    ensures
        spec_parse_hello(hello_wire(v)) == Ok::<HelloModel, DecodeError>(v),
{
    let w = hello_wire(v);
    lemma_be32(v.netmask.0);
    lemma_be16(v.hello_interval);
    lemma_be32(v.router_dead_interval);
    lemma_be32(v.d_router.0);
    lemma_be32(v.bd_router.0);
    lemma_many0_round_trip(v.neighbors);
    assert(w.subrange(20, w.len() as int) =~= wires(v.neighbors));
    assert(w.subrange(8, 12) =~= be32_bytes(v.router_dead_interval));
    assert(w.subrange(12, 16) =~= be32_bytes(v.d_router.0));
    assert(w.subrange(16, 20) =~= be32_bytes(v.bd_router.0));
    assert(be32_at(w, 8) == be32_at(w.subrange(8, 12), 0));
    assert(be32_at(w, 12) == be32_at(w.subrange(12, 16), 0));
    assert(be32_at(w, 16) == be32_at(w.subrange(16, 20), 0));
}

#[verifier::spinoff_prover]
proof fn lemma_db_desc_round_trip(v: DbDescModel)
    requires
        forall|i: int| 0 <= i < v.lsa_headers.len() ==> #[trigger] v.lsa_headers[i].spec_canonical(),
    ensures
        spec_parse_db_desc(db_desc_wire(v)) == Ok::<DbDescModel, DecodeError>(v),
{
    let w = db_desc_wire(v);
    lemma_be16(v.if_mtu);
    lemma_be32(v.seqnum);
    lemma_many0_round_trip(v.lsa_headers);
    assert(w.subrange(8, w.len() as int) =~= wires(v.lsa_headers));
    assert(w.subrange(4, 8) =~= be32_bytes(v.seqnum));
    assert(be32_at(w, 4) == be32_at(w.subrange(4, 8), 0));
}

/// Round trip: encoding a well-formed packet and decoding the bytes gives the
/// packet back, with the length and checksum fields that encoding computed.
#[verifier::spinoff_prover]
pub proof fn lemma_round_trip(m: PacketModel)
    requires
        packet_wf(m),
    ensures
        spec_parse(packet_wire(m)) == Ok::<PacketModel, DecodeError>(
            PacketModel {
                len: encoded_len(m) as u16,
                checksum: packet_checksum(unsealed_wire(m)),
                ..m
            },
        ),
{
    let b = packet_wire(m);
    let u = unsealed_wire(m);
    let c = packet_checksum(u);
    let len = encoded_len(m) as u16;
    lemma_payload_round_trip(m.payload);
    lemma_be16(len);
    lemma_be16(c);
    lemma_be16(m.auth_type);
    lemma_be32(m.router_id.0);
    lemma_be32(m.area_id.0);
    lemma_be64(m.auth.auth);
    assert(checksum_region(b) =~= checksum_region(u));
    assert(b.subrange(24, b.len() as int) =~= payload_wire(m.payload));
    assert(b.subrange(4, 8) =~= be32_bytes(m.router_id.0));
    assert(b.subrange(8, 12) =~= be32_bytes(m.area_id.0));
    assert(b.subrange(16, 24) =~= be64_bytes(m.auth.auth));
    assert(be32_at(b, 4) == be32_at(b.subrange(4, 8), 0));
    assert(be32_at(b, 8) == be32_at(b.subrange(8, 12), 0));
    assert(be64_at(b, 16) == be64_at(b.subrange(16, 24), 0));
}

/// Changing one byte of a sequence changes its word sum by the change in that
/// byte, weighted by its place in the word.
pub proof fn lemma_word_sum_update(s: Seq<u8>, i: int, v: u8)
    requires
        0 <= i < s.len(),
    ensures
        word_sum(s.update(i, v)) as int == word_sum(s) as int + (v - s[i]) * (if i % 2 == 0 {
            0x100int
        } else {
            1int
        }),
    decreases s.len(),
{
    let t = s.update(i, v);
    if s.len() >= 2 {
        if i < 2 {
            assert(t.subrange(2, t.len() as int) =~= s.subrange(2, s.len() as int));
        } else {
            lemma_word_sum_update(s.subrange(2, s.len() as int), i - 2, v);
            assert(t.subrange(2, t.len() as int) =~= s.subrange(2, s.len() as int).update(i - 2, v));
        }
    }
}

/// Word sums that differ by a nonzero amount smaller than `0xffff` have
/// different ones'-complement sums.
pub proof fn lemma_ones_sum_differs(a: Seq<u8>, b: Seq<u8>)
    requires
        word_sum(a) != word_sum(b),
        (word_sum(a) as int - word_sum(b) as int) < 0xffff,
        (word_sum(b) as int - word_sum(a) as int) < 0xffff,
    ensures
        ones_complement_sum(a) != ones_complement_sum(b),
{
    let ta = word_sum(a) as int;
    let tb = word_sum(b) as int;
    if ta > 0 && tb > 0 {
        lemma_fundamental_div_mod(ta - 1, 0xffff);
        lemma_fundamental_div_mod(tb - 1, 0xffff);
        let qa = (ta - 1) / 0xffff;
        let qb = (tb - 1) / 0xffff;
        if (ta - 1) % 0xffff == (tb - 1) % 0xffff {
            assert(ta - tb == 0xffff * (qa - qb));
            assert(false) by (nonlinear_arith)
                requires
                    ta - tb == 0xffff * (qa - qb),
                    ta != tb,
                    ta - tb < 0xffff,
                    tb - ta < 0xffff,
            ;
        }
    }
}

/// Changing one bit outside the authentication bytes of a packet whose
/// checksum field is right makes the field wrong.
#[verifier::spinoff_prover]
proof fn lemma_bit_flip_breaks_checksum(b: Seq<u8>, j: int, k: u8)
    requires
        b.len() >= 24,
        be16_at(b, 12) == packet_checksum(b),
        0 <= j < b.len(),
        !(16 <= j < 24),
        k < 8,
    ensures
        be16_at(b.update(j, b[j] ^ (1u8 << k)), 12) != packet_checksum(
            b.update(j, b[j] ^ (1u8 << k)),
        ),
{
    let x = b[j];
    let y = x ^ (1u8 << k);
    assert(y != x) by (bit_vector)
        requires
            y == x ^ (1u8 << k),
            k < 8,
    ;
    let f = b.update(j, y);
    let r = checksum_region(b);
    if j == 12 || j == 13 {
        assert(checksum_region(f) =~= r);
    } else {
        let i = if j < 16 {
            j
        } else {
            j - 8
        };
        assert(checksum_region(f) =~= r.update(i, y));
        lemma_word_sum_update(r, i, y);
        assert(i % 2 == j % 2);
        lemma_ones_sum_differs(checksum_region(f), r);
        assert(be16_at(f, 12) == be16_at(b, 12));
    }
}

proof fn lemma_parse_ok_checksum(b: Seq<u8>)
    requires
        spec_parse(b) is Ok,
    ensures
        b.len() >= 24,
        be16_at(b, 12) == packet_checksum(b),
{
}

/// Checksum rejection: in a buffer that decodes, flipping any one bit outside
/// the eight authentication bytes makes decoding fail on the checksum.
pub proof fn lemma_bit_flip_rejected(b: Seq<u8>, j: int, k: u8)
    requires
        spec_parse(b) is Ok,
        0 <= j < b.len(),
        !(16 <= j < 24),
        k < 8,
    ensures
        spec_parse(b.update(j, b[j] ^ (1u8 << k))) == Err::<PacketModel, DecodeError>(
            DecodeError::ChecksumMismatch,
        ),
{
    lemma_parse_ok_checksum(b);
    lemma_bit_flip_breaks_checksum(b, j, k);
}

/// A payload that was read, written back, gives the bytes it was read from.
proof fn lemma_payload_exact(s: Seq<u8>, t: OspfType)
    requires
        spec_parse_payload(s, t) is Ok,
    ensures
        payload_wire(spec_parse_payload(s, t)->Ok_0) == s,
        payload_type(spec_parse_payload(s, t)->Ok_0) == t,
{
    match t {
        OspfType::Hello => {
            lemma_be32_bytes(s, 0);
            lemma_be16_bytes(s, 4);
            lemma_be32_bytes(s, 8);
            lemma_be32_bytes(s, 12);
            lemma_be32_bytes(s, 16);
            lemma_many0_exact::<Ipv4Address>(s.subrange(20, s.len() as int));
            assert(payload_wire(spec_parse_payload(s, t)->Ok_0) =~= s);
        },
        OspfType::DbDesc => {
            lemma_be16_bytes(s, 0);
            lemma_be32_bytes(s, 4);
            lemma_many0_exact::<OspfLsaHeader>(s.subrange(8, s.len() as int));
            assert(payload_wire(spec_parse_payload(s, t)->Ok_0) =~= s);
        },
        OspfType::LsRequest => {
            lemma_many0_exact::<OspfLsRequestEntry>(s);
        },
        OspfType::LsUpdate => {
            lemma_be32_bytes(s, 0);
            lemma_lsas_exact(s.subrange(4, s.len() as int), be32_at(s, 0) as nat);
            assert(payload_wire(spec_parse_payload(s, t)->Ok_0) =~= s);
        },
        OspfType::LsAck => {
            lemma_many0_exact::<OspfLsaHeader>(s);
        },
        OspfType::Unknown(_) => {
        },
    }
}

/// Decoding loses nothing: every buffer that decodes is exactly the encoding
/// of the packet it decodes to, reserved bits and unknown payloads included.
#[verifier::spinoff_prover]
pub proof fn lemma_decode_exact(b: Seq<u8>)
    requires
        spec_parse(b) is Ok,
    ensures
        packet_wire(spec_parse(b)->Ok_0) == b,
{
    let m = spec_parse(b)->Ok_0;
    lemma_payload_exact(b.subrange(24, b.len() as int), OspfType::spec_from_u8(b[1]));
    lemma_be16_bytes(b, 2);
    lemma_be16_bytes(b, 12);
    lemma_be16_bytes(b, 14);
    lemma_be32_bytes(b, 4);
    lemma_be32_bytes(b, 8);
    lemma_be64_bytes(b, 16);
    assert(checksum_region(unsealed_wire(m)) =~= checksum_region(b));
    assert(packet_wire(m) =~= b);
}

/// Forward compatibility: a sound buffer whose type byte is undefined decodes
/// into the unknown payload that carries the tag and the exact payload bytes,
/// and encoding that packet gives the buffer back byte for byte.
pub proof fn lemma_unknown_type(b: Seq<u8>)
    requires
        b.len() >= 24,
        be16_at(b, 2) == b.len(),
        be16_at(b, 12) == packet_checksum(b),
        be16_at(b, 14) == 0,
        !(1 <= b[1] <= 5),
    ensures
        spec_parse(b) matches Ok(m) && m.payload == PayloadModel::Unknown(
            OspfType::Unknown(b[1]),
            b.subrange(24, b.len() as int),
        ) && packet_wire(m) == b,
{
    lemma_decode_exact(b);
}

/// A Link-State-Update whose count exceeds the well-formed LSAs that follow it
/// does not decode.
pub proof fn lemma_ls_update_count_exceeds(n: u32, s: Seq<LsaModel>)
    requires
        forall|i: int| 0 <= i < s.len() ==> #[trigger] lsa_wf(s[i]),
        s.len() < n,
    ensures
        spec_parse_payload(be32_bytes(n) + lsas_wire(s), OspfType::LsUpdate) == Err::<
            PayloadModel,
            DecodeError,
        >(DecodeError::Malformed),
{
    let b = be32_bytes(n) + lsas_wire(s);
    lemma_be32(n);
    lemma_lsas_too_few(s, n as nat);
    assert(b.subrange(4, b.len() as int) =~= lsas_wire(s));
}

/// A Hello whose neighbor region is not a whole number of addresses does not decode.
pub proof fn lemma_hello_neighbors_misaligned(b: Seq<u8>)
    requires
        b.len() >= 20,
        (b.len() - 20) % 4 != 0,
    ensures
        spec_parse_payload(b, OspfType::Hello) == Err::<PayloadModel, DecodeError>(
            DecodeError::Malformed,
        ),
{
}

} // verus!
