//! The plain values of the format: addresses, type tags and bit-packed flags.
use bytes::BytesMut;
use vstd::prelude::*;
use crate::buf::put_u32;
use crate::wire::{
    be32_at, be32_bytes, lemma_be32, lemma_be32_bytes, many0, read_be32, spec_many0, DecodeError,
    Emit, ParseBe,
};

verus! {

/// An IPv4 address (or router, area or link identifier), held as the 32-bit
/// number whose big-endian bytes are its four octets.
#[derive(Debug, Clone, Copy, PartialEq, Eq, Structural)]
pub struct Ipv4Address(pub u32);

impl Ipv4Address {
    /// The address `a.b.c.d`.
    pub fn new(a: u8, b: u8, c: u8, d: u8) -> (r: Self)
        ensures
            r.0 == a * 0x1000000 + b * 0x10000 + c * 0x100 + d,
    {
        Ipv4Address((a as u32) * 0x1000000 + (b as u32) * 0x10000 + (c as u32) * 0x100 + (d as u32))
    }

    /// The four octets, first to last.
    pub fn octets(&self) -> (r: [u8; 4])
        ensures
            r@ == be32_bytes(self.0),
    {
        let v = self.0;
        let r = [(v / 0x1000000) as u8, ((v / 0x10000) % 0x100) as u8, ((v / 0x100) % 0x100) as u8,
            (v % 0x100) as u8];
        proof {
            assert(r@ =~= be32_bytes(self.0));
        }
        r
    }
}

impl Emit for Ipv4Address {
    open spec fn spec_wire(&self) -> Seq<u8> {
        be32_bytes(self.0)
    }

    fn emit(&self, buf: &mut BytesMut) {
        put_u32(buf, self.0);
    }
}

impl ParseBe for Ipv4Address {
    open spec fn wire_size() -> nat {
        4
    }

    open spec fn spec_from_be(b: Seq<u8>) -> Self {
        Ipv4Address(be32_at(b, 0))
    }

    open spec fn spec_canonical(&self) -> bool {
        true
    }

    proof fn lemma_wire_size() {
    }

    proof fn lemma_from_be(b: Seq<u8>) {
    }

    proof fn lemma_round_trip(&self) {
        lemma_be32(self.0);
    }

    proof fn lemma_wire_of_read(b: Seq<u8>) {
        lemma_be32_bytes(b, 0);
    }

    fn parse_be(input: &[u8]) -> (r: Result<(&[u8], Self), DecodeError>) {
        if input.len() < 4 {
            return Err(DecodeError::Truncated);
        }
        let v = read_be32(input, 0);
        let (_, rest) = input.split_at(4);
        Ok((rest, Ipv4Address(v)))
    }
}

/// Reads addresses until `input` is used up; one cut short is `Malformed`.
pub fn parse_ipv4addr_vec(input: &[u8]) -> (r: Result<(&[u8], Vec<Ipv4Address>), DecodeError>)
    ensures
        match r {
            Ok((rest, v)) => spec_many0::<Ipv4Address>(input@) == Ok::<
                Seq<Ipv4Address>,
                DecodeError,
            >(v@) && rest@.len() == 0,
            Err(e) => spec_many0::<Ipv4Address>(input@) == Err::<Seq<Ipv4Address>, DecodeError>(e),
        },
{
    many0::<Ipv4Address>(input)
}

/// The packet type tag: which of the five messages a packet carries.
#[derive(Debug, Clone, Copy, PartialEq, Eq, Structural)]
pub enum OspfType {
    Hello,
    DbDesc,
    LsRequest,
    LsUpdate,
    LsAck,
    /// A tag outside `1 ..= 5`, kept as it was read.
    Unknown(u8),
}

impl OspfType {
    /// The variant that the tag `t` selects.
    pub open spec fn spec_from_u8(t: u8) -> OspfType {
        if t == 1 {
            OspfType::Hello
        } else if t == 2 {
            OspfType::DbDesc
        } else if t == 3 {
            OspfType::LsRequest
        } else if t == 4 {
            OspfType::LsUpdate
        } else if t == 5 {
            OspfType::LsAck
        } else {
            OspfType::Unknown(t)
        }
    }

    /// The tag that this variant is written with.
    pub open spec fn spec_to_u8(self) -> u8 {
        match self {
            OspfType::Hello => 1,
            OspfType::DbDesc => 2,
            OspfType::LsRequest => 3,
            OspfType::LsUpdate => 4,
            OspfType::LsAck => 5,
            OspfType::Unknown(t) => t,
        }
    }

    /// Whether this is the one spelling of its tag: `Unknown` holds no defined tag.
    pub open spec fn is_canonical(self) -> bool {
        self matches OspfType::Unknown(t) ==> !(1 <= t <= 5)
    }

    /// The variant that the tag `t` selects.
    pub fn from_u8(t: u8) -> (r: Self)
        ensures
            r == Self::spec_from_u8(t),
            r.is_canonical(),
            r.spec_to_u8() == t,
    {
        if t == 1 {
            OspfType::Hello
        } else if t == 2 {
            OspfType::DbDesc
        } else if t == 3 {
            OspfType::LsRequest
        } else if t == 4 {
            OspfType::LsUpdate
        } else if t == 5 {
            OspfType::LsAck
        } else {
            OspfType::Unknown(t)
        }
    }

    /// The tag written for this variant; the inverse of `from_u8`.
    pub fn to_u8(&self) -> (r: u8)
        ensures
            r == self.spec_to_u8(),
            self.is_canonical() ==> Self::spec_from_u8(r) == *self,
    {
        match self {
            OspfType::Hello => 1,
            OspfType::DbDesc => 2,
            OspfType::LsRequest => 3,
            OspfType::LsUpdate => 4,
            OspfType::LsAck => 5,
            OspfType::Unknown(t) => *t,
        }
    }
}

/// The LSA type tag: which record shape follows an LSA header.
#[derive(Debug, Clone, Copy, PartialEq, Eq, Structural)]
pub enum OspfLsType {
    Router,
    Network,
    Summary,
    SummaryAsbr,
    AsExternal,
    /// A tag outside `1 ..= 5`, kept as it was read.
    Unknown(u8),
}

impl OspfLsType {
    /// The variant that the tag `t` selects.
    pub open spec fn spec_from_u8(t: u8) -> OspfLsType {
        if t == 1 {
            OspfLsType::Router
        } else if t == 2 {
            OspfLsType::Network
        } else if t == 3 {
            OspfLsType::Summary
        } else if t == 4 {
            OspfLsType::SummaryAsbr
        } else if t == 5 {
            OspfLsType::AsExternal
        } else {
            OspfLsType::Unknown(t)
        }
    }

    /// The tag that this variant is written with.
    pub open spec fn spec_to_u8(self) -> u8 {
        match self {
            OspfLsType::Router => 1,
            OspfLsType::Network => 2,
            OspfLsType::Summary => 3,
            OspfLsType::SummaryAsbr => 4,
            OspfLsType::AsExternal => 5,
            OspfLsType::Unknown(t) => t,
        }
    }

    /// Whether this is the one spelling of its tag: `Unknown` holds no defined tag.
    pub open spec fn is_canonical(self) -> bool {
        self matches OspfLsType::Unknown(t) ==> !(1 <= t <= 5)
    }

    /// The variant that the tag `t` selects.
    pub fn from_u8(t: u8) -> (r: Self)
        ensures
            r == Self::spec_from_u8(t),
            r.is_canonical(),
            r.spec_to_u8() == t,
    {
        if t == 1 {
            OspfLsType::Router
        } else if t == 2 {
            OspfLsType::Network
        } else if t == 3 {
            OspfLsType::Summary
        } else if t == 4 {
            OspfLsType::SummaryAsbr
        } else if t == 5 {
            OspfLsType::AsExternal
        } else {
            OspfLsType::Unknown(t)
        }
    }

    /// The tag written for this variant; the inverse of `from_u8`.
    pub fn to_u8(&self) -> (r: u8)
        ensures
            r == self.spec_to_u8(),
            self.is_canonical() ==> Self::spec_from_u8(r) == *self,
    {
        match self {
            OspfLsType::Router => 1,
            OspfLsType::Network => 2,
            OspfLsType::Summary => 3,
            OspfLsType::SummaryAsbr => 4,
            OspfLsType::AsExternal => 5,
            OspfLsType::Unknown(t) => *t,
        }
    }
}

/// Whether bit `i` (0 the least significant) of `b` is set.
pub open spec fn bit(b: u8, i: u8) -> bool {
    (b >> i) & 1u8 == 1u8
}

/// The options byte; every value is legal and every bit is kept.
#[derive(Debug, Clone, Copy, PartialEq, Eq, Structural)]
pub struct OspfOptions(pub u8);

impl OspfOptions {
    /// The byte `b`, every bit kept.
    pub fn from_bits(b: u8) -> (r: Self)
        ensures
            r.0 == b,
    {
        OspfOptions(b)
    }

    /// The byte as it is written.
    pub fn into_bits(&self) -> (r: u8)
        ensures
            r == self.0,
    {
        self.0
    }

    /// Bit 0.
    pub fn multi_toplogy(&self) -> (r: bool)
        ensures
            r == bit(self.0, 0),
    {
        (self.0 >> 0u8) & 1u8 == 1u8
    }

    /// Bit 1.
    pub fn external(&self) -> (r: bool)
        ensures
            r == bit(self.0, 1),
    {
        (self.0 >> 1u8) & 1u8 == 1u8
    }

    /// Bit 2.
    pub fn multicast(&self) -> (r: bool)
        ensures
            r == bit(self.0, 2),
    {
        (self.0 >> 2u8) & 1u8 == 1u8
    }

    /// Bit 3.
    pub fn nssa(&self) -> (r: bool)
        ensures
            r == bit(self.0, 3),
    {
        (self.0 >> 3u8) & 1u8 == 1u8
    }

    /// Bit 4.
    pub fn lls_data(&self) -> (r: bool)
        ensures
            r == bit(self.0, 4),
    {
        (self.0 >> 4u8) & 1u8 == 1u8
    }

    /// Bit 5.
    pub fn demand_circuts(&self) -> (r: bool)
        ensures
            r == bit(self.0, 5),
    {
        (self.0 >> 5u8) & 1u8 == 1u8
    }

    /// Bit 6.
    pub fn o(&self) -> (r: bool)
        ensures
            r == bit(self.0, 6),
    {
        (self.0 >> 6u8) & 1u8 == 1u8
    }

    /// Bit 7.
    pub fn dn(&self) -> (r: bool)
        ensures
            r == bit(self.0, 7),
    {
        (self.0 >> 7u8) & 1u8 == 1u8
    }
}

/// The Database-Description flags byte: four named bits and four reserved bits,
/// all kept as read.
#[derive(Debug, Clone, Copy, PartialEq, Eq, Structural)]
pub struct DbDescFlags(pub u8);

impl DbDescFlags {
    /// The byte `b`, every bit kept.
    pub fn from_bits(b: u8) -> (r: Self)
        ensures
            r.0 == b,
    {
        DbDescFlags(b)
    }

    /// The byte as it is written.
    pub fn into_bits(&self) -> (r: u8)
        ensures
            r == self.0,
    {
        self.0
    }

    /// Bit 0.
    pub fn master(&self) -> (r: bool)
        ensures
            r == bit(self.0, 0),
    {
        (self.0 >> 0u8) & 1u8 == 1u8
    }

    /// Bit 1.
    pub fn more(&self) -> (r: bool)
        ensures
            r == bit(self.0, 1),
    {
        (self.0 >> 1u8) & 1u8 == 1u8
    }

    /// Bit 2.
    pub fn init(&self) -> (r: bool)
        ensures
            r == bit(self.0, 2),
    {
        (self.0 >> 2u8) & 1u8 == 1u8
    }

    /// Bit 3.
    pub fn oob_resync(&self) -> (r: bool)
        ensures
            r == bit(self.0, 3),
    {
        (self.0 >> 3u8) & 1u8 == 1u8
    }

    /// The four reserved bits, as a number below 16.
    pub fn resvd(&self) -> (r: u8)
        ensures
            r == self.0 >> 4u8,
    {
        self.0 >> 4u8
    }

    /// Whether master, more and init are all set.
    pub fn is_all(&self) -> (r: bool)
        ensures
            r == (bit(self.0, 0) && bit(self.0, 1) && bit(self.0, 2)),
    {
        self.master() && self.more() && self.init()
    }
}

/// The link type of a Router-LSA link, kept as read.
#[derive(Debug, Clone, Copy, PartialEq, Eq, Structural)]
pub struct OspfRouterLinkType(pub u8);

} // verus!
