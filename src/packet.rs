//! OSPFv2 packets: the fixed header, the authentication field and the five
//! message payloads.
use bytes::BytesMut;
use vstd::prelude::*;
use crate::buf::{buf_len, bytes_of, held, overwrite_be16, put_slice, put_u16, put_u32, put_u64, put_u8, truncate};
use crate::checksum::{compute_packet_checksum, packet_checksum};
use crate::lsa::{
    lemma_lsa_wires, lsas_view, lsas_wire, lsa_wf, parse_lsas, spec_parse_lsas, LsaModel, OspfLsa,
    OspfLsaHeader,
};
use crate::types::{parse_ipv4addr_vec, DbDescFlags, Ipv4Address, OspfOptions, OspfType};
use crate::wire::{
    be16_at, be16_bytes, be32_at, be32_bytes, be64_at, be64_bytes, emit_all, many0, read_be16,
    read_be32, read_be64, spec_many0, wires, DecodeError, Emit, ParseBe,
};

verus! {

/// The version number that `Ospfv2Packet::new` writes.
pub const OSPF_VERSION: u8 = 2;

/// Why a packet could not be encoded.
#[derive(Debug, Clone, Copy, PartialEq, Eq, Structural)]
pub enum EncodeError {
    /// Only authentication type 0 can be written.
    UnsupportedAuthType,
    /// The packet would be longer than its 16-bit length field can state.
    TooLong,
}

/// The authentication field of type 0: eight opaque bytes.
#[derive(Debug, Clone, Copy, PartialEq, Eq, Structural)]
pub struct Ospfv2Auth {
    pub auth: u64,
}

impl Ospfv2Auth {
    /// Reads the field that `auth_type` announces from the front of `input`;
    /// any type but 0 is refused.
    pub fn parse_be(input: &[u8], auth_type: u16) -> (r: Result<(&[u8], Self), DecodeError>)
        ensures
            auth_type != 0 ==> (r matches Err(e) && e == DecodeError::UnsupportedAuthType),
            auth_type == 0 && input@.len() < 8 ==> (r matches Err(e) && e
                == DecodeError::Truncated),
            auth_type == 0 && input@.len() >= 8 ==> (r matches Ok((rest, v)) && v.auth == be64_at(
                input@,
                0,
            ) && rest@ == input@.subrange(8, input@.len() as int)),
    {
        if auth_type != 0 {
            return Err(DecodeError::UnsupportedAuthType);
        }
        if input.len() < 8 {
            return Err(DecodeError::Truncated);
        }
        let auth = read_be64(input, 0);
        let (_, rest) = input.split_at(8);
        Ok((rest, Ospfv2Auth { auth }))
    }
}

impl Emit for Ospfv2Auth {
    open spec fn spec_wire(&self) -> Seq<u8> {
        be64_bytes(self.auth)
    }

    fn emit(&self, buf: &mut BytesMut) {
        put_u64(buf, self.auth);
    }
}

/// A Hello payload; the neighbor list runs to the end of the packet.
#[derive(Debug, Clone, PartialEq, Eq)]
pub struct OspfHello {
    pub netmask: Ipv4Address,
    pub hello_interval: u16,
    pub options: OspfOptions,
    pub priority: u8,
    pub router_dead_interval: u32,
    pub d_router: Ipv4Address,
    pub bd_router: Ipv4Address,
    pub neighbors: Vec<Ipv4Address>,
}

/// What an `OspfHello` holds.
pub struct HelloModel {
    pub netmask: Ipv4Address,
    pub hello_interval: u16,
    pub options: OspfOptions,
    pub priority: u8,
    pub router_dead_interval: u32,
    pub d_router: Ipv4Address,
    pub bd_router: Ipv4Address,
    pub neighbors: Seq<Ipv4Address>,
}

impl View for OspfHello {
    type V = HelloModel;

    open spec fn view(&self) -> HelloModel {
        HelloModel {
            netmask: self.netmask,
            hello_interval: self.hello_interval,
            options: self.options,
            priority: self.priority,
            router_dead_interval: self.router_dead_interval,
            d_router: self.d_router,
            bd_router: self.bd_router,
            neighbors: self.neighbors@,
        }
    }
}

impl Default for OspfHello {
    fn default() -> (r: Self)
        ensures
            r.netmask.0 == 0 && r.hello_interval == 0 && r.options.0 == 0 && r.priority == 0
                && r.router_dead_interval == 0 && r.d_router.0 == 0 && r.bd_router.0 == 0
                && r.neighbors@.len() == 0,
    {
        OspfHello {
            netmask: Ipv4Address(0),
            hello_interval: 0,
            options: OspfOptions(0),
            priority: 0,
            router_dead_interval: 0,
            d_router: Ipv4Address(0),
            bd_router: Ipv4Address(0),
            neighbors: Vec::new(),
        }
    }
}

/// The bytes of a Hello payload.
pub open spec fn hello_wire(m: HelloModel) -> Seq<u8> {
    be32_bytes(m.netmask.0) + be16_bytes(m.hello_interval) + seq![m.options.0, m.priority]
        + be32_bytes(m.router_dead_interval) + be32_bytes(m.d_router.0) + be32_bytes(m.bd_router.0)
        + wires(m.neighbors)
}

/// A Hello payload that fills `b`: twenty bytes, then whole neighbor addresses.
pub open spec fn spec_parse_hello(b: Seq<u8>) -> Result<HelloModel, DecodeError> {
    if b.len() < 20 {
        Err(DecodeError::Truncated)
    } else {
        match spec_many0::<Ipv4Address>(b.subrange(20, b.len() as int)) {
            Ok(n) => Ok(
                HelloModel {
                    netmask: Ipv4Address(be32_at(b, 0)),
                    hello_interval: be16_at(b, 4),
                    options: OspfOptions(b[6]),
                    priority: b[7],
                    router_dead_interval: be32_at(b, 8),
                    d_router: Ipv4Address(be32_at(b, 12)),
                    bd_router: Ipv4Address(be32_at(b, 16)),
                    neighbors: n,
                },
            ),
            Err(e) => Err(e),
        }
    }
}

impl OspfHello {
    /// Reads a Hello payload that fills `input`.
    pub fn parse_be(input: &[u8]) -> (r: Result<(&[u8], OspfHello), DecodeError>)
        ensures
            match r {
                Ok((rest, v)) => spec_parse_hello(input@) == Ok::<HelloModel, DecodeError>(v@)
                    && rest@.len() == 0,
                Err(e) => spec_parse_hello(input@) == Err::<HelloModel, DecodeError>(e),
            },
    {
        if input.len() < 20 {
            return Err(DecodeError::Truncated);
        }
        let (_, body) = input.split_at(20);
        match parse_ipv4addr_vec(body) {
            Ok((rest, neighbors)) => Ok(
                (
                    rest,
                    OspfHello {
                        netmask: Ipv4Address(read_be32(input, 0)),
                        hello_interval: read_be16(input, 4),
                        options: OspfOptions(input[6]),
                        priority: input[7],
                        router_dead_interval: read_be32(input, 8),
                        d_router: Ipv4Address(read_be32(input, 12)),
                        bd_router: Ipv4Address(read_be32(input, 16)),
                        neighbors,
                    },
                ),
            ),
            Err(e) => Err(e),
        }
    }
}

impl Emit for OspfHello {
    open spec fn spec_wire(&self) -> Seq<u8> {
        hello_wire(self@)
    }

    fn emit(&self, buf: &mut BytesMut) {
        let ghost start = bytes_of(*buf);
        put_u32(buf, self.netmask.0);
        put_u16(buf, self.hello_interval);
        put_u8(buf, self.options.0);
        put_u8(buf, self.priority);
        put_u32(buf, self.router_dead_interval);
        put_u32(buf, self.d_router.0);
        put_u32(buf, self.bd_router.0);
        emit_all(&self.neighbors, buf);
        proof {
            assert(bytes_of(*buf) =~= start + self.spec_wire());
        }
    }
}

/// A Database-Description payload; the LSA headers run to the end of the packet.
#[derive(Debug, Clone, PartialEq, Eq)]
pub struct OspfDbDesc {
    pub if_mtu: u16,
    pub options: OspfOptions,
    pub flags: DbDescFlags,
    pub seqnum: u32,
    pub lsa_headers: Vec<OspfLsaHeader>,
}

/// What an `OspfDbDesc` holds.
pub struct DbDescModel {
    pub if_mtu: u16,
    pub options: OspfOptions,
    pub flags: DbDescFlags,
    pub seqnum: u32,
    pub lsa_headers: Seq<OspfLsaHeader>,
}

impl View for OspfDbDesc {
    type V = DbDescModel;

    open spec fn view(&self) -> DbDescModel {
        DbDescModel {
            if_mtu: self.if_mtu,
            options: self.options,
            flags: self.flags,
            seqnum: self.seqnum,
            lsa_headers: self.lsa_headers@,
        }
    }
}

/// The bytes of a Database-Description payload.
pub open spec fn db_desc_wire(m: DbDescModel) -> Seq<u8> {
    be16_bytes(m.if_mtu) + seq![m.options.0, m.flags.0] + be32_bytes(m.seqnum) + wires(
        m.lsa_headers,
    )
}

/// A Database-Description payload that fills `b`: eight bytes, then whole LSA headers.
pub open spec fn spec_parse_db_desc(b: Seq<u8>) -> Result<DbDescModel, DecodeError> {
    if b.len() < 8 {
        Err(DecodeError::Truncated)
    } else {
        match spec_many0::<OspfLsaHeader>(b.subrange(8, b.len() as int)) {
            Ok(h) => Ok(
                DbDescModel {
                    if_mtu: be16_at(b, 0),
                    options: OspfOptions(b[2]),
                    flags: DbDescFlags(b[3]),
                    seqnum: be32_at(b, 4),
                    lsa_headers: h,
                },
            ),
            Err(e) => Err(e),
        }
    }
}

impl OspfDbDesc {
    /// Reads a Database-Description payload that fills `input`.
    pub fn parse_be(input: &[u8]) -> (r: Result<(&[u8], OspfDbDesc), DecodeError>)
        ensures
            match r {
                Ok((rest, v)) => spec_parse_db_desc(input@) == Ok::<DbDescModel, DecodeError>(v@)
                    && rest@.len() == 0,
                Err(e) => spec_parse_db_desc(input@) == Err::<DbDescModel, DecodeError>(e),
            },
    {
        if input.len() < 8 {
            return Err(DecodeError::Truncated);
        }
        let (_, body) = input.split_at(8);
        match many0::<OspfLsaHeader>(body) {
            Ok((rest, lsa_headers)) => Ok(
                (
                    rest,
                    OspfDbDesc {
                        if_mtu: read_be16(input, 0),
                        options: OspfOptions(input[2]),
                        flags: DbDescFlags(input[3]),
                        seqnum: read_be32(input, 4),
                        lsa_headers,
                    },
                ),
            ),
            Err(e) => Err(e),
        }
    }
}

impl Emit for OspfDbDesc {
    open spec fn spec_wire(&self) -> Seq<u8> {
        db_desc_wire(self@)
    }

    fn emit(&self, buf: &mut BytesMut) {
        let ghost start = bytes_of(*buf);
        put_u16(buf, self.if_mtu);
        put_u8(buf, self.options.0);
        put_u8(buf, self.flags.0);
        put_u32(buf, self.seqnum);
        emit_all(&self.lsa_headers, buf);
        proof {
            assert(bytes_of(*buf) =~= start + self.spec_wire());
        }
    }
}

/// One entry of a Link-State-Request: twelve bytes.
#[derive(Debug, Clone, Copy, PartialEq, Eq, Structural)]
pub struct OspfLsRequestEntry {
    pub ls_type: u32,
    pub ls_id: u32,
    pub adv_router: Ipv4Address,
}

impl Emit for OspfLsRequestEntry {
    open spec fn spec_wire(&self) -> Seq<u8> {
        be32_bytes(self.ls_type) + be32_bytes(self.ls_id) + be32_bytes(self.adv_router.0)
    }

    fn emit(&self, buf: &mut BytesMut) {
        let ghost start = bytes_of(*buf);
        put_u32(buf, self.ls_type);
        put_u32(buf, self.ls_id);
        put_u32(buf, self.adv_router.0);
        proof {
            assert(bytes_of(*buf) =~= start + self.spec_wire());
        }
    }
}

impl ParseBe for OspfLsRequestEntry {
    open spec fn wire_size() -> nat {
        12
    }

    open spec fn spec_from_be(b: Seq<u8>) -> Self {
        OspfLsRequestEntry {
            ls_type: be32_at(b, 0),
            ls_id: be32_at(b, 4),
            adv_router: Ipv4Address(be32_at(b, 8)),
        }
    }

    open spec fn spec_canonical(&self) -> bool {
        true
    }

    proof fn lemma_wire_size() {
    }

    proof fn lemma_from_be(b: Seq<u8>) {
    }

    proof fn lemma_round_trip(&self) {
        crate::wire::lemma_be32(self.ls_type);
        crate::wire::lemma_be32(self.ls_id);
        crate::wire::lemma_be32(self.adv_router.0);
        let w = self.spec_wire();
        assert(w.subrange(4, 8) =~= be32_bytes(self.ls_id));
        assert(w.subrange(8, 12) =~= be32_bytes(self.adv_router.0));
        assert(be32_at(w, 4) == be32_at(w.subrange(4, 8), 0));
        assert(be32_at(w, 8) == be32_at(w.subrange(8, 12), 0));
    }

    proof fn lemma_wire_of_read(b: Seq<u8>) {
        crate::wire::lemma_be32_bytes(b, 0);
        crate::wire::lemma_be32_bytes(b, 4);
        crate::wire::lemma_be32_bytes(b, 8);
        assert(Self::spec_from_be(b).spec_wire() =~= b.subrange(0, 12));
    }

    fn parse_be(input: &[u8]) -> (r: Result<(&[u8], Self), DecodeError>) {
        if input.len() < 12 {
            return Err(DecodeError::Truncated);
        }
        let e = OspfLsRequestEntry {
            ls_type: read_be32(input, 0),
            ls_id: read_be32(input, 4),
            adv_router: Ipv4Address(read_be32(input, 8)),
        };
        let (_, rest) = input.split_at(12);
        Ok((rest, e))
    }
}

/// A Link-State-Request payload: entries to the end of the packet.
#[derive(Debug, Clone, PartialEq, Eq)]
pub struct OspfLsRequest {
    pub reqs: Vec<OspfLsRequestEntry>,
}

impl Emit for OspfLsRequest {
    open spec fn spec_wire(&self) -> Seq<u8> {
        wires(self.reqs@)
    }

    fn emit(&self, buf: &mut BytesMut) {
        emit_all(&self.reqs, buf);
    }
}

/// A Link-State-Update payload: a count, then exactly that many LSAs.
#[derive(Debug, Clone, PartialEq, Eq)]
pub struct OspfLsUpdate {
    pub num_adv: u32,
    pub lsas: Vec<OspfLsa>,
}

/// What an `OspfLsUpdate` holds.
pub struct LsUpdateModel {
    pub num_adv: u32,
    pub lsas: Seq<LsaModel>,
}

impl View for OspfLsUpdate {
    type V = LsUpdateModel;

    open spec fn view(&self) -> LsUpdateModel {
        LsUpdateModel { num_adv: self.num_adv, lsas: lsas_view(self.lsas@) }
    }
}

/// The bytes of a Link-State-Update payload.
pub open spec fn ls_update_wire(m: LsUpdateModel) -> Seq<u8> {
    be32_bytes(m.num_adv) + lsas_wire(m.lsas)
}

/// The count agrees with the list and each LSA is well formed.
pub open spec fn ls_update_wf(m: LsUpdateModel) -> bool {
    &&& m.num_adv == m.lsas.len()
    &&& forall|i: int| 0 <= i < m.lsas.len() ==> #[trigger] lsa_wf(m.lsas[i])
}

/// A Link-State-Update payload that fills `b`: a count, then exactly that many LSAs.
pub open spec fn spec_parse_ls_update(b: Seq<u8>) -> Result<LsUpdateModel, DecodeError> {
    if b.len() < 4 {
        Err(DecodeError::Truncated)
    } else {
        match spec_parse_lsas(b.subrange(4, b.len() as int), be32_at(b, 0) as nat) {
            Ok(l) => Ok(LsUpdateModel { num_adv: be32_at(b, 0), lsas: l }),
            Err(e) => Err(e),
        }
    }
}

impl OspfLsUpdate {
    /// Reads a Link-State-Update payload that fills `input`.
    pub fn parse_be(input: &[u8]) -> (r: Result<(&[u8], OspfLsUpdate), DecodeError>)
        ensures
            match r {
                Ok((rest, v)) => spec_parse_ls_update(input@) == Ok::<LsUpdateModel, DecodeError>(
                    v@,
                ) && rest@.len() == 0,
                Err(e) => spec_parse_ls_update(input@) == Err::<LsUpdateModel, DecodeError>(e),
            },
    {
        if input.len() < 4 {
            return Err(DecodeError::Truncated);
        }
        let num_adv = read_be32(input, 0);
        let (_, body) = input.split_at(4);
        let lsas = match parse_lsas(body, num_adv) {
            Ok(v) => v,
            Err(e) => {
                return Err(e);
            },
        };
        let (_, rest) = input.split_at(input.len());
        Ok((rest, OspfLsUpdate { num_adv, lsas }))
    }
}

impl Emit for OspfLsUpdate {
    open spec fn spec_wire(&self) -> Seq<u8> {
        ls_update_wire(self@)
    }

    fn emit(&self, buf: &mut BytesMut) {
        let ghost start = bytes_of(*buf);
        proof {
            lemma_lsa_wires(self.lsas@);
        }
        put_u32(buf, self.num_adv);
        emit_all(&self.lsas, buf);
        proof {
            assert(bytes_of(*buf) =~= start + self.spec_wire());
        }
    }
}

/// A Link-State-Acknowledgment payload: LSA headers to the end of the packet.
#[derive(Debug, Clone, PartialEq, Eq)]
pub struct OspfLsAck {
    pub lsa_headers: Vec<OspfLsaHeader>,
}

impl Emit for OspfLsAck {
    open spec fn spec_wire(&self) -> Seq<u8> {
        wires(self.lsa_headers@)
    }

    fn emit(&self, buf: &mut BytesMut) {
        emit_all(&self.lsa_headers, buf);
    }
}

/// The payload of a packet whose type tag is undefined: the tag and the raw bytes.
#[derive(Debug, Clone, PartialEq, Eq)]
pub struct OspfUnknown {
    pub typ: OspfType,
    pub payload: Vec<u8>,
}

impl Emit for OspfUnknown {
    open spec fn spec_wire(&self) -> Seq<u8> {
        self.payload@
    }

    fn emit(&self, buf: &mut BytesMut) {
        put_slice(buf, self.payload.as_slice());
    }
}


/// The payload of a packet, in the shape that its type tag selects.
#[derive(Debug, Clone, PartialEq, Eq)]
pub enum Ospfv2Payload {
    Hello(OspfHello),
    DbDesc(OspfDbDesc),
    LsRequest(OspfLsRequest),
    LsUpdate(OspfLsUpdate),
    LsAck(OspfLsAck),
    Unknown(OspfUnknown),
}

/// What an `Ospfv2Payload` holds.
pub enum PayloadModel {
    Hello(HelloModel),
    DbDesc(DbDescModel),
    LsRequest(Seq<OspfLsRequestEntry>),
    LsUpdate(LsUpdateModel),
    LsAck(Seq<OspfLsaHeader>),
    Unknown(OspfType, Seq<u8>),
}

impl View for Ospfv2Payload {
    type V = PayloadModel;

    open spec fn view(&self) -> PayloadModel {
        match self {
            Ospfv2Payload::Hello(v) => PayloadModel::Hello(v@),
            Ospfv2Payload::DbDesc(v) => PayloadModel::DbDesc(v@),
            Ospfv2Payload::LsRequest(v) => PayloadModel::LsRequest(v.reqs@),
            Ospfv2Payload::LsUpdate(v) => PayloadModel::LsUpdate(v@),
            Ospfv2Payload::LsAck(v) => PayloadModel::LsAck(v.lsa_headers@),
            Ospfv2Payload::Unknown(v) => PayloadModel::Unknown(v.typ, v.payload@),
        }
    }
}

/// The type tag that a payload is written with.
pub open spec fn payload_type(m: PayloadModel) -> OspfType {
    match m {
        PayloadModel::Hello(_) => OspfType::Hello,
        PayloadModel::DbDesc(_) => OspfType::DbDesc,
        PayloadModel::LsRequest(_) => OspfType::LsRequest,
        PayloadModel::LsUpdate(_) => OspfType::LsUpdate,
        PayloadModel::LsAck(_) => OspfType::LsAck,
        PayloadModel::Unknown(t, _) => t,
    }
}

/// The bytes of a payload.
pub open spec fn payload_wire(m: PayloadModel) -> Seq<u8> {
    match m {
        PayloadModel::Hello(v) => hello_wire(v),
        PayloadModel::DbDesc(v) => db_desc_wire(v),
        PayloadModel::LsRequest(v) => wires(v),
        PayloadModel::LsUpdate(v) => ls_update_wire(v),
        PayloadModel::LsAck(v) => wires(v),
        PayloadModel::Unknown(_, d) => d,
    }
}

/// Every tag is in its one spelling (an unknown payload carries an undefined
/// tag) and every count field agrees with its list.
pub open spec fn payload_wf(m: PayloadModel) -> bool {
    match m {
        PayloadModel::Hello(_) => true,
        PayloadModel::DbDesc(v) => forall|i: int|
            0 <= i < v.lsa_headers.len() ==> #[trigger] v.lsa_headers[i].spec_canonical(),
        PayloadModel::LsRequest(_) => true,
        PayloadModel::LsUpdate(v) => ls_update_wf(v),
        PayloadModel::LsAck(v) => forall|i: int| 0 <= i < v.len() ==> #[trigger] v[i].spec_canonical(),
        PayloadModel::Unknown(t, _) => t is Unknown && t.is_canonical(),
    }
}

/// The payload that fills `b`, in the shape that the tag `t` selects; an
/// undefined tag keeps the tag and the bytes.
pub open spec fn spec_parse_payload(b: Seq<u8>, t: OspfType) -> Result<PayloadModel, DecodeError> {
    match t {
        OspfType::Hello => match spec_parse_hello(b) {
            Ok(v) => Ok(PayloadModel::Hello(v)),
            Err(e) => Err(e),
        },
        OspfType::DbDesc => match spec_parse_db_desc(b) {
            Ok(v) => Ok(PayloadModel::DbDesc(v)),
            Err(e) => Err(e),
        },
        OspfType::LsRequest => match spec_many0::<OspfLsRequestEntry>(b) {
            Ok(v) => Ok(PayloadModel::LsRequest(v)),
            Err(e) => Err(e),
        },
        OspfType::LsUpdate => match spec_parse_ls_update(b) {
            Ok(v) => Ok(PayloadModel::LsUpdate(v)),
            Err(e) => Err(e),
        },
        OspfType::LsAck => match spec_many0::<OspfLsaHeader>(b) {
            Ok(v) => Ok(PayloadModel::LsAck(v)),
            Err(e) => Err(e),
        },
        OspfType::Unknown(_) => Ok(PayloadModel::Unknown(t, b)),
    }
}

impl Ospfv2Payload {
    /// Reads the payload that fills `input`, in the shape that `typ` selects.
    pub fn parse_enum(input: &[u8], typ: OspfType) -> (r: Result<(&[u8], Ospfv2Payload), DecodeError>)
        ensures
            match r {
                Ok((rest, v)) => spec_parse_payload(input@, typ) == Ok::<PayloadModel, DecodeError>(
                    v@,
                ) && rest@.len() == 0,
                Err(e) => spec_parse_payload(input@, typ) == Err::<PayloadModel, DecodeError>(e),
            },
    {
        match typ {
            OspfType::Hello => match OspfHello::parse_be(input) {
                Ok((rest, v)) => Ok((rest, Ospfv2Payload::Hello(v))),
                Err(e) => Err(e),
            },
            OspfType::DbDesc => match OspfDbDesc::parse_be(input) {
                Ok((rest, v)) => Ok((rest, Ospfv2Payload::DbDesc(v))),
                Err(e) => Err(e),
            },
            OspfType::LsRequest => match many0::<OspfLsRequestEntry>(input) {
                Ok((rest, reqs)) => Ok((rest, Ospfv2Payload::LsRequest(OspfLsRequest { reqs }))),
                Err(e) => Err(e),
            },
            OspfType::LsUpdate => match OspfLsUpdate::parse_be(input) {
                Ok((rest, v)) => Ok((rest, Ospfv2Payload::LsUpdate(v))),
                Err(e) => Err(e),
            },
            OspfType::LsAck => match many0::<OspfLsaHeader>(input) {
                Ok((rest, lsa_headers)) => Ok((rest, Ospfv2Payload::LsAck(OspfLsAck { lsa_headers }))),
                Err(e) => Err(e),
            },
            OspfType::Unknown(_) => {
                let payload = vstd::slice::slice_to_vec(input);
                let (_, rest) = input.split_at(input.len());
                Ok((rest, Ospfv2Payload::Unknown(OspfUnknown { typ, payload })))
            },
        }
    }

    /// The type tag this payload is written with; an unknown payload keeps its own.
    pub fn typ(&self) -> (r: OspfType)
        ensures
            r == payload_type(self@),
    {
        match self {
            Ospfv2Payload::Hello(_) => OspfType::Hello,
            Ospfv2Payload::DbDesc(_) => OspfType::DbDesc,
            Ospfv2Payload::LsRequest(_) => OspfType::LsRequest,
            Ospfv2Payload::LsUpdate(_) => OspfType::LsUpdate,
            Ospfv2Payload::LsAck(_) => OspfType::LsAck,
            Ospfv2Payload::Unknown(v) => v.typ,
        }
    }
}

impl Emit for Ospfv2Payload {
    open spec fn spec_wire(&self) -> Seq<u8> {
        payload_wire(self@)
    }

    fn emit(&self, buf: &mut BytesMut) {
        match self {
            Ospfv2Payload::Hello(v) => v.emit(buf),
            Ospfv2Payload::DbDesc(v) => v.emit(buf),
            Ospfv2Payload::LsRequest(v) => v.emit(buf),
            Ospfv2Payload::LsUpdate(v) => v.emit(buf),
            Ospfv2Payload::LsAck(v) => v.emit(buf),
            Ospfv2Payload::Unknown(v) => v.emit(buf),
        }
    }
}

/// An OSPFv2 packet: the 24-byte header (authentication included) and a payload.
#[derive(Debug, Clone, PartialEq, Eq)]
pub struct Ospfv2Packet {
    pub version: u8,
    pub typ: OspfType,
    pub len: u16,
    pub router_id: Ipv4Address,
    pub area_id: Ipv4Address,
    pub checksum: u16,
    pub auth_type: u16,
    pub auth: Ospfv2Auth,
    pub payload: Ospfv2Payload,
}

/// What an `Ospfv2Packet` holds.
pub struct PacketModel {
    pub version: u8,
    pub typ: OspfType,
    pub len: u16,
    pub router_id: Ipv4Address,
    pub area_id: Ipv4Address,
    pub checksum: u16,
    pub auth_type: u16,
    pub auth: Ospfv2Auth,
    pub payload: PayloadModel,
}

impl View for Ospfv2Packet {
    type V = PacketModel;

    open spec fn view(&self) -> PacketModel {
        PacketModel {
            version: self.version,
            typ: self.typ,
            len: self.len,
            router_id: self.router_id,
            area_id: self.area_id,
            checksum: self.checksum,
            auth_type: self.auth_type,
            auth: self.auth,
            payload: self.payload@,
        }
    }
}

/// The 24 header bytes of `m` with the given length and checksum fields; the
/// type byte is the payload's own tag.
pub open spec fn header_wire(m: PacketModel, len: u16, cksum: u16) -> Seq<u8> {
    seq![m.version, payload_type(m.payload).spec_to_u8()] + be16_bytes(len) + be32_bytes(
        m.router_id.0,
    ) + be32_bytes(m.area_id.0) + be16_bytes(cksum) + be16_bytes(m.auth_type) + be64_bytes(
        m.auth.auth,
    )
}

/// The number of bytes the packet takes.
pub open spec fn encoded_len(m: PacketModel) -> int {
    24 + payload_wire(m.payload).len() as int
}

/// The packet with its length field set and its checksum field zero.
pub open spec fn unsealed_wire(m: PacketModel) -> Seq<u8> {
    header_wire(m, encoded_len(m) as u16, 0) + payload_wire(m.payload)
}

/// The packet as written: length and checksum fields computed from the bytes.
pub open spec fn packet_wire(m: PacketModel) -> Seq<u8> {
    header_wire(m, encoded_len(m) as u16, packet_checksum(unsealed_wire(m))) + payload_wire(
        m.payload,
    )
}

/// A packet that encoding can write and decoding gives back: no authentication,
/// a type field that is the payload's own tag, a well-formed payload, and a
/// length that fits the 16-bit length field.
pub open spec fn packet_wf(m: PacketModel) -> bool {
    &&& m.auth_type == 0
    &&& m.typ == payload_type(m.payload)
    &&& payload_wf(m.payload)
    &&& encoded_len(m) <= 0xffff
}

/// A packet that fills `b`: checksum first, then the length field against the
/// buffer, then the authentication type, then the payload.
pub open spec fn spec_parse(b: Seq<u8>) -> Result<PacketModel, DecodeError> {
    if b.len() < 24 {
        Err(DecodeError::Truncated)
    } else if be16_at(b, 12) != packet_checksum(b) {
        Err(DecodeError::ChecksumMismatch)
    } else if be16_at(b, 2) > b.len() {
        Err(DecodeError::Truncated)
    } else if be16_at(b, 2) < b.len() {
        Err(DecodeError::Malformed)
    } else if be16_at(b, 14) != 0 {
        Err(DecodeError::UnsupportedAuthType)
    } else {
        let t = OspfType::spec_from_u8(b[1]);
        match spec_parse_payload(b.subrange(24, b.len() as int), t) {
            Ok(p) => Ok(
                PacketModel {
                    version: b[0],
                    typ: t,
                    len: be16_at(b, 2),
                    router_id: Ipv4Address(be32_at(b, 4)),
                    area_id: Ipv4Address(be32_at(b, 8)),
                    checksum: be16_at(b, 12),
                    auth_type: be16_at(b, 14),
                    auth: Ospfv2Auth { auth: be64_at(b, 16) },
                    payload: p,
                },
            ),
            Err(e) => Err(e),
        }
    }
}

/// Checks the checksum of the packet that fills `input`.
pub fn validate_checksum(input: &[u8]) -> (r: Result<(&[u8], ()), DecodeError>)
    ensures
        input@.len() < 24 ==> (r matches Err(e) && e == DecodeError::Truncated),
        input@.len() >= 24 && be16_at(input@, 12) != packet_checksum(input@) ==> (r matches Err(e)
            && e == DecodeError::ChecksumMismatch),
        input@.len() >= 24 && be16_at(input@, 12) == packet_checksum(input@) ==> (r matches Ok(
            (rest, _),
        ) && rest@ == input@),
{
    if input.len() < 24 {
        return Err(DecodeError::Truncated);
    }
    if read_be16(input, 12) != compute_packet_checksum(input) {
        return Err(DecodeError::ChecksumMismatch);
    }
    Ok((input, ()))
}

/// Decodes the one packet that fills `input`; what is left is empty.
pub fn parse(input: &[u8]) -> (r: Result<(&[u8], Ospfv2Packet), DecodeError>)
    ensures
        match r {
            Ok((rest, p)) => spec_parse(input@) == Ok::<PacketModel, DecodeError>(p@) && rest@.len()
                == 0,
            Err(e) => spec_parse(input@) == Err::<PacketModel, DecodeError>(e),
        },
{
    if let Err(e) = validate_checksum(input) {
        return Err(e);
    }
    let len = read_be16(input, 2);
    if len as usize > input.len() {
        return Err(DecodeError::Truncated);
    }
    if (len as usize) < input.len() {
        return Err(DecodeError::Malformed);
    }
    let auth_type = read_be16(input, 14);
    let typ = OspfType::from_u8(input[1]);
    let (_, after_header) = input.split_at(16);
    let (body, auth) = match Ospfv2Auth::parse_be(after_header, auth_type) {
        Ok(v) => v,
        Err(e) => {
            return Err(e);
        },
    };
    proof {
        assert(body@ =~= input@.subrange(24, input@.len() as int));
        assert(be64_at(after_header@, 0) == be64_at(input@, 16));
    }
    let (rest, payload) = match Ospfv2Payload::parse_enum(body, typ) {
        Ok(v) => v,
        Err(e) => {
            return Err(e);
        },
    };
    let p = Ospfv2Packet {
        version: input[0],
        typ,
        len,
        router_id: Ipv4Address(read_be32(input, 4)),
        area_id: Ipv4Address(read_be32(input, 8)),
        checksum: read_be16(input, 12),
        auth_type,
        auth,
        payload,
    };
    Ok((rest, p))
}

impl Ospfv2Packet {
    /// A version-2 packet with no authentication; length and checksum are left
    /// for `emit` to compute.
    pub fn new(router_id: &Ipv4Address, area_id: &Ipv4Address, payload: Ospfv2Payload) -> (r: Self)
        ensures
            r.version == OSPF_VERSION,
            r.typ == payload_type(payload@),
            r.len == 0,
            r.router_id == *router_id,
            r.area_id == *area_id,
            r.checksum == 0,
            r.auth_type == 0,
            r.auth.auth == 0,
            r.payload@ == payload@,
    {
        Ospfv2Packet {
            version: OSPF_VERSION,
            typ: payload.typ(),
            len: 0,
            router_id: *router_id,
            area_id: *area_id,
            checksum: 0,
            auth_type: 0,
            auth: Ospfv2Auth { auth: 0 },
            payload,
        }
    }

    /// Appends the packet to `buf`, computing its length and checksum fields;
    /// the type byte is the payload's own tag, so the `typ`, `len` and
    /// `checksum` fields are not read. A packet with an authentication type
    /// other than 0, or one longer than 65535 bytes, is refused and `buf` is
    /// left as it was.
    pub fn emit(&self, buf: &mut BytesMut) -> (r: Result<(), EncodeError>)
        requires
            bytes_of(*old(buf)).len() + encoded_len(self@) <= isize::MAX,
        ensures
            self.auth_type != 0 ==> r == Err::<(), EncodeError>(EncodeError::UnsupportedAuthType)
                && bytes_of(*final(buf)) == bytes_of(*old(buf)),
            self.auth_type == 0 && encoded_len(self@) > 0xffff ==> r == Err::<(), EncodeError>(
                EncodeError::TooLong,
            ) && bytes_of(*final(buf)) == bytes_of(*old(buf)),
            self.auth_type == 0 && encoded_len(self@) <= 0xffff ==> r == Ok::<(), EncodeError>(())
                && bytes_of(*final(buf)) == bytes_of(*old(buf)) + packet_wire(self@),
    {
        if self.auth_type != 0 {
            return Err(EncodeError::UnsupportedAuthType);
        }
        let ghost m = self@;
        let ghost old_bytes = bytes_of(*buf);
        let start = buf_len(buf);
        put_u8(buf, self.version);
        put_u8(buf, self.payload.typ().to_u8());
        put_u16(buf, 0);
        put_u32(buf, self.router_id.0);
        put_u32(buf, self.area_id.0);
        put_u16(buf, 0);
        put_u16(buf, self.auth_type);
        self.auth.emit(buf);
        self.payload.emit(buf);
        proof {
            assert(bytes_of(*buf) =~= old_bytes + header_wire(m, 0, 0) + payload_wire(m.payload));
        }
        let len = buf_len(buf) - start;
        if len > 0xffff {
            truncate(buf, start);
            proof {
                assert(bytes_of(*buf) =~= old_bytes);
            }
            return Err(EncodeError::TooLong);
        }
        overwrite_be16(buf, start + 2, len as u16);
        proof {
            assert(bytes_of(*buf) =~= old_bytes + unsealed_wire(m));
        }
        let cksum = {
            let bytes = held(buf);
            let (_, packet) = bytes.split_at(start);
            proof {
                assert(packet@ =~= unsealed_wire(m));
            }
            compute_packet_checksum(packet)
        };
        overwrite_be16(buf, start + 12, cksum);
        proof {
            assert(bytes_of(*buf) =~= old_bytes + packet_wire(m));
        }
        Ok(())
    }
}

} // verus!
