//! Link-state advertisements: the header, the five record shapes and the
//! counted lists inside them.
use bytes::BytesMut;
use vstd::prelude::*;
use crate::buf::{bytes_of, put_slice, put_u16, put_u32, put_u8};
use crate::types::{parse_ipv4addr_vec, Ipv4Address, OspfLsType, OspfRouterLinkType};
use crate::wire::{
    be16_at, be16_bytes, be24_at, be24_bytes, be32_at, be32_bytes, emit_all, lemma_be16,
    lemma_be16_bytes, lemma_be24, lemma_be24_bytes, lemma_be32, lemma_be32_bytes,
    lemma_many0_exact, lemma_many0_round_trip, lemma_wires_len, many0, read_be16, read_be24,
    read_be32, spec_many0, wires, DecodeError, Emit, ParseBe,
};

verus! {

/// The 20-byte header that starts every LSA.
#[derive(Debug, Clone, Copy, PartialEq, Eq, Structural)]
pub struct OspfLsaHeader {
    pub ls_age: u16,
    pub options: u8,
    pub ls_type: OspfLsType,
    pub ls_id: u32,
    pub adv_router: Ipv4Address,
    pub ls_seq_number: u32,
    pub ls_checksum: u16,
    /// Bytes in the whole LSA, header included.
    pub length: u16,
}

impl Emit for OspfLsaHeader {
    open spec fn spec_wire(&self) -> Seq<u8> {
        be16_bytes(self.ls_age) + seq![self.options, self.ls_type.spec_to_u8()] + be32_bytes(
            self.ls_id,
        ) + be32_bytes(self.adv_router.0) + be32_bytes(self.ls_seq_number) + be16_bytes(
            self.ls_checksum,
        ) + be16_bytes(self.length)
    }

    fn emit(&self, buf: &mut BytesMut) {
        let ghost start = bytes_of(*buf);
        put_u16(buf, self.ls_age);
        put_u8(buf, self.options);
        put_u8(buf, self.ls_type.to_u8());
        put_u32(buf, self.ls_id);
        put_u32(buf, self.adv_router.0);
        put_u32(buf, self.ls_seq_number);
        put_u16(buf, self.ls_checksum);
        put_u16(buf, self.length);
        proof {
            assert(bytes_of(*buf) =~= start + self.spec_wire());
        }
    }
}

impl ParseBe for OspfLsaHeader {
    open spec fn wire_size() -> nat {
        20
    }

    open spec fn spec_from_be(b: Seq<u8>) -> Self {
        OspfLsaHeader {
            ls_age: be16_at(b, 0),
            options: b[2],
            ls_type: OspfLsType::spec_from_u8(b[3]),
            ls_id: be32_at(b, 4),
            adv_router: Ipv4Address(be32_at(b, 8)),
            ls_seq_number: be32_at(b, 12),
            ls_checksum: be16_at(b, 16),
            length: be16_at(b, 18),
        }
    }

    open spec fn spec_canonical(&self) -> bool {
        self.ls_type.is_canonical()
    }

    proof fn lemma_wire_size() {
    }

    proof fn lemma_from_be(b: Seq<u8>) {
    }

    proof fn lemma_round_trip(&self) {
        lemma_be16(self.ls_age);
        lemma_be32(self.ls_id);
        lemma_be32(self.adv_router.0);
        lemma_be32(self.ls_seq_number);
        lemma_be16(self.ls_checksum);
        lemma_be16(self.length);
        let w = self.spec_wire();
        assert(w.subrange(4, 8) =~= be32_bytes(self.ls_id));
        assert(w.subrange(8, 12) =~= be32_bytes(self.adv_router.0));
        assert(w.subrange(12, 16) =~= be32_bytes(self.ls_seq_number));
        assert(be32_at(w, 4) == be32_at(w.subrange(4, 8), 0));
        assert(be32_at(w, 8) == be32_at(w.subrange(8, 12), 0));
        assert(be32_at(w, 12) == be32_at(w.subrange(12, 16), 0));
    }

    proof fn lemma_wire_of_read(b: Seq<u8>) {
        lemma_be16_bytes(b, 0);
        lemma_be32_bytes(b, 4);
        lemma_be32_bytes(b, 8);
        lemma_be32_bytes(b, 12);
        lemma_be16_bytes(b, 16);
        lemma_be16_bytes(b, 18);
        assert(Self::spec_from_be(b).spec_wire() =~= b.subrange(0, 20));
    }

    fn parse_be(input: &[u8]) -> (r: Result<(&[u8], Self), DecodeError>) {
        if input.len() < 20 {
            return Err(DecodeError::Truncated);
        }
        let h = OspfLsaHeader {
            ls_age: read_be16(input, 0),
            options: input[2],
            ls_type: OspfLsType::from_u8(input[3]),
            ls_id: read_be32(input, 4),
            adv_router: Ipv4Address(read_be32(input, 8)),
            ls_seq_number: read_be32(input, 12),
            ls_checksum: read_be16(input, 16),
            length: read_be16(input, 18),
        };
        let (_, rest) = input.split_at(20);
        Ok((rest, h))
    }
}

/// One extra type-of-service metric of a Router-LSA link.
#[derive(Debug, Clone, Copy, PartialEq, Eq, Structural)]
pub struct OspfRouterTOS {
    pub tos: u8,
    pub resved: u8,
    pub metric: u16,
}

impl Emit for OspfRouterTOS {
    open spec fn spec_wire(&self) -> Seq<u8> {
        seq![self.tos, self.resved] + be16_bytes(self.metric)
    }

    fn emit(&self, buf: &mut BytesMut) {
        let ghost start = bytes_of(*buf);
        put_u8(buf, self.tos);
        put_u8(buf, self.resved);
        put_u16(buf, self.metric);
        proof {
            assert(bytes_of(*buf) =~= start + self.spec_wire());
        }
    }
}

impl ParseBe for OspfRouterTOS {
    open spec fn wire_size() -> nat {
        4
    }

    open spec fn spec_from_be(b: Seq<u8>) -> Self {
        OspfRouterTOS { tos: b[0], resved: b[1], metric: be16_at(b, 2) }
    }

    open spec fn spec_canonical(&self) -> bool {
        true
    }

    proof fn lemma_wire_size() {
    }

    proof fn lemma_from_be(b: Seq<u8>) {
    }

    proof fn lemma_round_trip(&self) {
        lemma_be16(self.metric);
    }

    proof fn lemma_wire_of_read(b: Seq<u8>) {
        lemma_be16_bytes(b, 2);
        assert(Self::spec_from_be(b).spec_wire() =~= b.subrange(0, 4));
    }

    fn parse_be(input: &[u8]) -> (r: Result<(&[u8], Self), DecodeError>) {
        if input.len() < 4 {
            return Err(DecodeError::Truncated);
        }
        let t = OspfRouterTOS { tos: input[0], resved: input[1], metric: read_be16(input, 2) };
        let (_, rest) = input.split_at(4);
        Ok((rest, t))
    }
}

/// One extra type-of-service route of a Summary-LSA; the metric is 24 bits wide.
#[derive(Debug, Clone, Copy, PartialEq, Eq, Structural)]
pub struct OspfTosRoute {
    pub tos: u8,
    pub metric: u32,
}

impl Emit for OspfTosRoute {
    /// The metric's low 24 bits are written.
    open spec fn spec_wire(&self) -> Seq<u8> {
        seq![self.tos] + be24_bytes(self.metric)
    }

    fn emit(&self, buf: &mut BytesMut) {
        let ghost start = bytes_of(*buf);
        put_u8(buf, self.tos);
        put_u24(buf, self.metric);
        proof {
            assert(bytes_of(*buf) =~= start + self.spec_wire());
        }
    }
}

impl ParseBe for OspfTosRoute {
    open spec fn wire_size() -> nat {
        4
    }

    open spec fn spec_from_be(b: Seq<u8>) -> Self {
        OspfTosRoute { tos: b[0], metric: be24_at(b, 1) }
    }

    open spec fn spec_canonical(&self) -> bool {
        self.metric < 0x100_0000
    }

    proof fn lemma_wire_size() {
    }

    proof fn lemma_from_be(b: Seq<u8>) {
    }

    proof fn lemma_round_trip(&self) {
        lemma_be24(self.metric);
        let w = self.spec_wire();
        assert(w.subrange(1, 4) =~= be24_bytes(self.metric));
        assert(be24_at(w, 1) == be24_at(w.subrange(1, 4), 0));
    }

    proof fn lemma_wire_of_read(b: Seq<u8>) {
        lemma_be24_bytes(b, 1);
        assert(Self::spec_from_be(b).spec_wire() =~= b.subrange(0, 4));
    }

    fn parse_be(input: &[u8]) -> (r: Result<(&[u8], Self), DecodeError>) {
        if input.len() < 4 {
            return Err(DecodeError::Truncated);
        }
        let t = OspfTosRoute { tos: input[0], metric: read_be24(input, 1) };
        let (_, rest) = input.split_at(4);
        Ok((rest, t))
    }
}

/// Appends the low 24 bits of `v`, most significant first.
fn put_u24(buf: &mut BytesMut, v: u32)
    requires
        bytes_of(*old(buf)).len() + 3 <= isize::MAX,
    ensures
        bytes_of(*final(buf)) == bytes_of(*old(buf)) + be24_bytes(v),
{
    let ghost start = bytes_of(*buf);
    put_u8(buf, ((v / 0x10000) % 0x100) as u8);
    put_u8(buf, ((v / 0x100) % 0x100) as u8);
    put_u8(buf, (v % 0x100) as u8);
    proof {
        assert(bytes_of(*buf) =~= start + be24_bytes(v));
    }
}


/// One link of a Router-LSA, followed by `num_tos` extra metrics.
#[derive(Debug, Clone, PartialEq, Eq)]
pub struct RouterLsaLink {
    pub link_id: Ipv4Address,
    pub link_data: Ipv4Address,
    pub link_type: OspfRouterLinkType,
    pub num_tos: u8,
    pub tos_0_metric: u16,
    pub toses: Vec<OspfRouterTOS>,
}

/// What a `RouterLsaLink` holds.
pub struct RouterLsaLinkModel {
    pub link_id: Ipv4Address,
    pub link_data: Ipv4Address,
    pub link_type: OspfRouterLinkType,
    pub num_tos: u8,
    pub tos_0_metric: u16,
    pub toses: Seq<OspfRouterTOS>,
}

impl View for RouterLsaLink {
    type V = RouterLsaLinkModel;

    open spec fn view(&self) -> RouterLsaLinkModel {
        RouterLsaLinkModel {
            link_id: self.link_id,
            link_data: self.link_data,
            link_type: self.link_type,
            num_tos: self.num_tos,
            tos_0_metric: self.tos_0_metric,
            toses: self.toses@,
        }
    }
}

/// The bytes of a link: twelve, then four for each extra metric.
pub open spec fn link_wire(m: RouterLsaLinkModel) -> Seq<u8> {
    be32_bytes(m.link_id.0) + be32_bytes(m.link_data.0) + seq![m.link_type.0, m.num_tos]
        + be16_bytes(m.tos_0_metric) + wires(m.toses)
}

/// The count field agrees with the list.
pub open spec fn link_wf(m: RouterLsaLinkModel) -> bool {
    m.num_tos == m.toses.len()
}

/// The link at the front of `b` and the number of bytes it takes: twelve,
/// then four for each extra metric that its count field announces.
pub open spec fn spec_parse_link(b: Seq<u8>) -> Result<(RouterLsaLinkModel, nat), DecodeError> {
    if b.len() < 12 {
        Err(DecodeError::Truncated)
    } else {
        let end = 12 + 4 * b[9];
        if b.len() < end {
            Err(DecodeError::Truncated)
        } else {
            match spec_many0::<OspfRouterTOS>(b.subrange(12, end)) {
                Ok(toses) => Ok(
                    (
                        RouterLsaLinkModel {
                            link_id: Ipv4Address(be32_at(b, 0)),
                            link_data: Ipv4Address(be32_at(b, 4)),
                            link_type: OspfRouterLinkType(b[8]),
                            num_tos: b[9],
                            tos_0_metric: be16_at(b, 10),
                            toses,
                        },
                        end as nat,
                    ),
                ),
                Err(e) => Err(e),
            }
        }
    }
}

impl RouterLsaLink {
    /// Reads one link from the front of `input`.
    pub fn parse_be(input: &[u8]) -> (r: Result<(&[u8], RouterLsaLink), DecodeError>)
        ensures
            match r {
                Ok((rest, l)) => (spec_parse_link(input@) matches Ok((m, k)) && m == l@ && rest@
                    == input@.subrange(k as int, input@.len() as int)),
                Err(e) => spec_parse_link(input@) == Err::<(RouterLsaLinkModel, nat), DecodeError>(
                    e,
                ),
            },
    {
        if input.len() < 12 {
            return Err(DecodeError::Truncated);
        }
        let n = input[9];
        let end: usize = 12 + 4 * (n as usize);
        if input.len() < end {
            return Err(DecodeError::Truncated);
        }
        let (head, rest) = input.split_at(end);
        let (_, tos_bytes) = head.split_at(12);
        proof {
            assert(tos_bytes@ =~= input@.subrange(12, end as int));
        }
        let toses = match many0::<OspfRouterTOS>(tos_bytes) {
            Ok((_, v)) => v,
            Err(e) => {
                return Err(e);
            },
        };
        let l = RouterLsaLink {
            link_id: Ipv4Address(read_be32(input, 0)),
            link_data: Ipv4Address(read_be32(input, 4)),
            link_type: OspfRouterLinkType(input[8]),
            num_tos: n,
            tos_0_metric: read_be16(input, 10),
            toses,
        };
        Ok((rest, l))
    }
}

impl Emit for RouterLsaLink {
    open spec fn spec_wire(&self) -> Seq<u8> {
        link_wire(self@)
    }

    fn emit(&self, buf: &mut BytesMut) {
        let ghost start = bytes_of(*buf);
        put_u32(buf, self.link_id.0);
        put_u32(buf, self.link_data.0);
        put_u8(buf, self.link_type.0);
        put_u8(buf, self.num_tos);
        put_u16(buf, self.tos_0_metric);
        emit_all(&self.toses, buf);
        proof {
            assert(bytes_of(*buf) =~= start + self.spec_wire());
        }
    }
}

#[verifier::spinoff_prover]
pub proof fn lemma_link_round_trip(m: RouterLsaLinkModel, rest: Seq<u8>)
    requires
        link_wf(m),
    ensures
        spec_parse_link(link_wire(m) + rest) == Ok::<(RouterLsaLinkModel, nat), DecodeError>(
            (m, link_wire(m).len()),
        ),
{
    let w = link_wire(m);
    let b = w + rest;
    lemma_wires_len(m.toses);
    lemma_many0_round_trip(m.toses);
    lemma_be32(m.link_id.0);
    lemma_be32(m.link_data.0);
    lemma_be16(m.tos_0_metric);
    assert(b.subrange(12, 12 + 4 * m.num_tos) =~= wires(m.toses));
    assert(b.subrange(0, 4) =~= be32_bytes(m.link_id.0));
    assert(b.subrange(4, 8) =~= be32_bytes(m.link_data.0));
    assert(be32_at(b, 0) == be32_at(b.subrange(0, 4), 0));
    assert(be32_at(b, 4) == be32_at(b.subrange(4, 8), 0));
}

/// A Router-LSA body: flags, a link count, and exactly that many links.
#[derive(Debug, Clone, PartialEq, Eq)]
pub struct RouterLsa {
    pub flags: u16,
    pub num_links: u16,
    pub links: Vec<RouterLsaLink>,
}

/// What a `RouterLsa` holds.
pub struct RouterLsaModel {
    pub flags: u16,
    pub num_links: u16,
    pub links: Seq<RouterLsaLinkModel>,
}

/// What each link of `v` holds.
pub open spec fn links_view(v: Seq<RouterLsaLink>) -> Seq<RouterLsaLinkModel> {
    v.map_values(|l: RouterLsaLink| l@)
}

impl View for RouterLsa {
    type V = RouterLsaModel;

    open spec fn view(&self) -> RouterLsaModel {
        RouterLsaModel { flags: self.flags, num_links: self.num_links, links: links_view(self.links@) }
    }
}

/// The bytes of the links, one after the other.
pub open spec fn links_wire(s: Seq<RouterLsaLinkModel>) -> Seq<u8> {
    s.map_values(|m: RouterLsaLinkModel| link_wire(m)).flatten()
}

/// The bytes of a Router-LSA body.
pub open spec fn router_wire(m: RouterLsaModel) -> Seq<u8> {
    be16_bytes(m.flags) + be16_bytes(m.num_links) + links_wire(m.links)
}

/// Every count field agrees with its list.
pub open spec fn router_wf(m: RouterLsaModel) -> bool {
    &&& m.num_links == m.links.len()
    &&& forall|i: int| 0 <= i < m.links.len() ==> #[trigger] link_wf(m.links[i])
}

/// `n` links that fill `b` exactly; a link cut short, or bytes left after the
/// last, is `Malformed`.
pub open spec fn spec_parse_links(b: Seq<u8>, n: nat) -> Result<
    Seq<RouterLsaLinkModel>,
    DecodeError,
>
    decreases n,
{
    if n == 0 {
        if b.len() == 0 {
            Ok(Seq::empty())
        } else {
            Err(DecodeError::Malformed)
        }
    } else {
        match spec_parse_link(b) {
            Ok((l, k)) => match spec_parse_links(b.subrange(k as int, b.len() as int), (n - 1) as nat) {
                Ok(tail) => Ok(seq![l] + tail),
                Err(e) => Err(e),
            },
            Err(_) => Err(DecodeError::Malformed),
        }
    }
}

/// `r` with `p` put in front of the sequence it holds.
pub open spec fn prepend<A>(p: Seq<A>, r: Result<Seq<A>, DecodeError>) -> Result<Seq<A>, DecodeError> {
    match r {
        Ok(s) => Ok(p + s),
        Err(e) => Err(e),
    }
}

/// A Router-LSA body: four bytes, then the links that they count.
pub open spec fn spec_parse_router(b: Seq<u8>) -> Result<RouterLsaModel, DecodeError> {
    if b.len() < 4 {
        Err(DecodeError::Truncated)
    } else {
        match spec_parse_links(b.subrange(4, b.len() as int), be16_at(b, 2) as nat) {
            Ok(links) => Ok(RouterLsaModel { flags: be16_at(b, 0), num_links: be16_at(b, 2), links }),
            Err(e) => Err(e),
        }
    }
}

fn parse_links(input: &[u8], n: u16) -> (r: Result<Vec<RouterLsaLink>, DecodeError>)
    ensures
        match r {
            Ok(v) => spec_parse_links(input@, n as nat) == Ok::<
                Seq<RouterLsaLinkModel>,
                DecodeError,
            >(links_view(v@)),
            Err(e) => spec_parse_links(input@, n as nat) == Err::<
                Seq<RouterLsaLinkModel>,
                DecodeError,
            >(e),
        },
{
    let mut res: Vec<RouterLsaLink> = Vec::new();
    let mut remaining = input;
    let mut i: u16 = 0;
    while i < n
        invariant
            i <= n,
            spec_parse_links(input@, n as nat) == prepend(
                links_view(res@),
                spec_parse_links(remaining@, (n - i) as nat),
            ),
        decreases n - i,
    {
        match RouterLsaLink::parse_be(remaining) {
            Ok((rest, l)) => {
                proof {
                    let t = spec_parse_links(rest@, (n - i - 1) as nat);
                    assert(links_view(res@.push(l)) =~= links_view(res@).push(l@));
                    if t is Ok {
                        assert(links_view(res@) + (seq![l@] + t->Ok_0) =~= links_view(
                            res@.push(l),
                        ) + t->Ok_0);
                    }
                }
                res.push(l);
                remaining = rest;
                i = i + 1;
            },
            Err(_) => {
                return Err(DecodeError::Malformed);
            },
        }
    }
    if remaining.len() == 0 {
        proof {
            assert(links_view(res@) + Seq::<RouterLsaLinkModel>::empty() =~= links_view(res@));
        }
        Ok(res)
    } else {
        Err(DecodeError::Malformed)
    }
}

impl RouterLsa {
    /// Reads a Router-LSA body that fills `input`.
    pub fn parse_be(input: &[u8]) -> (r: Result<(&[u8], RouterLsa), DecodeError>)
        ensures
            match r {
                Ok((rest, v)) => spec_parse_router(input@) == Ok::<RouterLsaModel, DecodeError>(v@)
                    && rest@.len() == 0,
                Err(e) => spec_parse_router(input@) == Err::<RouterLsaModel, DecodeError>(e),
            },
    {
        if input.len() < 4 {
            return Err(DecodeError::Truncated);
        }
        let flags = read_be16(input, 0);
        let num_links = read_be16(input, 2);
        let (_, body) = input.split_at(4);
        let links = match parse_links(body, num_links) {
            Ok(v) => v,
            Err(e) => {
                return Err(e);
            },
        };
        let (_, rest) = input.split_at(input.len());
        Ok((rest, RouterLsa { flags, num_links, links }))
    }
}

/// The bytes of a non-empty list of links are those of the first, then the rest.
pub proof fn lemma_links_wire_cons(s: Seq<RouterLsaLinkModel>)
    requires
        s.len() > 0,
    ensures
        links_wire(s) == link_wire(s[0]) + links_wire(s.drop_first()),
{
    let f = |m: RouterLsaLinkModel| link_wire(m);
    assert(s.map_values(f).drop_first() =~= s.drop_first().map_values(f));
}

/// Writing the links of a `Vec` one by one gives the bytes of their models.
pub proof fn lemma_link_wires(v: Seq<RouterLsaLink>)
    ensures
        wires(v) == links_wire(links_view(v)),
{
    assert(v.map_values(|x: RouterLsaLink| x.spec_wire()) =~= links_view(v).map_values(
        |m: RouterLsaLinkModel| link_wire(m),
    ));
}

impl Emit for RouterLsa {
    open spec fn spec_wire(&self) -> Seq<u8> {
        router_wire(self@)
    }

    fn emit(&self, buf: &mut BytesMut) {
        let ghost start = bytes_of(*buf);
        proof {
            lemma_link_wires(self.links@);
        }
        put_u16(buf, self.flags);
        put_u16(buf, self.num_links);
        emit_all(&self.links, buf);
        proof {
            assert(bytes_of(*buf) =~= start + self.spec_wire());
        }
    }
}

#[verifier::spinoff_prover]
#[verifier::rlimit(40)]
pub proof fn lemma_links_round_trip(s: Seq<RouterLsaLinkModel>)
    requires
        forall|i: int| 0 <= i < s.len() ==> #[trigger] link_wf(s[i]),
    ensures
        spec_parse_links(links_wire(s), s.len()) == Ok::<Seq<RouterLsaLinkModel>, DecodeError>(s),
    decreases s.len(),
{
    if s.len() == 0 {
        assert(s.map_values(|m: RouterLsaLinkModel| link_wire(m)) =~= Seq::<Seq<u8>>::empty());
        assert(s =~= Seq::<RouterLsaLinkModel>::empty());
    } else {
        let tail = s.drop_first();
        lemma_links_wire_cons(s);
        lemma_link_round_trip(s[0], links_wire(tail));
        assert forall|i: int| 0 <= i < tail.len() implies #[trigger] link_wf(tail[i]) by {
            assert(link_wf(s[i + 1]));
        }
        lemma_links_round_trip(tail);
        let w = links_wire(s);
        assert(w.subrange(link_wire(s[0]).len() as int, w.len() as int) =~= links_wire(tail));
        assert(seq![s[0]] + tail =~= s);
    }
}

/// Decoding the bytes of a well-formed Router-LSA body gives it back.
pub proof fn lemma_router_round_trip(m: RouterLsaModel)
    requires
        router_wf(m),
    ensures
        spec_parse_router(router_wire(m)) == Ok::<RouterLsaModel, DecodeError>(m),
{
    let w = router_wire(m);
    lemma_be16(m.flags);
    lemma_be16(m.num_links);
    lemma_links_round_trip(m.links);
    assert(w.subrange(4, w.len() as int) =~= links_wire(m.links));
}


/// A Network-LSA body: a mask, then attached routers to the end of the LSA.
#[derive(Debug, Clone, PartialEq, Eq)]
pub struct NetworkLsa {
    pub netmask: Ipv4Address,
    pub attached_routers: Vec<Ipv4Address>,
}

/// What a `NetworkLsa` holds.
pub struct NetworkLsaModel {
    pub netmask: Ipv4Address,
    pub attached_routers: Seq<Ipv4Address>,
}

impl View for NetworkLsa {
    type V = NetworkLsaModel;

    open spec fn view(&self) -> NetworkLsaModel {
        NetworkLsaModel { netmask: self.netmask, attached_routers: self.attached_routers@ }
    }
}

/// The bytes of a Network-LSA body.
pub open spec fn network_wire(m: NetworkLsaModel) -> Seq<u8> {
    be32_bytes(m.netmask.0) + wires(m.attached_routers)
}

/// A Network-LSA body that fills `b`: a mask, then whole addresses.
pub open spec fn spec_parse_network(b: Seq<u8>) -> Result<NetworkLsaModel, DecodeError> {
    if b.len() < 4 {
        Err(DecodeError::Truncated)
    } else {
        match spec_many0::<Ipv4Address>(b.subrange(4, b.len() as int)) {
            Ok(r) => Ok(NetworkLsaModel { netmask: Ipv4Address(be32_at(b, 0)), attached_routers: r }),
            Err(e) => Err(e),
        }
    }
}

impl NetworkLsa {
    /// Reads a Network-LSA body that fills `input`.
    pub fn parse_be(input: &[u8]) -> (r: Result<(&[u8], NetworkLsa), DecodeError>)
        ensures
            match r {
                Ok((rest, v)) => spec_parse_network(input@) == Ok::<NetworkLsaModel, DecodeError>(
                    v@,
                ) && rest@.len() == 0,
                Err(e) => spec_parse_network(input@) == Err::<NetworkLsaModel, DecodeError>(e),
            },
    {
        if input.len() < 4 {
            return Err(DecodeError::Truncated);
        }
        let netmask = Ipv4Address(read_be32(input, 0));
        let (_, body) = input.split_at(4);
        match parse_ipv4addr_vec(body) {
            Ok((rest, attached_routers)) => Ok((rest, NetworkLsa { netmask, attached_routers })),
            Err(e) => Err(e),
        }
    }
}

impl Emit for NetworkLsa {
    open spec fn spec_wire(&self) -> Seq<u8> {
        network_wire(self@)
    }

    fn emit(&self, buf: &mut BytesMut) {
        let ghost start = bytes_of(*buf);
        put_u32(buf, self.netmask.0);
        emit_all(&self.attached_routers, buf);
        proof {
            assert(bytes_of(*buf) =~= start + self.spec_wire());
        }
    }
}

/// A Summary-LSA body (also the Summary-ASBR one): mask, TOS, a 24-bit metric,
/// then extra TOS routes to the end of the LSA.
#[derive(Debug, Clone, PartialEq, Eq)]
pub struct SummaryLsa {
    pub netmask: Ipv4Address,
    pub tos: u8,
    pub metric: u32,
    pub tos_routes: Vec<OspfTosRoute>,
}

/// What a `SummaryLsa` holds.
pub struct SummaryLsaModel {
    pub netmask: Ipv4Address,
    pub tos: u8,
    pub metric: u32,
    pub tos_routes: Seq<OspfTosRoute>,
}

impl View for SummaryLsa {
    type V = SummaryLsaModel;

    open spec fn view(&self) -> SummaryLsaModel {
        SummaryLsaModel {
            netmask: self.netmask,
            tos: self.tos,
            metric: self.metric,
            tos_routes: self.tos_routes@,
        }
    }
}

/// The metric's low 24 bits are written.
pub open spec fn summary_wire(m: SummaryLsaModel) -> Seq<u8> {
    be32_bytes(m.netmask.0) + seq![m.tos] + be24_bytes(m.metric) + wires(m.tos_routes)
}

/// Every metric fits in 24 bits.
pub open spec fn summary_wf(m: SummaryLsaModel) -> bool {
    &&& m.metric < 0x100_0000
    &&& forall|i: int| 0 <= i < m.tos_routes.len() ==> #[trigger] m.tos_routes[i].spec_canonical()
}

/// A Summary-LSA body that fills `b`: eight bytes, then whole TOS routes.
pub open spec fn spec_parse_summary(b: Seq<u8>) -> Result<SummaryLsaModel, DecodeError> {
    if b.len() < 8 {
        Err(DecodeError::Truncated)
    } else {
        match spec_many0::<OspfTosRoute>(b.subrange(8, b.len() as int)) {
            Ok(r) => Ok(
                SummaryLsaModel {
                    netmask: Ipv4Address(be32_at(b, 0)),
                    tos: b[4],
                    metric: be24_at(b, 5),
                    tos_routes: r,
                },
            ),
            Err(e) => Err(e),
        }
    }
}

impl SummaryLsa {
    /// Reads a Summary-LSA body that fills `input`.
    pub fn parse_be(input: &[u8]) -> (r: Result<(&[u8], SummaryLsa), DecodeError>)
        ensures
            match r {
                Ok((rest, v)) => spec_parse_summary(input@) == Ok::<SummaryLsaModel, DecodeError>(
                    v@,
                ) && rest@.len() == 0,
                Err(e) => spec_parse_summary(input@) == Err::<SummaryLsaModel, DecodeError>(e),
            },
    {
        if input.len() < 8 {
            return Err(DecodeError::Truncated);
        }
        let netmask = Ipv4Address(read_be32(input, 0));
        let tos = input[4];
        let metric = read_be24(input, 5);
        let (_, body) = input.split_at(8);
        match many0::<OspfTosRoute>(body) {
            Ok((rest, tos_routes)) => Ok((rest, SummaryLsa { netmask, tos, metric, tos_routes })),
            Err(e) => Err(e),
        }
    }
}

impl Emit for SummaryLsa {
    open spec fn spec_wire(&self) -> Seq<u8> {
        summary_wire(self@)
    }

    fn emit(&self, buf: &mut BytesMut) {
        let ghost start = bytes_of(*buf);
        put_u32(buf, self.netmask.0);
        put_u8(buf, self.tos);
        put_u24(buf, self.metric);
        emit_all(&self.tos_routes, buf);
        proof {
            assert(bytes_of(*buf) =~= start + self.spec_wire());
        }
    }
}

/// An AS-External-LSA body: exactly sixteen bytes.
#[derive(Debug, Clone, Copy, PartialEq, Eq, Structural)]
pub struct AsExternalLsa {
    pub netmask: Ipv4Address,
    pub ext_and_resvd: u8,
    pub metric: u32,
    pub forwarding_address: Ipv4Address,
    pub external_route_tag: u32,
}

/// The metric's low 24 bits are written.
pub open spec fn as_external_wire(m: AsExternalLsa) -> Seq<u8> {
    be32_bytes(m.netmask.0) + seq![m.ext_and_resvd] + be24_bytes(m.metric) + be32_bytes(
        m.forwarding_address.0,
    ) + be32_bytes(m.external_route_tag)
}

/// An AS-External-LSA body: exactly sixteen bytes.
pub open spec fn spec_parse_as_external(b: Seq<u8>) -> Result<AsExternalLsa, DecodeError> {
    if b.len() < 16 {
        Err(DecodeError::Truncated)
    } else if b.len() > 16 {
        Err(DecodeError::Malformed)
    } else {
        Ok(
            AsExternalLsa {
                netmask: Ipv4Address(be32_at(b, 0)),
                ext_and_resvd: b[4],
                metric: be24_at(b, 5),
                forwarding_address: Ipv4Address(be32_at(b, 8)),
                external_route_tag: be32_at(b, 12),
            },
        )
    }
}

impl AsExternalLsa {
    /// Reads an AS-External-LSA body that fills `input`.
    pub fn parse_be(input: &[u8]) -> (r: Result<(&[u8], AsExternalLsa), DecodeError>)
        ensures
            match r {
                Ok((rest, v)) => spec_parse_as_external(input@) == Ok::<AsExternalLsa, DecodeError>(
                    v,
                ) && rest@.len() == 0,
                Err(e) => spec_parse_as_external(input@) == Err::<AsExternalLsa, DecodeError>(e),
            },
    {
        if input.len() < 16 {
            return Err(DecodeError::Truncated);
        }
        if input.len() > 16 {
            return Err(DecodeError::Malformed);
        }
        let v = AsExternalLsa {
            netmask: Ipv4Address(read_be32(input, 0)),
            ext_and_resvd: input[4],
            metric: read_be24(input, 5),
            forwarding_address: Ipv4Address(read_be32(input, 8)),
            external_route_tag: read_be32(input, 12),
        };
        let (_, rest) = input.split_at(16);
        Ok((rest, v))
    }
}

impl Emit for AsExternalLsa {
    open spec fn spec_wire(&self) -> Seq<u8> {
        as_external_wire(*self)
    }

    fn emit(&self, buf: &mut BytesMut) {
        let ghost start = bytes_of(*buf);
        put_u32(buf, self.netmask.0);
        put_u8(buf, self.ext_and_resvd);
        put_u24(buf, self.metric);
        put_u32(buf, self.forwarding_address.0);
        put_u32(buf, self.external_route_tag);
        proof {
            assert(bytes_of(*buf) =~= start + self.spec_wire());
        }
    }
}

/// The body of an LSA of a type without a shape of its own, kept as raw bytes.
#[derive(Debug, Clone, PartialEq, Eq)]
pub struct UnknownLsa {
    pub data: Vec<u8>,
}

impl Emit for UnknownLsa {
    open spec fn spec_wire(&self) -> Seq<u8> {
        self.data@
    }

    fn emit(&self, buf: &mut BytesMut) {
        put_slice(buf, self.data.as_slice());
    }
}

/// An LSA body, in the shape that the header's type selects.
#[derive(Debug, Clone, PartialEq, Eq)]
pub enum OspfLsaPayload {
    Router(RouterLsa),
    Network(NetworkLsa),
    Summary(SummaryLsa),
    SummaryAsbr(SummaryLsa),
    AsExternal(AsExternalLsa),
    Unknown(UnknownLsa),
}

/// What an `OspfLsaPayload` holds.
pub enum LsaPayloadModel {
    Router(RouterLsaModel),
    Network(NetworkLsaModel),
    Summary(SummaryLsaModel),
    SummaryAsbr(SummaryLsaModel),
    AsExternal(AsExternalLsa),
    Unknown(Seq<u8>),
}

impl View for OspfLsaPayload {
    type V = LsaPayloadModel;

    open spec fn view(&self) -> LsaPayloadModel {
        match self {
            OspfLsaPayload::Router(v) => LsaPayloadModel::Router(v@),
            OspfLsaPayload::Network(v) => LsaPayloadModel::Network(v@),
            OspfLsaPayload::Summary(v) => LsaPayloadModel::Summary(v@),
            OspfLsaPayload::SummaryAsbr(v) => LsaPayloadModel::SummaryAsbr(v@),
            OspfLsaPayload::AsExternal(v) => LsaPayloadModel::AsExternal(*v),
            OspfLsaPayload::Unknown(v) => LsaPayloadModel::Unknown(v.data@),
        }
    }
}

/// The bytes of an LSA body.
pub open spec fn body_wire(m: LsaPayloadModel) -> Seq<u8> {
    match m {
        LsaPayloadModel::Router(v) => router_wire(v),
        LsaPayloadModel::Network(v) => network_wire(v),
        LsaPayloadModel::Summary(v) => summary_wire(v),
        LsaPayloadModel::SummaryAsbr(v) => summary_wire(v),
        LsaPayloadModel::AsExternal(v) => as_external_wire(v),
        LsaPayloadModel::Unknown(d) => d,
    }
}

/// The body has the shape that the type tag `t` selects, and its count
/// fields and metrics are consistent.
pub open spec fn body_wf(t: OspfLsType, m: LsaPayloadModel) -> bool {
    match m {
        LsaPayloadModel::Router(v) => t == OspfLsType::Router && router_wf(v),
        LsaPayloadModel::Network(_) => t == OspfLsType::Network,
        LsaPayloadModel::Summary(v) => t == OspfLsType::Summary && summary_wf(v),
        LsaPayloadModel::SummaryAsbr(v) => t == OspfLsType::SummaryAsbr && summary_wf(v),
        LsaPayloadModel::AsExternal(v) => t == OspfLsType::AsExternal && v.metric < 0x100_0000,
        LsaPayloadModel::Unknown(_) => t is Unknown && t.is_canonical(),
    }
}

/// The body that fills `b`, in the shape that `t` selects; an undefined tag
/// keeps the bytes as they are.
pub open spec fn spec_parse_lsa_body(b: Seq<u8>, t: OspfLsType) -> Result<LsaPayloadModel, DecodeError> {
    match t {
        OspfLsType::Router => match spec_parse_router(b) {
            Ok(v) => Ok(LsaPayloadModel::Router(v)),
            Err(e) => Err(e),
        },
        OspfLsType::Network => match spec_parse_network(b) {
            Ok(v) => Ok(LsaPayloadModel::Network(v)),
            Err(e) => Err(e),
        },
        OspfLsType::Summary => match spec_parse_summary(b) {
            Ok(v) => Ok(LsaPayloadModel::Summary(v)),
            Err(e) => Err(e),
        },
        OspfLsType::SummaryAsbr => match spec_parse_summary(b) {
            Ok(v) => Ok(LsaPayloadModel::SummaryAsbr(v)),
            Err(e) => Err(e),
        },
        OspfLsType::AsExternal => match spec_parse_as_external(b) {
            Ok(v) => Ok(LsaPayloadModel::AsExternal(v)),
            Err(e) => Err(e),
        },
        OspfLsType::Unknown(_) => Ok(LsaPayloadModel::Unknown(b)),
    }
}

impl OspfLsaPayload {
    /// Reads the body that fills `input`, in the shape that `typ` selects.
    pub fn parse_lsa(input: &[u8], typ: OspfLsType) -> (r: Result<(&[u8], Self), DecodeError>)
        ensures
            match r {
                Ok((rest, v)) => spec_parse_lsa_body(input@, typ) == Ok::<
                    LsaPayloadModel,
                    DecodeError,
                >(v@) && rest@.len() == 0,
                Err(e) => spec_parse_lsa_body(input@, typ) == Err::<LsaPayloadModel, DecodeError>(
                    e,
                ),
            },
    {
        match typ {
            OspfLsType::Router => match RouterLsa::parse_be(input) {
                Ok((rest, v)) => Ok((rest, OspfLsaPayload::Router(v))),
                Err(e) => Err(e),
            },
            OspfLsType::Network => match NetworkLsa::parse_be(input) {
                Ok((rest, v)) => Ok((rest, OspfLsaPayload::Network(v))),
                Err(e) => Err(e),
            },
            OspfLsType::Summary => match SummaryLsa::parse_be(input) {
                Ok((rest, v)) => Ok((rest, OspfLsaPayload::Summary(v))),
                Err(e) => Err(e),
            },
            OspfLsType::SummaryAsbr => match SummaryLsa::parse_be(input) {
                Ok((rest, v)) => Ok((rest, OspfLsaPayload::SummaryAsbr(v))),
                Err(e) => Err(e),
            },
            OspfLsType::AsExternal => match AsExternalLsa::parse_be(input) {
                Ok((rest, v)) => Ok((rest, OspfLsaPayload::AsExternal(v))),
                Err(e) => Err(e),
            },
            OspfLsType::Unknown(_) => {
                let data = vstd::slice::slice_to_vec(input);
                let (_, rest) = input.split_at(input.len());
                Ok((rest, OspfLsaPayload::Unknown(UnknownLsa { data })))
            },
        }
    }
}

impl Emit for OspfLsaPayload {
    open spec fn spec_wire(&self) -> Seq<u8> {
        body_wire(self@)
    }

    fn emit(&self, buf: &mut BytesMut) {
        match self {
            OspfLsaPayload::Router(v) => v.emit(buf),
            OspfLsaPayload::Network(v) => v.emit(buf),
            OspfLsaPayload::Summary(v) => v.emit(buf),
            OspfLsaPayload::SummaryAsbr(v) => v.emit(buf),
            OspfLsaPayload::AsExternal(v) => v.emit(buf),
            OspfLsaPayload::Unknown(v) => v.emit(buf),
        }
    }
}


#[verifier::spinoff_prover]
pub proof fn lemma_body_round_trip(t: OspfLsType, m: LsaPayloadModel)
    requires
        body_wf(t, m),
    ensures
        spec_parse_lsa_body(body_wire(m), t) == Ok::<LsaPayloadModel, DecodeError>(m),
{
    let w = body_wire(m);
    match m {
        LsaPayloadModel::Router(v) => {
            lemma_router_round_trip(v);
        },
        LsaPayloadModel::Network(v) => {
            lemma_be32(v.netmask.0);
            lemma_many0_round_trip(v.attached_routers);
            assert(w.subrange(4, w.len() as int) =~= wires(v.attached_routers));
        },
        LsaPayloadModel::Summary(v) => {
            lemma_summary_round_trip(v);
        },
        LsaPayloadModel::SummaryAsbr(v) => {
            lemma_summary_round_trip(v);
        },
        LsaPayloadModel::AsExternal(v) => {
            lemma_be32(v.netmask.0);
            lemma_be24(v.metric);
            lemma_be32(v.forwarding_address.0);
            lemma_be32(v.external_route_tag);
            assert(w.subrange(5, 8) =~= be24_bytes(v.metric));
            assert(w.subrange(8, 12) =~= be32_bytes(v.forwarding_address.0));
            assert(w.subrange(12, 16) =~= be32_bytes(v.external_route_tag));
            assert(be24_at(w, 5) == be24_at(w.subrange(5, 8), 0));
            assert(be32_at(w, 8) == be32_at(w.subrange(8, 12), 0));
            assert(be32_at(w, 12) == be32_at(w.subrange(12, 16), 0));
        },
        LsaPayloadModel::Unknown(_) => {
        },
    }
}

/// Decoding the bytes of a Summary-LSA body whose metrics fit gives it back.
pub proof fn lemma_summary_round_trip(v: SummaryLsaModel)
    requires
        summary_wf(v),
    ensures
        spec_parse_summary(summary_wire(v)) == Ok::<SummaryLsaModel, DecodeError>(v),
{
    let w = summary_wire(v);
    lemma_be32(v.netmask.0);
    lemma_be24(v.metric);
    lemma_many0_round_trip(v.tos_routes);
    assert(w.subrange(8, w.len() as int) =~= wires(v.tos_routes));
    assert(w.subrange(5, 8) =~= be24_bytes(v.metric));
    assert(be24_at(w, 5) == be24_at(w.subrange(5, 8), 0));
}

/// A whole LSA: its header, then a body that fills the rest of the header's
/// declared length.
#[derive(Debug, Clone, PartialEq, Eq)]
pub struct OspfLsa {
    pub h: OspfLsaHeader,
    pub lsa: OspfLsaPayload,
}

/// What an `OspfLsa` holds.
pub struct LsaModel {
    pub h: OspfLsaHeader,
    pub lsa: LsaPayloadModel,
}

impl View for OspfLsa {
    type V = LsaModel;

    open spec fn view(&self) -> LsaModel {
        LsaModel { h: self.h, lsa: self.lsa@ }
    }
}

/// The bytes of an LSA: its header, then its body.
pub open spec fn lsa_wire(m: LsaModel) -> Seq<u8> {
    m.h.spec_wire() + body_wire(m.lsa)
}

/// The header's tag is in its one spelling, the body has the shape it selects,
/// and the declared length is that of the whole LSA.
pub open spec fn lsa_wf(m: LsaModel) -> bool {
    &&& m.h.spec_canonical()
    &&& body_wf(m.h.ls_type, m.lsa)
    &&& m.h.length == 20 + body_wire(m.lsa).len()
}

/// The LSA at the front of `b` and the number of bytes it takes, which is the
/// length its header declares.
pub open spec fn spec_parse_lsa(b: Seq<u8>) -> Result<(LsaModel, nat), DecodeError> {
    if b.len() < 20 {
        Err(DecodeError::Truncated)
    } else {
        let h = OspfLsaHeader::spec_from_be(b);
        if h.length < 20 {
            Err(DecodeError::Malformed)
        } else if h.length > b.len() {
            Err(DecodeError::Truncated)
        } else {
            match spec_parse_lsa_body(b.subrange(20, h.length as int), h.ls_type) {
                Ok(body) => Ok((LsaModel { h, lsa: body }, h.length as nat)),
                Err(e) => Err(e),
            }
        }
    }
}

impl OspfLsa {
    /// Reads one LSA from the front of `input`.
    pub fn parse_be(input: &[u8]) -> (r: Result<(&[u8], OspfLsa), DecodeError>)
        ensures
            match r {
                Ok((rest, l)) => (spec_parse_lsa(input@) matches Ok((m, k)) && m == l@ && rest@
                    == input@.subrange(k as int, input@.len() as int)),
                Err(e) => spec_parse_lsa(input@) == Err::<(LsaModel, nat), DecodeError>(e),
            },
    {
        let (after, h) = match OspfLsaHeader::parse_be(input) {
            Ok(v) => v,
            Err(e) => {
                return Err(e);
            },
        };
        if h.length < 20 {
            return Err(DecodeError::Malformed);
        }
        let len = h.length as usize;
        if len > input.len() {
            return Err(DecodeError::Truncated);
        }
        let (body, rest) = after.split_at(len - 20);
        proof {
            assert(body@ =~= input@.subrange(20, len as int));
            assert(rest@ =~= input@.subrange(len as int, input@.len() as int));
        }
        match OspfLsaPayload::parse_lsa(body, h.ls_type) {
            Ok((_, lsa)) => Ok((rest, OspfLsa { h, lsa })),
            Err(e) => Err(e),
        }
    }
}

impl Emit for OspfLsa {
    open spec fn spec_wire(&self) -> Seq<u8> {
        lsa_wire(self@)
    }

    fn emit(&self, buf: &mut BytesMut) {
        let ghost start = bytes_of(*buf);
        self.h.emit(buf);
        self.lsa.emit(buf);
        proof {
            assert(bytes_of(*buf) =~= start + self.spec_wire());
        }
    }
}

#[verifier::spinoff_prover]
pub proof fn lemma_lsa_round_trip(m: LsaModel, rest: Seq<u8>)
    requires
        lsa_wf(m),
    ensures
        spec_parse_lsa(lsa_wire(m) + rest) == Ok::<(LsaModel, nat), DecodeError>(
            (m, lsa_wire(m).len()),
        ),
{
    let w = lsa_wire(m);
    let b = w + rest;
    m.h.lemma_round_trip();
    OspfLsaHeader::lemma_from_be(b);
    assert(b.subrange(0, 20) =~= m.h.spec_wire());
    assert(b.subrange(20, m.h.length as int) =~= body_wire(m.lsa));
    lemma_body_round_trip(m.h.ls_type, m.lsa);
}

/// What each LSA of `v` holds.
pub open spec fn lsas_view(v: Seq<OspfLsa>) -> Seq<LsaModel> {
    v.map_values(|l: OspfLsa| l@)
}

/// The bytes of the LSAs, one after the other.
pub open spec fn lsas_wire(s: Seq<LsaModel>) -> Seq<u8> {
    s.map_values(|m: LsaModel| lsa_wire(m)).flatten()
}

/// `n` LSAs that fill `b` exactly; an LSA that cannot be read, or bytes left
/// after the last, is `Malformed`.
pub open spec fn spec_parse_lsas(b: Seq<u8>, n: nat) -> Result<Seq<LsaModel>, DecodeError>
    decreases n,
{
    if n == 0 {
        if b.len() == 0 {
            Ok(Seq::empty())
        } else {
            Err(DecodeError::Malformed)
        }
    } else {
        match spec_parse_lsa(b) {
            Ok((l, k)) => match spec_parse_lsas(b.subrange(k as int, b.len() as int), (n - 1) as nat) {
                Ok(tail) => Ok(seq![l] + tail),
                Err(e) => Err(e),
            },
            Err(_) => Err(DecodeError::Malformed),
        }
    }
}

/// Reads `n` LSAs that fill `input` exactly.
pub fn parse_lsas(input: &[u8], n: u32) -> (r: Result<Vec<OspfLsa>, DecodeError>)
    ensures
        match r {
            Ok(v) => spec_parse_lsas(input@, n as nat) == Ok::<Seq<LsaModel>, DecodeError>(
                lsas_view(v@),
            ),
            Err(e) => spec_parse_lsas(input@, n as nat) == Err::<Seq<LsaModel>, DecodeError>(e),
        },
{
    let mut res: Vec<OspfLsa> = Vec::new();
    let mut remaining = input;
    let mut i: u32 = 0;
    while i < n
        invariant
            i <= n,
            spec_parse_lsas(input@, n as nat) == prepend(
                lsas_view(res@),
                spec_parse_lsas(remaining@, (n - i) as nat),
            ),
        decreases n - i,
    {
        match OspfLsa::parse_be(remaining) {
            Ok((rest, l)) => {
                proof {
                    let t = spec_parse_lsas(rest@, (n - i - 1) as nat);
                    assert(lsas_view(res@.push(l)) =~= lsas_view(res@).push(l@));
                    if t is Ok {
                        assert(lsas_view(res@) + (seq![l@] + t->Ok_0) =~= lsas_view(res@.push(l))
                            + t->Ok_0);
                    }
                }
                res.push(l);
                remaining = rest;
                i = i + 1;
            },
            Err(_) => {
                return Err(DecodeError::Malformed);
            },
        }
    }
    if remaining.len() == 0 {
        proof {
            assert(lsas_view(res@) + Seq::<LsaModel>::empty() =~= lsas_view(res@));
        }
        Ok(res)
    } else {
        Err(DecodeError::Malformed)
    }
}

/// The bytes of a non-empty list of LSAs are those of the first, then the rest.
pub proof fn lemma_lsas_wire_cons(s: Seq<LsaModel>)
    requires
        s.len() > 0,
    ensures
        lsas_wire(s) == lsa_wire(s[0]) + lsas_wire(s.drop_first()),
{
    let f = |m: LsaModel| lsa_wire(m);
    assert(s.map_values(f).drop_first() =~= s.drop_first().map_values(f));
}

/// Writing the LSAs of a `Vec` one by one gives the bytes of their models.
pub proof fn lemma_lsa_wires(v: Seq<OspfLsa>)
    ensures
        wires(v) == lsas_wire(lsas_view(v)),
{
    assert(v.map_values(|x: OspfLsa| x.spec_wire()) =~= lsas_view(v).map_values(
        |m: LsaModel| lsa_wire(m),
    ));
}

#[verifier::spinoff_prover]
#[verifier::rlimit(40)]
pub proof fn lemma_lsas_round_trip(s: Seq<LsaModel>)
    requires
        forall|i: int| 0 <= i < s.len() ==> #[trigger] lsa_wf(s[i]),
    ensures
        spec_parse_lsas(lsas_wire(s), s.len()) == Ok::<Seq<LsaModel>, DecodeError>(s),
    decreases s.len(),
{
    if s.len() == 0 {
        assert(s.map_values(|m: LsaModel| lsa_wire(m)) =~= Seq::<Seq<u8>>::empty());
        assert(s =~= Seq::<LsaModel>::empty());
    } else {
        let tail = s.drop_first();
        lemma_lsas_wire_cons(s);
        lemma_lsa_round_trip(s[0], lsas_wire(tail));
        assert forall|i: int| 0 <= i < tail.len() implies #[trigger] lsa_wf(tail[i]) by {
            assert(lsa_wf(s[i + 1]));
        }
        lemma_lsas_round_trip(tail);
        let w = lsas_wire(s);
        assert(w.subrange(lsa_wire(s[0]).len() as int, w.len() as int) =~= lsas_wire(tail));
        assert(seq![s[0]] + tail =~= s);
    }
}

/// Fewer well-formed LSAs than the count announces do not decode.
#[verifier::spinoff_prover]
#[verifier::rlimit(40)]
pub proof fn lemma_lsas_too_few(s: Seq<LsaModel>, n: nat)
    requires
        forall|i: int| 0 <= i < s.len() ==> #[trigger] lsa_wf(s[i]),
        s.len() < n,
    ensures
        spec_parse_lsas(lsas_wire(s), n) == Err::<Seq<LsaModel>, DecodeError>(
            DecodeError::Malformed,
        ),
    decreases s.len(),
{
    if s.len() == 0 {
        assert(s.map_values(|m: LsaModel| lsa_wire(m)) =~= Seq::<Seq<u8>>::empty());
    } else {
        let tail = s.drop_first();
        lemma_lsas_wire_cons(s);
        lemma_lsa_round_trip(s[0], lsas_wire(tail));
        assert forall|i: int| 0 <= i < tail.len() implies #[trigger] lsa_wf(tail[i]) by {
            assert(lsa_wf(s[i + 1]));
        }
        lemma_lsas_too_few(tail, (n - 1) as nat);
        let w = lsas_wire(s);
        assert(w.subrange(lsa_wire(s[0]).len() as int, w.len() as int) =~= lsas_wire(tail));
    }
}


/// A link that was read, written back, gives the bytes it was read from.
#[verifier::spinoff_prover]
pub proof fn lemma_link_exact(b: Seq<u8>)
    requires
        spec_parse_link(b) is Ok,
    ensures
        link_wire(spec_parse_link(b)->Ok_0.0) == b.subrange(0, spec_parse_link(b)->Ok_0.1 as int),
{
    let end = 12 + 4 * b[9];
    lemma_many0_exact::<OspfRouterTOS>(b.subrange(12, end));
    lemma_be32_bytes(b, 0);
    lemma_be32_bytes(b, 4);
    lemma_be16_bytes(b, 10);
    assert(link_wire(spec_parse_link(b)->Ok_0.0) =~= b.subrange(0, end));
}

/// Links that were read, written back, give the bytes they were read from.
#[verifier::spinoff_prover]
#[verifier::rlimit(40)]
pub proof fn lemma_links_exact(b: Seq<u8>, n: nat)
    requires
        spec_parse_links(b, n) is Ok,
    ensures
        links_wire(spec_parse_links(b, n)->Ok_0) == b,
    decreases n,
{
    let s = spec_parse_links(b, n)->Ok_0;
    if n == 0 {
        assert(s.map_values(|m: RouterLsaLinkModel| link_wire(m)) =~= Seq::<Seq<u8>>::empty());
        assert(links_wire(s) =~= b);
    } else {
        let k = spec_parse_link(b)->Ok_0.1 as int;
        let rest = b.subrange(k, b.len() as int);
        lemma_link_exact(b);
        lemma_links_exact(rest, (n - 1) as nat);
        lemma_links_wire_cons(s);
        assert(s.drop_first() =~= spec_parse_links(rest, (n - 1) as nat)->Ok_0);
        assert(b =~= b.subrange(0, k) + rest);
    }
}

/// A Router-LSA body that was read, written back, gives its bytes.
#[verifier::spinoff_prover]
pub proof fn lemma_router_exact(b: Seq<u8>)
    requires
        spec_parse_router(b) is Ok,
    ensures
        router_wire(spec_parse_router(b)->Ok_0) == b,
{
    lemma_be16_bytes(b, 0);
    lemma_be16_bytes(b, 2);
    lemma_links_exact(b.subrange(4, b.len() as int), be16_at(b, 2) as nat);
    assert(router_wire(spec_parse_router(b)->Ok_0) =~= b);
}

/// An LSA body that was read, written back, gives its bytes.
#[verifier::spinoff_prover]
pub proof fn lemma_body_exact(b: Seq<u8>, t: OspfLsType)
    requires
        spec_parse_lsa_body(b, t) is Ok,
    ensures
        body_wire(spec_parse_lsa_body(b, t)->Ok_0) == b,
{
    match t {
        OspfLsType::Router => {
            lemma_router_exact(b);
        },
        OspfLsType::Network => {
            lemma_be32_bytes(b, 0);
            lemma_many0_exact::<Ipv4Address>(b.subrange(4, b.len() as int));
            assert(body_wire(spec_parse_lsa_body(b, t)->Ok_0) =~= b);
        },
        OspfLsType::Summary | OspfLsType::SummaryAsbr => {
            lemma_be32_bytes(b, 0);
            lemma_be24_bytes(b, 5);
            lemma_many0_exact::<OspfTosRoute>(b.subrange(8, b.len() as int));
            assert(body_wire(spec_parse_lsa_body(b, t)->Ok_0) =~= b);
        },
        OspfLsType::AsExternal => {
            lemma_be32_bytes(b, 0);
            lemma_be24_bytes(b, 5);
            lemma_be32_bytes(b, 8);
            lemma_be32_bytes(b, 12);
            assert(body_wire(spec_parse_lsa_body(b, t)->Ok_0) =~= b);
        },
        OspfLsType::Unknown(_) => {
        },
    }
}

/// An LSA that was read, written back, gives the bytes it was read from.
#[verifier::spinoff_prover]
pub proof fn lemma_lsa_exact(b: Seq<u8>)
    requires
        spec_parse_lsa(b) is Ok,
    ensures
        lsa_wire(spec_parse_lsa(b)->Ok_0.0) == b.subrange(0, spec_parse_lsa(b)->Ok_0.1 as int),
{
    let h = OspfLsaHeader::spec_from_be(b);
    OspfLsaHeader::lemma_wire_of_read(b);
    lemma_body_exact(b.subrange(20, h.length as int), h.ls_type);
    assert(lsa_wire(spec_parse_lsa(b)->Ok_0.0) =~= b.subrange(0, h.length as int));
}

/// LSAs that were read, written back, give the bytes they were read from.
#[verifier::spinoff_prover]
#[verifier::rlimit(40)]
pub proof fn lemma_lsas_exact(b: Seq<u8>, n: nat)
    requires
        spec_parse_lsas(b, n) is Ok,
    ensures
        lsas_wire(spec_parse_lsas(b, n)->Ok_0) == b,
    decreases n,
{
    let s = spec_parse_lsas(b, n)->Ok_0;
    if n == 0 {
        assert(s.map_values(|m: LsaModel| lsa_wire(m)) =~= Seq::<Seq<u8>>::empty());
        assert(lsas_wire(s) =~= b);
    } else {
        let k = spec_parse_lsa(b)->Ok_0.1 as int;
        let rest = b.subrange(k, b.len() as int);
        lemma_lsa_exact(b);
        lemma_lsas_exact(rest, (n - 1) as nat);
        lemma_lsas_wire_cons(s);
        assert(s.drop_first() =~= spec_parse_lsas(rest, (n - 1) as nat)->Ok_0);
        assert(b =~= b.subrange(0, k) + rest);
    }
}

} // verus!
