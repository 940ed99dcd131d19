use bytes::BytesMut;
use ospf_packet::{
    parse, AsExternalLsa, DbDescFlags, DecodeError, Emit, EncodeError, Ipv4Address, NetworkLsa,
    OspfDbDesc, OspfHello, OspfLsAck, OspfLsRequest, OspfLsRequestEntry, OspfLsType, OspfLsUpdate,
    OspfLsa, OspfLsaHeader, OspfLsaPayload, OspfOptions, OspfRouterLinkType, OspfRouterTOS,
    OspfTosRoute, OspfType, OspfUnknown, Ospfv2Packet, Ospfv2Payload, RouterLsa, RouterLsaLink,
    SummaryLsa, UnknownLsa,
};

const HELLO_SELF_DR: &[u8] = &[
    0x02, 0x01, 0x00, 0x2c, 0xc0, 0xa8, 0xaa, 0x08, 0x00, 0x00, 0x00, 0x01, 0xbc, 0x89, 0x00, 0x00,
    0x00, 0x00, 0x00, 0x00, 0x00, 0x00, 0x00, 0x00, 0xff, 0xff, 0xff, 0x00, 0x00, 0x0a, 0x02, 0x01,
    0x00, 0x00, 0x00, 0x28, 0xc0, 0xa8, 0xaa, 0x08, 0xc0, 0xa8, 0xaa, 0x08,
];

/// The RFC 1071 checksum, summed one big-endian word at a time.
fn reference_checksum(data: &[u8]) -> u16 {
    let mut sum: u64 = 0;
    for pair in data.chunks(2) {
        let hi = pair[0] as u64;
        let lo = if pair.len() == 2 { pair[1] as u64 } else { 0 };
        sum += (hi << 8) | lo;
    }
    while sum > 0xffff {
        sum = (sum & 0xffff) + (sum >> 16);
    }
    !(sum as u16)
}

/// The checksum a packet must carry: over all but the checksum field and the
/// authentication bytes.
fn packet_checksum(b: &[u8]) -> u16 {
    let mut region = b[..12].to_vec();
    region.extend_from_slice(&b[14..16]);
    region.extend_from_slice(&b[24..]);
    reference_checksum(&region)
}

/// Writes the checksum that the packet in `b` must carry into bytes 12 and 13.
fn seal(b: &mut Vec<u8>) {
    let c = packet_checksum(b).to_be_bytes();
    b[12] = c[0];
    b[13] = c[1];
}

fn encode(p: &Ospfv2Packet) -> Vec<u8> {
    let mut buf = BytesMut::new();
    p.emit(&mut buf).unwrap();
    buf.to_vec()
}

fn router_id() -> Ipv4Address {
    Ipv4Address::new(192, 168, 170, 8)
}

fn header(ls_type: OspfLsType, body_len: u16) -> OspfLsaHeader {
    OspfLsaHeader {
        ls_age: 3,
        options: 0x22,
        ls_type,
        ls_id: 0xc0a8_aa00,
        adv_router: router_id(),
        ls_seq_number: 0x8000_0001,
        ls_checksum: 0x1234,
        length: 20 + body_len,
    }
}

fn lsa_of(ls_type: OspfLsType, body: OspfLsaPayload) -> OspfLsa {
    let mut b = BytesMut::new();
    body.emit(&mut b);
    OspfLsa { h: header(ls_type, b.len() as u16), lsa: body }
}

fn every_lsa_kind() -> Vec<OspfLsa> {
    let router = RouterLsa {
        flags: 0x0200,
        num_links: 2,
        links: vec![
            RouterLsaLink {
                link_id: Ipv4Address::new(192, 168, 170, 0),
                link_data: Ipv4Address::new(255, 255, 255, 0),
                link_type: OspfRouterLinkType(3),
                num_tos: 0,
                tos_0_metric: 10,
                toses: vec![],
            },
            RouterLsaLink {
                link_id: Ipv4Address::new(192, 168, 170, 2),
                link_data: Ipv4Address::new(192, 168, 170, 3),
                link_type: OspfRouterLinkType(2),
                num_tos: 2,
                tos_0_metric: 1,
                toses: vec![
                    OspfRouterTOS { tos: 8, resved: 0, metric: 20 },
                    OspfRouterTOS { tos: 16, resved: 0, metric: 30 },
                ],
            },
        ],
    };
    let summary = SummaryLsa {
        netmask: Ipv4Address::new(255, 255, 255, 0),
        tos: 0,
        metric: 30,
        tos_routes: vec![OspfTosRoute { tos: 8, metric: 0x00ab_cdef }],
    };
    vec![
        lsa_of(OspfLsType::Router, OspfLsaPayload::Router(router)),
        lsa_of(
            OspfLsType::Network,
            OspfLsaPayload::Network(NetworkLsa {
                netmask: Ipv4Address::new(255, 255, 255, 0),
                attached_routers: vec![router_id(), Ipv4Address::new(192, 168, 170, 3)],
            }),
        ),
        lsa_of(OspfLsType::Summary, OspfLsaPayload::Summary(summary.clone())),
        lsa_of(OspfLsType::SummaryAsbr, OspfLsaPayload::SummaryAsbr(summary)),
        lsa_of(
            OspfLsType::AsExternal,
            OspfLsaPayload::AsExternal(AsExternalLsa {
                netmask: Ipv4Address::new(255, 255, 255, 252),
                ext_and_resvd: 0x80,
                metric: 100,
                forwarding_address: Ipv4Address::new(192, 168, 10, 1),
                external_route_tag: 7,
            }),
        ),
        lsa_of(
            OspfLsType::Unknown(7),
            OspfLsaPayload::Unknown(UnknownLsa { data: vec![1, 2, 3, 4, 5] }),
        ),
    ]
}

fn round_trip(payload: Ospfv2Payload) {
    let p = Ospfv2Packet::new(&router_id(), &Ipv4Address::new(0, 0, 0, 1), payload);
    let bytes = encode(&p);
    let (rest, q) = parse(&bytes).unwrap();
    assert!(rest.is_empty());
    assert_eq!(q.len as usize, bytes.len());
    assert_eq!(q.checksum, u16::from_be_bytes([bytes[12], bytes[13]]));
    assert_eq!(q.version, p.version);
    assert_eq!(q.typ, p.typ);
    assert_eq!(q.router_id, p.router_id);
    assert_eq!(q.area_id, p.area_id);
    assert_eq!(q.auth, p.auth);
    assert_eq!(q.payload, p.payload);
    assert_eq!(encode(&q), bytes);
}

#[test]
fn round_trip_hello() {
    let mut h = OspfHello::default();
    h.netmask = Ipv4Address::new(255, 255, 255, 0);
    h.hello_interval = 10;
    h.options = OspfOptions::from_bits(0x02);
    h.priority = 1;
    h.router_dead_interval = 40;
    h.d_router = router_id();
    h.neighbors = vec![Ipv4Address::new(192, 168, 170, 3), Ipv4Address::new(192, 168, 170, 2)];
    round_trip(Ospfv2Payload::Hello(h));
}

#[test]
fn round_trip_db_desc() {
    let lsa_headers = every_lsa_kind().into_iter().map(|l| l.h).collect();
    round_trip(Ospfv2Payload::DbDesc(OspfDbDesc {
        if_mtu: 1500,
        options: OspfOptions::from_bits(0x42),
        flags: DbDescFlags::from_bits(0xf7),
        seqnum: 0x4177_a97e,
        lsa_headers,
    }));
}

#[test]
fn round_trip_ls_request() {
    round_trip(Ospfv2Payload::LsRequest(OspfLsRequest {
        reqs: vec![
            OspfLsRequestEntry { ls_type: 1, ls_id: 0xc0a8_aa03, adv_router: router_id() },
            OspfLsRequestEntry { ls_type: 5, ls_id: 0x50d4_1000, adv_router: router_id() },
        ],
    }));
}

#[test]
fn round_trip_ls_update_every_lsa_kind() {
    let lsas = every_lsa_kind();
    round_trip(Ospfv2Payload::LsUpdate(OspfLsUpdate { num_adv: lsas.len() as u32, lsas }));
}

#[test]
fn round_trip_ls_ack() {
    let lsa_headers = every_lsa_kind().into_iter().map(|l| l.h).collect();
    round_trip(Ospfv2Payload::LsAck(OspfLsAck { lsa_headers }));
}

#[test]
fn round_trip_unknown() {
    round_trip(Ospfv2Payload::Unknown(OspfUnknown {
        typ: OspfType::Unknown(9),
        payload: vec![9, 8, 7, 6, 5],
    }));
}

#[test]
fn round_trip_empty_lists() {
    round_trip(Ospfv2Payload::LsRequest(OspfLsRequest { reqs: vec![] }));
    round_trip(Ospfv2Payload::LsUpdate(OspfLsUpdate { num_adv: 0, lsas: vec![] }));
    round_trip(Ospfv2Payload::Hello(OspfHello::default()));
}

#[test]
fn every_single_bit_flip_is_a_checksum_mismatch() {
    let intact = HELLO_SELF_DR.to_vec();
    assert!(parse(&intact).is_ok());
    for byte in 0..intact.len() {
        if (16..24).contains(&byte) {
            continue;
        }
        for bit in 0..8 {
            let mut b = intact.clone();
            b[byte] ^= 1 << bit;
            assert_eq!(parse(&b).unwrap_err(), DecodeError::ChecksumMismatch, "byte {} bit {}", byte, bit);
        }
    }
}

#[test]
fn auth_bytes_are_outside_the_checksum() {
    let mut b = HELLO_SELF_DR.to_vec();
    b[20] ^= 0xff;
    let (_, p) = parse(&b).unwrap();
    assert_eq!(p.auth.auth, 0x0000_0000_ff00_0000);
}

#[test]
fn unknown_packet_type_keeps_its_bytes() {
    let mut b = vec![
        0x02, 0x09, 0x00, 0x1e, 0xc0, 0xa8, 0xaa, 0x08, 0x00, 0x00, 0x00, 0x01, 0x00, 0x00, 0x00,
        0x00, 0x00, 0x00, 0x00, 0x00, 0x00, 0x00, 0x00, 0x00, 0xde, 0xad, 0xbe, 0xef, 0x01, 0x02,
    ];
    seal(&mut b);
    let (rest, p) = parse(&b).unwrap();
    assert!(rest.is_empty());
    assert_eq!(p.typ, OspfType::Unknown(9));
    match &p.payload {
        Ospfv2Payload::Unknown(u) => {
            assert_eq!(u.typ, OspfType::Unknown(9));
            assert_eq!(u.payload, vec![0xde, 0xad, 0xbe, 0xef, 0x01, 0x02]);
        }
        other => panic!("unexpected payload {:?}", other),
    }
    assert_eq!(p.payload.typ(), OspfType::Unknown(9));
    assert_eq!(encode(&p), b);
}

#[test]
fn ls_update_count_beyond_the_lsas_fails() {
    let lsas: Vec<OspfLsa> = every_lsa_kind().into_iter().take(2).collect();
    let p = Ospfv2Packet::new(
        &router_id(),
        &Ipv4Address::new(0, 0, 0, 1),
        Ospfv2Payload::LsUpdate(OspfLsUpdate { num_adv: 3, lsas }),
    );
    let bytes = encode(&p);
    assert_eq!(parse(&bytes).unwrap_err(), DecodeError::Malformed);
}

#[test]
fn ls_update_count_below_the_lsas_fails() {
    let lsas: Vec<OspfLsa> = every_lsa_kind().into_iter().take(3).collect();
    let p = Ospfv2Packet::new(
        &router_id(),
        &Ipv4Address::new(0, 0, 0, 1),
        Ospfv2Payload::LsUpdate(OspfLsUpdate { num_adv: 2, lsas }),
    );
    assert_eq!(parse(&encode(&p)).unwrap_err(), DecodeError::Malformed);
}

#[test]
fn hello_neighbor_region_not_a_multiple_of_four_fails() {
    let mut b = HELLO_SELF_DR.to_vec();
    b.extend_from_slice(&[0xc0, 0xa8, 0xaa, 0x03, 0xc0, 0xa8]);
    b[3] = b.len() as u8;
    seal(&mut b);
    assert_eq!(parse(&b).unwrap_err(), DecodeError::Malformed);
    b.extend_from_slice(&[0xaa, 0x02]);
    b[3] = b.len() as u8;
    seal(&mut b);
    let (_, p) = parse(&b).unwrap();
    match p.payload {
        Ospfv2Payload::Hello(h) => assert_eq!(
            h.neighbors,
            vec![Ipv4Address::new(192, 168, 170, 3), Ipv4Address::new(192, 168, 170, 2)]
        ),
        other => panic!("unexpected payload {:?}", other),
    }
}

#[test]
fn hello_scenario() {
    let (rest, p) = parse(HELLO_SELF_DR).unwrap();
    assert!(rest.is_empty());
    assert_eq!(p.version, 2);
    assert_eq!(p.typ, OspfType::Hello);
    assert_eq!(p.len, 44);
    assert_eq!(p.router_id, router_id());
    assert_eq!(p.area_id, Ipv4Address::new(0, 0, 0, 1));
    assert_eq!(p.checksum, 0xbc89);
    assert_eq!(p.auth_type, 0);
    match &p.payload {
        Ospfv2Payload::Hello(h) => {
            assert_eq!(h.netmask, Ipv4Address::new(255, 255, 255, 0));
            assert_eq!(h.hello_interval, 10);
            assert_eq!(h.options.into_bits(), 0x02);
            assert!(h.options.external());
            assert_eq!(h.priority, 1);
            assert_eq!(h.router_dead_interval, 40);
            assert_eq!(h.d_router, router_id());
            assert_eq!(h.bd_router, router_id());
            assert!(h.neighbors.is_empty());
        }
        other => panic!("unexpected payload {:?}", other),
    }
    assert_eq!(encode(&p), HELLO_SELF_DR.to_vec());
}

#[test]
fn hello_built_from_fields_encodes_to_the_scenario_bytes() {
    let mut h = OspfHello::default();
    h.netmask = Ipv4Address::new(255, 255, 255, 0);
    h.hello_interval = 10;
    h.options = OspfOptions::from_bits(0x02);
    h.priority = 1;
    h.router_dead_interval = 40;
    h.d_router = router_id();
    h.bd_router = router_id();
    let p = Ospfv2Packet::new(&router_id(), &Ipv4Address::new(0, 0, 0, 1), Ospfv2Payload::Hello(h));
    assert_eq!(p.len, 0);
    assert_eq!(p.checksum, 0);
    assert_eq!(encode(&p), HELLO_SELF_DR.to_vec());
}

const ROUTER_LSA_ONE_LINK_ONE_TOS: &[u8] = &[
    0x00, 0x01, 0x02, 0x01, 0xc0, 0xa8, 0xaa, 0x03, 0xc0, 0xa8, 0xaa, 0x03, 0x80, 0x00, 0x00, 0x01,
    0x12, 0x34, 0x00, 0x28, 0x00, 0x00, 0x00, 0x01, 0xc0, 0xa8, 0xaa, 0x00, 0xff, 0xff, 0xff, 0x00,
    0x03, 0x01, 0x00, 0x0a, 0x08, 0x00, 0x00, 0x14,
];

#[test]
fn router_lsa_with_one_link_and_one_tos() {
    let (rest, lsa) = OspfLsa::parse_be(ROUTER_LSA_ONE_LINK_ONE_TOS).unwrap();
    assert!(rest.is_empty());
    assert_eq!(lsa.h.ls_type, OspfLsType::Router);
    assert_eq!(lsa.h.length, 40);
    match &lsa.lsa {
        OspfLsaPayload::Router(r) => {
            assert_eq!(r.num_links, 1);
            assert_eq!(r.links.len(), 1);
            let l = &r.links[0];
            assert_eq!(l.link_id, Ipv4Address::new(192, 168, 170, 0));
            assert_eq!(l.link_data, Ipv4Address::new(255, 255, 255, 0));
            assert_eq!(l.link_type, OspfRouterLinkType(3));
            assert_eq!(l.num_tos, 1);
            assert_eq!(l.tos_0_metric, 10);
            assert_eq!(l.toses, vec![OspfRouterTOS { tos: 8, resved: 0, metric: 20 }]);
        }
        other => panic!("unexpected body {:?}", other),
    }
    let mut buf = BytesMut::new();
    lsa.emit(&mut buf);
    assert_eq!(buf.to_vec(), ROUTER_LSA_ONE_LINK_ONE_TOS.to_vec());
}

#[test]
fn router_lsa_cut_before_its_tos_entry_fails() {
    let mut b = ROUTER_LSA_ONE_LINK_ONE_TOS[..36].to_vec();
    b[19] = 36;
    assert_eq!(OspfLsa::parse_be(&b).unwrap_err(), DecodeError::Malformed);
    assert_eq!(
        OspfLsa::parse_be(&ROUTER_LSA_ONE_LINK_ONE_TOS[..36]).unwrap_err(),
        DecodeError::Truncated
    );
}

#[test]
fn summary_lsa_decodes() {
    let b = [
        0x00, 0x0b, 0x22, 0x03, 0xc0, 0xa8, 0x0a, 0x00, 0x04, 0x04, 0x04, 0x04, 0x80, 0x00, 0x00,
        0x01, 0x1e, 0x7d, 0x00, 0x1c, 0xff, 0xff, 0xff, 0x00, 0x00, 0x00, 0x00, 0x1e,
    ];
    let (rest, lsa) = OspfLsa::parse_be(&b).unwrap();
    assert!(rest.is_empty());
    assert_eq!(lsa.h.ls_age, 11);
    assert_eq!(lsa.h.adv_router, Ipv4Address::new(4, 4, 4, 4));
    match lsa.lsa {
        OspfLsaPayload::Summary(s) => {
            assert_eq!(s.netmask, Ipv4Address::new(255, 255, 255, 0));
            assert_eq!(s.tos, 0);
            assert_eq!(s.metric, 30);
            assert!(s.tos_routes.is_empty());
        }
        other => panic!("unexpected body {:?}", other),
    }
}

#[test]
fn nssa_lsa_falls_into_unknown() {
    let b = [
        0x00, 0x66, 0x28, 0x07, 0xac, 0x10, 0x00, 0x00, 0x02, 0x02, 0x02, 0x02, 0x80, 0x00, 0x00,
        0x01, 0x63, 0xac, 0x00, 0x24, 0xff, 0xff, 0xff, 0xfc, 0x80, 0x00, 0x00, 0x64, 0xc0, 0xa8,
        0x0a, 0x01, 0x00, 0x00, 0x00, 0x00,
    ];
    let (rest, lsa) = OspfLsa::parse_be(&b).unwrap();
    assert!(rest.is_empty());
    assert_eq!(lsa.h.ls_type, OspfLsType::Unknown(7));
    assert_eq!(lsa.lsa, OspfLsaPayload::Unknown(UnknownLsa { data: b[20..].to_vec() }));
    let mut buf = BytesMut::new();
    lsa.emit(&mut buf);
    assert_eq!(buf.to_vec(), b.to_vec());
}

#[test]
fn lsa_with_declared_length_below_its_header_fails() {
    let mut b = ROUTER_LSA_ONE_LINK_ONE_TOS.to_vec();
    b[19] = 19;
    assert_eq!(OspfLsa::parse_be(&b).unwrap_err(), DecodeError::Malformed);
}

#[test]
fn as_external_body_with_extra_bytes_fails() {
    let mut lsa = every_lsa_kind().remove(4);
    lsa.h.length += 4;
    let mut buf = BytesMut::new();
    lsa.emit(&mut buf);
    buf.extend_from_slice(&[0, 0, 0, 0]);
    assert_eq!(OspfLsa::parse_be(&buf).unwrap_err(), DecodeError::Malformed);
}

#[test]
fn short_buffer_is_truncated() {
    assert_eq!(parse(&HELLO_SELF_DR[..23]).unwrap_err(), DecodeError::Truncated);
    assert_eq!(parse(&[]).unwrap_err(), DecodeError::Truncated);
}

#[test]
fn length_field_must_match_the_buffer() {
    let mut longer = HELLO_SELF_DR.to_vec();
    longer[3] = 48;
    seal(&mut longer);
    assert_eq!(parse(&longer).unwrap_err(), DecodeError::Truncated);
    let mut shorter = HELLO_SELF_DR.to_vec();
    shorter[3] = 40;
    seal(&mut shorter);
    assert_eq!(parse(&shorter).unwrap_err(), DecodeError::Malformed);
}

#[test]
fn nonzero_auth_type_is_refused() {
    let mut b = HELLO_SELF_DR.to_vec();
    b[15] = 1;
    seal(&mut b);
    assert_eq!(parse(&b).unwrap_err(), DecodeError::UnsupportedAuthType);
}

#[test]
fn hello_shorter_than_its_fixed_part_is_truncated() {
    let mut b = HELLO_SELF_DR[..40].to_vec();
    b[3] = 40;
    seal(&mut b);
    assert_eq!(parse(&b).unwrap_err(), DecodeError::Truncated);
}

#[test]
fn encoding_refuses_auth_types_other_than_zero() {
    let mut p = Ospfv2Packet::new(&router_id(), &router_id(), Ospfv2Payload::Hello(OspfHello::default()));
    p.auth_type = 2;
    let mut buf = BytesMut::from(&b"xy"[..]);
    assert_eq!(p.emit(&mut buf), Err(EncodeError::UnsupportedAuthType));
    assert_eq!(buf.to_vec(), b"xy".to_vec());
}

#[test]
fn encoding_refuses_packets_too_long_for_the_length_field() {
    let mut h = OspfHello::default();
    h.neighbors = vec![router_id(); 16373];
    let p = Ospfv2Packet::new(&router_id(), &router_id(), Ospfv2Payload::Hello(h));
    let mut buf = BytesMut::from(&b"xy"[..]);
    assert_eq!(p.emit(&mut buf), Err(EncodeError::TooLong));
    assert_eq!(buf.to_vec(), b"xy".to_vec());
    let mut h = OspfHello::default();
    h.neighbors = vec![router_id(); 16372];
    let p = Ospfv2Packet::new(&router_id(), &router_id(), Ospfv2Payload::Hello(h));
    let bytes = encode(&p);
    assert_eq!(bytes.len(), 65532);
    assert!(parse(&bytes).is_ok());
}

#[test]
fn encoding_appends_after_existing_bytes() {
    let (_, p) = parse(HELLO_SELF_DR).unwrap();
    let mut buf = BytesMut::from(&b"abc"[..]);
    p.emit(&mut buf).unwrap();
    assert_eq!(&buf[..3], b"abc");
    assert_eq!(buf[3..].to_vec(), HELLO_SELF_DR.to_vec());
}

#[test]
fn encoding_ignores_stale_length_and_checksum() {
    let (_, mut p) = parse(HELLO_SELF_DR).unwrap();
    p.len = 7;
    p.checksum = 0xffff;
    assert_eq!(encode(&p), HELLO_SELF_DR.to_vec());
}

#[test]
fn metric_wider_than_24_bits_is_cut_to_24() {
    let mut buf = BytesMut::new();
    OspfTosRoute { tos: 1, metric: 0x1234_5678 }.emit(&mut buf);
    assert_eq!(buf.to_vec(), vec![1, 0x34, 0x56, 0x78]);
}

#[test]
fn option_bits_are_named_lowest_first() {
    let o = OspfOptions::from_bits(0b1010_0101);
    assert!(o.multi_toplogy());
    assert!(!o.external());
    assert!(o.multicast());
    assert!(!o.nssa());
    assert!(!o.lls_data());
    assert!(o.demand_circuts());
    assert!(!o.o());
    assert!(o.dn());
    assert_eq!(o.into_bits(), 0b1010_0101);
}

#[test]
fn db_desc_flags_keep_reserved_bits() {
    let f = DbDescFlags::from_bits(0xf7);
    assert!(f.master());
    assert!(f.more());
    assert!(f.init());
    assert!(!f.oob_resync());
    assert!(f.is_all());
    assert_eq!(f.resvd(), 0xf);
    assert_eq!(f.into_bits(), 0xf7);
    assert!(!DbDescFlags::from_bits(0x03).is_all());
}

#[test]
fn type_tags_map_both_ways() {
    for t in 0..=255u8 {
        assert_eq!(OspfType::from_u8(t).to_u8(), t);
        assert_eq!(OspfLsType::from_u8(t).to_u8(), t);
    }
    assert_eq!(OspfType::from_u8(4), OspfType::LsUpdate);
    assert_eq!(OspfType::from_u8(6), OspfType::Unknown(6));
    assert_eq!(OspfLsType::from_u8(5), OspfLsType::AsExternal);
    assert_eq!(OspfLsType::from_u8(9), OspfLsType::Unknown(9));
}

#[test]
fn addresses_hold_their_octets() {
    let a = Ipv4Address::new(192, 168, 170, 8);
    assert_eq!(a.0, 0xc0a8_aa08);
    assert_eq!(a.octets(), [192, 168, 170, 8]);
}

#[test]
fn checksum_of_a_long_packet_with_wrapping_words() {
    // Sixteen-byte words that sum to exactly 2^128 and then to 2^128 - 1 make a
    // carry that a 128-bit accumulator has to keep.
    let mut header = [0u8; 16];
    header[..4].copy_from_slice(&[0x02, 0x09, 0x00, 0x58]);
    header[4..8].copy_from_slice(&[0xc0, 0xa8, 0xaa, 0x08]);
    header[8..12].copy_from_slice(&[0x00, 0x00, 0x00, 0x01]);
    let h = u128::from_le_bytes(header);
    let mut payload = 0u128.wrapping_sub(h).to_le_bytes().to_vec();
    payload.extend_from_slice(&[0xff; 16]);
    payload.extend_from_slice(&[0; 32]);
    let p = Ospfv2Packet::new(
        &router_id(),
        &Ipv4Address::new(0, 0, 0, 1),
        Ospfv2Payload::Unknown(OspfUnknown { typ: OspfType::Unknown(9), payload }),
    );
    let bytes = encode(&p);
    assert_eq!(bytes.len(), 0x58);
    assert_eq!(&bytes[..12], &header[..12]);
    assert_eq!(u16::from_be_bytes([bytes[12], bytes[13]]), packet_checksum(&bytes));
    let (_, q) = parse(&bytes).unwrap();
    assert_eq!(q.payload, p.payload);
}

#[test]
fn checksum_of_a_captured_packet() {
    let b: &[u8] = &[
        0x02, 0x05, 0x00, 0x2c, 0xc0, 0xa8, 0xaa, 0x08, 0x00, 0x00, 0x00, 0x01, 0x02, 0xf2, 0x00,
        0x00, 0x00, 0x00, 0x00, 0x00, 0x00, 0x00, 0x00, 0x00, 0x00, 0x01, 0x02, 0x01, 0xc0, 0xa8,
        0xaa, 0x03, 0xc0, 0xa8, 0xaa, 0x03, 0x80, 0x00, 0x00, 0x02, 0x38, 0x9d, 0x00, 0x30,
    ];
    let (_, p) = parse(b).unwrap();
    assert_eq!(p.checksum, 0x02f2);
    assert_eq!(encode(&p), b.to_vec());
}

const CAPTURED_DB_DESC: &[u8] = &[
    0x02, 0x02, 0x00, 0xac, 0xc0, 0xa8, 0xaa, 0x03, 0x00, 0x00, 0x00, 0x01, 0xf0, 0x67, 0x00, 0x00,
    0x00, 0x00, 0x00, 0x00, 0x00, 0x00, 0x00, 0x00, 0x05, 0xdc, 0x02, 0x02, 0x41, 0x77, 0xa9, 0x7e,
    0x00, 0x01, 0x02, 0x01, 0xc0, 0xa8, 0xaa, 0x03, 0xc0, 0xa8, 0xaa, 0x03, 0x80, 0x00, 0x00, 0x01,
    0x3a, 0x9c, 0x00, 0x30, 0x00, 0x02, 0x02, 0x05, 0x50, 0xd4, 0x10, 0x00, 0xc0, 0xa8, 0xaa, 0x02,
    0x80, 0x00, 0x00, 0x01, 0x2a, 0x49, 0x00, 0x24, 0x00, 0x02, 0x02, 0x05, 0x94, 0x79, 0xab, 0x00,
    0xc0, 0xa8, 0xaa, 0x02, 0x80, 0x00, 0x00, 0x01, 0x34, 0xa5, 0x00, 0x24, 0x00, 0x02, 0x02, 0x05,
    0xc0, 0x82, 0x78, 0x00, 0xc0, 0xa8, 0xaa, 0x02, 0x80, 0x00, 0x00, 0x01, 0xd3, 0x19, 0x00, 0x24,
    0x00, 0x02, 0x02, 0x05, 0xc0, 0xa8, 0x00, 0x00, 0xc0, 0xa8, 0xaa, 0x02, 0x80, 0x00, 0x00, 0x01,
    0x37, 0x08, 0x00, 0x24, 0x00, 0x02, 0x02, 0x05, 0xc0, 0xa8, 0x01, 0x00, 0xc0, 0xa8, 0xaa, 0x02,
    0x80, 0x00, 0x00, 0x01, 0x2c, 0x12, 0x00, 0x24, 0x00, 0x02, 0x02, 0x05, 0xc0, 0xa8, 0xac, 0x00,
    0xc0, 0xa8, 0xaa, 0x02, 0x80, 0x00, 0x00, 0x01, 0x33, 0x41, 0x00, 0x24,
];

const CAPTURED_LS_UPDATE: &[u8] = &[
    0x02, 0x04, 0x01, 0x24, 0xc0, 0xa8, 0xaa, 0x03, 0x00, 0x00, 0x00, 0x01, 0x36, 0x6b, 0x00, 0x00,
    0x00, 0x00, 0x00, 0x00, 0x00, 0x00, 0x00, 0x00, 0x00, 0x00, 0x00, 0x07, 0x00, 0x02, 0x02, 0x01,
    0xc0, 0xa8, 0xaa, 0x03, 0xc0, 0xa8, 0xaa, 0x03, 0x80, 0x00, 0x00, 0x01, 0x3a, 0x9c, 0x00, 0x30,
    0x02, 0x00, 0x00, 0x02, 0xc0, 0xa8, 0xaa, 0x00, 0xff, 0xff, 0xff, 0x00, 0x03, 0x00, 0x00, 0x0a,
    0xc0, 0xa8, 0xaa, 0x00, 0xff, 0xff, 0xff, 0x00, 0x03, 0x00, 0x00, 0x0a, 0x00, 0x03, 0x02, 0x05,
    0x50, 0xd4, 0x10, 0x00, 0xc0, 0xa8, 0xaa, 0x02, 0x80, 0x00, 0x00, 0x01, 0x2a, 0x49, 0x00, 0x24,
    0xff, 0xff, 0xff, 0xff, 0x80, 0x00, 0x00, 0x14, 0x00, 0x00, 0x00, 0x00, 0x00, 0x00, 0x00, 0x00,
    0x00, 0x03, 0x02, 0x05, 0x94, 0x79, 0xab, 0x00, 0xc0, 0xa8, 0xaa, 0x02, 0x80, 0x00, 0x00, 0x01,
    0x34, 0xa5, 0x00, 0x24, 0xff, 0xff, 0xff, 0x00, 0x80, 0x00, 0x00, 0x14, 0xc0, 0xa8, 0xaa, 0x01,
    0x00, 0x00, 0x00, 0x00, 0x00, 0x03, 0x02, 0x05, 0xc0, 0x82, 0x78, 0x00, 0xc0, 0xa8, 0xaa, 0x02,
    0x80, 0x00, 0x00, 0x01, 0xd3, 0x19, 0x00, 0x24, 0xff, 0xff, 0xff, 0x00, 0x80, 0x00, 0x00, 0x14,
    0x00, 0x00, 0x00, 0x00, 0x00, 0x00, 0x00, 0x00, 0x00, 0x03, 0x02, 0x05, 0xc0, 0xa8, 0x00, 0x00,
    0xc0, 0xa8, 0xaa, 0x02, 0x80, 0x00, 0x00, 0x01, 0x37, 0x08, 0x00, 0x24, 0xff, 0xff, 0xff, 0x00,
    0x80, 0x00, 0x00, 0x14, 0x00, 0x00, 0x00, 0x00, 0x00, 0x00, 0x00, 0x00, 0x00, 0x03, 0x02, 0x05,
    0xc0, 0xa8, 0x01, 0x00, 0xc0, 0xa8, 0xaa, 0x02, 0x80, 0x00, 0x00, 0x01, 0x2c, 0x12, 0x00, 0x24,
    0xff, 0xff, 0xff, 0x00, 0x80, 0x00, 0x00, 0x14, 0x00, 0x00, 0x00, 0x00, 0x00, 0x00, 0x00, 0x00,
    0x00, 0x03, 0x02, 0x05, 0xc0, 0xa8, 0xac, 0x00, 0xc0, 0xa8, 0xaa, 0x02, 0x80, 0x00, 0x00, 0x01,
    0x33, 0x41, 0x00, 0x24, 0xff, 0xff, 0xff, 0x00, 0x80, 0x00, 0x00, 0x14, 0xc0, 0xa8, 0xaa, 0x0a,
    0x00, 0x00, 0x00, 0x00,
];

const CAPTURED_LS_REQUEST: &[u8] = &[
    0x02, 0x03, 0x00, 0x6c, 0xc0, 0xa8, 0xaa, 0x08, 0x00, 0x00, 0x00, 0x01, 0x75, 0x95, 0x00, 0x00,
    0x00, 0x00, 0x00, 0x00, 0x00, 0x00, 0x00, 0x00, 0x00, 0x00, 0x00, 0x01, 0xc0, 0xa8, 0xaa, 0x03,
    0xc0, 0xa8, 0xaa, 0x03, 0x00, 0x00, 0x00, 0x05, 0x50, 0xd4, 0x10, 0x00, 0xc0, 0xa8, 0xaa, 0x02,
    0x00, 0x00, 0x00, 0x05, 0x94, 0x79, 0xab, 0x00, 0xc0, 0xa8, 0xaa, 0x02, 0x00, 0x00, 0x00, 0x05,
    0xc0, 0x82, 0x78, 0x00, 0xc0, 0xa8, 0xaa, 0x02, 0x00, 0x00, 0x00, 0x05, 0xc0, 0xa8, 0x00, 0x00,
    0xc0, 0xa8, 0xaa, 0x02, 0x00, 0x00, 0x00, 0x05, 0xc0, 0xa8, 0x01, 0x00, 0xc0, 0xa8, 0xaa, 0x02,
    0x00, 0x00, 0x00, 0x05, 0xc0, 0xa8, 0xac, 0x00, 0xc0, 0xa8, 0xaa, 0x02,
];

#[test]
fn captured_packets_encode_back_to_their_bytes() {
    for b in [CAPTURED_DB_DESC, CAPTURED_LS_UPDATE, CAPTURED_LS_REQUEST, HELLO_SELF_DR] {
        let (rest, p) = parse(b).unwrap();
        assert!(rest.is_empty());
        assert_eq!(encode(&p), b.to_vec());
    }
}

#[test]
fn captured_ls_update_holds_seven_lsas() {
    let (_, p) = parse(CAPTURED_LS_UPDATE).unwrap();
    match p.payload {
        Ospfv2Payload::LsUpdate(u) => {
            assert_eq!(u.num_adv, 7);
            assert_eq!(u.lsas.len(), 7);
            match &u.lsas[0].lsa {
                OspfLsaPayload::Router(r) => {
                    assert_eq!(r.num_links, 2);
                    assert_eq!(r.links[1].link_id, Ipv4Address::new(192, 168, 170, 0));
                }
                other => panic!("unexpected body {:?}", other),
            }
            for l in &u.lsas[1..] {
                assert_eq!(l.h.ls_type, OspfLsType::AsExternal);
                assert_eq!(l.h.length, 36);
            }
        }
        other => panic!("unexpected payload {:?}", other),
    }
}
