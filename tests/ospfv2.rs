use ospf_packet::parse;

#[test]
pub fn parse_hello() {
    const PACKET: &[u8] = &[
        0x02, 0x01, 0x00, 0x2c, 0xc0, 0xa8, 0xaa, 0x08, 0x00, 0x00, 0x00, 0x01, 0x27, 0x3b, 0x00, 0x00,
        0x00, 0x00, 0x00, 0x00, 0x00, 0x00, 0x00, 0x00, 0xff, 0xff, 0xff, 0x00, 0x00, 0x0a, 0x02, 0x01,
        0x00, 0x00, 0x00, 0x28, 0xc0, 0xa8, 0xaa, 0x08, 0x00, 0x00, 0x00, 0x00,
    ];
    let (rem, packet) = parse(PACKET).unwrap();
    assert!(rem.is_empty());
    println!("{:?}", packet);
    println!("rem len: {:?}", rem.len());
}

#[test]
pub fn parse_db_desc() {
    const PACKET: &[u8] = &[
        0x02, 0x02, 0x00, 0x20, 0xc0, 0xa8, 0xaa, 0x08, 0x00, 0x00, 0x00, 0x01, 0xa0, 0x52, 0x00, 0x00,
        0x00, 0x00, 0x00, 0x00, 0x00, 0x00, 0x00, 0x00, 0x05, 0xdc, 0x02, 0x07, 0x41, 0x77, 0xa9, 0x7e,
    ];
    let (rem, packet) = parse(PACKET).unwrap();
    assert!(rem.is_empty());
    println!("{:?}", packet);
    println!("rem len: {:?}", rem.len());
}

#[test]
pub fn parse_db_desc_lsa() {
    const PACKET: &[u8] = &[
        0x02, 0x02, 0x00, 0xac, 0xc0, 0xa8, 0xaa, 0x03, 0x00, 0x00, 0x00, 0x01, 0xf0, 0x67, 0x00, 0x00,
        0x00, 0x00, 0x00, 0x00, 0x00, 0x00, 0x00, 0x00, 0x05, 0xdc, 0x02, 0x02, 0x41, 0x77, 0xa9, 0x7e,
        0x00, 0x01, 0x02, 0x01, 0xc0, 0xa8, 0xaa, 0x03, 0xc0, 0xa8, 0xaa, 0x03, 0x80, 0x00, 0x00, 0x01,
        0x3a, 0x9c, 0x00, 0x30, 0x00, 0x02, 0x02, 0x05, 0x50, 0xd4, 0x10, 0x00, 0xc0, 0xa8, 0xaa, 0x02,
        0x80, 0x00, 0x00, 0x01, 0x2a, 0x49, 0x00, 0x24, 0x00, 0x02, 0x02, 0x05, 0x94, 0x79, 0xab, 0x00,
        0xc0, 0xa8, 0xaa, 0x02, 0x80, 0x00, 0x00, 0x01, 0x34, 0xa5, 0x00, 0x24, 0x00, 0x02, 0x02, 0x05,
        0xc0, 0x82, 0x78, 0x00, 0xc0, 0xa8, 0xaa, 0x02, 0x80, 0x00, 0x00, 0x01, 0xd3, 0x19, 0x00, 0x24,
        0x00, 0x02, 0x02, 0x05, 0xc0, 0xa8, 0x00, 0x00, 0xc0, 0xa8, 0xaa, 0x02, 0x80, 0x00, 0x00, 0x01,
        0x37, 0x08, 0x00, 0x24, 0x00, 0x02, 0x02, 0x05, 0xc0, 0xa8, 0x01, 0x00, 0xc0, 0xa8, 0xaa, 0x02,
        0x80, 0x00, 0x00, 0x01, 0x2c, 0x12, 0x00, 0x24, 0x00, 0x02, 0x02, 0x05, 0xc0, 0xa8, 0xac, 0x00,
        0xc0, 0xa8, 0xaa, 0x02, 0x80, 0x00, 0x00, 0x01, 0x33, 0x41, 0x00, 0x24,
    ];
    let (rem, packet) = parse(PACKET).unwrap();
    assert!(rem.is_empty());
    println!("{:?}", packet);
    println!("rem len: {:?}", rem.len());
}

#[test]
pub fn parse_ls_request() {
    const PACKET: &[u8] = &[
        0x02, 0x03, 0x00, 0x24, 0xc0, 0xa8, 0xaa, 0x03, 0x00, 0x00, 0x00, 0x01, 0xbd, 0xc7, 0x00, 0x00,
        0x00, 0x00, 0x00, 0x00, 0x00, 0x00, 0x00, 0x00, 0x00, 0x00, 0x00, 0x01, 0xc0, 0xa8, 0xaa, 0x08,
        0xc0, 0xa8, 0xaa, 0x08,
    ];
    let (rem, packet) = parse(PACKET).unwrap();
    assert!(rem.is_empty());
    println!("{:?}", packet);
    println!("rem len: {:?}", rem.len());
}

#[test]
pub fn parse_ls_request_multi() {
    const PACKET: &[u8] = &[
        0x02, 0x03, 0x00, 0x6c, 0xc0, 0xa8, 0xaa, 0x08, 0x00, 0x00, 0x00, 0x01, 0x75, 0x95, 0x00, 0x00,
        0x00, 0x00, 0x00, 0x00, 0x00, 0x00, 0x00, 0x00, 0x00, 0x00, 0x00, 0x01, 0xc0, 0xa8, 0xaa, 0x03,
        0xc0, 0xa8, 0xaa, 0x03, 0x00, 0x00, 0x00, 0x05, 0x50, 0xd4, 0x10, 0x00, 0xc0, 0xa8, 0xaa, 0x02,
        0x00, 0x00, 0x00, 0x05, 0x94, 0x79, 0xab, 0x00, 0xc0, 0xa8, 0xaa, 0x02, 0x00, 0x00, 0x00, 0x05,
        0xc0, 0x82, 0x78, 0x00, 0xc0, 0xa8, 0xaa, 0x02, 0x00, 0x00, 0x00, 0x05, 0xc0, 0xa8, 0x00, 0x00,
        0xc0, 0xa8, 0xaa, 0x02, 0x00, 0x00, 0x00, 0x05, 0xc0, 0xa8, 0x01, 0x00, 0xc0, 0xa8, 0xaa, 0x02,
        0x00, 0x00, 0x00, 0x05, 0xc0, 0xa8, 0xac, 0x00, 0xc0, 0xa8, 0xaa, 0x02,
    ];
    let (rem, packet) = parse(PACKET).unwrap();
    assert!(rem.is_empty());
    println!("{:?}", packet);
    println!("rem len: {:?}", rem.len());
}

#[test]
pub fn parse_ls_upd() {
    const PACKET: &[u8] = &[
        0x02, 0x04, 0x00, 0x40, 0xc0, 0xa8, 0xaa, 0x08, 0x00, 0x00, 0x00, 0x01, 0x96, 0x1f, 0x00, 0x00,
        0x00, 0x00, 0x00, 0x00, 0x00, 0x00, 0x00, 0x00, 0x00, 0x00, 0x00, 0x01, 0x03, 0xe2, 0x02, 0x01,
        0xc0, 0xa8, 0xaa, 0x08, 0xc0, 0xa8, 0xaa, 0x08, 0x80, 0x00, 0x0d, 0xc3, 0x25, 0x06, 0x00, 0x24,
        0x02, 0x00, 0x00, 0x01, 0xc0, 0xa8, 0xaa, 0x00, 0xff, 0xff, 0xff, 0x00, 0x03, 0x00, 0x00, 0x0a,
    ];
    let (rem, packet) = parse(PACKET).unwrap();
    assert_eq!(rem.len(), 0);
    println!("{:?}", packet);
    println!("rem len: {:?}", rem.len());
}

#[test]
pub fn parse_ls_upd_multi() {
    const PACKET: &[u8] = &[
        0x02, 0x04, 0x01, 0x24, 0xc0, 0xa8, 0xaa, 0x03, 0x00, 0x00, 0x00, 0x01, 0x36, 0x6b, 0x00, 0x00,
        0x00, 0x00, 0x00, 0x00, 0x00, 0x00, 0x00, 0x00, 0x00, 0x00, 0x00, 0x07, 0x00, 0x02, 0x02, 0x01,
        0xc0, 0xa8, 0xaa, 0x03, 0xc0, 0xa8, 0xaa, 0x03, 0x80, 0x00, 0x00, 0x01, 0x3a, 0x9c, 0x00, 0x30,
        0x02, 0x00, 0x00, 0x02, 0xc0, 0xa8, 0xaa, 0x00, 0xff, 0xff, 0xff, 0x00, 0x03, 0x00, 0x00, 0x0a,
        0xc0, 0xa8, 0xaa, 0x00, 0xff, 0xff, 0xff, 0x00, 0x03, 0x00, 0x00, 0x0a, 0x00, 0x03, 0x02, 0x05,
        0x50, 0xd4, 0x10, 0x00, 0xc0, 0xa8, 0xaa, 0x02, 0x80, 0x00, 0x00, 0x01, 0x2a, 0x49, 0x00, 0x24,
        0xff, 0xff, 0xff, 0xff, 0x80, 0x00, 0x00, 0x14, 0x00, 0x00, 0x00, 0x00, 0x00, 0x00, 0x00, 0x00,
        0x00, 0x03, 0x02, 0x05, 0x94, 0x79, 0xab, 0x00, 0xc0, 0xa8, 0xaa, 0x02, 0x80, 0x00, 0x00, 0x01,
        0x34, 0xa5, 0x00, 0x24, 0xff, 0xff, 0xff, 0x00, 0x80, 0x00, 0x00, 0x14, 0xc0, 0xa8, 0xaa, 0x01,
        0x00, 0x00, 0x00, 0x00, 0x00, 0x03, 0x02, 0x05, 0xc0, 0x82, 0x78, 0x00, 0xc0, 0xa8, 0xaa, 0x02,
        0x80, 0x00, 0x00, 0x01, 0xd3, 0x19, 0x00, 0x24, 0xff, 0xff, 0xff, 0x00, 0x80, 0x00, 0x00, 0x14,
        0x00, 0x00, 0x00, 0x00, 0x00, 0x00, 0x00, 0x00, 0x00, 0x03, 0x02, 0x05, 0xc0, 0xa8, 0x00, 0x00,
        0xc0, 0xa8, 0xaa, 0x02, 0x80, 0x00, 0x00, 0x01, 0x37, 0x08, 0x00, 0x24, 0xff, 0xff, 0xff, 0x00,
        0x80, 0x00, 0x00, 0x14, 0x00, 0x00, 0x00, 0x00, 0x00, 0x00, 0x00, 0x00, 0x00, 0x03, 0x02, 0x05,
        0xc0, 0xa8, 0x01, 0x00, 0xc0, 0xa8, 0xaa, 0x02, 0x80, 0x00, 0x00, 0x01, 0x2c, 0x12, 0x00, 0x24,
        0xff, 0xff, 0xff, 0x00, 0x80, 0x00, 0x00, 0x14, 0x00, 0x00, 0x00, 0x00, 0x00, 0x00, 0x00, 0x00,
        0x00, 0x03, 0x02, 0x05, 0xc0, 0xa8, 0xac, 0x00, 0xc0, 0xa8, 0xaa, 0x02, 0x80, 0x00, 0x00, 0x01,
        0x33, 0x41, 0x00, 0x24, 0xff, 0xff, 0xff, 0x00, 0x80, 0x00, 0x00, 0x14, 0xc0, 0xa8, 0xaa, 0x0a,
        0x00, 0x00, 0x00, 0x00,
    ];
    let (rem, packet) = parse(PACKET).unwrap();
    assert_eq!(rem.len(), 0);
    println!("{:?}", packet);
    println!("rem len: {:?}", rem.len());
}

#[test]
pub fn parse_ls_ack() {
    const PACKET: &[u8] = &[
        0x02, 0x05, 0x00, 0x2c, 0xc0, 0xa8, 0xaa, 0x08, 0x00, 0x00, 0x00, 0x01, 0x02, 0xf2, 0x00, 0x00,
        0x00, 0x00, 0x00, 0x00, 0x00, 0x00, 0x00, 0x00, 0x00, 0x01, 0x02, 0x01, 0xc0, 0xa8, 0xaa, 0x03,
        0xc0, 0xa8, 0xaa, 0x03, 0x80, 0x00, 0x00, 0x02, 0x38, 0x9d, 0x00, 0x30,
    ];
    let (rem, packet) = parse(PACKET).unwrap();
    assert!(rem.is_empty());
    println!("{:?}", packet);
    println!("rem len: {:?}", rem.len());
}
