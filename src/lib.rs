//! Encoding and decoding of OSPFv2 packets.
//!
//! `parse` decodes one packet from a buffer that holds exactly that packet;
//! `Ospfv2Packet::emit` appends a packet to a `BytesMut`, computing its length
//! and checksum fields. Both are stated against the byte layouts in `packet`
//! and `lsa`, and `laws` proves what holds between them.

pub mod buf;
pub mod checksum;
pub mod laws;
pub mod lsa;
pub mod packet;
pub mod types;
pub mod wire;

pub use lsa::{
    AsExternalLsa, NetworkLsa, OspfLsa, OspfLsaHeader, OspfLsaPayload, OspfRouterTOS,
    OspfTosRoute, RouterLsa, RouterLsaLink, SummaryLsa, UnknownLsa,
};
pub use packet::{
    parse, validate_checksum, EncodeError, OspfDbDesc, OspfHello, OspfLsAck, OspfLsRequest,
    OspfLsRequestEntry, OspfLsUpdate, OspfUnknown, Ospfv2Auth, Ospfv2Packet, Ospfv2Payload,
    OSPF_VERSION,
};
pub use types::{
    parse_ipv4addr_vec, DbDescFlags, Ipv4Address, OspfLsType, OspfOptions, OspfRouterLinkType,
    OspfType,
};
pub use wire::{many0, DecodeError, Emit, ParseBe};
