//! What every RTCP packet of this library can do.

use crate::errors::RtcpPacketError;
use vstd::prelude::*;

verus! {

/// An RTCP packet with a wire format.
///
/// An implementation writes its format down twice, as the four
/// specification functions below, over the packet's view; its four methods
/// are then bound to compute exactly what those say.
pub trait Packet: Sized + View {
    /// The packet that a buffer holds, if it holds one.
    spec fn parse_spec(raw: Seq<u8>) -> Option<Self::V>;

    /// The octets that a packet is sent as, if it can be sent.
    spec fn wire_spec(packet: Self::V) -> Option<Seq<u8>>;

    /// The number of octets that a packet takes on the wire.
    spec fn length_spec(packet: Self::V) -> nat;

    /// The synchronization sources that a packet refers to.
    spec fn sources_spec(packet: Self::V) -> Seq<u32>;

    /// Parses a buffer. A buffer that holds no packet of this kind is
    /// rejected whole.
    fn from_raw(raw_packet: &[u8]) -> (r: Result<Self, RtcpPacketError>)
        ensures
            match r {
                Ok(packet) => Self::parse_spec(raw_packet@) == Some(packet@),
                Err(_) => Self::parse_spec(raw_packet@) is None,
            },
    ;

    /// Serializes the packet, or says that it cannot be sent.
    fn to_raw(&self) -> (r: Result<Vec<u8>, RtcpPacketError>)
        ensures
            match r {
                Ok(buffer) => Self::wire_spec(self@) == Some(buffer@),
                Err(_) => Self::wire_spec(self@) is None,
            },
    ;

    /// The number of octets that the packet takes on the wire.
    fn length(&self) -> (length: usize)
        requires
            Self::length_spec(self@) <= usize::MAX,
        ensures
            length == Self::length_spec(self@),
    ;

    /// The synchronization sources that the packet refers to.
    fn synchronization_sources(&self) -> (sources: Vec<u32>)
        ensures
            sources@ == Self::sources_spec(self@),
    ;
}

} // verus!
