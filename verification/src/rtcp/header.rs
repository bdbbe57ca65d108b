//! The four octets that every RTCP packet begins with.
//!
//! ```text
//!  0                   1                   2                   3
//!  0 1 2 3 4 5 6 7 8 9 0 1 2 3 4 5 6 7 8 9 0 1 2 3 4 5 6 7 8 9 0 1
//! +-+-+-+-+-+-+-+-+-+-+-+-+-+-+-+-+-+-+-+-+-+-+-+-+-+-+-+-+-+-+-+-+
//! |V=2|P|    RC   |      PT       |             length            |
//! +-+-+-+-+-+-+-+-+-+-+-+-+-+-+-+-+-+-+-+-+-+-+-+-+-+-+-+-+-+-+-+-+
//! ```

use crate::bytes::{
    be16_at, be16_bytes, lemma_be16_read_written, lemma_be16_written_read, push_u16_be,
    read_u16_be,
};
use crate::errors::RtcpPacketError;
use vstd::prelude::*;
use vstd::std_specs::convert::FromSpecImpl;

verus! {

/// The RTCP version that this library reads and writes.
pub const RTCP_VERSION: u8 = 2;

/// The size in octets of the common header.
pub const HEADER_LENGTH: usize = 4;

/// The kinds of RTCP packet, as RFC 3550 and RFC 4585 number them.
#[derive(Clone, Copy, Debug, PartialEq, Eq, Structural)]
pub enum PacketType {
    /// Sender Report, 200.
    SenderReport,
    /// Receiver Report, 201.
    ReceiverReport,
    /// Source Description, 202.
    SourceDescription,
    /// Goodbye, 203.
    Goodbye,
    /// Application Defined, 204.
    ApplicationDefined,
    /// Transport Specific Feedback, 205.
    TransportSpecificFeedback,
    /// Payload Specific Feedback, 206.
    PayloadSpecificFeedback,
    /// Any other number; emitted as 0.
    Unknown,
}

impl PacketType {
    /// The packet type that an octet of the header names.
    pub open spec fn of_code(code: u8) -> PacketType {
        if code == 200 {
            PacketType::SenderReport
        } else if code == 201 {
            PacketType::ReceiverReport
        } else if code == 202 {
            PacketType::SourceDescription
        } else if code == 203 {
            PacketType::Goodbye
        } else if code == 204 {
            PacketType::ApplicationDefined
        } else if code == 205 {
            PacketType::TransportSpecificFeedback
        } else if code == 206 {
            PacketType::PayloadSpecificFeedback
        } else {
            PacketType::Unknown
        }
    }

    /// The octet that names the packet type in a header.
    pub open spec fn code(self) -> u8 {
        match self {
            PacketType::SenderReport => 200,
            PacketType::ReceiverReport => 201,
            PacketType::SourceDescription => 202,
            PacketType::Goodbye => 203,
            PacketType::ApplicationDefined => 204,
            PacketType::TransportSpecificFeedback => 205,
            PacketType::PayloadSpecificFeedback => 206,
            PacketType::Unknown => 0,
        }
    }

    /// The short name of the packet type, as a sequence of characters.
    pub open spec fn name(self) -> Seq<char> {
        match self {
            PacketType::SenderReport => "SR"@,
            PacketType::ReceiverReport => "RR"@,
            PacketType::SourceDescription => "SD"@,
            PacketType::Goodbye => "BYE"@,
            PacketType::ApplicationDefined => "APP"@,
            PacketType::TransportSpecificFeedback => "TSFB"@,
            PacketType::PayloadSpecificFeedback => "PSFB"@,
            PacketType::Unknown => "UNKNOWN"@,
        }
    }

    /// The octet that names the packet type in a header.
    pub fn to_u8(self) -> (code: u8)
        ensures
            code == self.code(),
    {
        match self {
            PacketType::SenderReport => 200,
            PacketType::ReceiverReport => 201,
            PacketType::SourceDescription => 202,
            PacketType::Goodbye => 203,
            PacketType::ApplicationDefined => 204,
            PacketType::TransportSpecificFeedback => 205,
            PacketType::PayloadSpecificFeedback => 206,
            PacketType::Unknown => 0,
        }
    }

    /// The short name of the packet type.
    pub fn as_str(self) -> (name: &'static str)
        ensures
            name@ == self.name(),
    {
        match self {
            PacketType::SenderReport => "SR",
            PacketType::ReceiverReport => "RR",
            PacketType::SourceDescription => "SD",
            PacketType::Goodbye => "BYE",
            PacketType::ApplicationDefined => "APP",
            PacketType::TransportSpecificFeedback => "TSFB",
            PacketType::PayloadSpecificFeedback => "PSFB",
            PacketType::Unknown => "UNKNOWN",
        }
    }
}

impl From<u8> for PacketType {
    fn from(byte: u8) -> (packet_type: PacketType) {
        match byte {
            200 => PacketType::SenderReport,
            201 => PacketType::ReceiverReport,
            202 => PacketType::SourceDescription,
            203 => PacketType::Goodbye,
            204 => PacketType::ApplicationDefined,
            205 => PacketType::TransportSpecificFeedback,
            206 => PacketType::PayloadSpecificFeedback,
            _ => PacketType::Unknown,
        }
    }
}

impl FromSpecImpl<u8> for PacketType {
    open spec fn obeys_from_spec() -> bool {
        true
    }

    open spec fn from_spec(byte: u8) -> PacketType {
        PacketType::of_code(byte)
    }
}

/// The common header of an RTCP packet.
#[derive(Clone, Copy, Debug, PartialEq, Eq, Structural)]
pub struct Header {
    /// Whether padding octets end the packet.
    pub padding: bool,
    /// The number of report blocks or sources, five bits on the wire.
    pub report_count: u8,
    /// The kind of packet.
    pub packet_type: PacketType,
    /// The length field: the packet's size in 32-bit words, minus one.
    pub length: u16,
}

/// The header that a buffer begins with, if it has four octets and its
/// version is 2.
pub open spec fn parse_header(raw: Seq<u8>) -> Option<Header> {
    if raw.len() < 4 || raw[0] / 64 != 2 {
        None
    } else {
        Some(
            Header {
                padding: (raw[0] / 32) % 2 == 1,
                report_count: raw[0] % 32,
                packet_type: PacketType::of_code(raw[1]),
                length: be16_at(raw, 2),
            },
        )
    }
}

impl Header {
    /// The header as sent.
    pub open spec fn wire(self) -> Seq<u8> {
        seq![
            (128 + (if self.padding { 32int } else { 0 }) + self.report_count) as u8,
            self.packet_type.code(),
        ] + be16_bytes(self.length)
    }

    /// Parses the header at the start of a buffer.
    pub fn from_raw(raw_packet: &[u8]) -> (r: Result<Header, RtcpPacketError>)
        ensures
            match r {
                Ok(header) => parse_header(raw_packet@) == Some(header),
                Err(_) => parse_header(raw_packet@) is None,
            },
    {
        if raw_packet.len() < HEADER_LENGTH {
            return Err(RtcpPacketError::InvalidRtcpPacket);
        }
        let first = raw_packet[0];
        if first / 64 != RTCP_VERSION {
            return Err(RtcpPacketError::InvalidRtcpPacket);
        }
        Ok(
            Header {
                padding: (first / 32) % 2 == 1,
                report_count: first % 32,
                packet_type: PacketType::from(raw_packet[1]),
                length: read_u16_be(raw_packet, 2),
            },
        )
    }

    /// Serializes the header, unless its count does not fit five bits.
    pub fn to_raw(&self) -> (r: Result<Vec<u8>, RtcpPacketError>)
        ensures
            match r {
                Ok(buffer) => self.report_count <= 31 && buffer@ == self.wire(),
                Err(_) => self.report_count > 31,
            },
    {
        if self.report_count > 31 {
            return Err(RtcpPacketError::InvalidRtcpPacket);
        }
        let mut first: u8 = RTCP_VERSION * 64 + self.report_count;
        if self.padding {
            first += 32;
        }
        let mut buffer: Vec<u8> = Vec::new();
        buffer.push(first);
        buffer.push(self.packet_type.to_u8());
        push_u16_be(&mut buffer, self.length);
        assert(buffer@ =~= self.wire());
        Ok(buffer)
    }
}

/// A header whose count fits five bits is read back from any buffer that
/// begins with the octets written for it.
pub proof fn lemma_header_wire_then_parse(header: Header, raw: Seq<u8>)
    requires
        header.report_count <= 31,
        raw.len() >= 4,
        raw.subrange(0, 4) == header.wire(),
    ensures
        parse_header(raw) == Some(header),
{
    let wire = header.wire();
    assert(raw[0] == raw.subrange(0, 4)[0]);
    assert(raw[1] == raw.subrange(0, 4)[1]);
    assert(raw[2] == raw.subrange(0, 4)[2]);
    assert(raw[3] == raw.subrange(0, 4)[3]);
    lemma_be16_read_written(header.length);
    assert(be16_at(raw, 2) == be16_at(be16_bytes(header.length), 0));
}

/// A parsed header is written as the four octets it was read from, when
/// the second octet is the number of a known packet type or zero.
pub proof fn lemma_header_parse_then_wire(raw: Seq<u8>)
    requires
        parse_header(raw) is Some,
        PacketType::of_code(raw[1]).code() == raw[1],
    ensures
        parse_header(raw)->Some_0.report_count <= 31,
        parse_header(raw)->Some_0.wire() == raw.subrange(0, 4),
{
    lemma_be16_written_read(raw, 2);
    assert(parse_header(raw)->Some_0.wire() =~= raw.subrange(0, 4));
}

} // verus!
