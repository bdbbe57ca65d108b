//! The RTP packet and its wire format (RFC 3550, section 5.1).
//!
//! ```text
//!  0                   1                   2                   3
//!  0 1 2 3 4 5 6 7 8 9 0 1 2 3 4 5 6 7 8 9 0 1 2 3 4 5 6 7 8 9 0 1
//! +-+-+-+-+-+-+-+-+-+-+-+-+-+-+-+-+-+-+-+-+-+-+-+-+-+-+-+-+-+-+-+-+
//! |V=2|P|X|  CC   |M|     PT      |       sequence number         |
//! +-+-+-+-+-+-+-+-+-+-+-+-+-+-+-+-+-+-+-+-+-+-+-+-+-+-+-+-+-+-+-+-+
//! |                           timestamp                           |
//! +-+-+-+-+-+-+-+-+-+-+-+-+-+-+-+-+-+-+-+-+-+-+-+-+-+-+-+-+-+-+-+-+
//! |           synchronization source (SSRC) identifier            |
//! +=+=+=+=+=+=+=+=+=+=+=+=+=+=+=+=+=+=+=+=+=+=+=+=+=+=+=+=+=+=+=+=+
//! |            contributing source (CSRC) identifiers             |
//! +=+=+=+=+=+=+=+=+=+=+=+=+=+=+=+=+=+=+=+=+=+=+=+=+=+=+=+=+=+=+=+=+
//! |      defined by profile       |           length              |
//! +-+-+-+-+-+-+-+-+-+-+-+-+-+-+-+-+-+-+-+-+-+-+-+-+-+-+-+-+-+-+-+-+
//! |                        header extension                       |
//! +=+=+=+=+=+=+=+=+=+=+=+=+=+=+=+=+=+=+=+=+=+=+=+=+=+=+=+=+=+=+=+=+
//! |                            payload                            |
//! +=+=+=+=+=+=+=+=+=+=+=+=+=+=+=+=+=+=+=+=+=+=+=+=+=+=+=+=+=+=+=+=+
//! ```
//!
//! [`parse`] says which packet a buffer holds and [`PacketView::wire`] says
//! which octets a packet is sent as; [`Packet::from_raw`] and
//! [`Packet::to_raw`] compute exactly these.

use crate::bytes::{
    be16_at, be16_bytes, be32_at, be32_bytes, be32_list_at, be32_list_bytes, copy_range,
    lemma_be16_read_embedded, lemma_be16_written_read, lemma_be32_list_read_embedded,
    lemma_be32_list_written_read, lemma_be32_read_embedded, lemma_be32_written_read,
    lemma_concat_pieces, lemma_subrange_of_subrange, push_range, push_u16_be, push_u32_be,
    push_u32_be_list, read_u16_be, read_u32_be, read_u32_be_list,
};
use crate::errors::RtpPacketError;
use vstd::prelude::*;

verus! {

/// The RTP version that this library reads and writes.
pub const PACKET_VERSION: u8 = 2;

/// The size in octets of the fixed part of an RTP header.
pub const HEADER_SIZE: usize = 12;

/// An RTP packet.
#[derive(Clone, Debug, Default, PartialEq, Eq)]
pub struct Packet {
    /// The protocol version, two bits on the wire.
    pub version: u8,
    /// Whether padding octets follow the payload.
    pub padding: bool,
    /// Whether a header extension follows the CSRC list.
    pub extension: bool,
    /// The marker bit, whose meaning the profile defines.
    pub marker: bool,
    /// The format of the payload, seven bits on the wire.
    pub payload_type: u8,
    /// Counts the packets of a stream, modulo 2^16.
    pub sequence_number: u16,
    /// The sampling instant of the first octet of the payload.
    pub timestamp: u32,
    /// The synchronization source.
    pub ssrc: u32,
    /// The contributing sources, at most fifteen.
    pub csrc: Vec<u32>,
    /// The profile-defined identifier of the header extension.
    pub extension_profile: Option<u16>,
    /// The content of the header extension.
    pub extension_payload: Option<Vec<u8>>,
    /// Where the payload begins in the buffer that the packet was read from.
    pub payload_offset: usize,
    /// The payload.
    pub payload: Vec<u8>,
    /// The buffer that the packet was read from or last written to.
    pub raw: Option<Vec<u8>>,
}

/// The fields of an RTP packet that travel on the wire.
pub struct PacketView {
    pub version: u8,
    pub padding: bool,
    pub extension: bool,
    pub marker: bool,
    pub payload_type: u8,
    pub sequence_number: u16,
    pub timestamp: u32,
    pub ssrc: u32,
    pub csrc: Seq<u32>,
    pub extension_profile: Option<u16>,
    pub extension_payload: Option<Seq<u8>>,
    pub payload: Seq<u8>,
}

/// The octets of an optional buffer.
pub open spec fn optional_bytes(buffer: Option<Vec<u8>>) -> Option<Seq<u8>> {
    match buffer {
        Some(bytes) => Some(bytes@),
        None => None,
    }
}

impl View for Packet {
    type V = PacketView;

    open spec fn view(&self) -> PacketView {
        PacketView {
            version: self.version,
            padding: self.padding,
            extension: self.extension,
            marker: self.marker,
            payload_type: self.payload_type,
            sequence_number: self.sequence_number,
            timestamp: self.timestamp,
            ssrc: self.ssrc,
            csrc: self.csrc@,
            extension_profile: self.extension_profile,
            extension_payload: optional_bytes(self.extension_payload),
            payload: self.payload@,
        }
    }
}

impl PacketView {
    /// Every field fits the width that the header gives it: two bits for
    /// the version, seven for the payload type, four for the number of
    /// contributing sources, and sixteen for the number of 32-bit words of
    /// an extension that is sent.
    pub open spec fn representable(self) -> bool {
        &&& self.version <= 3
        &&& self.payload_type <= 127
        &&& self.csrc.len() <= 15
        &&& self.extension_profile is Some ==> (self.extension_payload matches Some(content)
            ==> content.len() / 4 <= 0xffff)
    }

    /// The extension bit says whether the extension's two fields are there.
    pub open spec fn consistent(self) -> bool {
        &&& self.extension == self.extension_profile.is_some()
        &&& self.extension == self.extension_payload.is_some()
    }

    /// Every field fits its width, and the extension bit agrees with the
    /// extension's fields.
    pub open spec fn well_formed(self) -> bool {
        self.representable() && self.consistent()
    }

    /// The header extension, if it has both its fields, has a payload of a
    /// whole number of 32-bit words.
    pub open spec fn extension_aligned(self) -> bool {
        self.extension_profile is Some ==> (self.extension_payload matches Some(content)
            ==> content.len() % 4 == 0)
    }

    /// The size of the header as the fields give it: the twelve octets of
    /// the fixed header, four for each contributing source and, when there
    /// is an extension payload, the four octets of the extension's profile
    /// and length and the payload itself.
    pub open spec fn header_size(self) -> nat {
        12 + 4 * self.csrc.len() + match self.extension_payload {
            Some(content) => 4 + content.len(),
            None => 0,
        }
    }

    /// The size of the packet as the fields give it: header and payload.
    pub open spec fn packet_size(self) -> nat {
        self.header_size() + self.payload.len()
    }

    /// The number of octets that are sent before the payload: the fixed
    /// header, the contributing sources, and the header extension if it
    /// has both its fields.
    pub open spec fn header_len(self) -> nat {
        12 + 4 * self.csrc.len() + match (self.extension_profile, self.extension_payload) {
            (Some(_), Some(content)) => 4 + content.len(),
            _ => 0,
        }
    }

    /// The number of octets that the whole packet is sent as.
    pub open spec fn wire_len(self) -> nat {
        self.header_len() + self.payload.len()
    }

    /// The first octet of the header: version, padding, extension, CSRC count.
    pub open spec fn first_octet(self) -> u8 {
        (self.version * 64 + (if self.padding { 32int } else { 0 }) + (if self.extension {
            16int
        } else {
            0
        }) + self.csrc.len()) as u8
    }

    /// The second octet of the header: marker and payload type.
    pub open spec fn second_octet(self) -> u8 {
        ((if self.marker { 128int } else { 0 }) + self.payload_type) as u8
    }

    /// The header extension as sent: profile, length in words, content.
    pub open spec fn extension_octets(self) -> Seq<u8> {
        match (self.extension_profile, self.extension_payload) {
            (Some(profile), Some(content)) => be16_bytes(profile) + be16_bytes(
                (content.len() / 4) as u16,
            ) + content,
            _ => Seq::empty(),
        }
    }

    /// The twelve octets of the fixed header.
    pub open spec fn fixed_octets(self) -> Seq<u8> {
        seq![self.first_octet(), self.second_octet()] + be16_bytes(self.sequence_number)
            + be32_bytes(self.timestamp) + be32_bytes(self.ssrc)
    }

    /// The packet as sent: fixed header, CSRC list, header extension, payload.
    pub open spec fn wire(self) -> Seq<u8> {
        self.fixed_octets() + be32_list_bytes(self.csrc) + self.extension_octets() + self.payload
    }
}

/// The packet that the fixed header and the CSRC list of `raw` announce, with
/// the given extension, and as payload everything from `payload_at` on.
pub open spec fn parsed_with(
    raw: Seq<u8>,
    extension_profile: Option<u16>,
    extension_payload: Option<Seq<u8>>,
    payload_at: int,
) -> PacketView {
    PacketView {
        version: raw[0] / 64,
        padding: (raw[0] / 32) % 2 == 1,
        extension: (raw[0] / 16) % 2 == 1,
        marker: raw[1] / 128 == 1,
        payload_type: raw[1] % 128,
        sequence_number: be16_at(raw, 2),
        timestamp: be32_at(raw, 4),
        ssrc: be32_at(raw, 8),
        csrc: be32_list_at(raw, 12, (raw[0] % 16) as nat),
        extension_profile,
        extension_payload,
        payload: raw.subrange(payload_at, raw.len() as int),
    }
}

/// The packet that a buffer holds, or why it holds none.
///
/// A buffer of fewer than four octets is truncated. Then the version must be
/// 2. Then the buffer must reach to the end of the CSRC list and, when the
/// extension bit is set, to the end of the extension that its length field
/// announces. What is left is the payload.
pub open spec fn parse(raw: Seq<u8>) -> Result<PacketView, RtpPacketError> {
    let csrc_end = 12 + 4 * (raw[0] % 16);
    let content_at = csrc_end + 4;
    let content_end = content_at + 4 * be16_at(raw, csrc_end + 2);
    if raw.len() < 4 {
        Err(RtpPacketError::InvalidRtpPacket)
    } else if raw[0] / 64 != 2 {
        Err(RtpPacketError::InvalidRtpVersion { version: raw[0] / 64 })
    } else if raw.len() < csrc_end {
        Err(RtpPacketError::InvalidRtpPacket)
    } else if (raw[0] / 16) % 2 == 0 {
        Ok(parsed_with(raw, None, None, csrc_end))
    } else if raw.len() < content_at || raw.len() < content_end {
        Err(RtpPacketError::InvalidRtpPacket)
    } else {
        Ok(
            parsed_with(
                raw,
                Some(be16_at(raw, csrc_end)),
                Some(raw.subrange(content_at, content_end)),
                content_end,
            ),
        )
    }
}

impl Packet {
    /// Parses a buffer into a packet, keeping a copy of the buffer in `raw`
    /// and the payload's place in `payload_offset`.
    pub fn from_raw(raw_packet: &[u8]) -> (r: Result<Packet, RtpPacketError>)
        ensures
            match r {
                Ok(packet) => {
                    &&& parse(raw_packet@) == Ok::<PacketView, RtpPacketError>(packet@)
                    &&& packet.payload_offset == packet@.header_len()
                    &&& optional_bytes(packet.raw) == Some(raw_packet@)
                },
                Err(e) => parse(raw_packet@) == Err::<PacketView, RtpPacketError>(e),
            },
    {
        let len = raw_packet.len();
        if len < 4 {
            return Err(RtpPacketError::InvalidRtpPacket);
        }
        let first = raw_packet[0];
        let second = raw_packet[1];

        let version = first / 64;
        if version != PACKET_VERSION {
            return Err(RtpPacketError::InvalidRtpVersion { version });
        }
        let padding = (first / 32) % 2 == 1;
        let extension = (first / 16) % 2 == 1;
        let cc: usize = (first % 16) as usize;
        let marker = second / 128 == 1;
        let payload_type = second % 128;

        let mut payload_offset: usize = HEADER_SIZE + 4 * cc;
        if len < payload_offset {
            return Err(RtpPacketError::InvalidRtpPacket);
        }
        let sequence_number = read_u16_be(raw_packet, 2);
        let timestamp = read_u32_be(raw_packet, 4);
        let ssrc = read_u32_be(raw_packet, 8);
        let csrc = read_u32_be_list(raw_packet, HEADER_SIZE, cc);

        let mut extension_profile: Option<u16> = None;
        let mut extension_payload: Option<Vec<u8>> = None;
        if extension {
            if len - payload_offset < 4 {
                return Err(RtpPacketError::InvalidRtpPacket);
            }
            let profile = read_u16_be(raw_packet, payload_offset);
            let words = read_u16_be(raw_packet, payload_offset + 2);
            let content_len: usize = 4 * (words as usize);
            payload_offset += 4;
            if len - payload_offset < content_len {
                return Err(RtpPacketError::InvalidRtpPacket);
            }
            extension_profile = Some(profile);
            extension_payload = Some(
                copy_range(raw_packet, payload_offset, payload_offset + content_len),
            );
            payload_offset += content_len;
        }
        let payload = copy_range(raw_packet, payload_offset, len);
        let raw = copy_range(raw_packet, 0, len);
        assert(raw@ =~= raw_packet@);

        Ok(
            Packet {
                version,
                padding,
                extension,
                marker,
                payload_type,
                sequence_number,
                timestamp,
                ssrc,
                csrc,
                extension_profile,
                extension_payload,
                payload_offset,
                payload,
                raw: Some(raw),
            },
        )
    }

    /// Whether every field fits the width that the header gives it.
    pub fn is_representable(&self) -> (ok: bool)
        ensures
            ok == self@.representable(),
    {
        let fits = match (&self.extension_profile, &self.extension_payload) {
            (Some(_), Some(content)) => content.len() / 4 <= 0xffff,
            _ => true,
        };
        self.version <= 3 && self.payload_type <= 127 && self.csrc.len() <= 15 && fits
    }

    /// Whether every field fits its width and the extension bit says
    /// whether the extension's two fields are there.
    pub fn is_well_formed(&self) -> (ok: bool)
        ensures
            ok == self@.well_formed(),
    {
        self.is_representable() && self.extension == self.extension_profile.is_some()
            && self.extension == self.extension_payload.is_some()
    }

    /// Serializes the packet from its fields.
    ///
    /// The extension bit is sent as the field `extension` has it; the
    /// extension itself is sent when both its profile and its payload are
    /// there. The only packet that is not emitted is one whose extension
    /// would be sent and is not a whole number of 32-bit words. The buffer
    /// kept in `raw` is not consulted, so a packet whose fields were changed
    /// after parsing is sent as it now stands. Padding octets are the
    /// caller's to put at the end of the payload.
    pub fn to_raw(&self) -> (r: Result<Vec<u8>, RtpPacketError>)
        requires
            self@.representable(),
        ensures
            match r {
                Ok(buffer) => self@.extension_aligned() && buffer@ == self@.wire(),
                Err(e) => {
                    &&& !self@.extension_aligned()
                    &&& self.extension_payload matches Some(content) && e == (
                    RtpPacketError::InvalidRtpHeaderExtension { length: content.len() })
                },
            },
    {
        if let (Some(_), Some(content)) = (&self.extension_profile, &self.extension_payload) {
            if content.len() % 4 != 0 {
                return Err(RtpPacketError::InvalidRtpHeaderExtension { length: content.len() });
            }
        }
        let mut buffer: Vec<u8> = Vec::new();

        let mut first: u8 = self.version * 64 + self.csrc.len() as u8;
        if self.padding {
            first += 32;
        }
        if self.extension {
            first += 16;
        }
        let mut second: u8 = self.payload_type;
        if self.marker {
            second += 128;
        }
        buffer.push(first);
        buffer.push(second);
        push_u16_be(&mut buffer, self.sequence_number);
        push_u32_be(&mut buffer, self.timestamp);
        push_u32_be(&mut buffer, self.ssrc);
        assert(buffer@ =~= self@.fixed_octets());
        push_u32_be_list(&mut buffer, self.csrc.as_slice());

        let ghost head = buffer@;
        if let (Some(profile), Some(content)) = (&self.extension_profile, &self.extension_payload) {
            push_u16_be(&mut buffer, *profile);
            push_u16_be(&mut buffer, (content.len() / 4) as u16);
            push_range(&mut buffer, content.as_slice(), 0, content.len());
            assert(content@.subrange(0, content@.len() as int) =~= content@);
        }
        assert(buffer@ =~= head + self@.extension_octets());
        push_range(&mut buffer, self.payload.as_slice(), 0, self.payload.len());
        assert(self.payload@.subrange(0, self.payload@.len() as int) =~= self.payload@);
        Ok(buffer)
    }

    /// Serializes the packet as [`Packet::to_raw`] does and keeps a copy of
    /// the result in `raw`. A packet that is not emitted is left as it was.
    pub fn to_raw_mut(&mut self) -> (r: Result<Vec<u8>, RtpPacketError>)
        requires
            old(self)@.representable(),
        ensures
            final(self)@ == old(self)@,
            final(self).payload_offset == old(self).payload_offset,
            match r {
                Ok(buffer) => {
                    &&& old(self)@.extension_aligned()
                    &&& buffer@ == old(self)@.wire()
                    &&& optional_bytes(final(self).raw) == Some(buffer@)
                },
                Err(e) => {
                    &&& !old(self)@.extension_aligned()
                    &&& old(self).extension_payload matches Some(content) && e == (
                    RtpPacketError::InvalidRtpHeaderExtension { length: content.len() })
                    &&& optional_bytes(final(self).raw) == optional_bytes(old(self).raw)
                },
            },
    {
        match self.to_raw() {
            Ok(buffer) => {
                self.raw = Some(copy_range(buffer.as_slice(), 0, buffer.len()));
                assert(buffer@.subrange(0, buffer@.len() as int) =~= buffer@);
                Ok(buffer)
            },
            Err(e) => Err(e),
        }
    }

    /// The size of the header: twelve octets, four for each contributing
    /// source and, when there is an extension payload, four more and the
    /// payload's length.
    pub fn header_size(&self) -> (size: usize)
        requires
            self@.header_size() <= usize::MAX,
        ensures
            size == self@.header_size(),
    {
        let mut size: usize = HEADER_SIZE + self.csrc.len() * 4;
        if let Some(content) = &self.extension_payload {
            size += 4 + content.len();
        }
        size
    }

    /// The size of the packet: its header and its payload.
    pub fn packet_size(&self) -> (size: usize)
        requires
            self@.packet_size() <= usize::MAX,
        ensures
            size == self@.packet_size(),
    {
        self.header_size() + self.payload.len()
    }
}

/// The sizes that the fields give are the numbers of octets sent, for a
/// packet whose extension has both its fields or neither.
pub proof fn lemma_sizes_are_sent(packet: PacketView)
    requires
        packet.extension_profile is Some <==> packet.extension_payload is Some,
    ensures
        packet.header_size() == packet.header_len(),
        packet.packet_size() == packet.wire_len(),
        packet.packet_size() == packet.wire().len(),
{
}

/// A packet is sent as `wire_len` octets, of which the first `header_len`
/// are its header and the others its payload.
pub proof fn lemma_wire_len(packet: PacketView)
    ensures
        packet.wire().len() == packet.wire_len(),
        packet.wire().subrange(packet.header_len() as int, packet.wire_len() as int)
            == packet.payload,
{
    assert(packet.wire().subrange(packet.header_len() as int, packet.wire_len() as int)
        =~= packet.payload);
}

/// Parsing and then serializing gives back the buffer: whatever `parse`
/// accepts is a well-formed packet of version 2 with an aligned extension,
/// and its wire form is the buffer it was parsed from, octet for octet.
pub proof fn lemma_parse_then_wire(raw: Seq<u8>)
    requires
        parse(raw) is Ok,
    ensures
        parse(raw)->Ok_0.well_formed(),
        parse(raw)->Ok_0.extension_aligned(),
        parse(raw)->Ok_0.version == 2,
        parse(raw)->Ok_0.wire() == raw,
{
    let packet = parse(raw)->Ok_0;
    let cc = (raw[0] % 16) as nat;
    let csrc_end: int = 12 + 4 * (cc as int);
    lemma_be16_written_read(raw, 2);
    lemma_be32_written_read(raw, 4);
    lemma_be32_written_read(raw, 8);
    lemma_be32_list_written_read(raw, 12, cc);
    let fixed = packet.fixed_octets();
    assert(fixed =~= raw.subrange(0, 12));
    let with_csrc = fixed + be32_list_bytes(packet.csrc);
    assert(with_csrc =~= raw.subrange(0, csrc_end));
    if packet.extension {
        let content_at = csrc_end + 4;
        let words = be16_at(raw, csrc_end + 2);
        let content_end = content_at + 4 * words;
        lemma_be16_written_read(raw, csrc_end);
        lemma_be16_written_read(raw, csrc_end + 2);
        assert(packet.extension_payload->Some_0.len() == 4 * words);
        assert(packet.extension_octets() =~= raw.subrange(csrc_end, content_end));
        assert(packet.wire() =~= raw);
    } else {
        assert(packet.extension_octets() =~= Seq::<u8>::empty());
        assert(packet.wire() =~= raw);
    }
}

/// Where each part of a packet lies in what it is sent as.
proof fn lemma_wire_pieces(packet: PacketView)
    ensures
        ({
            let raw = packet.wire();
            let csrc_end = 12 + 4 * (packet.csrc.len() as int);
            let payload_at = csrc_end + packet.extension_octets().len();
            &&& raw.len() == payload_at + packet.payload.len()
            &&& raw.subrange(0, 12) == packet.fixed_octets()
            &&& raw.subrange(12, csrc_end) == be32_list_bytes(packet.csrc)
            &&& raw.subrange(csrc_end, payload_at) == packet.extension_octets()
            &&& raw.subrange(payload_at, raw.len() as int) == packet.payload
        }),
{
    let raw = packet.wire();
    let csrc_end: int = 12 + 4 * (packet.csrc.len() as int);
    let payload_at: int = csrc_end + packet.extension_octets().len();
    let head = packet.fixed_octets() + be32_list_bytes(packet.csrc);
    let header = head + packet.extension_octets();
    lemma_concat_pieces(packet.fixed_octets(), be32_list_bytes(packet.csrc));
    lemma_concat_pieces(head, packet.extension_octets());
    lemma_concat_pieces(header, packet.payload);
    assert(raw.subrange(0, 12) =~= header.subrange(0, csrc_end).subrange(0, 12));
    assert(raw.subrange(12, csrc_end) =~= header.subrange(0, csrc_end).subrange(12, csrc_end));
    assert(raw.subrange(csrc_end, payload_at) =~= header.subrange(csrc_end, payload_at));
}

/// Where the fields of the fixed header lie in its twelve octets.
proof fn lemma_fixed_octets_pieces(packet: PacketView)
    ensures
        packet.fixed_octets().len() == 12,
        packet.fixed_octets()[0] == packet.first_octet(),
        packet.fixed_octets()[1] == packet.second_octet(),
        packet.fixed_octets().subrange(2, 4) == be16_bytes(packet.sequence_number),
        packet.fixed_octets().subrange(4, 8) == be32_bytes(packet.timestamp),
        packet.fixed_octets().subrange(8, 12) == be32_bytes(packet.ssrc),
{
    let fixed = packet.fixed_octets();
    assert(fixed.subrange(2, 4) =~= be16_bytes(packet.sequence_number));
    assert(fixed.subrange(4, 8) =~= be32_bytes(packet.timestamp));
    assert(fixed.subrange(8, 12) =~= be32_bytes(packet.ssrc));
}

/// The fields of the fixed header are read back from any buffer that begins
/// with the twelve octets written for them.
proof fn lemma_fixed_octets_read(packet: PacketView, raw: Seq<u8>)
    requires
        packet.well_formed(),
        raw.len() >= 12,
        raw.subrange(0, 12) == packet.fixed_octets(),
    ensures
        raw[0] == packet.first_octet(),
        raw[1] == packet.second_octet(),
        be16_at(raw, 2) == packet.sequence_number,
        be32_at(raw, 4) == packet.timestamp,
        be32_at(raw, 8) == packet.ssrc,
{
    lemma_fixed_octets_pieces(packet);
    assert(raw[0] == raw.subrange(0, 12)[0]);
    assert(raw[1] == raw.subrange(0, 12)[1]);
    lemma_subrange_of_subrange(raw, 0, 12, 2, 4);
    lemma_subrange_of_subrange(raw, 0, 12, 4, 8);
    lemma_subrange_of_subrange(raw, 0, 12, 8, 12);
    lemma_be16_read_embedded(packet.sequence_number, raw, 2);
    lemma_be32_read_embedded(packet.timestamp, raw, 4);
    lemma_be32_read_embedded(packet.ssrc, raw, 8);
}

/// The bit fields of a well-formed packet are read back from the two
/// octets written for them.
proof fn lemma_bit_fields_read(packet: PacketView)
    requires
        packet.well_formed(),
    ensures
        packet.first_octet() / 64 == packet.version,
        ((packet.first_octet() / 32) % 2 == 1) == packet.padding,
        ((packet.first_octet() / 16) % 2 == 1) == packet.extension,
        packet.first_octet() % 16 == packet.csrc.len(),
        (packet.second_octet() / 128 == 1) == packet.marker,
        packet.second_octet() % 128 == packet.payload_type,
{
}

/// The header extension is read back from any buffer that holds, at `at`,
/// the octets written for it.
proof fn lemma_extension_read(profile: u16, content: Seq<u8>, raw: Seq<u8>, at: int)
    requires
        content.len() % 4 == 0,
        content.len() / 4 <= 0xffff,
        0 <= at,
        at + 4 + content.len() <= raw.len(),
        raw.subrange(at, at + 4 + content.len()) == be16_bytes(profile) + be16_bytes(
            (content.len() / 4) as u16,
        ) + content,
    ensures
        be16_at(raw, at) == profile,
        4 * be16_at(raw, at + 2) == content.len(),
        raw.subrange(at + 4, at + 4 + content.len()) == content,
{
    let words = (content.len() / 4) as u16;
    let head = be16_bytes(profile) + be16_bytes(words);
    let end = at + 4 + content.len();
    lemma_concat_pieces(be16_bytes(profile), be16_bytes(words));
    lemma_concat_pieces(head, content);
    lemma_subrange_of_subrange(raw, at, end, 0, 4);
    lemma_subrange_of_subrange(raw, at, end, 4, 4 + (content.len() as int));
    lemma_subrange_of_subrange(raw, at, at + 4, 0, 2);
    lemma_subrange_of_subrange(raw, at, at + 4, 2, 4);
    assert(raw.subrange(at, at + 4) == head);
    lemma_be16_read_embedded(profile, raw, at);
    lemma_be16_read_embedded(words, raw, at + 2);
}

/// Serializing and then parsing gives back the packet: the wire form of a
/// well-formed packet of version 2 with an aligned extension parses to that
/// packet.
pub proof fn lemma_wire_then_parse(packet: PacketView)
    requires
        packet.well_formed(),
        packet.extension_aligned(),
        packet.version == 2,
    ensures
        parse(packet.wire()) == Ok::<PacketView, RtpPacketError>(packet),
{
    let raw = packet.wire();
    let csrc_end: int = 12 + 4 * (packet.csrc.len() as int);
    lemma_wire_pieces(packet);
    lemma_fixed_octets_read(packet, raw);
    lemma_bit_fields_read(packet);
    lemma_be32_list_read_embedded(packet.csrc, raw, 12);
    match (packet.extension_profile, packet.extension_payload) {
        (Some(profile), Some(content)) => {
            lemma_extension_read(profile, content, raw, csrc_end);
        },
        _ => {},
    }
}

} // verus!
