//! The Goodbye packet (RFC 3550, section 6.6).
//!
//! ```text
//!        0                   1                   2                   3
//!        0 1 2 3 4 5 6 7 8 9 0 1 2 3 4 5 6 7 8 9 0 1 2 3 4 5 6 7 8 9 0 1
//!       +-+-+-+-+-+-+-+-+-+-+-+-+-+-+-+-+-+-+-+-+-+-+-+-+-+-+-+-+-+-+-+-+
//!       |V=2|P|    SC   |   PT=BYE=203  |             length            |
//!       +-+-+-+-+-+-+-+-+-+-+-+-+-+-+-+-+-+-+-+-+-+-+-+-+-+-+-+-+-+-+-+-+
//!       |                           SSRC/CSRC                           |
//!       +-+-+-+-+-+-+-+-+-+-+-+-+-+-+-+-+-+-+-+-+-+-+-+-+-+-+-+-+-+-+-+-+
//!       :                              ...                              :
//!       +=+=+=+=+=+=+=+=+=+=+=+=+=+=+=+=+=+=+=+=+=+=+=+=+=+=+=+=+=+=+=+=+
//! (opt) |     length    |               reason for leaving            ...
//!       +-+-+-+-+-+-+-+-+-+-+-+-+-+-+-+-+-+-+-+-+-+-+-+-+-+-+-+-+-+-+-+-+
//! ```
//!
//! The reason is UTF-8 text of at most 255 octets, after one octet that
//! gives its length; zero octets fill the packet up to a multiple of four.

use crate::bytes::{
    be32_list_at, be32_list_bytes, copy_range, lemma_be32_list_read_embedded,
    lemma_be32_list_written_read, push_range, push_u32_be_list, read_u32_be_list,
};
use crate::errors::RtcpPacketError;
use crate::rtcp::header::{
    lemma_header_parse_then_wire, lemma_header_wire_then_parse, parse_header, Header, PacketType,
    HEADER_LENGTH,
};
use crate::rtcp::packet::Packet;
use vstd::prelude::*;
use vstd::utf8::{
    decode_utf8, decode_utf8_encode_utf8, encode_utf8, encode_utf8_decode_utf8,
    encode_utf8_valid_utf8, valid_utf8,
};

verus! {

/// The largest number of sources that a Goodbye can name.
pub const SSRC_MAX_COUNT: usize = 31;

/// The largest number of octets that the reason can take.
pub const REASON_MAX_LENGTH: usize = 255;

/// A Goodbye packet: the sources that leave, and why.
#[derive(Clone, Debug, PartialEq, Eq)]
pub struct Goodbye {
    /// The common header; its count is the number of sources.
    pub header: Header,
    /// The sources that leave.
    pub sources: Vec<u32>,
    /// The reason for leaving.
    pub reason: Option<String>,
}

/// The fields of a Goodbye packet.
pub struct GoodbyeView {
    pub header: Header,
    pub sources: Seq<u32>,
    pub reason: Option<Seq<char>>,
}

/// The characters of an optional text.
pub open spec fn optional_text(text: Option<String>) -> Option<Seq<char>> {
    match text {
        Some(text) => Some(text@),
        None => None,
    }
}

impl View for Goodbye {
    type V = GoodbyeView;

    open spec fn view(&self) -> GoodbyeView {
        GoodbyeView {
            header: self.header,
            sources: self.sources@,
            reason: optional_text(self.reason),
        }
    }
}

/// `n` zero octets.
pub open spec fn zeros(n: nat) -> Seq<u8> {
    Seq::new(n, |i: int| 0u8)
}

/// The number of octets that fill `n` octets up to a multiple of four.
pub open spec fn padding_for(n: nat) -> nat {
    ((4 - n % 4) % 4) as nat
}

/// The Goodbye that a buffer holds, if it holds one.
///
/// The buffer must begin with a header of version 2 that names a Goodbye,
/// be a multiple of four octets long, and have room for as many sources
/// as the header counts. If octets follow the sources, the first is the
/// length of the reason, which must lie within the buffer and be UTF-8;
/// what follows the reason is padding and is not looked at.
pub open spec fn parse_goodbye(raw: Seq<u8>) -> Option<GoodbyeView> {
    match parse_header(raw) {
        Some(header) => {
            let reason_at = 4 + 4 * header.report_count;
            let text = raw.subrange(reason_at + 1, reason_at + 1 + raw[reason_at]);
            let sources = be32_list_at(raw, 4, header.report_count as nat);
            if header.packet_type != PacketType::Goodbye || raw.len() % 4 != 0 || raw.len()
                < reason_at {
                None
            } else if raw.len() == reason_at {
                Some(GoodbyeView { header, sources, reason: None })
            } else if raw.len() < reason_at + 1 + raw[reason_at] || !valid_utf8(text) {
                None
            } else {
                Some(GoodbyeView { header, sources, reason: Some(decode_utf8(text)) })
            }
        },
        None => None,
    }
}

impl GoodbyeView {
    /// The header's count fits its five bits, there are at most 31
    /// sources, and the reason takes at most 255 octets.
    pub open spec fn emittable(self) -> bool {
        &&& self.header.report_count <= 31
        &&& self.sources.len() <= 31
        &&& self.reason matches Some(text) ==> encode_utf8(text).len() <= 255
    }

    /// The reason as sent: its length in one octet, then its UTF-8 octets.
    pub open spec fn reason_octets(self) -> Seq<u8> {
        match self.reason {
            Some(text) => seq![encode_utf8(text).len() as u8] + encode_utf8(text),
            None => Seq::empty(),
        }
    }

    /// The packet as sent, before padding: header, sources, reason.
    pub open spec fn unpadded(self) -> Seq<u8> {
        self.header.wire() + be32_list_bytes(self.sources) + self.reason_octets()
    }

    /// The packet as sent: header, sources, reason, and zero octets up to
    /// a multiple of four.
    pub open spec fn wire(self) -> Seq<u8> {
        self.unpadded() + zeros(padding_for(self.unpadded().len()))
    }

    /// The number of octets of the packet as sent.
    pub open spec fn wire_len(self) -> nat {
        let unpadded = 4 + 4 * self.sources.len() + match self.reason {
            Some(text) => 1 + encode_utf8(text).len(),
            None => 0,
        };
        unpadded + padding_for(unpadded)
    }
}

/// Decodes UTF-8 octets with `String::from_utf8`, which checks that the
/// octets are valid UTF-8 and, if they are, makes them the content of a
/// `String`; any other octets it refuses.
#[verifier::external_body]
fn string_from_utf8(octets: Vec<u8>) -> (text: Option<String>)
    ensures
        text is Some <==> valid_utf8(octets@),
        text matches Some(t) ==> t@ == decode_utf8(octets@),
{
    String::from_utf8(octets).ok()
}

impl Packet for Goodbye {
    open spec fn parse_spec(raw: Seq<u8>) -> Option<GoodbyeView> {
        parse_goodbye(raw)
    }

    open spec fn wire_spec(packet: GoodbyeView) -> Option<Seq<u8>> {
        if packet.emittable() {
            Some(packet.wire())
        } else {
            None
        }
    }

    open spec fn length_spec(packet: GoodbyeView) -> nat {
        packet.wire_len()
    }

    open spec fn sources_spec(packet: GoodbyeView) -> Seq<u32> {
        packet.sources
    }

    fn from_raw(raw_packet: &[u8]) -> (r: Result<Goodbye, RtcpPacketError>) {
        let header = match Header::from_raw(raw_packet) {
            Ok(header) => header,
            Err(e) => {
                return Err(e);
            },
        };
        let len = raw_packet.len();
        if header.packet_type != PacketType::Goodbye || len % 4 != 0 {
            return Err(RtcpPacketError::InvalidRtcpPacket);
        }
        let count: usize = header.report_count as usize;
        let reason_at: usize = HEADER_LENGTH + 4 * count;
        if len < reason_at {
            return Err(RtcpPacketError::InvalidRtcpPacket);
        }
        let reason = if reason_at < len {
            let text_len: usize = raw_packet[reason_at] as usize;
            if len - reason_at - 1 < text_len {
                return Err(RtcpPacketError::InvalidRtcpPacket);
            }
            let octets = copy_range(raw_packet, reason_at + 1, reason_at + 1 + text_len);
            match string_from_utf8(octets) {
                Some(text) => Some(text),
                None => {
                    return Err(RtcpPacketError::InvalidRtcpPacket);
                },
            }
        } else {
            None
        };
        let sources = read_u32_be_list(raw_packet, HEADER_LENGTH, count);
        Ok(Goodbye { header, sources, reason })
    }

    fn to_raw(&self) -> (r: Result<Vec<u8>, RtcpPacketError>) {
        if self.sources.len() > SSRC_MAX_COUNT {
            return Err(RtcpPacketError::InvalidRtcpPacket);
        }
        let mut buffer = match self.header.to_raw() {
            Ok(buffer) => buffer,
            Err(e) => {
                return Err(e);
            },
        };
        push_u32_be_list(&mut buffer, self.sources.as_slice());
        if let Some(text) = &self.reason {
            let octets = text.as_str().as_bytes();
            if octets.len() > REASON_MAX_LENGTH {
                return Err(RtcpPacketError::InvalidRtcpPacket);
            }
            buffer.push(octets.len() as u8);
            push_range(&mut buffer, octets, 0, octets.len());
            assert(octets@.subrange(0, octets@.len() as int) =~= octets@);
        }
        assert(buffer@ =~= self@.unpadded());
        let padding: usize = (4 - buffer.len() % 4) % 4;
        let mut i: usize = 0;
        while i < padding
            invariant
                i <= padding,
                buffer@ == self@.unpadded() + zeros(i as nat),
            decreases padding - i,
        {
            buffer.push(0);
            i += 1;
            assert(buffer@ =~= self@.unpadded() + zeros(i as nat));
        }
        Ok(buffer)
    }

    fn length(&self) -> (length: usize) {
        let mut length: usize = HEADER_LENGTH + 4 * self.sources.len();
        if let Some(text) = &self.reason {
            length += text.as_str().len() + 1;
        }
        let padding: usize = (4 - length % 4) % 4;
        length + padding
    }

    fn synchronization_sources(&self) -> (sources: Vec<u32>) {
        let mut sources: Vec<u32> = Vec::new();
        let mut i: usize = 0;
        while i < self.sources.len()
            invariant
                i <= self.sources.len(),
                sources@ == self.sources@.take(i as int),
            decreases self.sources.len() - i,
        {
            sources.push(self.sources[i]);
            i += 1;
            assert(sources@ =~= self.sources@.take(i as int));
        }
        assert(self.sources@.take(i as int) =~= self.sources@);
        sources
    }
}

/// A Goodbye is sent as `wire_len` octets, a multiple of four.
pub proof fn lemma_goodbye_wire_len(packet: GoodbyeView)
    ensures
        packet.wire().len() == packet.wire_len(),
        packet.wire_len() % 4 == 0,
{
}

/// Parsing and then serializing gives back the buffer, up to its padding.
///
/// Whatever `parse_goodbye` accepts can be emitted. What it is sent as
/// begins with the octets of the buffer up to the end of the reason, goes
/// on with the fewest zero octets that reach a multiple of four, and is
/// never longer than the buffer. So a buffer that is padded in this way,
/// with zero octets and no more of them than needed, is given back octet
/// for octet.
pub proof fn lemma_goodbye_parse_then_wire(raw: Seq<u8>)
    requires
        parse_goodbye(raw) is Some,
    ensures
        ({
            let packet = parse_goodbye(raw)->Some_0;
            let used = packet.unpadded().len() as int;
            &&& packet.emittable()
            &&& used <= packet.wire().len() <= raw.len()
            &&& packet.unpadded() == raw.subrange(0, used)
            &&& raw.len() == packet.wire().len() && raw.subrange(used, raw.len() as int) == zeros(
                (raw.len() - used) as nat,
            ) ==> packet.wire() == raw
        }),
{
    let packet = parse_goodbye(raw)->Some_0;
    let n = packet.header.report_count as nat;
    let reason_at: int = 4 + 4 * (n as int);
    lemma_header_parse_then_wire(raw);
    lemma_be32_list_written_read(raw, 4, n);
    match packet.reason {
        Some(text) => {
            let octets = raw.subrange(reason_at + 1, reason_at + 1 + raw[reason_at]);
            decode_utf8_encode_utf8(octets);
            assert(packet.reason_octets() =~= raw.subrange(
                reason_at,
                reason_at + 1 + raw[reason_at],
            ));
        },
        None => {},
    }
    let used = packet.unpadded().len() as int;
    assert(packet.unpadded() =~= raw.subrange(0, used));
    if raw.len() == packet.wire().len() && raw.subrange(used, raw.len() as int) == zeros(
        (raw.len() - used) as nat,
    ) {
        assert(packet.wire() =~= raw.subrange(0, used) + raw.subrange(used, raw.len() as int));
        assert(packet.wire() =~= raw);
    }
}

/// Serializing and then parsing gives back the packet, for a Goodbye that
/// can be emitted and whose header says Goodbye and counts its sources.
pub proof fn lemma_goodbye_wire_then_parse(packet: GoodbyeView)
    requires
        packet.emittable(),
        packet.header.packet_type == PacketType::Goodbye,
        packet.header.report_count == packet.sources.len(),
    ensures
        parse_goodbye(packet.wire()) == Some(packet),
{
    let raw = packet.wire();
    let n = packet.sources.len() as int;
    let reason_at: int = 4 + 4 * n;
    assert(be32_list_bytes(packet.sources).len() == 4 * n);
    assert(raw.subrange(0, 4) =~= packet.header.wire());
    assert(raw.subrange(4, reason_at) =~= be32_list_bytes(packet.sources));
    lemma_header_wire_then_parse(packet.header, raw);
    lemma_be32_list_read_embedded(packet.sources, raw, 4);
    match packet.reason {
        Some(text) => {
            let octets = encode_utf8(text);
            encode_utf8_valid_utf8(text);
            encode_utf8_decode_utf8(text);
            assert(raw[reason_at] == octets.len() as u8);
            assert(raw.subrange(reason_at + 1, reason_at + 1 + octets.len()) =~= octets);
        },
        None => {
            assert(raw.len() == reason_at);
        },
    }
}

/// A buffer whose length is not a multiple of four holds no Goodbye.
pub proof fn lemma_goodbye_misaligned_rejected(raw: Seq<u8>)
    requires
        raw.len() % 4 != 0,
    ensures
        parse_goodbye(raw) is None,
{
}

/// A buffer whose reason is announced with more octets than follow its
/// length octet holds no Goodbye.
pub proof fn lemma_goodbye_reason_overrun_rejected(raw: Seq<u8>)
    requires
        parse_header(raw) matches Some(header) && ({
            let reason_at = 4 + 4 * header.report_count;
            reason_at < raw.len() < reason_at + 1 + raw[reason_at]
        }),
    ensures
        parse_goodbye(raw) is None,
{
}

/// A buffer with fewer sources than its header counts holds no Goodbye.
pub proof fn lemma_goodbye_missing_sources_rejected(raw: Seq<u8>)
    requires
        parse_header(raw) matches Some(header) && raw.len() < 4 + 4 * header.report_count,
    ensures
        parse_goodbye(raw) is None,
{
}

} // verus!
