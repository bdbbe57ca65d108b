//! The reception report block of Sender and Receiver Reports.
//!
//! ```text
//!  0                   1                   2                   3
//!  0 1 2 3 4 5 6 7 8 9 0 1 2 3 4 5 6 7 8 9 0 1 2 3 4 5 6 7 8 9 0 1
//! +-+-+-+-+-+-+-+-+-+-+-+-+-+-+-+-+-+-+-+-+-+-+-+-+-+-+-+-+-+-+-+-+
//! |                 SSRC of the source reported on                |
//! +-+-+-+-+-+-+-+-+-+-+-+-+-+-+-+-+-+-+-+-+-+-+-+-+-+-+-+-+-+-+-+-+
//! | fraction lost |       cumulative number of packets lost       |
//! +-+-+-+-+-+-+-+-+-+-+-+-+-+-+-+-+-+-+-+-+-+-+-+-+-+-+-+-+-+-+-+-+
//! |           extended highest sequence number received           |
//! +-+-+-+-+-+-+-+-+-+-+-+-+-+-+-+-+-+-+-+-+-+-+-+-+-+-+-+-+-+-+-+-+
//! |                      interarrival jitter                      |
//! +-+-+-+-+-+-+-+-+-+-+-+-+-+-+-+-+-+-+-+-+-+-+-+-+-+-+-+-+-+-+-+-+
//! |                         last SR (LSR)                         |
//! +-+-+-+-+-+-+-+-+-+-+-+-+-+-+-+-+-+-+-+-+-+-+-+-+-+-+-+-+-+-+-+-+
//! |                   delay since last SR (DLSR)                  |
//! +-+-+-+-+-+-+-+-+-+-+-+-+-+-+-+-+-+-+-+-+-+-+-+-+-+-+-+-+-+-+-+-+
//! ```

use crate::bytes::{
    be24_at, be24_bytes, be32_at, be32_bytes, lemma_be24_read_embedded, lemma_be24_written_read,
    lemma_be32_read_embedded, lemma_be32_written_read, lemma_subrange_join,
    lemma_subrange_of_subrange, push_u24_be,
    push_u32_be, read_u24_be, read_u32_be,
};
use crate::errors::RtcpPacketError;
use vstd::prelude::*;

verus! {

/// The size in octets of a reception report block.
pub const RECEPTION_REPORT_LENGTH: usize = 24;

/// What one receiver says of one source.
#[derive(Clone, Copy, Debug, Default, PartialEq, Eq, Structural)]
pub struct ReceptionReport {
    /// The source that the block reports on.
    pub synchronization_source: u32,
    /// The share of packets lost since the last report, in 256ths.
    pub fraction_lost: u8,
    /// The number of packets lost since reception began, 24 bits on the wire.
    pub total_lost: u32,
    /// The highest sequence number received, extended by the count of its
    /// cycles in the upper half.
    pub last_sequence_number: u32,
    /// The interarrival jitter, in timestamp units.
    pub jitter: u32,
    /// The middle 32 bits of the NTP time of the last sender report.
    pub last_sender_report: u32,
    /// The delay since the last sender report, in units of 1/65536 s.
    pub delay: u32,
}

/// The block that the 24 octets at `at` spell.
pub open spec fn report_at(raw: Seq<u8>, at: int) -> ReceptionReport {
    ReceptionReport {
        synchronization_source: be32_at(raw, at),
        fraction_lost: raw[at + 4],
        total_lost: be24_at(raw, at + 5),
        last_sequence_number: be32_at(raw, at + 8),
        jitter: be32_at(raw, at + 12),
        last_sender_report: be32_at(raw, at + 16),
        delay: be32_at(raw, at + 20),
    }
}

/// The block that a buffer begins with, if it has 24 octets.
pub open spec fn parse_report(raw: Seq<u8>) -> Option<ReceptionReport> {
    if raw.len() < 24 {
        None
    } else {
        Some(report_at(raw, 0))
    }
}

impl ReceptionReport {
    /// The loss total fits the 24 bits that the block has for it.
    pub open spec fn emittable(self) -> bool {
        self.total_lost < 0x100_0000
    }

    /// The block as sent.
    pub open spec fn wire(self) -> Seq<u8> {
        be32_bytes(self.synchronization_source) + seq![self.fraction_lost] + be24_bytes(
            self.total_lost,
        ) + be32_bytes(self.last_sequence_number) + be32_bytes(self.jitter) + be32_bytes(
            self.last_sender_report,
        ) + be32_bytes(self.delay)
    }

    /// Parses the block at the start of a buffer.
    pub fn from_raw(raw_packet: &[u8]) -> (r: Result<ReceptionReport, RtcpPacketError>)
        ensures
            match r {
                Ok(report) => parse_report(raw_packet@) == Some(report),
                Err(_) => parse_report(raw_packet@) is None,
            },
    {
        if raw_packet.len() < RECEPTION_REPORT_LENGTH {
            return Err(RtcpPacketError::InvalidRtcpPacket);
        }
        Ok(read_report(raw_packet, 0))
    }

    /// Serializes the block, unless its loss total needs more than 24 bits.
    pub fn to_raw(&self) -> (r: Result<Vec<u8>, RtcpPacketError>)
        ensures
            match r {
                Ok(buffer) => self.emittable() && buffer@ == self.wire(),
                Err(_) => !self.emittable(),
            },
    {
        if self.total_lost >= 0x100_0000 {
            return Err(RtcpPacketError::InvalidRtcpPacket);
        }
        let mut buffer: Vec<u8> = Vec::new();
        push_report(&mut buffer, self);
        assert(buffer@ =~= self.wire());
        Ok(buffer)
    }
}

/// Reads the block at `at`.
pub fn read_report(buf: &[u8], at: usize) -> (report: ReceptionReport)
    requires
        at + 24 <= buf.len(),
    ensures
        report == report_at(buf@, at as int),
        report.emittable(),
{
    ReceptionReport {
        synchronization_source: read_u32_be(buf, at),
        fraction_lost: buf[at + 4],
        total_lost: read_u24_be(buf, at + 5),
        last_sequence_number: read_u32_be(buf, at + 8),
        jitter: read_u32_be(buf, at + 12),
        last_sender_report: read_u32_be(buf, at + 16),
        delay: read_u32_be(buf, at + 20),
    }
}

/// Appends the block as sent.
pub fn push_report(out: &mut Vec<u8>, report: &ReceptionReport)
    requires
        report.emittable(),
    ensures
        final(out)@ == old(out)@ + report.wire(),
{
    push_u32_be(out, report.synchronization_source);
    out.push(report.fraction_lost);
    push_u24_be(out, report.total_lost);
    push_u32_be(out, report.last_sequence_number);
    push_u32_be(out, report.jitter);
    push_u32_be(out, report.last_sender_report);
    push_u32_be(out, report.delay);
    assert(out@ =~= old(out)@ + report.wire());
}

/// A block is sent as 24 octets.
pub proof fn lemma_report_wire_len(report: ReceptionReport)
    ensures
        report.wire().len() == 24,
{
}

/// Parsing and then serializing gives back the block: the block read at
/// `at` can be emitted, and is written as the 24 octets it was read from.
pub proof fn lemma_report_parse_then_wire(raw: Seq<u8>, at: int)
    requires
        0 <= at,
        at + 24 <= raw.len(),
    ensures
        report_at(raw, at).emittable(),
        report_at(raw, at).wire() == raw.subrange(at, at + 24),
{
    let report = report_at(raw, at);
    lemma_be32_written_read(raw, at);
    lemma_be24_written_read(raw, at + 5);
    lemma_be32_written_read(raw, at + 8);
    lemma_be32_written_read(raw, at + 12);
    lemma_be32_written_read(raw, at + 16);
    lemma_be32_written_read(raw, at + 20);
    assert(seq![raw[at + 4]] =~= raw.subrange(at + 4, at + 5));
    lemma_subrange_join(raw, at, at + 4, at + 5);
    lemma_subrange_join(raw, at, at + 5, at + 8);
    lemma_subrange_join(raw, at, at + 8, at + 12);
    lemma_subrange_join(raw, at, at + 12, at + 16);
    lemma_subrange_join(raw, at, at + 16, at + 20);
    lemma_subrange_join(raw, at, at + 20, at + 24);
}

/// Where each field of a block lies in what the block is sent as.
proof fn lemma_report_wire_pieces(report: ReceptionReport)
    ensures
        report.wire().len() == 24,
        report.wire().subrange(0, 4) == be32_bytes(report.synchronization_source),
        report.wire()[4] == report.fraction_lost,
        report.wire().subrange(5, 8) == be24_bytes(report.total_lost),
        report.wire().subrange(8, 12) == be32_bytes(report.last_sequence_number),
        report.wire().subrange(12, 16) == be32_bytes(report.jitter),
        report.wire().subrange(16, 20) == be32_bytes(report.last_sender_report),
        report.wire().subrange(20, 24) == be32_bytes(report.delay),
{
    let wire = report.wire();
    assert(wire.subrange(0, 4) =~= be32_bytes(report.synchronization_source));
    assert(wire.subrange(5, 8) =~= be24_bytes(report.total_lost));
    assert(wire.subrange(8, 12) =~= be32_bytes(report.last_sequence_number));
    assert(wire.subrange(12, 16) =~= be32_bytes(report.jitter));
    assert(wire.subrange(16, 20) =~= be32_bytes(report.last_sender_report));
    assert(wire.subrange(20, 24) =~= be32_bytes(report.delay));
}

/// Serializing and then parsing gives back the block: a block that can be
/// emitted is read back from any buffer that holds, at `at`, the octets
/// written for it.
pub proof fn lemma_report_wire_then_parse(report: ReceptionReport, raw: Seq<u8>, at: int)
    requires
        report.emittable(),
        0 <= at,
        at + 24 <= raw.len(),
        raw.subrange(at, at + 24) == report.wire(),
    ensures
        report_at(raw, at) == report,
{
    lemma_report_wire_pieces(report);
    lemma_subrange_of_subrange(raw, at, at + 24, 0, 4);
    lemma_subrange_of_subrange(raw, at, at + 24, 5, 8);
    lemma_subrange_of_subrange(raw, at, at + 24, 8, 12);
    lemma_subrange_of_subrange(raw, at, at + 24, 12, 16);
    lemma_subrange_of_subrange(raw, at, at + 24, 16, 20);
    lemma_subrange_of_subrange(raw, at, at + 24, 20, 24);
    assert(raw[at + 4] == raw.subrange(at, at + 24)[4]);
    lemma_be32_read_embedded(report.synchronization_source, raw, at);
    lemma_be24_read_embedded(report.total_lost, raw, at + 5);
    lemma_be32_read_embedded(report.last_sequence_number, raw, at + 8);
    lemma_be32_read_embedded(report.jitter, raw, at + 12);
    lemma_be32_read_embedded(report.last_sender_report, raw, at + 16);
    lemma_be32_read_embedded(report.delay, raw, at + 20);
}

} // verus!
