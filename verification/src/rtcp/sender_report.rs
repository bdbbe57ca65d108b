//! The Sender Report (RFC 3550, section 6.4.1).
//!
//! After the common header come the sender's SSRC, the 64-bit NTP time, the
//! RTP time, the sender's packet and octet counts, one reception report
//! block for each source counted in the header, and whatever octets the
//! profile adds.

use crate::bytes::{
    be32_at, be32_bytes, be64_at, be64_bytes, copy_range, lemma_be32_read_embedded,
    lemma_be32_written_read, lemma_be64_read_embedded, lemma_be64_written_read,
    lemma_concat_pieces, lemma_subrange_join, lemma_subrange_of_subrange, push_range, push_u32_be,
    push_u64_be, read_u32_be, read_u64_be,
};
use crate::errors::RtcpPacketError;
use crate::packet::optional_bytes;
use crate::rtcp::header::{
    lemma_header_parse_then_wire, lemma_header_wire_then_parse, parse_header, Header, PacketType,
};
use crate::rtcp::packet::Packet;
use crate::rtcp::reception_report::{
    lemma_report_parse_then_wire, lemma_report_wire_then_parse, push_report, read_report,
    report_at, ReceptionReport,
};
use vstd::prelude::*;

verus! {

/// The size in octets of a sender report without report blocks: the common
/// header and the sender's own information.
pub const SENDER_REPORT_LENGTH: usize = 28;

/// A Sender Report.
#[derive(Clone, Debug, PartialEq, Eq)]
pub struct SenderReport {
    /// The common header; its count is the number of report blocks.
    pub header: Header,
    /// The sender of the report.
    pub synchronization_source: u32,
    /// The wallclock time of the report, as a 64-bit NTP timestamp.
    pub ntp_time: u64,
    /// The same instant in the units of the RTP timestamps.
    pub rtp_time: u32,
    /// The number of RTP packets that the sender has sent.
    pub packet_count: u32,
    /// The number of payload octets that the sender has sent.
    pub byte_count: u32,
    /// The reception report blocks.
    pub reports: Vec<ReceptionReport>,
    /// The profile-specific extension that ends the packet.
    pub profile_extensions: Option<Vec<u8>>,
}

/// The fields of a Sender Report.
pub struct SenderReportView {
    pub header: Header,
    pub synchronization_source: u32,
    pub ntp_time: u64,
    pub rtp_time: u32,
    pub packet_count: u32,
    pub byte_count: u32,
    pub reports: Seq<ReceptionReport>,
    pub profile_extensions: Option<Seq<u8>>,
}

impl View for SenderReport {
    type V = SenderReportView;

    open spec fn view(&self) -> SenderReportView {
        SenderReportView {
            header: self.header,
            synchronization_source: self.synchronization_source,
            ntp_time: self.ntp_time,
            rtp_time: self.rtp_time,
            packet_count: self.packet_count,
            byte_count: self.byte_count,
            reports: self.reports@,
            profile_extensions: optional_bytes(self.profile_extensions),
        }
    }
}

/// The `n` report blocks spelled by the `24 * n` octets at `at`.
pub open spec fn reports_at(raw: Seq<u8>, at: int, n: nat) -> Seq<ReceptionReport> {
    Seq::new(n, |i: int| report_at(raw, at + 24 * i))
}

/// The octets that spell each block of `reports` in turn.
pub open spec fn reports_bytes(reports: Seq<ReceptionReport>) -> Seq<u8> {
    Seq::new(24 * reports.len(), |i: int| reports[i / 24].wire()[i % 24])
}

/// The Sender Report that a buffer holds, if it holds one.
///
/// The buffer must have the 28 octets of header and sender information, a
/// header of version 2 that names a Sender Report, and room for as many
/// report blocks as the header counts. Octets after the last block are the
/// profile's extension.
pub open spec fn parse_sender_report(raw: Seq<u8>) -> Option<SenderReportView> {
    match parse_header(raw) {
        Some(header) => {
            let reports_end = 28 + 24 * header.report_count;
            if raw.len() < 28 || header.packet_type != PacketType::SenderReport || raw.len()
                < reports_end {
                None
            } else {
                Some(
                    SenderReportView {
                        header,
                        synchronization_source: be32_at(raw, 4),
                        ntp_time: be64_at(raw, 8),
                        rtp_time: be32_at(raw, 16),
                        packet_count: be32_at(raw, 20),
                        byte_count: be32_at(raw, 24),
                        reports: reports_at(raw, 28, header.report_count as nat),
                        profile_extensions: if reports_end < raw.len() {
                            Some(raw.subrange(reports_end, raw.len() as int))
                        } else {
                            None
                        },
                    },
                )
            }
        },
        None => None,
    }
}

impl SenderReportView {
    /// The header's count fits its five bits, there are at most 31 report
    /// blocks, and each block's loss total fits its 24 bits.
    pub open spec fn emittable(self) -> bool {
        &&& self.header.report_count <= 31
        &&& self.reports.len() <= 31
        &&& forall|i: int| 0 <= i < self.reports.len() ==> (#[trigger] self.reports[i]).emittable()
    }

    /// The sender's own information as sent: the 24 octets after the header.
    pub open spec fn sender_octets(self) -> Seq<u8> {
        be32_bytes(self.synchronization_source) + be64_bytes(self.ntp_time) + be32_bytes(
            self.rtp_time,
        ) + be32_bytes(self.packet_count) + be32_bytes(self.byte_count)
    }

    /// The profile's extension as sent.
    pub open spec fn extension_octets(self) -> Seq<u8> {
        match self.profile_extensions {
            Some(octets) => octets,
            None => Seq::empty(),
        }
    }

    /// The packet as sent: header, sender information, report blocks,
    /// extension.
    pub open spec fn wire(self) -> Seq<u8> {
        self.header.wire() + self.sender_octets() + reports_bytes(self.reports)
            + self.extension_octets()
    }

    /// The number of octets of the packet as sent.
    pub open spec fn wire_len(self) -> nat {
        28 + 24 * self.reports.len() + self.extension_octets().len()
    }

    /// The sources that the report blocks report on.
    pub open spec fn reported_sources(self) -> Seq<u32> {
        Seq::new(self.reports.len(), |i: int| self.reports[i].synchronization_source)
    }
}

impl Packet for SenderReport {
    open spec fn parse_spec(raw: Seq<u8>) -> Option<SenderReportView> {
        parse_sender_report(raw)
    }

    open spec fn wire_spec(packet: SenderReportView) -> Option<Seq<u8>> {
        if packet.emittable() {
            Some(packet.wire())
        } else {
            None
        }
    }

    open spec fn length_spec(packet: SenderReportView) -> nat {
        packet.wire_len()
    }

    open spec fn sources_spec(packet: SenderReportView) -> Seq<u32> {
        packet.reported_sources()
    }

    fn from_raw(raw_packet: &[u8]) -> (r: Result<SenderReport, RtcpPacketError>) {
        let len = raw_packet.len();
        if len < SENDER_REPORT_LENGTH {
            return Err(RtcpPacketError::InvalidRtcpPacket);
        }
        let header = match Header::from_raw(raw_packet) {
            Ok(header) => header,
            Err(e) => {
                return Err(e);
            },
        };
        if header.packet_type != PacketType::SenderReport {
            return Err(RtcpPacketError::InvalidRtcpPacket);
        }
        let count: usize = header.report_count as usize;
        let reports_end: usize = SENDER_REPORT_LENGTH + 24 * count;
        if len < reports_end {
            return Err(RtcpPacketError::InvalidRtcpPacket);
        }
        let synchronization_source = read_u32_be(raw_packet, 4);
        let ntp_time = read_u64_be(raw_packet, 8);
        let rtp_time = read_u32_be(raw_packet, 16);
        let packet_count = read_u32_be(raw_packet, 20);
        let byte_count = read_u32_be(raw_packet, 24);

        let mut reports: Vec<ReceptionReport> = Vec::new();
        let mut i: usize = 0;
        while i < count
            invariant
                i <= count <= 31,
                SENDER_REPORT_LENGTH + 24 * count <= raw_packet.len(),
                reports@ == reports_at(raw_packet@, 28, i as nat),
            decreases count - i,
        {
            let report = read_report(raw_packet, SENDER_REPORT_LENGTH + 24 * i);
            reports.push(report);
            i += 1;
            assert(reports@ =~= reports_at(raw_packet@, 28, i as nat));
        }
        let profile_extensions = if reports_end < len {
            Some(copy_range(raw_packet, reports_end, len))
        } else {
            None
        };
        Ok(
            SenderReport {
                header,
                synchronization_source,
                ntp_time,
                rtp_time,
                packet_count,
                byte_count,
                reports,
                profile_extensions,
            },
        )
    }

    fn to_raw(&self) -> (r: Result<Vec<u8>, RtcpPacketError>) {
        if self.reports.len() > 31 {
            return Err(RtcpPacketError::InvalidRtcpPacket);
        }
        let mut buffer = match self.header.to_raw() {
            Ok(buffer) => buffer,
            Err(e) => {
                return Err(e);
            },
        };
        push_u32_be(&mut buffer, self.synchronization_source);
        push_u64_be(&mut buffer, self.ntp_time);
        push_u32_be(&mut buffer, self.rtp_time);
        push_u32_be(&mut buffer, self.packet_count);
        push_u32_be(&mut buffer, self.byte_count);
        assert(buffer@ =~= self.header.wire() + self@.sender_octets());

        let ghost head = buffer@;
        let mut i: usize = 0;
        assert(buffer@ =~= head + reports_bytes(self.reports@.take(0)));
        while i < self.reports.len()
            invariant
                i <= self.reports.len(),
                buffer@ == head + reports_bytes(self.reports@.take(i as int)),
                forall|j: int| 0 <= j < i ==> (#[trigger] self.reports@[j]).emittable(),
            decreases self.reports.len() - i,
        {
            let report = &self.reports[i];
            if report.total_lost >= 0x100_0000 {
                return Err(RtcpPacketError::InvalidRtcpPacket);
            }
            let ghost before = buffer@;
            push_report(&mut buffer, report);
            i += 1;
            proof {
                lemma_reports_bytes_push(self.reports@.take(i - 1), self.reports@[i - 1]);
                assert(self.reports@.take(i - 1).push(self.reports@[i - 1]) =~= self.reports@.take(
                    i as int,
                ));
            }
        }
        assert(self.reports@.take(i as int) =~= self.reports@);
        if let Some(octets) = &self.profile_extensions {
            push_range(&mut buffer, octets.as_slice(), 0, octets.len());
            assert(octets@.subrange(0, octets@.len() as int) =~= octets@);
        }
        assert(buffer@ =~= self@.wire());
        Ok(buffer)
    }

    fn length(&self) -> (length: usize) {
        let mut length: usize = SENDER_REPORT_LENGTH + self.reports.len() * 24;
        if let Some(octets) = &self.profile_extensions {
            length += octets.len();
        }
        length
    }

    fn synchronization_sources(&self) -> (sources: Vec<u32>) {
        let mut sources: Vec<u32> = Vec::new();
        let mut i: usize = 0;
        while i < self.reports.len()
            invariant
                i <= self.reports.len(),
                sources@ == self@.reported_sources().take(i as int),
            decreases self.reports.len() - i,
        {
            sources.push(self.reports[i].synchronization_source);
            i += 1;
            assert(sources@ =~= self@.reported_sources().take(i as int));
        }
        assert(self@.reported_sources().take(i as int) =~= self@.reported_sources());
        sources
    }
}

/// One more block adds its 24 octets to what the blocks are sent as.
pub proof fn lemma_reports_bytes_push(reports: Seq<ReceptionReport>, report: ReceptionReport)
    ensures
        reports_bytes(reports.push(report)) == reports_bytes(reports) + report.wire(),
{
    let n = reports.len() as int;
    let longer = reports.push(report);
    assert forall|j: int| 0 <= j < 24 * (n + 1) implies reports_bytes(longer)[j] == (reports_bytes(
        reports,
    ) + report.wire())[j] by {
        if j < 24 * n {
            assert(longer[j / 24] == reports[j / 24]);
        } else {
            assert(j / 24 == n);
            assert(j % 24 == j - 24 * n);
        }
    }
    assert(reports_bytes(longer) =~= reports_bytes(reports) + report.wire());
}

/// Octet `k` of block `i` in what the blocks are sent as.
proof fn lemma_reports_byte(reports: Seq<ReceptionReport>, i: int, k: int)
    requires
        0 <= i < reports.len(),
        0 <= k < 24,
    ensures
        reports_bytes(reports).len() == 24 * reports.len(),
        reports_bytes(reports)[24 * i + k] == reports[i].wire()[k],
{
    assert((24 * i + k) / 24 == i);
    assert((24 * i + k) % 24 == k);
}

/// Writing the blocks read at `at` gives back the octets that were read.
pub proof fn lemma_reports_written_read(raw: Seq<u8>, at: int, n: nat)
    requires
        0 <= at,
        at + 24 * n <= raw.len(),
    ensures
        forall|i: int| 0 <= i < n ==> (#[trigger] reports_at(raw, at, n)[i]).emittable(),
        reports_bytes(reports_at(raw, at, n)) == raw.subrange(at, at + 24 * n),
{
    let reports = reports_at(raw, at, n);
    assert forall|i: int| 0 <= i < n implies (#[trigger] reports[i]).emittable() by {
        lemma_report_parse_then_wire(raw, at + 24 * i);
    }
    assert forall|j: int| 0 <= j < 24 * n implies reports_bytes(reports)[j] == raw[at + j] by {
        let i = j / 24;
        let k = j % 24;
        lemma_reports_byte(reports, i, k);
        lemma_report_parse_then_wire(raw, at + 24 * i);
        assert(raw.subrange(at + 24 * i, at + 24 * i + 24)[k] == raw[at + j]);
    }
    assert(reports_bytes(reports) =~= raw.subrange(at, at + 24 * n));
}

/// Blocks that can be emitted are read back from any buffer that holds, at
/// `at`, the octets written for them.
pub proof fn lemma_reports_read_written(reports: Seq<ReceptionReport>, raw: Seq<u8>, at: int)
    requires
        forall|i: int| 0 <= i < reports.len() ==> (#[trigger] reports[i]).emittable(),
        0 <= at,
        at + 24 * reports.len() <= raw.len(),
        raw.subrange(at, at + 24 * reports.len()) == reports_bytes(reports),
    ensures
        reports_at(raw, at, reports.len()) == reports,
{
    let n = reports.len() as int;
    let window = raw.subrange(at, at + 24 * n);
    assert forall|i: int| 0 <= i < n implies report_at(raw, at + 24 * i) == reports[i] by {
        assert forall|k: int| 0 <= k < 24 implies raw.subrange(at + 24 * i, at + 24 * i + 24)[k]
            == reports[i].wire()[k] by {
            lemma_reports_byte(reports, i, k);
            assert(window[24 * i + k] == raw[at + 24 * i + k]);
        }
        assert(raw.subrange(at + 24 * i, at + 24 * i + 24) =~= reports[i].wire());
        lemma_report_wire_then_parse(reports[i], raw, at + 24 * i);
    }
    assert(reports_at(raw, at, reports.len()) =~= reports);
}

/// The sender's information read at octet 4 is written as the 24 octets
/// it was read from.
proof fn lemma_sender_octets_written_read(raw: Seq<u8>, packet: SenderReportView)
    requires
        raw.len() >= 28,
        packet.synchronization_source == be32_at(raw, 4),
        packet.ntp_time == be64_at(raw, 8),
        packet.rtp_time == be32_at(raw, 16),
        packet.packet_count == be32_at(raw, 20),
        packet.byte_count == be32_at(raw, 24),
    ensures
        packet.sender_octets() == raw.subrange(4, 28),
{
    lemma_be32_written_read(raw, 4);
    lemma_be64_written_read(raw, 8);
    lemma_be32_written_read(raw, 16);
    lemma_be32_written_read(raw, 20);
    lemma_be32_written_read(raw, 24);
    lemma_subrange_join(raw, 4, 8, 16);
    lemma_subrange_join(raw, 4, 16, 20);
    lemma_subrange_join(raw, 4, 20, 24);
    lemma_subrange_join(raw, 4, 24, 28);
}

/// Parsing and then serializing gives back the buffer: whatever
/// `parse_sender_report` accepts can be emitted, and is sent as the buffer
/// it was parsed from, octet for octet.
pub proof fn lemma_sender_report_parse_then_wire(raw: Seq<u8>)
    requires
        parse_sender_report(raw) is Some,
    ensures
        parse_sender_report(raw)->Some_0.emittable(),
        parse_sender_report(raw)->Some_0.wire() == raw,
{
    let packet = parse_sender_report(raw)->Some_0;
    let n = packet.header.report_count as nat;
    let reports_end: int = 28 + 24 * (n as int);
    lemma_header_parse_then_wire(raw);
    lemma_sender_octets_written_read(raw, packet);
    lemma_reports_written_read(raw, 28, n);
    assert(packet.extension_octets() =~= raw.subrange(reports_end, raw.len() as int));
    lemma_subrange_join(raw, 0, 4, 28);
    lemma_subrange_join(raw, 0, 28, reports_end);
    lemma_subrange_join(raw, 0, reports_end, raw.len() as int);
}

/// Where each field of the sender's information lies in what it is sent
/// as.
proof fn lemma_sender_octets_pieces(packet: SenderReportView)
    ensures
        packet.sender_octets().len() == 24,
        packet.sender_octets().subrange(0, 4) == be32_bytes(packet.synchronization_source),
        packet.sender_octets().subrange(4, 12) == be64_bytes(packet.ntp_time),
        packet.sender_octets().subrange(12, 16) == be32_bytes(packet.rtp_time),
        packet.sender_octets().subrange(16, 20) == be32_bytes(packet.packet_count),
        packet.sender_octets().subrange(20, 24) == be32_bytes(packet.byte_count),
{
    let sender = packet.sender_octets();
    assert(sender.subrange(0, 4) =~= be32_bytes(packet.synchronization_source));
    assert(sender.subrange(4, 12) =~= be64_bytes(packet.ntp_time));
    assert(sender.subrange(12, 16) =~= be32_bytes(packet.rtp_time));
    assert(sender.subrange(16, 20) =~= be32_bytes(packet.packet_count));
    assert(sender.subrange(20, 24) =~= be32_bytes(packet.byte_count));
}

/// The sender's information is read back from any buffer that holds, at
/// octet 4, the octets written for it.
proof fn lemma_sender_octets_read_written(packet: SenderReportView, raw: Seq<u8>)
    requires
        raw.len() >= 28,
        raw.subrange(4, 28) == packet.sender_octets(),
    ensures
        be32_at(raw, 4) == packet.synchronization_source,
        be64_at(raw, 8) == packet.ntp_time,
        be32_at(raw, 16) == packet.rtp_time,
        be32_at(raw, 20) == packet.packet_count,
        be32_at(raw, 24) == packet.byte_count,
{
    lemma_sender_octets_pieces(packet);
    lemma_subrange_of_subrange(raw, 4, 28, 0, 4);
    lemma_subrange_of_subrange(raw, 4, 28, 4, 12);
    lemma_subrange_of_subrange(raw, 4, 28, 12, 16);
    lemma_subrange_of_subrange(raw, 4, 28, 16, 20);
    lemma_subrange_of_subrange(raw, 4, 28, 20, 24);
    lemma_be32_read_embedded(packet.synchronization_source, raw, 4);
    lemma_be64_read_embedded(packet.ntp_time, raw, 8);
    lemma_be32_read_embedded(packet.rtp_time, raw, 16);
    lemma_be32_read_embedded(packet.packet_count, raw, 20);
    lemma_be32_read_embedded(packet.byte_count, raw, 24);
}

/// Where each part of a Sender Report lies in what it is sent as.
proof fn lemma_sender_report_wire_pieces(packet: SenderReportView)
    ensures
        ({
            let raw = packet.wire();
            let reports_end = 28 + 24 * (packet.reports.len() as int);
            &&& raw.len() == reports_end + packet.extension_octets().len()
            &&& raw.subrange(0, 4) == packet.header.wire()
            &&& raw.subrange(4, 28) == packet.sender_octets()
            &&& raw.subrange(28, reports_end) == reports_bytes(packet.reports)
            &&& raw.subrange(reports_end, raw.len() as int) == packet.extension_octets()
        }),
{
    let raw = packet.wire();
    let reports_end: int = 28 + 24 * (packet.reports.len() as int);
    let head = packet.header.wire() + packet.sender_octets();
    let body = head + reports_bytes(packet.reports);
    lemma_concat_pieces(packet.header.wire(), packet.sender_octets());
    lemma_concat_pieces(head, reports_bytes(packet.reports));
    lemma_concat_pieces(body, packet.extension_octets());
    assert(raw.subrange(0, 4) =~= body.subrange(0, 28).subrange(0, 4));
    assert(raw.subrange(4, 28) =~= body.subrange(0, 28).subrange(4, 28));
    assert(raw.subrange(28, reports_end) =~= body.subrange(28, reports_end));
}

/// Serializing and then parsing gives back the packet, for a Sender Report
/// that can be emitted, whose header counts its blocks, and whose
/// extension, if it has one, is not empty.
pub proof fn lemma_sender_report_wire_then_parse(packet: SenderReportView)
    requires
        packet.emittable(),
        packet.header.packet_type == PacketType::SenderReport,
        packet.header.report_count == packet.reports.len(),
        packet.profile_extensions != Some(Seq::<u8>::empty()),
    ensures
        parse_sender_report(packet.wire()) == Some(packet),
{
    let raw = packet.wire();
    lemma_sender_report_wire_pieces(packet);
    lemma_header_wire_then_parse(packet.header, raw);
    lemma_sender_octets_read_written(packet, raw);
    lemma_reports_read_written(packet.reports, raw, 28);
    match packet.profile_extensions {
        Some(octets) => {
            if octets.len() == 0 {
                assert(octets =~= Seq::<u8>::empty());
            }
        },
        None => {},
    }
}

/// A Sender Report is sent as `wire_len` octets.
pub proof fn lemma_sender_report_wire_len(packet: SenderReportView)
    ensures
        packet.wire().len() == packet.wire_len(),
{
}

} // verus!
