use wrwr_rtp::rtcp::header::{Header, PacketType};
use wrwr_rtp::rtcp::packet::Packet;
use wrwr_rtp::rtcp::reception_report::ReceptionReport;
use wrwr_rtp::rtcp::sender_report::SenderReport;

fn sample_raw() -> Vec<u8> {
    vec![
        // v=2, p=0, count=1, SR, len=7
        0x81, 0xc8, 0x0, 0x7, // ssrc=0x902f9e2e
        0x90, 0x2f, 0x9e, 0x2e, // ntp=0xda8bd1fcdddda05a
        0xda, 0x8b, 0xd1, 0xfc, 0xdd, 0xdd, 0xa0, 0x5a, // rtp=0xaaf4edd5
        0xaa, 0xf4, 0xed, 0xd5, // packetCount=1
        0x00, 0x00, 0x00, 0x01, // octetCount=2
        0x00, 0x00, 0x00, 0x02, // ssrc=0xbc5e9a40
        0xbc, 0x5e, 0x9a, 0x40, // fracLost=0, totalLost=0
        0x0, 0x0, 0x0, 0x0, // lastSeq=0x46e1
        0x0, 0x0, 0x46, 0xe1, // jitter=273
        0x0, 0x0, 0x1, 0x11, // lsr=0x9f36432
        0x9, 0xf3, 0x64, 0x32, // delay=150137
        0x0, 0x2, 0x4a, 0x79,
    ]
}

fn sample_report() -> SenderReport {
    SenderReport {
        header: Header {
            padding: false,
            report_count: 1,
            packet_type: PacketType::SenderReport,
            length: 7,
        },
        synchronization_source: 0x902f9e2e,
        ntp_time: 0xda8bd1fcdddda05a,
        rtp_time: 0xaaf4edd5,
        byte_count: 2,
        packet_count: 1,
        reports: vec![ReceptionReport {
            synchronization_source: 0xbc5e9a40,
            fraction_lost: 0,
            total_lost: 0,
            last_sequence_number: 0x46e1,
            jitter: 273,
            last_sender_report: 0x9f36432,
            delay: 150137,
        }],
        profile_extensions: None,
    }
}

#[test]
fn it_unmarshalls_a_sender_report_packet() {
    let raw = [
        // v=2, p=0, count=1, SR, len=7
        0x81, 0xc8, 0x0, 0x7, // ssrc=0x902f9e2e
        0x90, 0x2f, 0x9e, 0x2e, // ntp=0xda8bd1fcdddda05a
        0xda, 0x8b, 0xd1, 0xfc, 0xdd, 0xdd, 0xa0, 0x5a, // rtp=0xaaf4edd5
        0xaa, 0xf4, 0xed, 0xd5, // packetCount=1
        0x00, 0x00, 0x00, 0x01, // octetCount=2
        0x00, 0x00, 0x00, 0x02, // ssrc=0xbc5e9a40
        0xbc, 0x5e, 0x9a, 0x40, // fracLost=0, totalLost=0
        0x0, 0x0, 0x0, 0x0, // lastSeq=0x46e1
        0x0, 0x0, 0x46, 0xe1, // jitter=273
        0x0, 0x0, 0x1, 0x11, // lsr=0x9f36432
        0x9, 0xf3, 0x64, 0x32, // delay=150137
        0x0, 0x2, 0x4a, 0x79,
    ];
    let expected = SenderReport {
        header: Header {
            padding: false,
            report_count: 1,
            packet_type: PacketType::SenderReport,
            length: 7,
        },
        synchronization_source: 0x902f9e2e,
        ntp_time: 0xda8bd1fcdddda05a,
        rtp_time: 0xaaf4edd5,
        byte_count: 2,
        packet_count: 1,
        reports: vec![ReceptionReport {
            synchronization_source: 0xbc5e9a40,
            fraction_lost: 0,
            total_lost: 0,
            last_sequence_number: 0x46e1,
            jitter: 273,
            last_sender_report: 0x9f36432,
            delay: 150137,
        }],
        profile_extensions: None,
    };
    let packet = SenderReport::from_raw(&raw);
    assert!(packet.is_ok());

    let packet = packet.unwrap();
    assert_eq!(packet, expected);
}

#[test]
fn sender_report_is_written_field_by_field() {
    assert_eq!(sample_raw(), sample_report().to_raw().unwrap());
}

#[test]
fn sender_report_writes_rtp_time_and_packet_count_in_their_own_slots() {
    let raw = sample_report().to_raw().unwrap();
    assert_eq!([0xaa, 0xf4, 0xed, 0xd5], raw[16..20]);
    assert_eq!([0x00, 0x00, 0x00, 0x01], raw[20..24]);
    assert_eq!([0x00, 0x00, 0x00, 0x02], raw[24..28]);
}

#[test]
fn sender_report_round_trips() {
    let raw = sample_raw();
    assert_eq!(raw, SenderReport::from_raw(&raw).unwrap().to_raw().unwrap());
    let report = sample_report();
    assert_eq!(report, SenderReport::from_raw(&report.to_raw().unwrap()).unwrap());
}

#[test]
fn sender_report_keeps_what_follows_the_blocks_as_extension() {
    let mut raw = sample_raw();
    raw.extend_from_slice(&[1, 2, 3, 4, 5]);
    let report = SenderReport::from_raw(&raw).unwrap();
    assert_eq!(Some(vec![1, 2, 3, 4, 5]), report.profile_extensions);
    assert_eq!(raw, report.to_raw().unwrap());
    assert_eq!(raw.len(), report.length());
}

#[test]
fn sender_report_without_blocks() {
    let mut raw = sample_raw();
    raw.truncate(28);
    raw[0] = 0x80;
    let report = SenderReport::from_raw(&raw).unwrap();
    assert!(report.reports.is_empty());
    assert_eq!(None, report.profile_extensions);
    assert_eq!(Vec::<u32>::new(), report.synchronization_sources());
    assert_eq!(28, report.length());
    assert_eq!(raw, report.to_raw().unwrap());
}

#[test]
fn sender_report_shorter_than_28_octets_is_rejected() {
    let raw = sample_raw();
    assert!(SenderReport::from_raw(&raw[..27]).is_err());
    assert!(SenderReport::from_raw(&[]).is_err());
}

#[test]
fn sender_report_of_another_type_is_rejected() {
    let mut raw = sample_raw();
    raw[1] = 0xc9;
    assert!(SenderReport::from_raw(&raw).is_err());
}

#[test]
fn sender_report_of_another_version_is_rejected() {
    let mut raw = sample_raw();
    raw[0] = 0x41;
    assert!(SenderReport::from_raw(&raw).is_err());
}

#[test]
fn sender_report_with_a_short_block_is_rejected() {
    let raw = sample_raw();
    assert!(SenderReport::from_raw(&raw[..51]).is_err());
    let mut two = sample_raw();
    two[0] = 0x82;
    assert!(SenderReport::from_raw(&two).is_err());
    two.extend_from_slice(&[0u8; 23]);
    assert!(SenderReport::from_raw(&two).is_err());
    two.push(0);
    assert_eq!(2, SenderReport::from_raw(&two).unwrap().reports.len());
}

#[test]
fn sender_report_length_counts_header_sender_blocks_and_extension() {
    let mut report = sample_report();
    assert_eq!(52, report.length());
    report.reports.push(ReceptionReport::default());
    assert_eq!(76, report.length());
    report.profile_extensions = Some(vec![0; 3]);
    assert_eq!(79, report.length());
}

#[test]
fn sender_report_names_the_sources_of_its_blocks_not_its_own() {
    let mut report = sample_report();
    assert_eq!(vec![0xbc5e9a40], report.synchronization_sources());
    report.reports.push(ReceptionReport {
        synchronization_source: 7,
        ..ReceptionReport::default()
    });
    assert_eq!(vec![0xbc5e9a40, 7], report.synchronization_sources());
}

#[test]
fn sender_report_with_more_than_31_blocks_is_not_emitted() {
    let mut report = sample_report();
    report.reports = vec![ReceptionReport::default(); 31];
    report.header.report_count = 31;
    assert_eq!(28 + 31 * 24, report.to_raw().unwrap().len());
    report.reports.push(ReceptionReport::default());
    assert!(report.to_raw().is_err());
}

#[test]
fn sender_report_with_a_header_count_over_31_is_not_emitted() {
    let mut report = sample_report();
    report.header.report_count = 32;
    assert!(report.to_raw().is_err());
}

#[test]
fn sender_report_with_a_block_that_cannot_be_emitted_is_not_emitted() {
    let mut report = sample_report();
    report.reports[0].total_lost = 1 << 24;
    assert!(report.to_raw().is_err());
    report.reports[0].total_lost = (1 << 24) - 1;
    assert!(report.to_raw().is_ok());
}
