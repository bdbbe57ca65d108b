use wrwr_rtp::rtcp::reception_report::{ReceptionReport, RECEPTION_REPORT_LENGTH};

#[test]
fn it_parses_a_marshalled_reception_report() {
    let raw: [u8; RECEPTION_REPORT_LENGTH] = [
        0x00, 0x00, 0x12, 0x34, 0x00, 0x00, 0x00, 0x00, 0x00, 0x00, 0xab, 0xcd, 0x00, 0x00, 0x00,
        0x12, 0x00, 0x00, 0x00, 0x00, 0x00, 0x00, 0x00, 0x00,
    ];
    let expected = ReceptionReport {
        synchronization_source: 0x1234,
        fraction_lost: 0,
        total_lost: 0,
        last_sequence_number: 0xabcd,
        jitter: 0x12,
        last_sender_report: 0x0,
        delay: 0x0,
    };

    let report = ReceptionReport::from_raw(&raw);
    assert!(report.is_ok());

    let report = report.unwrap();
    assert_eq!(expected, report);
}

#[test]
fn it_exports_a_reception_report_into_a_marshalled_packet() {
    let packet = ReceptionReport {
        synchronization_source: 0x1234,
        fraction_lost: 0,
        total_lost: 0,
        last_sequence_number: 0xabcd,
        jitter: 0x12,
        last_sender_report: 0x0,
        delay: 0x0,
    };
    let expected: Vec<u8> = vec![
        0x00, 0x00, 0x12, 0x34, 0x00, 0x00, 0x00, 0x00, 0x00, 0x00, 0xab, 0xcd, 0x00, 0x00, 0x00,
        0x12, 0x00, 0x00, 0x00, 0x00, 0x00, 0x00, 0x00, 0x00,
    ];

    let raw = packet.to_raw();
    assert!(raw.is_ok());

    let raw = raw.unwrap();
    assert_eq!(expected, raw);
}

fn sample() -> (Vec<u8>, ReceptionReport) {
    (
        vec![
            0xbc, 0x5e, 0x9a, 0x40, 0x7f, 0x01, 0x02, 0x03, 0x00, 0x01, 0x46, 0xe1, 0x00, 0x00,
            0x01, 0x11, 0x09, 0xf3, 0x64, 0x32, 0x00, 0x02, 0x4a, 0x79,
        ],
        ReceptionReport {
            synchronization_source: 0xbc5e9a40,
            fraction_lost: 0x7f,
            total_lost: 0x010203,
            last_sequence_number: 0x000146e1,
            jitter: 273,
            last_sender_report: 0x09f36432,
            delay: 150137,
        },
    )
}

#[test]
fn report_reads_every_field_big_endian() {
    let (raw, expected) = sample();
    assert_eq!(expected, ReceptionReport::from_raw(&raw).unwrap());
}

#[test]
fn report_writes_every_field_big_endian() {
    let (raw, report) = sample();
    assert_eq!(raw, report.to_raw().unwrap());
}

#[test]
fn report_round_trips() {
    let (raw, report) = sample();
    assert_eq!(raw, ReceptionReport::from_raw(&raw).unwrap().to_raw().unwrap());
    assert_eq!(report, ReceptionReport::from_raw(&report.to_raw().unwrap()).unwrap());
}

#[test]
fn report_shorter_than_24_octets_is_rejected() {
    let (raw, _) = sample();
    assert!(ReceptionReport::from_raw(&raw[..23]).is_err());
    assert!(ReceptionReport::from_raw(&[]).is_err());
}

#[test]
fn report_ignores_what_follows_its_24_octets() {
    let (mut raw, expected) = sample();
    raw.extend_from_slice(&[0xde, 0xad]);
    assert_eq!(expected, ReceptionReport::from_raw(&raw).unwrap());
}

#[test]
fn report_with_a_loss_total_of_24_bits_is_emitted() {
    let (_, mut report) = sample();
    report.total_lost = (1 << 24) - 1;
    let raw = report.to_raw().unwrap();
    assert_eq!(24, raw.len());
    assert_eq!([0xff, 0xff, 0xff], raw[5..8]);
}

#[test]
fn report_with_a_loss_total_of_25_bits_is_not_emitted() {
    let (_, mut report) = sample();
    report.total_lost = 1 << 24;
    assert!(report.to_raw().is_err());
    report.total_lost = (1 << 25) - 1;
    assert!(report.to_raw().is_err());
    report.total_lost = u32::MAX;
    assert!(report.to_raw().is_err());
}
