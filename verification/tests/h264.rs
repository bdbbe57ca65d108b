use wrwr_rtp::codecs::h264::H264PayloadGenerator;
use wrwr_rtp::PayloadGenerator;

#[test]
fn it_generates_rtp_payload_from_small_h264_data() {
    let mut generator = H264PayloadGenerator::default();
    let payload = [0x90u8; 3];

    let payloads = generator.generate(5, &payload);
    assert!(payloads.is_some());

    let payloads = payloads.unwrap();
    assert_eq!(1, payloads.len());
    assert_eq!(3, payloads[0].len());
}

#[test]
fn it_generates_multiple_rtp_payloads_from_h264_data() {
    let mut generator = H264PayloadGenerator::default();
    let payload = [
        0x00u8, 0x00u8, 0x01u8, 0x90u8, 0x00u8, 0x00u8, 0x01u8, 0x90u8,
    ];

    let payloads = generator.generate(5, &payload);
    assert!(payloads.is_some());

    let payloads = payloads.unwrap();
    assert_eq!(2, payloads.len());

    for payload in payloads {
        assert_eq!(1, payload.len());
    }
}

#[test]
fn it_returns_none_for_empty_payload() {
    let mut generator = H264PayloadGenerator::default();

    let payloads = generator.generate(5, &[]);
    assert!(payloads.is_none());
}

#[test]
fn it_returns_none_for_null_mtu() {
    let mut generator = H264PayloadGenerator::default();
    let payload = [0x90u8; 3];

    let payloads = generator.generate(0, &payload);
    assert!(payloads.is_none());
}

#[test]
fn it_returns_none_for_ignored_nal_types() {
    let mut generator = H264PayloadGenerator::default();
    let payload = [0x09u8, 0x00u8, 0x00u8];

    let payloads = generator.generate(5, &payload);
    assert!(payloads.is_none());
}

#[test]
fn start_codes_of_three_and_four_octets_are_found() {
    assert_eq!(
        Some((0, 3)),
        H264PayloadGenerator::get_nal_unit_boundaries(&[0, 0, 1, 0x65], 0)
    );
    assert_eq!(
        Some((0, 4)),
        H264PayloadGenerator::get_nal_unit_boundaries(&[0, 0, 0, 1, 0x65], 0)
    );
    assert_eq!(
        Some((2, 3)),
        H264PayloadGenerator::get_nal_unit_boundaries(&[0x65, 0x01, 0, 0, 1, 0x65], 0)
    );
    assert_eq!(
        Some((3, 4)),
        H264PayloadGenerator::get_nal_unit_boundaries(&[0, 0, 1, 0, 0, 0, 1, 9], 3)
    );
}

#[test]
fn start_code_takes_all_the_zero_octets_before_its_one() {
    assert_eq!(
        Some((1, 6)),
        H264PayloadGenerator::get_nal_unit_boundaries(&[7, 0, 0, 0, 0, 0, 1, 7], 0)
    );
}

#[test]
fn start_code_search_does_not_look_before_its_start() {
    assert_eq!(
        None,
        H264PayloadGenerator::get_nal_unit_boundaries(&[0, 0, 1, 0x65], 1)
    );
    assert_eq!(
        None,
        H264PayloadGenerator::get_nal_unit_boundaries(&[0, 0, 1, 0x65], 4)
    );
    assert_eq!(
        Some((1, 3)),
        H264PayloadGenerator::get_nal_unit_boundaries(&[0, 0, 0, 1, 0x65], 1)
    );
}

#[test]
fn no_start_code_without_two_zero_octets_before_the_one() {
    assert_eq!(None, H264PayloadGenerator::get_nal_unit_boundaries(&[], 0));
    assert_eq!(None, H264PayloadGenerator::get_nal_unit_boundaries(&[0, 0], 0));
    assert_eq!(None, H264PayloadGenerator::get_nal_unit_boundaries(&[0, 1, 0, 1], 0));
    assert_eq!(None, H264PayloadGenerator::get_nal_unit_boundaries(&[0, 0, 2, 1], 0));
    assert_eq!(None, H264PayloadGenerator::get_nal_unit_boundaries(&[1, 0, 1, 1], 0));
}

#[test]
fn unit_shorter_than_the_mtu_is_sent_whole() {
    assert_eq!(
        Some(vec![vec![0x65, 1, 2, 3]]),
        H264PayloadGenerator::generate_payloads_from_nal_unit(5, &[0x65, 1, 2, 3])
    );
}

#[test]
fn unit_as_long_as_the_mtu_is_cut_into_fu_a_fragments() {
    // type 5, NRI 3: indicator 0x7c, header 0x05 with S on the first and E on the last
    assert_eq!(
        Some(vec![vec![0x7c, 0x85, 1, 2], vec![0x7c, 0x45, 3]]),
        H264PayloadGenerator::generate_payloads_from_nal_unit(4, &[0x65, 1, 2, 3])
    );
    assert_eq!(
        Some(vec![
            vec![0x7c, 0x85, 1],
            vec![0x7c, 0x05, 2],
            vec![0x7c, 0x05, 3],
            vec![0x7c, 0x45, 4]
        ]),
        H264PayloadGenerator::generate_payloads_from_nal_unit(3, &[0x65, 1, 2, 3, 4])
    );
}

#[test]
fn fu_a_indicator_carries_the_nri_of_the_unit() {
    // type 1, NRI 0 .. 3, forbidden bit left out
    for (first, indicator) in [(0x01u8, 0x1cu8), (0x21, 0x3c), (0x41, 0x5c), (0x61, 0x7c), (0xe1, 0x7c)] {
        let fragments =
            H264PayloadGenerator::generate_payloads_from_nal_unit(3, &[first, 9, 8]).unwrap();
        assert_eq!(vec![vec![indicator, 0x81, 9], vec![indicator, 0x41, 8]], fragments);
    }
}

#[test]
fn unit_that_gives_nothing() {
    assert_eq!(None, H264PayloadGenerator::generate_payloads_from_nal_unit(5, &[]));
    assert_eq!(None, H264PayloadGenerator::generate_payloads_from_nal_unit(5, &[0x09, 1]));
    assert_eq!(None, H264PayloadGenerator::generate_payloads_from_nal_unit(5, &[0x0c, 1]));
    assert_eq!(None, H264PayloadGenerator::generate_payloads_from_nal_unit(5, &[0x69, 1]));
    assert_eq!(None, H264PayloadGenerator::generate_payloads_from_nal_unit(5, &[0x2c]));
    assert_eq!(None, H264PayloadGenerator::generate_payloads_from_nal_unit(0, &[0x65]));
    assert_eq!(None, H264PayloadGenerator::generate_payloads_from_nal_unit(1, &[0x65]));
    assert_eq!(None, H264PayloadGenerator::generate_payloads_from_nal_unit(2, &[0x65, 1]));
    assert_eq!(
        Some(vec![vec![0x65]]),
        H264PayloadGenerator::generate_payloads_from_nal_unit(2, &[0x65])
    );
}

#[test]
fn frame_is_cut_unit_by_unit() {
    let mut generator = H264PayloadGenerator::default();
    let frame = [
        0xaa, 0xbb, // before the first start code: skipped
        0, 0, 0, 1, 0x67, 1, 2, // sent whole
        0, 0, 1, 0x09, 0xf0, // access unit delimiter: dropped
        0, 0, 1, 0x65, 1, 2, 3, 4, 5, 6, // cut
        0, 0, 1, // empty unit
    ];
    assert_eq!(
        Some(vec![
            vec![0x67, 1, 2],
            vec![0x7c, 0x85, 1, 2, 3],
            vec![0x7c, 0x45, 4, 5, 6],
        ]),
        generator.generate(5, &frame)
    );
}

#[test]
fn frame_of_dropped_units_gives_nothing() {
    let mut generator = H264PayloadGenerator::default();
    assert!(generator.generate(5, &[0, 0, 1, 0x09, 0x10, 0, 0, 1, 0x0c, 0xff]).is_none());
    assert!(generator.generate(5, &[0, 0, 1]).is_none());
    assert!(generator.generate(5, &[0, 0, 1, 0, 0, 1]).is_none());
}

#[test]
fn frame_without_start_code_is_one_unit() {
    let mut generator = H264PayloadGenerator::default();
    assert_eq!(
        Some(vec![vec![0x7c, 0x85, 0, 1], vec![0x7c, 0x45, 2]]),
        generator.generate(4, &[0x65, 0, 1, 2])
    );
}
