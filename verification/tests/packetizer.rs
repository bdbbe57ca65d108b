#![allow(deprecated)]

use chrono::{FixedOffset, TimeZone};
use wrwr_rtp::codecs::g711::G711PayloadGenerator;
use wrwr_rtp::codecs::g722::G722PayloadGenerator;
use wrwr_rtp::codecs::h264::H264PayloadGenerator;
use wrwr_rtp::codecs::opus::OpusPayloadGenerator;
use wrwr_rtp::codecs::vp8::VP8PayloadGenerator;
use wrwr_rtp::codecs::vp9::VP9PayloadGenerator;
use wrwr_rtp::packet::Packet;
use wrwr_rtp::packetizer::{
    find_abs_send_time, frame_fragments, get_ntp_time, make_abs_send_time_extension,
    ntp_time_of_reading, to_ntp_time, ExtensionNumber, G711Packetizer, G722Packetizer,
    H264Packetizer, OpusPacketizer, Packetizer, VP8Packetizer, VP9Packetizer,
};
use wrwr_rtp::Sequencer;

#[test]
fn it_packetizes_arbitrary_data() {
    // We'll use the G722 codecs here because it's simple and accepts an array filled of zeros
    // as valid data.
    let mut packetizer = G722Packetizer::new(100, 98, 0x1234abcd);
    let data = [0u8; 128];

    let packets = packetizer.packetize(&data, 2000);
    assert!(packets.is_some());

    let packets = packets.unwrap();
    assert_eq!(2, packets.len());
}

#[test]
fn packetizer_it_returns_none_when_mtu_is_too_small() {
    let mut packetizer = G722Packetizer::new(5, 98, 0x1234abcd);
    let data = [0u8; 128];

    let packets = packetizer.packetize(&data, 2000);
    assert!(packets.is_none());
}

#[test]
fn it_returns_none_when_there_is_no_data_to_packetize() {
    let mut packetizer = G722Packetizer::new(100, 98, 0x1234abcd);

    let packets = packetizer.packetize(&[], 2000);
    assert!(packets.is_none());
}

#[test]
fn it_converts_an_epoch_into_a_ntp_time() {
    let time = FixedOffset::west(5 * 3600)
        .ymd(1985, 6, 23)
        .and_hms(4, 0, 0);
    assert_eq!(
        to_ntp_time(time.timestamp_nanos() as u64),
        0xa0c65b1000000000
    );

    let time = FixedOffset::east(3600).ymd(2020, 1, 28).and_hms(11, 34, 23);
    assert_eq!(
        to_ntp_time(time.timestamp_nanos() as u64),
        0xe1da8caf00000000
    );
}

#[test]
fn ntp_time_of_the_unix_epoch() {
    assert_eq!(0x83aa7e80_00000000, to_ntp_time(0));
}

#[test]
fn ntp_time_has_the_fraction_of_the_second_in_its_lower_half() {
    assert_eq!(0x83aa7e80_80000000, to_ntp_time(500_000_000));
    assert_eq!(0x83aa7e81_40000000, to_ntp_time(1_250_000_000));
    assert_eq!(0x83aa7e80_00000004, to_ntp_time(1));
    assert_eq!(0x83aa7e80_fffffffb, to_ntp_time(999_999_999));
}

#[test]
fn ntp_time_wraps_its_seconds_at_32_bits() {
    // 2036-02-07 06:28:16 UTC, the first second of the next NTP era
    assert_eq!(0, to_ntp_time(2_085_978_496_000_000_000));
    assert_eq!(0x00000001_00000000, to_ntp_time(2_085_978_497_000_000_000));
    assert_eq!(0xffffffff_00000000, to_ntp_time(2_085_978_495_000_000_000));
    assert_eq!(0xcf2d7889_b5a52cb5, to_ntp_time(u64::MAX));
}

#[test]
fn ntp_time_of_a_clock_reading() {
    assert_eq!(to_ntp_time(1_250_000_000), ntp_time_of_reading(Some(1_250_000_000)));
    assert_eq!(to_ntp_time(i64::MAX as u64), ntp_time_of_reading(Some(i64::MAX)));
    assert_eq!(to_ntp_time(0), ntp_time_of_reading(Some(0)));
    assert_eq!(to_ntp_time(0), ntp_time_of_reading(Some(-1)));
    assert_eq!(to_ntp_time(0), ntp_time_of_reading(Some(i64::MIN)));
    assert_eq!(to_ntp_time(0), ntp_time_of_reading(None));
}

#[test]
fn the_clock_does_not_read_the_epoch() {
    assert_ne!(to_ntp_time(0), get_ntp_time());
    let packetizer = G711Packetizer::new(100, 0, 1);
    assert_ne!(to_ntp_time(0), packetizer.ntp_time());
}

#[test]
fn abs_send_time_extension_has_the_id_the_length_code_and_24_bits_of_time() {
    assert_eq!(vec![0x12, 0, 0, 0], make_abs_send_time_extension(1, 0));
    assert_eq!(vec![0xe2, 0, 0, 0], make_abs_send_time_extension(14, 0x3f));
    assert_eq!(vec![0x32, 0, 0, 1], make_abs_send_time_extension(3, 0x40));
    assert_eq!(
        vec![0x32, 0xff, 0xff, 0xff],
        make_abs_send_time_extension(3, 0x3fff_ffff)
    );
    assert_eq!(vec![0x32, 0, 0, 0], make_abs_send_time_extension(3, 0x4000_0000));
    assert_eq!(
        vec![0x52, 0x48, 0xd1, 0x59],
        make_abs_send_time_extension(5, 0x83aa7e80_12345678)
    );
}

#[test]
fn abs_send_time_extension_takes_four_bits_of_the_id() {
    assert_eq!(vec![0x02, 0, 0, 0], make_abs_send_time_extension(16, 0));
    assert_eq!(vec![0xf2, 0, 0, 0], make_abs_send_time_extension(0xffff_ffff, 0));
}

#[test]
fn abs_send_time_goes_by_the_last_registration() {
    assert_eq!(None, find_abs_send_time(&[]));
    assert_eq!(None, find_abs_send_time(&[ExtensionNumber::Unknown]));
    assert_eq!(
        Some(3),
        find_abs_send_time(&[ExtensionNumber::AbsSendTime(3)])
    );
    assert_eq!(
        Some(5),
        find_abs_send_time(&[
            ExtensionNumber::AbsSendTime(3),
            ExtensionNumber::Unknown,
            ExtensionNumber::AbsSendTime(5),
            ExtensionNumber::Unknown,
        ])
    );
}

fn g722(mtu: usize, timestamp: u32, last_number: u16) -> G722Packetizer {
    Packetizer::starting_at(
        mtu,
        98,
        0x1234abcd,
        timestamp,
        Sequencer::starting_after(last_number),
        G722PayloadGenerator::default(),
    )
}

#[test]
fn packets_of_a_g722_frame() {
    let mut packetizer = g722(100, 5000, 99);
    let packets = packetizer.packetize(&[0u8; 128], 2000).unwrap();
    assert_eq!(2, packets.len());
    assert_eq!(vec![88, 40], packets.iter().map(|p| p.payload.len()).collect::<Vec<_>>());
    assert_eq!(vec![false, true], packets.iter().map(|p| p.marker).collect::<Vec<_>>());
    assert_eq!(vec![100, 101], packets.iter().map(|p| p.sequence_number).collect::<Vec<_>>());
    for packet in &packets {
        assert_eq!(2, packet.version);
        assert!(!packet.padding);
        assert!(!packet.extension);
        assert_eq!(98, packet.payload_type);
        assert_eq!(0x1234abcd, packet.ssrc);
        assert_eq!(5000, packet.timestamp);
        assert!(packet.csrc.is_empty());
        assert_eq!(None, packet.extension_profile);
        assert_eq!(None, packet.extension_payload);
        assert_eq!(12, packet.payload_offset);
        assert_eq!(None, packet.raw);
        assert!(packet.packet_size() <= 100);
    }
    assert_eq!(7000, packetizer.current_timestamp());
}

#[test]
fn packets_of_a_frame_from_a_random_start_are_numbered_in_turn() {
    let mut packetizer = G722Packetizer::new(100, 98, 0x1234abcd);
    let before = packetizer.current_timestamp();
    let packets = packetizer.packetize(&[0u8; 128], 2000).unwrap();
    assert_eq!(2, packets.len());
    assert_eq!(
        packets[0].sequence_number.wrapping_add(1),
        packets[1].sequence_number
    );
    assert_eq!(before, packets[0].timestamp);
    assert_eq!(before, packets[1].timestamp);
    assert_eq!(before.wrapping_add(2000), packetizer.current_timestamp());

    let more = packetizer.packetize(&[0u8; 10], 1).unwrap();
    assert_eq!(
        packets[1].sequence_number.wrapping_add(1),
        more[0].sequence_number
    );
    assert_eq!(before.wrapping_add(2001), packetizer.current_timestamp());
}

#[test]
fn sequence_numbers_wrap_within_a_frame() {
    let mut packetizer = g722(13, 0, 0xfffd);
    let packets = packetizer.packetize(&[1, 2, 3, 4], 1).unwrap();
    assert_eq!(
        vec![0xfffe, 0xffff, 0, 1],
        packets.iter().map(|p| p.sequence_number).collect::<Vec<_>>()
    );
    assert_eq!(1, packetizer.sequencer.roll_over_count());
}

#[test]
fn only_the_last_packet_has_the_marker() {
    for length in [1usize, 2, 9, 10, 11, 35] {
        let mut packetizer = g722(22, 0, 0);
        let packets = packetizer.packetize(&vec![0u8; length], 1).unwrap();
        assert_eq!((length + 9) / 10, packets.len());
        for (i, packet) in packets.iter().enumerate() {
            assert_eq!(i == packets.len() - 1, packet.marker);
        }
    }
}

#[test]
fn timestamp_advances_modulo_32_bits() {
    let mut packetizer = g722(100, 0xffff_fff0, 0);
    packetizer.packetize(&[0u8; 500], 0x20).unwrap();
    assert_eq!(0x10, packetizer.current_timestamp());
    packetizer.packetize(&[0u8; 1], u32::MAX).unwrap();
    assert_eq!(0x0f, packetizer.current_timestamp());
    packetizer.packetize(&[0u8; 1], 0).unwrap();
    assert_eq!(0x0f, packetizer.current_timestamp());
}

#[test]
fn nothing_changes_when_nothing_is_sent() {
    let mut packetizer = g722(12, 77, 5);
    assert!(packetizer.packetize(&[0u8; 128], 2000).is_none());
    assert_eq!(77, packetizer.current_timestamp());
    packetizer.mtu = 100;
    assert!(packetizer.packetize(&[], 2000).is_none());
    assert_eq!(77, packetizer.current_timestamp());
    let packets = packetizer.packetize(&[0u8; 1], 2000).unwrap();
    assert_eq!(6, packets[0].sequence_number);
    assert_eq!(77, packets[0].timestamp);
    assert_eq!(2077, packetizer.current_timestamp());
}

#[test]
fn an_mtu_of_thirteen_leaves_room_for_one_octet() {
    let mut packetizer = g722(13, 0, 0);
    let packets = packetizer.packetize(&[5, 6], 1).unwrap();
    assert_eq!(vec![vec![5], vec![6]], packets.iter().map(|p| p.payload.clone()).collect::<Vec<_>>());
}

#[test]
fn nothing_is_sent_when_the_fragmenter_gives_nothing() {
    // VP9 needs three octets of descriptor after the twelve of the header.
    let mut packetizer: VP9Packetizer = Packetizer::starting_at(
        15,
        96,
        1,
        1000,
        Sequencer::starting_after(10),
        VP9PayloadGenerator { picture_id: 4, initialized: true },
    );
    assert!(packetizer.packetize(&[1, 2, 3], 3000).is_none());
    assert_eq!(1000, packetizer.current_timestamp());
    assert_eq!(4, packetizer.generator.picture_id);
    packetizer.mtu = 16;
    let packets = packetizer.packetize(&[1, 2], 3000).unwrap();
    assert_eq!(
        vec![vec![0x98, 0x80, 0x04, 1], vec![0x94, 0x80, 0x04, 2]],
        packets.iter().map(|p| p.payload.clone()).collect::<Vec<_>>()
    );
    assert_eq!(vec![11, 12], packets.iter().map(|p| p.sequence_number).collect::<Vec<_>>());
    assert_eq!(4000, packetizer.current_timestamp());
    assert_eq!(5, packetizer.generator.picture_id);
}

#[test]
fn payloads_put_end_to_end_are_the_frame() {
    let frame: Vec<u8> = (0..1000u32).map(|i| (i * 7 + 3) as u8).collect();
    for mtu in [13usize, 14, 100, 512, 1011, 1012, 1013, 1500] {
        let mut g711: G711Packetizer = Packetizer::starting_at(
            mtu,
            0,
            1,
            0,
            Sequencer::starting_after(0),
            G711PayloadGenerator::default(),
        );
        let packets = g711.packetize(&frame, 160).unwrap();
        assert_eq!(frame, packets.iter().flat_map(|p| p.payload.clone()).collect::<Vec<_>>());
        assert!(packets.iter().all(|p| p.packet_size() <= mtu));

        let mut g722 = g722(mtu, 0, 0);
        let packets = g722.packetize(&frame, 160).unwrap();
        assert_eq!(frame, packets.iter().flat_map(|p| p.payload.clone()).collect::<Vec<_>>());

        let mut opus: OpusPacketizer = Packetizer::starting_at(
            mtu,
            111,
            1,
            0,
            Sequencer::starting_after(0),
            OpusPayloadGenerator::default(),
        );
        let packets = opus.packetize(&frame, 960).unwrap();
        assert_eq!(1, packets.len());
        assert_eq!(frame, packets[0].payload);
        assert!(packets[0].marker);

        if mtu > 13 {
            let mut vp8: VP8Packetizer = Packetizer::starting_at(
                mtu,
                96,
                1,
                0,
                Sequencer::starting_after(0),
                VP8PayloadGenerator::default(),
            );
            let packets = vp8.packetize(&frame, 3000).unwrap();
            assert_eq!(
                frame,
                packets.iter().flat_map(|p| p.payload[1..].to_vec()).collect::<Vec<_>>()
            );
            assert_eq!(0x10, packets[0].payload[0]);
            assert!(packets[1..].iter().all(|p| p.payload[0] == 0));
            assert!(packets.iter().all(|p| p.packet_size() <= mtu));
        }
    }
}

#[test]
fn h264_packets_of_a_frame() {
    let mut packetizer: H264Packetizer = Packetizer::starting_at(
        17,
        102,
        9,
        90000,
        Sequencer::starting_after(0),
        H264PayloadGenerator::default(),
    );
    let frame = [0, 0, 0, 1, 0x67, 1, 2, 0, 0, 1, 0x65, 1, 2, 3, 4, 5, 6];
    let packets = packetizer.packetize(&frame, 3000).unwrap();
    assert_eq!(
        vec![vec![0x67, 1, 2], vec![0x7c, 0x85, 1, 2, 3], vec![0x7c, 0x45, 4, 5, 6]],
        packets.iter().map(|p| p.payload.clone()).collect::<Vec<_>>()
    );
    assert_eq!(vec![false, false, true], packets.iter().map(|p| p.marker).collect::<Vec<_>>());
    assert_eq!(93000, packetizer.current_timestamp());
}

#[test]
fn the_last_packet_carries_the_abs_send_time_extension() {
    let mut packetizer = g722(100, 0, 0);
    packetizer.add_extension_number(ExtensionNumber::Unknown);
    packetizer.add_extension_number(ExtensionNumber::AbsSendTime(3));
    let packets = packetizer.packetize(&[0u8; 128], 2000).unwrap();
    assert_eq!(2, packets.len());

    assert!(!packets[0].extension);
    assert_eq!(None, packets[0].extension_profile);
    assert_eq!(None, packets[0].extension_payload);
    assert_eq!(12, packets[0].payload_offset);

    assert!(packets[1].extension);
    assert!(packets[1].marker);
    assert_eq!(Some(0xbede), packets[1].extension_profile);
    let extension = packets[1].extension_payload.clone().unwrap();
    assert_eq!(4, extension.len());
    assert_eq!(0x32, extension[0]);
    assert_eq!(20, packets[1].payload_offset);

    let raw = packets[1].to_raw().unwrap();
    assert_eq!(0x90, raw[0]);
    assert_eq!([0xbe, 0xde, 0x00, 0x01, 0x32], raw[12..17]);
    let parsed = Packet::from_raw(&raw).unwrap();
    assert_eq!(packets[1].extension_payload, parsed.extension_payload);
    assert_eq!(packets[1].payload, parsed.payload);
}

#[test]
fn no_extension_without_an_abs_send_time_registration() {
    let mut packetizer = g722(100, 0, 0);
    packetizer.add_extension_number(ExtensionNumber::Unknown);
    let packets = packetizer.packetize(&[0u8; 128], 2000).unwrap();
    assert!(packets.iter().all(|p| !p.extension && p.extension_payload.is_none()));
}

#[test]
fn registrations_are_kept_in_order() {
    let mut packetizer = g722(100, 0, 0);
    assert!(packetizer.extensions.is_empty());
    packetizer.add_extension_number(ExtensionNumber::AbsSendTime(1));
    packetizer.add_extension_number(ExtensionNumber::Unknown);
    assert_eq!(
        vec![ExtensionNumber::AbsSendTime(1), ExtensionNumber::Unknown],
        packetizer.extensions
    );
}

#[test]
fn a_new_packetizer_keeps_its_configuration() {
    let packetizer = H264Packetizer::new(1200, 102, 0xcafe);
    assert_eq!(1200, packetizer.mtu);
    assert_eq!(102, packetizer.payload_type);
    assert_eq!(0xcafe, packetizer.synchronization_source);
    assert!(packetizer.extensions.is_empty());
    assert_eq!(0, packetizer.sequencer.roll_over_count());
}

#[test]
fn fragments_are_framed_with_the_given_extension_on_the_last() {
    let mut sequencer = Sequencer::starting_after(7);
    let fragments = vec![vec![1u8], vec![2, 3], vec![]];
    let packets = frame_fragments(&fragments, 96, 5, 6, &mut sequencer, Some(vec![9, 9, 9, 9]));
    assert_eq!(3, packets.len());
    assert_eq!(vec![8, 9, 10], packets.iter().map(|p| p.sequence_number).collect::<Vec<_>>());
    assert_eq!(fragments, packets.iter().map(|p| p.payload.clone()).collect::<Vec<_>>());
    assert_eq!(Some(vec![9, 9, 9, 9]), packets[2].extension_payload);
    assert_eq!(Some(0xbede), packets[2].extension_profile);
    assert_eq!(None, packets[1].extension_payload);
    assert_eq!(11, sequencer.next_sequence_number());

    let none = frame_fragments(&Vec::new(), 96, 5, 6, &mut sequencer, None);
    assert!(none.is_empty());
    assert_eq!(12, sequencer.next_sequence_number());
}

#[test]
fn every_packet_of_a_frame_can_be_sent_and_read_again() {
    let mut packetizer = g722(50, 123456, 65530);
    packetizer.add_extension_number(ExtensionNumber::AbsSendTime(2));
    let frame: Vec<u8> = (0..200u8).collect();
    let packets = packetizer.packetize(&frame, 320).unwrap();
    for packet in &packets {
        let raw = packet.to_raw().unwrap();
        assert_eq!(packet.packet_size(), raw.len());
        let mut expected = packet.clone();
        expected.raw = Some(raw.clone());
        assert_eq!(expected, Packet::from_raw(&raw).unwrap());
    }
}
