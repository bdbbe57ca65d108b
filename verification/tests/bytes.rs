use wrwr_rtp::bytes::{
    copy_range, push_range, push_u16_be, push_u24_be, push_u32_be, push_u32_be_list, push_u64_be,
    read_u16_be, read_u24_be, read_u32_be, read_u32_be_list, read_u64_be,
};

const OCTETS: [u8; 10] = [0xff, 0x01, 0x23, 0x45, 0x67, 0x89, 0xab, 0xcd, 0xef, 0x00];

#[test]
fn numbers_are_read_most_significant_octet_first() {
    assert_eq!(0x0123, read_u16_be(&OCTETS, 1));
    assert_eq!(0x012345, read_u24_be(&OCTETS, 1));
    assert_eq!(0x01234567, read_u32_be(&OCTETS, 1));
    assert_eq!(0x0123456789abcdef, read_u64_be(&OCTETS, 1));
    assert_eq!(0xff01, read_u16_be(&OCTETS, 0));
    assert_eq!(0xef00, read_u16_be(&OCTETS, 8));
    assert_eq!(0xcdef00, read_u24_be(&OCTETS, 7));
    assert_eq!(0xabcdef00, read_u32_be(&OCTETS, 6));
    assert_eq!(0x23456789abcdef00, read_u64_be(&OCTETS, 2));
}

#[test]
fn numbers_are_written_most_significant_octet_first() {
    let mut out = vec![0xff];
    push_u16_be(&mut out, 0x0123);
    assert_eq!(vec![0xff, 0x01, 0x23], out);
    push_u24_be(&mut out, 0x456789);
    assert_eq!(vec![0xff, 0x01, 0x23, 0x45, 0x67, 0x89], out);
    push_u32_be(&mut out, 0xabcdef00);
    assert_eq!(OCTETS.to_vec(), out);

    let mut out = Vec::new();
    push_u64_be(&mut out, 0x0123456789abcdef);
    assert_eq!(OCTETS[1..9].to_vec(), out);
}

#[test]
fn only_24_bits_of_a_larger_number_are_written() {
    let mut out = Vec::new();
    push_u24_be(&mut out, 0xff123456);
    assert_eq!(vec![0x12, 0x34, 0x56], out);
}

#[test]
fn extreme_numbers_are_written_and_read() {
    let mut out = Vec::new();
    push_u16_be(&mut out, u16::MAX);
    push_u32_be(&mut out, u32::MAX);
    push_u64_be(&mut out, u64::MAX);
    push_u16_be(&mut out, 0);
    push_u32_be(&mut out, 0);
    push_u64_be(&mut out, 0);
    assert_eq!([vec![0xffu8; 14], vec![0u8; 14]].concat(), out);
    assert_eq!(u16::MAX, read_u16_be(&out, 0));
    assert_eq!(u32::MAX, read_u32_be(&out, 2));
    assert_eq!(u64::MAX, read_u64_be(&out, 6));
    assert_eq!(0, read_u64_be(&out, 14));
    assert_eq!(0xff00, read_u16_be(&out, 13));
}

#[test]
fn lists_of_numbers_are_read_and_written_in_turn() {
    assert_eq!(
        vec![0x01234567, 0x89abcdef],
        read_u32_be_list(&OCTETS, 1, 2)
    );
    assert_eq!(Vec::<u32>::new(), read_u32_be_list(&OCTETS, 10, 0));
    let mut out = vec![0xff];
    push_u32_be_list(&mut out, &[0x01234567, 0x89abcdef]);
    assert_eq!(OCTETS[..9].to_vec(), out);
    push_u32_be_list(&mut out, &[]);
    assert_eq!(OCTETS[..9].to_vec(), out);
}

#[test]
fn ranges_are_copied() {
    assert_eq!(vec![0x23, 0x45, 0x67], copy_range(&OCTETS, 2, 5));
    assert_eq!(Vec::<u8>::new(), copy_range(&OCTETS, 10, 10));
    assert_eq!(OCTETS.to_vec(), copy_range(&OCTETS, 0, 10));
    let mut out = vec![1];
    push_range(&mut out, &OCTETS, 8, 10);
    assert_eq!(vec![1, 0xef, 0x00], out);
}
