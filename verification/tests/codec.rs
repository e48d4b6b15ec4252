use arcon_core::codec::{
    copy_range, decode_frames, decode_list, encode_frames, encode_list, extend, same_bytes,
    IndexValue,
};

#[test]
fn u64_encodes_as_eight_bytes_lowest_first() {
    assert_eq!(0x0102u64.encode(), vec![2, 1, 0, 0, 0, 0, 0, 0]);
    assert_eq!(u64::decode(&[2, 1, 0, 0, 0, 0, 0, 0]), Some(0x0102));
}

#[test]
fn u64_does_not_decode_from_another_length() {
    assert_eq!(u64::decode(&[1, 2, 3]), None);
    assert_eq!(u64::decode(&[]), None);
    assert_eq!(u64::decode(&[0; 9]), None);
}

#[test]
fn u32_and_u8_round_trip() {
    assert_eq!(u32::decode(&0xdead_beefu32.encode()), Some(0xdead_beef));
    assert_eq!(5u32.encode(), vec![5, 0, 0, 0]);
    assert_eq!(u8::decode(&200u8.encode()), Some(200));
    assert_eq!(u8::decode(&[1, 2]), None);
}

#[test]
fn defaults_are_zero() {
    assert_eq!(u64::initial(), 0);
    assert_eq!(u32::initial(), 0);
    assert_eq!(u8::initial(), 0);
    assert_eq!(<(u64, u8)>::initial(), (0, 0));
}

#[test]
fn same_tells_values_apart() {
    assert!(3u64.same(&3));
    assert!(!3u64.same(&4));
    assert!((1u64, 2u8).same(&(1, 2)));
    assert!(!(1u64, 2u8).same(&(1, 3)));
}

#[test]
fn frames_put_each_length_before_its_bytes() {
    let items = vec![vec![1u8, 2u8], vec![], vec![9u8]];
    let bytes = encode_frames(&items);
    assert_eq!(
        bytes,
        vec![2, 0, 0, 0, 0, 0, 0, 0, 1, 2, 0, 0, 0, 0, 0, 0, 0, 0, 1, 0, 0, 0, 0, 0, 0, 0, 9]
    );
    assert_eq!(decode_frames(&bytes), Some(items));
}

#[test]
fn no_frames_are_no_bytes() {
    assert_eq!(encode_frames(&Vec::new()), Vec::<u8>::new());
    assert_eq!(decode_frames(&[]), Some(Vec::new()));
}

#[test]
fn frames_that_end_early_do_not_decode() {
    assert_eq!(decode_frames(&[1, 0, 0]), None);
    assert_eq!(decode_frames(&[2, 0, 0, 0, 0, 0, 0, 0, 1]), None);
    assert_eq!(decode_frames(&[255; 8]), None);
}

#[test]
fn a_pair_is_two_frames() {
    let bytes = (1u8, 2u8).encode();
    assert_eq!(bytes, vec![1, 0, 0, 0, 0, 0, 0, 0, 1, 1, 0, 0, 0, 0, 0, 0, 0, 2]);
    assert_eq!(<(u8, u8)>::decode(&bytes), Some((1, 2)));
    assert_eq!(<(u8, u8)>::decode(&[1, 0, 0, 0, 0, 0, 0, 0, 1]), None);
    assert_eq!(<(u8, u64)>::decode(&bytes), None);
}

#[test]
fn lists_round_trip() {
    let items = vec![10u64, 20, 30];
    let bytes = encode_list(&items);
    assert_eq!(bytes.len(), 3 * 16);
    assert_eq!(decode_list::<u64>(&bytes), Some(items));
    assert_eq!(decode_list::<u32>(&bytes), None);
}

#[test]
fn byte_helpers() {
    let mut out = vec![1u8];
    extend(&mut out, &[2, 3]);
    assert_eq!(out, vec![1, 2, 3]);
    assert_eq!(copy_range(&out, 1, 3), vec![2, 3]);
    assert_eq!(copy_range(&out, 2, 2), Vec::<u8>::new());
    assert!(same_bytes(&[1, 2], &[1, 2]));
    assert!(!same_bytes(&[1, 2], &[1, 3]));
    assert!(!same_bytes(&[1, 2], &[1]));
}
