use std::cmp::Ordering;
use xor_name::hex::{first_non_hex_digit, is_hex_digit};
use xor_name::{
    closer_to_target, closer_to_target_or_equal, slice_as_u8_64_array, slice_equal,
    SeqLengthError, XorName, XorNameFromHexError, XOR_NAME_BITS, XOR_NAME_LEN,
};

fn counting_name() -> XorName {
    let mut arr = [0u8; XOR_NAME_LEN];
    for i in 0..XOR_NAME_LEN {
        arr[i] = i as u8;
    }
    XorName::new(arr)
}

#[test]
fn serialisation_xor_name() {
    let obj_before = XorName::random();
    let elems = obj_before.seq_elements();
    assert_eq!(elems.len(), XOR_NAME_LEN);
    let obj_after = XorName::from_seq_elements(&elems).unwrap();
    assert_eq!(obj_before, obj_after);
}

#[test]
fn xor_name_equal_assertion() {
    let type1 = XorName::random();
    let type1_clone = type1.clone();
    let type2 = XorName::random();
    assert_eq!(type1, type1_clone);
    assert!(type1 == type1_clone);
    assert!(!(type1 != type1_clone));
    assert!(type1 != type2);
}

#[test]
fn closeness() {
    let obj0 = XorName::random();
    let obj0_clone = obj0.clone();
    let obj1 = XorName::random();
    assert!(closer_to_target(&obj0_clone, &obj1, &obj0));
    assert!(!closer_to_target(&obj1, &obj0_clone, &obj0));
}

#[test]
fn format_random_nametype() {
    for _ in 0..5 {
        let my_name = XorName::random();
        let debug_id = my_name.get_debug_id();
        let full_id = my_name.as_hex();
        assert_eq!(debug_id.len(), 14);
        assert_eq!(full_id.len(), 2 * XOR_NAME_LEN);
        assert_eq!(&debug_id[0..6], &full_id[0..6]);
        assert_eq!(&debug_id[8..14], &full_id[2 * XOR_NAME_LEN - 6..2 * XOR_NAME_LEN]);
        assert_eq!(&debug_id[6..8], "..");
    }
}

#[test]
fn format_fixed_low_char_nametype() {
    let low_char_id = [1u8; XOR_NAME_LEN];
    let my_low_char_name = XorName::new(low_char_id);
    let debug_id = my_low_char_name.get_debug_id();
    let full_id = my_low_char_name.as_hex();
    assert_eq!(debug_id.len(), 14);
    assert_eq!(full_id.len(), 2 * XOR_NAME_LEN);
    assert_eq!(&debug_id[0..6], &full_id[0..6]);
    assert_eq!(&debug_id[8..14], &full_id[2 * XOR_NAME_LEN - 6..2 * XOR_NAME_LEN]);
    assert_eq!(&debug_id[6..8], "..");
}

#[test]
fn fixed_low_char_exact_forms() {
    let name = XorName::new([1u8; XOR_NAME_LEN]);
    assert_eq!(name.as_hex(), "01".repeat(64));
    assert_eq!(name.get_debug_id(), "010101..010101");
}

#[test]
fn counting_name_exact_forms() {
    let name = counting_name();
    let hex = name.as_hex();
    assert!(hex.starts_with("000102030405060708090a0b0c0d0e0f10"));
    assert!(hex.ends_with("3d3e3f"));
    assert_eq!(name.get_debug_id(), "000102..3d3e3f");
    assert_eq!(XorName::new([0xab; XOR_NAME_LEN]).get_debug_id(), "ababab..ababab");
}

#[test]
fn hex_round_trip() {
    for name in [counting_name(), XorName::random(), XorName::new([0xff; XOR_NAME_LEN])] {
        assert_eq!(XorName::from_hex(&name.as_hex()), Ok(name));
    }
}

#[test]
fn hex_decode_accepts_upper_case() {
    let name = counting_name();
    let upper = name.as_hex().to_uppercase();
    assert_eq!(XorName::from_hex(&upper), Ok(name));
    let mixed = format!("{}{}", &upper[..10], &name.as_hex()[10..]);
    assert_eq!(XorName::from_hex(&mixed), Ok(name));
}

#[test]
fn hex_decode_rejects_whitespace() {
    assert_eq!(XorName::from_hex(" "), Err(XorNameFromHexError::InvalidCharacter(' ', 0)));
    let trailing = format!("{} ", "0".repeat(128));
    assert_eq!(
        XorName::from_hex(&trailing),
        Err(XorNameFromHexError::InvalidCharacter(' ', 128))
    );
    let hex = counting_name().as_hex();
    let spaced = format!("{}\n{}", &hex[..10], &hex[10..]);
    assert_eq!(
        XorName::from_hex(&spaced),
        Err(XorNameFromHexError::InvalidCharacter('\n', 10))
    );
    let tabbed = format!("\t{}", "0".repeat(3));
    assert_eq!(XorName::from_hex(&tabbed), Err(XorNameFromHexError::InvalidCharacter('\t', 0)));
}

#[test]
fn hex_digit_scan() {
    assert_eq!(first_non_hex_digit("09afAF"), None);
    assert_eq!(first_non_hex_digit(""), None);
    assert_eq!(first_non_hex_digit("0g1 "), Some(1));
    assert_eq!(first_non_hex_digit("ab\u{e9}c"), Some(2));
    assert!(is_hex_digit('F'));
    assert!(!is_hex_digit('G'));
    assert!(!is_hex_digit(' '));
}

#[test]
fn hex_decode_non_ascii_position() {
    let s = format!("00\u{e9}{}", "0".repeat(125));
    assert_eq!(XorName::from_hex(&s), Err(XorNameFromHexError::InvalidCharacter('\u{e9}', 2)));
}

#[test]
fn byte_slice_views() {
    let name = counting_name();
    assert_eq!(name.byte_slice(0, XOR_NAME_LEN), &name.get_id()[..]);
    assert_eq!(name.byte_slice(0, 3), &[0u8, 1, 2][..]);
    assert_eq!(name.byte_slice(61, 64), &[61u8, 62, 63][..]);
    assert_eq!(name.byte_slice(10, 12), &[10u8, 11][..]);
    assert!(name.byte_slice(5, 5).is_empty());
}

#[test]
fn hex_decode_invalid_character() {
    let s = format!("zz{}", "00".repeat(63));
    assert_eq!(XorName::from_hex(&s), Err(XorNameFromHexError::InvalidCharacter('z', 0)));
    let t = format!("000g{}", "00".repeat(62));
    assert_eq!(XorName::from_hex(&t), Err(XorNameFromHexError::InvalidCharacter('g', 3)));
    let short = "0z";
    assert_eq!(XorName::from_hex(short), Err(XorNameFromHexError::InvalidCharacter('z', 1)));
}

#[test]
fn hex_decode_invalid_length() {
    assert_eq!(XorName::from_hex(&"0".repeat(127)), Err(XorNameFromHexError::InvalidLength));
    assert_eq!(XorName::from_hex(&"00".repeat(63)), Err(XorNameFromHexError::InvalidLength));
    assert_eq!(XorName::from_hex(&"00".repeat(65)), Err(XorNameFromHexError::InvalidLength));
    assert_eq!(XorName::from_hex(""), Err(XorNameFromHexError::InvalidLength));
}

#[test]
fn bucket_index_values() {
    let zero = XorName::new([0u8; XOR_NAME_LEN]);
    assert_eq!(zero.bucket_index(&zero), XOR_NAME_BITS);
    let mut top = [0u8; XOR_NAME_LEN];
    top[0] = 0x80;
    assert_eq!(zero.bucket_index(&XorName::new(top)), 0);
    let mut second = [0u8; XOR_NAME_LEN];
    second[1] = 0x01;
    assert_eq!(zero.bucket_index(&XorName::new(second)), 15);
    assert_eq!(XorName::new(second).bucket_index(&zero), 15);
    assert_eq!(zero.bucket_distance(&XorName::new(second)), 15);
    let mut last = [0u8; XOR_NAME_LEN];
    last[63] = 0x10;
    assert_eq!(zero.bucket_index(&XorName::new(last)), 507);
}

#[test]
fn bucket_index_random_bounds() {
    let a = XorName::random();
    let b = XorName::random();
    assert!(a.bucket_index(&b) <= XOR_NAME_BITS);
    assert_eq!(a.bucket_index(&b), b.bucket_index(&a));
    assert_eq!(a.bucket_index(&a), XOR_NAME_BITS);
}

#[test]
fn cmp_distance_values() {
    let target = XorName::new([0u8; XOR_NAME_LEN]);
    let mut a = [0u8; XOR_NAME_LEN];
    a[2] = 0x01;
    let mut b = [0u8; XOR_NAME_LEN];
    b[2] = 0x02;
    let (a, b) = (XorName::new(a), XorName::new(b));
    assert_eq!(target.cmp_distance(&a, &b), Ordering::Less);
    assert_eq!(target.cmp_distance(&b, &a), Ordering::Greater);
    assert_eq!(target.cmp_distance(&a, &a), Ordering::Equal);
    assert_eq!(target.cmp_closeness(&a, &b), Ordering::Less);
    // Relative to b, b is closest.
    assert_eq!(b.cmp_distance(&a, &b), Ordering::Greater);
    assert!(closer_to_target(&b, &a, &b));
    assert!(!closer_to_target(&a, &a, &b));
    assert!(closer_to_target_or_equal(&a, &a, &b));
    assert!(!closer_to_target_or_equal(&a, &b, &b));
}

#[test]
fn distance_antisymmetry_random() {
    let a = XorName::random();
    let b = XorName::random();
    let t = XorName::random();
    assert_eq!(t.cmp_distance(&a, &b), t.cmp_distance(&b, &a).reverse());
    assert_eq!(closer_to_target(&a, &b, &t), !closer_to_target_or_equal(&b, &a, &t));
}

#[test]
fn ordering_is_numeric() {
    let mut lo = [0xffu8; XOR_NAME_LEN];
    lo[0] = 0x00;
    let mut hi = [0u8; XOR_NAME_LEN];
    hi[0] = 0x01;
    let (lo, hi) = (XorName::new(lo), XorName::new(hi));
    assert!(lo < hi);
    assert!(hi > lo);
    assert!(lo <= lo);
    assert!(hi >= hi);
    assert_eq!(lo.partial_cmp(&hi), Some(Ordering::Less));
    assert_eq!(lo.cmp(&hi), Ordering::Less);
    assert_eq!(hi.cmp(&hi), Ordering::Equal);
}

#[test]
fn seq_codec_length_errors() {
    assert_eq!(XorName::check_seq_len(64), Ok(()));
    assert_eq!(
        XorName::check_seq_len(3),
        Err(SeqLengthError { expected: 64, found: 3 })
    );
    assert_eq!(
        XorName::from_seq_elements(&vec![7u8; 65]),
        Err(SeqLengthError { expected: 64, found: 65 })
    );
    let name = XorName::from_seq_elements(&vec![7u8; 64]).unwrap();
    assert_eq!(name.get_id(), [7u8; 64]);
    assert_eq!(counting_name().seq_elements()[5], 5);
}

#[test]
fn slice_helpers() {
    let v: Vec<u8> = (0..64).map(|i| (i * 3) as u8).collect();
    let arr = slice_as_u8_64_array(&v);
    assert_eq!(arr[10], 30);
    assert!(slice_equal(&arr[..], &v[..]));
    assert!(!slice_equal(&arr[..3], &v[..4]));
    assert!(!slice_equal(&[1, 2, 3], &[1, 2, 4]));
    assert!(slice_equal::<u8>(&[], &[]));
}

#[test]
fn get_id_and_equality() {
    let name = counting_name();
    assert_eq!(name.get_id()[63], 63);
    let mut other = name.get_id();
    other[40] ^= 1;
    assert!(name != XorName::new(other));
    assert_eq!(name, XorName::new(name.get_id()));
}
