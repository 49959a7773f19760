use gitbutler_core::branch::{BranchOwnershipClaims, Hunk, OwnershipClaim};
use gitbutler_core::codec::{decode_signed, encode_signed};
use gitbutler_core::codec::{
    decode_decimal, decode_flag, decode_hex, decode_text, encode_decimal, encode_flag, encode_hex,
    encode_text,
};
use gitbutler_core::ids::{BranchId, Oid};

#[test]
fn hex_encodes_lower_case() {
    assert_eq!(encode_hex(&[0x00, 0xab, 0x7f]), b"00ab7f".to_vec());
    assert_eq!(encode_hex(&[]), Vec::<u8>::new());
}

#[test]
fn hex_decodes_lower_case_only() {
    assert_eq!(decode_hex(b"00ab7f"), Some(vec![0x00, 0xab, 0x7f]));
    assert_eq!(decode_hex(b"00AB7f"), None);
    assert_eq!(decode_hex(b"abc"), None);
    assert_eq!(decode_hex(b"zz"), None);
}

#[test]
fn decimal_values() {
    assert_eq!(encode_decimal(0), b"0".to_vec());
    assert_eq!(encode_decimal(1234), b"1234".to_vec());
    assert_eq!(encode_decimal(u128::MAX), u128::MAX.to_string().into_bytes());
    assert_eq!(decode_decimal(b"0042"), Some(42));
    assert_eq!(decode_decimal(u128::MAX.to_string().as_bytes()), Some(u128::MAX));
    assert_eq!(decode_decimal(b"340282366920938463463374607431768211456"), None);
    assert_eq!(decode_decimal(b""), None);
    assert_eq!(decode_decimal(b"12a"), None);
}

#[test]
fn text_through_utf8() {
    assert_eq!(encode_text("é"), vec![0xc3, 0xa9]);
    assert_eq!(decode_text(&[0xc3, 0xa9]), Some("é".to_string()));
    assert_eq!(decode_text(b"plain"), Some("plain".to_string()));
    assert_eq!(decode_text(&[0xc3]), None);
}

#[test]
fn flags() {
    assert_eq!(encode_flag(true), b"true".to_vec());
    assert_eq!(decode_flag(b"false"), Some(false));
    assert_eq!(decode_flag(b"yes"), None);
}

#[test]
fn ids_parse_and_format() {
    let oid = Oid::parse("0123456789abcdef0123456789abcdef01234567").unwrap();
    assert_eq!(oid.bytes[0], 0x01);
    assert_eq!(oid.to_hex(), b"0123456789abcdef0123456789abcdef01234567".to_vec());
    assert!(Oid::parse("0123").is_none());
    assert!(Oid::parse("0123456789ABCDEF0123456789abcdef01234567").is_none());
    assert!(Oid::parse("g123456789abcdef0123456789abcdef01234567").is_none());
    let id = BranchId::parse("000102030405060708090a0b0c0d0e0f").unwrap();
    assert_eq!(id.bytes, (0u8..16).collect::<Vec<u8>>());
    assert!(BranchId::from_bytes(vec![1, 2]).is_none());
}

#[test]
fn signed_values() {
    assert_eq!(encode_signed(-42), b"-42".to_vec());
    assert_eq!(encode_signed(7), b"7".to_vec());
    assert_eq!(decode_signed(b"-9223372036854775808"), Some(i64::MIN));
    assert_eq!(decode_signed(b"9223372036854775807"), Some(i64::MAX));
    assert_eq!(decode_signed(b"9223372036854775808"), None);
    assert_eq!(decode_signed(b"-"), None);
    assert_eq!(decode_signed(&encode_signed(i64::MIN)), Some(i64::MIN));
}

#[test]
fn ownership_validity() {
    let claim = |path: &str, hunks: Vec<Hunk>| OwnershipClaim { file_path: path.to_string(), hunks };
    let good = BranchOwnershipClaims {
        claims: vec![
            claim("a.rs", vec![Hunk { start: 1, end: 2 }, Hunk { start: 5, end: 9 }]),
            claim("b.rs", vec![]),
        ],
    };
    assert!(good.is_valid());
    let repeated = BranchOwnershipClaims { claims: vec![claim("a.rs", vec![]), claim("a.rs", vec![])] };
    assert!(!repeated.is_valid());
    let overlapping = BranchOwnershipClaims {
        claims: vec![claim("a.rs", vec![Hunk { start: 1, end: 5 }, Hunk { start: 5, end: 9 }])],
    };
    assert!(!overlapping.is_valid());
    let reversed = BranchOwnershipClaims { claims: vec![claim("a.rs", vec![Hunk { start: 4, end: 3 }])] };
    assert!(!reversed.is_valid());
    assert!(BranchOwnershipClaims::default().is_valid());
}
