use shovel::codec::{account_string, key_account, key_id_bytes, key_u16, u16_from_le};
use shovel::error::SnapshotError;
use shovel::queries::parse_accounts;
use shovel::reference::{parse_reference_point, reference_text};

fn key_with(prefix_len: usize, suffix: &[u8]) -> Vec<u8> {
    let mut k: Vec<u8> = (0..prefix_len).map(|i| (i * 7 + 3) as u8).collect();
    k.extend_from_slice(suffix);
    k
}

#[test]
fn reads_little_endian_u16() {
    assert_eq!(u16_from_le(0x34, 0x12), 0x1234);
    assert_eq!(u16_from_le(0xff, 0xff), 65535);
    assert_eq!(u16_from_le(1, 0), 1);
}

#[test]
fn u16_suffix_round_trip() {
    for v in [0u16, 1, 255, 256, 4095, 65535] {
        let b = v.to_le_bytes();
        let key = key_with(40, &b);
        assert_eq!(key_u16(&key, 2), Ok(v));
        let key2 = key_with(11, &[b[0], b[1], 9, 9]);
        assert_eq!(key_u16(&key2, 4), Ok(v));
    }
}

#[test]
fn pair_suffix_reads_subnet_then_position() {
    let key = key_with(32, &[1, 0, 5, 0]);
    assert_eq!(key_u16(&key, 4), Ok(1));
    assert_eq!(key_u16(&key, 2), Ok(5));
}

#[test]
fn short_key_is_protocol_error() {
    let key = vec![7u8];
    assert_eq!(key_u16(&key, 2), Err(SnapshotError::Protocol { len: 1, needed: 2 }));
    let key = vec![0u8; 31];
    assert_eq!(key_id_bytes(&key, 32), Err(SnapshotError::Protocol { len: 31, needed: 32 }));
    assert!(key_account(&key, 32).is_err());
}

#[test]
fn id_suffix_round_trip() {
    let id: Vec<u8> = (0..32).map(|i| (200 - i) as u8).collect();
    let key = key_with(17, &id);
    assert_eq!(key_id_bytes(&key, 32), Ok(id.clone()));
    let mut key2 = key_with(5, &id);
    key2.extend_from_slice(&[1, 2, 3, 4]);
    assert_eq!(key_id_bytes(&key2, 36), Ok(id));
}

#[test]
fn account_text_round_trips_through_parsing() {
    let id: Vec<u8> = (0..32).map(|i| i as u8).collect();
    let text = account_string(&id);
    assert_ne!(text.as_bytes(), id.as_slice());
    assert!(text.len() > 40);
    let parsed = parse_accounts(&vec![text.clone()]).unwrap();
    assert_eq!(parsed, vec![id.clone()]);
    let key = key_with(48, &id);
    assert_eq!(key_account(&key, 32), Ok(text));
}

#[test]
fn malformed_account_is_input_error() {
    let good = account_string(&vec![9u8; 32]);
    let r = parse_accounts(&vec![good, "not-an-account".to_string()]);
    assert_eq!(r, Err(SnapshotError::Input));
}

#[test]
fn reference_point_with_and_without_prefix() {
    let hex = "00112233445566778899aabbccddeeff00112233445566778899AABBCCDDEEFF";
    let a = parse_reference_point(hex).unwrap();
    let b = parse_reference_point(&format!("0x{}", hex)).unwrap();
    assert_eq!(a, b);
    assert_eq!(a.len(), 32);
    assert_eq!(a[0], 0x00);
    assert_eq!(a[1], 0x11);
    assert_eq!(a[15], 0xff);
    assert_eq!(a[31], 0xff);
}

#[test]
fn malformed_reference_point_is_input_error() {
    assert_eq!(parse_reference_point("0x1234"), Err(SnapshotError::Input));
    assert_eq!(parse_reference_point(&"g".repeat(64)), Err(SnapshotError::Input));
    assert_eq!(parse_reference_point(&"a".repeat(63)), Err(SnapshotError::Input));
    assert_eq!(parse_reference_point(""), Err(SnapshotError::Input));
}

#[test]
fn reference_text_is_shortened_hash() {
    let p = parse_reference_point(&format!("0xAB01{}CDEF", "77".repeat(28))).unwrap();
    assert_eq!(reference_text(&p), "0xab01\u{2026}cdef");
}

#[test]
fn overlong_account_is_input_error() {
    let r = parse_accounts(&vec!["1".repeat(133)]);
    assert_eq!(r, Err(SnapshotError::Input));
}
