use zk_oracles::errors::{OracleError, WireError};
use zk_oracles::wire::{
    base64_to_u64, decode_request_id, encode_hex, encode_last_status_response, status_from_bytes,
    status_to_bytes, u64_to_base64,
};

#[test]
fn status_round_trip_through_text() {
    for v in [0u64, 1, 0b01, 0x0102_0304_0506_0708, u64::MAX] {
        assert_eq!(base64_to_u64(&u64_to_base64(v)), Ok(v));
    }
}

#[test]
fn status_round_trip_through_bytes() {
    for v in [0u64, 0b101, u64::MAX] {
        assert_eq!(status_from_bytes(&status_to_bytes(v)), Some(v));
    }
}

#[test]
fn status_bytes_are_big_endian() {
    assert_eq!(status_to_bytes(0x0102_0304_0506_0708), vec![1, 2, 3, 4, 5, 6, 7, 8]);
    assert_eq!(status_from_bytes(&[1, 2, 3]), None);
}

#[test]
fn status_text_is_base64_of_big_endian_bytes() {
    assert_eq!(u64_to_base64(1), "AAAAAAAAAAE=");
    assert_eq!(u64_to_base64(0), "AAAAAAAAAAA=");
    assert_eq!(u64_to_base64(u64::MAX), "//////////8=");
}

#[test]
fn status_text_errors() {
    assert_eq!(base64_to_u64("not base64!"), Err(WireError::InvalidBase64));
    assert_eq!(base64_to_u64("AAAA"), Err(WireError::InvalidLength));
}

#[test]
fn request_id_hex() {
    let bytes: Vec<u8> = (0u8..32).collect();
    let text = encode_hex(&bytes);
    assert_eq!(&text[..8], "00010203");
    assert_eq!(text.len(), 64);
    assert_eq!(decode_request_id(&text), Ok(bytes.clone()));
    assert_eq!(decode_request_id(&format!("0x{}", text.to_uppercase())), Ok(bytes));
    assert_eq!(decode_request_id("abcd"), Err(OracleError::InvalidRequestId));
    assert_eq!(decode_request_id(&"zz".repeat(32)), Err(OracleError::InvalidRequestId));
}

#[test]
fn response_is_abi_encoded_pair() {
    let blob = encode_last_status_response(1, 0b01);
    let mut expected = vec![0u8; 64];
    expected[31] = 1;
    expected[63] = 1;
    assert_eq!(blob, expected);
    let blob = encode_last_status_response(0x0102, u64::MAX);
    assert_eq!(&blob[30..32], &[1, 2]);
    assert_eq!(&blob[56..64], &[0xff; 8]);
    assert!(blob[32..56].iter().all(|b| *b == 0));
}
