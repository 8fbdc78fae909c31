use heed_types::BytesDecode;
use heed_types::BytesEncode;
use heed_types::CodecError;
use heed_types::Unit;

#[test]
fn unit_encodes_to_empty() {
    let bytes = Unit::bytes_encode(&()).unwrap();
    assert_eq!(bytes.len(), 0);
}

#[test]
fn unit_decodes_empty() {
    let empty: [u8; 0] = [];
    assert_eq!(Unit::bytes_decode(&empty), Ok(()));
}

#[test]
fn unit_rejects_one_zero_byte() {
    assert_eq!(Unit::bytes_decode(&[0x00]), Err(CodecError::LengthMismatch));
}

#[test]
fn unit_rejects_every_positive_length() {
    let zeros = [0u8; 8];
    for len in 1..=8usize {
        assert_eq!(
            Unit::bytes_decode(&zeros[..len]),
            Err(CodecError::LengthMismatch)
        );
    }
}

#[test]
fn unit_round_trip() {
    let bytes = Unit::bytes_encode(&()).unwrap();
    assert_eq!(Unit::bytes_decode(&bytes), Ok(()));
}
