use heed_types::BytesDecode;
use heed_types::BytesEncode;
use heed_types::CodecError;
use heed_types::UnalignedType;

#[test]
fn u8_round_trip() {
    for v in [0u8, 1, 0x7f, 0xa5, u8::MAX] {
        let bytes = UnalignedType::<u8>::bytes_encode(&v).unwrap();
        assert_eq!(bytes.len(), 1);
        assert_eq!(UnalignedType::<u8>::bytes_decode(&bytes), Ok(v));
    }
}

#[test]
fn u16_round_trip() {
    for v in [0u16, 1, 0xbeef, 0x00ff, u16::MAX] {
        let bytes = UnalignedType::<u16>::bytes_encode(&v).unwrap();
        assert_eq!(bytes.len(), 2);
        assert_eq!(UnalignedType::<u16>::bytes_decode(&bytes), Ok(v));
    }
}

#[test]
fn u32_round_trip() {
    for v in [0u32, 1, 0xdead_beef, 0x0102_0304, u32::MAX] {
        let bytes = UnalignedType::<u32>::bytes_encode(&v).unwrap();
        assert_eq!(bytes.len(), 4);
        assert_eq!(UnalignedType::<u32>::bytes_decode(&bytes), Ok(v));
    }
}

#[test]
fn u64_round_trip() {
    for v in [0u64, 1, 0x0123_4567_89ab_cdef, u64::MAX] {
        let bytes = UnalignedType::<u64>::bytes_encode(&v).unwrap();
        assert_eq!(bytes.len(), 8);
        assert_eq!(UnalignedType::<u64>::bytes_decode(&bytes), Ok(v));
    }
}

#[test]
fn u16_encodes_little_endian() {
    let bytes = UnalignedType::<u16>::bytes_encode(&0x1234u16).unwrap();
    assert_eq!(bytes, vec![0x34, 0x12]);
}

#[test]
fn u32_encodes_little_endian() {
    let bytes = UnalignedType::<u32>::bytes_encode(&0x0102_0304u32).unwrap();
    assert_eq!(bytes, vec![0x04, 0x03, 0x02, 0x01]);
}

#[test]
fn u64_encodes_little_endian() {
    let bytes = UnalignedType::<u64>::bytes_encode(&0x0102_0304_0506_0708u64).unwrap();
    assert_eq!(bytes, vec![0x08, 0x07, 0x06, 0x05, 0x04, 0x03, 0x02, 0x01]);
}

#[test]
fn u32_decodes_at_every_offset() {
    // The same four bytes must decode to the same value wherever they sit
    // inside a larger buffer, whatever the starting offset.
    let v = 0xdead_beefu32;
    let encoded = UnalignedType::<u32>::bytes_encode(&v).unwrap();
    for offset in 0..8usize {
        let mut buffer = vec![0u8; offset + 4];
        buffer[offset..offset + 4].copy_from_slice(&encoded);
        let slice = &buffer[offset..offset + 4];
        assert_eq!(UnalignedType::<u32>::bytes_decode(slice), Ok(v));
    }
}

#[test]
fn u32_rejects_every_wrong_length() {
    let zeros = [0u8; 12];
    for len in 0..=12usize {
        let r = UnalignedType::<u32>::bytes_decode(&zeros[..len]);
        if len == 4 {
            assert!(r.is_ok());
        } else {
            assert_eq!(r, Err(CodecError::LengthMismatch));
        }
    }
}

#[test]
fn u8_rejects_every_wrong_length() {
    let zeros = [0u8; 3];
    for len in 0..=3usize {
        let r = UnalignedType::<u8>::bytes_decode(&zeros[..len]);
        if len == 1 {
            assert!(r.is_ok());
        } else {
            assert_eq!(r, Err(CodecError::LengthMismatch));
        }
    }
}
