use heed_types::BytesDecode;
use heed_types::BytesEncode;
use heed_types::CodecError;
use heed_types::CowSlice;
use heed_types::OwnedSlice;
use heed_types::SliceCow;

#[test]
fn owned_slice_u32_round_trip() {
    let items: Vec<u32> = vec![1, 2, 3, 4];
    let bytes = OwnedSlice::<u32>::bytes_encode(&items).unwrap();
    assert_eq!(bytes.len(), 16);
    assert_eq!(OwnedSlice::<u32>::bytes_decode(&bytes), Ok(items));
}

#[test]
fn owned_slice_sixteen_byte_layout() {
    // Four 4-byte integers become exactly sixteen bytes, each element in
    // little-endian order.
    let items: Vec<u32> = vec![1, 2, 3, 4];
    let bytes = OwnedSlice::<u32>::bytes_encode(&items).unwrap();
    assert_eq!(
        bytes,
        vec![1, 0, 0, 0, 2, 0, 0, 0, 3, 0, 0, 0, 4, 0, 0, 0]
    );
}

#[test]
fn owned_slice_decodes_at_every_offset() {
    let items: Vec<u32> = vec![1, 2, 3, 4];
    let encoded = OwnedSlice::<u32>::bytes_encode(&items).unwrap();
    for offset in 0..8usize {
        let mut buffer = vec![0u8; offset + 16];
        buffer[offset..offset + 16].copy_from_slice(&encoded);
        let slice = &buffer[offset..offset + 16];
        assert_eq!(OwnedSlice::<u32>::bytes_decode(slice), Ok(items.clone()));
    }
}

#[test]
fn owned_slice_u16_round_trip() {
    let items: Vec<u16> = vec![0xaaaa, 0x5555, 0x0001];
    let bytes = OwnedSlice::<u16>::bytes_encode(&items).unwrap();
    assert_eq!(bytes.len(), 6);
    assert_eq!(OwnedSlice::<u16>::bytes_decode(&bytes), Ok(items));
}

#[test]
fn owned_slice_u64_round_trip() {
    let items: Vec<u64> = vec![u64::MAX, 0, 0x0123_4567_89ab_cdef];
    let bytes = OwnedSlice::<u64>::bytes_encode(&items).unwrap();
    assert_eq!(bytes.len(), 24);
    assert_eq!(OwnedSlice::<u64>::bytes_decode(&bytes), Ok(items));
}

#[test]
fn owned_slice_u8_round_trip() {
    let items: Vec<u8> = vec![9, 8, 7];
    let bytes = OwnedSlice::<u8>::bytes_encode(&items).unwrap();
    assert_eq!(bytes, items);
    assert_eq!(OwnedSlice::<u8>::bytes_decode(&bytes), Ok(items));
}

#[test]
fn owned_slice_empty_round_trip() {
    let items: Vec<u32> = Vec::new();
    let bytes = OwnedSlice::<u32>::bytes_encode(&items).unwrap();
    assert_eq!(bytes.len(), 0);
    assert_eq!(OwnedSlice::<u32>::bytes_decode(&bytes), Ok(items));
}

#[test]
fn owned_slice_rejects_non_multiples() {
    // Every length from zero to three elements' worth that is not a whole
    // multiple of the element size is rejected outright.
    let zeros = [0u8; 12];
    for len in 0..=12usize {
        let r = OwnedSlice::<u32>::bytes_decode(&zeros[..len]);
        if len % 4 == 0 {
            assert!(r.is_ok());
        } else {
            assert_eq!(r, Err(CodecError::LengthMismatch));
        }
    }
}

#[test]
fn owned_slice_result_outlives_buffer() {
    // The decoded sequence is an independent copy: the source buffer can be
    // dropped first.
    let decoded = {
        let buffer = OwnedSlice::<u32>::bytes_encode(&vec![10u32, 20, 30]).unwrap();
        OwnedSlice::<u32>::bytes_decode(&buffer).unwrap()
    };
    assert_eq!(decoded, vec![10, 20, 30]);
}

#[test]
fn owned_slice_result_is_independently_mutable() {
    let buffer = OwnedSlice::<u32>::bytes_encode(&vec![5u32, 6]).unwrap();
    let mut decoded = OwnedSlice::<u32>::bytes_decode(&buffer).unwrap();
    decoded.push(7);
    assert_eq!(decoded, vec![5, 6, 7]);
    assert_eq!(buffer.len(), 8);
}

#[test]
fn cow_slice_decode_copies_for_u32() {
    let bytes = [1u8, 0, 0, 0, 2, 0, 0, 0];
    let cow = CowSlice::<u32>::bytes_decode(&bytes).unwrap();
    assert!(!cow.is_borrowed());
    assert_eq!(cow.into_owned(), vec![1u32, 2]);
}

#[test]
fn cow_slice_borrows_for_u8() {
    // Single-byte elements need no rebuilding, so the slice codec hands back
    // a borrowed view of the input instead of a copy.
    let bytes = [7u8, 8, 9];
    let cow = CowSlice::<u8>::bytes_decode(&bytes).unwrap();
    assert!(cow.is_borrowed());
    assert_eq!(cow.try_borrowed(), Some(&bytes[..]));
}

#[test]
fn cow_slice_rejects_non_multiple() {
    let bytes = [1u8, 0, 0];
    assert!(matches!(
        CowSlice::<u32>::bytes_decode(&bytes),
        Err(CodecError::LengthMismatch)
    ));
}

#[test]
fn slice_cow_try_borrowed() {
    let storage: [u32; 2] = [11, 22];
    let borrowed = SliceCow::Borrowed(&storage[..]);
    assert_eq!(borrowed.try_borrowed(), Some(&storage[..]));
    let owned = SliceCow::Owned(vec![11u32, 22]);
    assert_eq!(owned.try_borrowed(), None);
}

#[test]
fn slice_cow_into_owned_from_borrowed() {
    let storage: [u32; 3] = [1, 2, 3];
    let borrowed = SliceCow::Borrowed(&storage[..]);
    assert_eq!(borrowed.into_owned(), vec![1u32, 2, 3]);
}
