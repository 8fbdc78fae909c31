//! The alignment-relaxed scalar codec.

use crate::flat::FlatLayout;
use crate::traits::BytesDecode;
use crate::traits::BytesEncode;
use crate::traits::CodecError;
use vstd::prelude::*;

verus! {

/// Describes a single flat-layout scalar, stored at whatever byte offset
/// the storage engine happens to hand back.
///
/// Storage-engine buffers carry no alignment guarantee: they may start at
/// any byte offset inside a larger page.  This codec therefore validates
/// the length and then rebuilds the value with defined-order byte reads,
/// never a pointer reinterpretation, so decoding is safe at every
/// alignment.
pub struct UnalignedType<T>(core::marker::PhantomData<T>);

impl<T: FlatLayout> BytesEncode for UnalignedType<T> {
    type EItem = T;

    open spec fn encodable(item: &T) -> bool {
        true
    }

    open spec fn encode_spec(item: &T) -> Seq<u8> {
        item.to_bytes()
    }

    fn bytes_encode(item: &T) -> (r: Result<Vec<u8>, CodecError>) {
        let mut out: Vec<u8> = Vec::new();
        proof {
            T::byte_size_pos();
            T::to_bytes_len(*item);
        }
        (*item).append_bytes(&mut out);
        proof {
            assert(out@ =~= (*item).to_bytes());
        }
        Ok(out)
    }
}

impl<T: FlatLayout> BytesDecode for UnalignedType<T> {
    type DItem = T;

    open spec fn decodable(bytes: Seq<u8>) -> bool {
        bytes.len() == T::byte_size()
    }

    open spec fn is_decoded(bytes: Seq<u8>, item: T) -> bool {
        item == T::from_bytes(bytes)
    }

    fn bytes_decode(bytes: &[u8]) -> (r: Result<T, CodecError>) {
        let size = T::size_in_bytes();
        if bytes.len() == size {
            let v = T::read_at(bytes, 0);
            proof {
                assert(bytes@.subrange(0, T::byte_size() as int) =~= bytes@);
            }
            Ok(v)
        } else {
            Err(CodecError::LengthMismatch)
        }
    }
}

/// Round-trip law for scalars: a flat-layout value's byte form has exactly
/// the value's size, so the scalar codec accepts it, and decoding it gives
/// a value equal to the one encoded.
pub proof fn lemma_scalar_round_trip<T: FlatLayout>(v: T)
    ensures
        <UnalignedType<T> as BytesDecode>::decodable(<UnalignedType<T> as BytesEncode>::encode_spec(&v)),
        <UnalignedType<T> as BytesDecode>::is_decoded(
            <UnalignedType<T> as BytesEncode>::encode_spec(&v),
            v,
        ),
{
    T::to_bytes_len(v);
    T::from_to_bytes(v);
}

} // verus!
