//! The unit codec: the trivial, presence-only value.

use crate::traits::BytesDecode;
use crate::traits::BytesEncode;
use crate::traits::CodecError;
use vstd::prelude::*;

verus! {

/// Describes the `()` type.
///
/// The unit value carries no information, so it encodes to the empty byte
/// sequence, and only the empty byte sequence decodes back to it.  It serves
/// as a marker value for entries whose presence alone matters.
pub struct Unit;

impl BytesEncode for Unit {
    type EItem = ();

    open spec fn encodable(item: &()) -> bool {
        true
    }

    open spec fn encode_spec(item: &()) -> Seq<u8> {
        Seq::empty()
    }

    fn bytes_encode(item: &()) -> (r: Result<Vec<u8>, CodecError>) {
        Ok(Vec::new())
    }
}

impl BytesDecode for Unit {
    type DItem = ();

    open spec fn decodable(bytes: Seq<u8>) -> bool {
        bytes.len() == 0
    }

    open spec fn is_decoded(bytes: Seq<u8>, item: ()) -> bool {
        true
    }

    fn bytes_decode(bytes: &[u8]) -> (r: Result<(), CodecError>) {
        if bytes.len() == 0 {
            Ok(())
        } else {
            Err(CodecError::LengthMismatch)
        }
    }
}

/// Round-trip law for the unit codec: the unit value's byte form decodes
/// back to the unit value, and every byte sequence of positive length is
/// rejected.
pub proof fn lemma_unit_round_trip()
    ensures
        <Unit as BytesDecode>::decodable(<Unit as BytesEncode>::encode_spec(&())),
        forall|bytes: Seq<u8>| bytes.len() > 0 ==> !<Unit as BytesDecode>::decodable(bytes),
{
}

} // verus!
