//! The encoder and decoder contracts shared by every codec.

use vstd::prelude::*;

verus! {

/// The failure cases a codec can report.
///
/// The flat codecs of this crate validate only the length of a byte slice:
/// every byte pattern of the right length is a valid instance of a flat
/// scalar layout, so a length mismatch is the one way a decode can fail, and
/// no encode ever fails.
#[derive(Clone, Copy, Debug, PartialEq, Eq)]
pub enum CodecError {
    /// The byte slice's length does not fit the target layout: it is not
    /// exactly the item size (scalar codecs), not empty (unit codec), or not
    /// a whole multiple of the element size (slice codecs).
    LengthMismatch,
}

/// The encoder contract: a mapping from a domain type to its byte form.
///
/// Encoding is a pure function of the logical value of the item: two equal
/// values always encode to the same bytes, so the byte form can double as a
/// comparable storage key.
pub trait BytesEncode {
    /// The type of the items this codec encodes.
    type EItem;

    /// Which items can be represented in byte form at all.  The codecs of
    /// this crate are infallible by construction: every item is encodable.
    spec fn encodable(item: &Self::EItem) -> bool;

    /// The byte representation of an item.
    spec fn encode_spec(item: &Self::EItem) -> Seq<u8>;

    /// Encode `item`, returning exactly its byte representation, or an error
    /// on the items that cannot be represented.
    fn bytes_encode(item: &Self::EItem) -> (r: Result<Vec<u8>, CodecError>)
        ensures
            r is Ok <==> Self::encodable(item),
            (r matches Ok(bytes) ==> bytes@ == Self::encode_spec(item)),
    ;
}

/// The decoder contract: a mapping from untrusted bytes back to a domain
/// type.
///
/// The byte slice's length and content are caller-supplied; a decoder must
/// validate them and return a well-defined failure on every slice that does
/// not fit the target layout, never a truncated or padded result.
pub trait BytesDecode {
    /// The type of the items this codec produces.
    type DItem;

    /// Which byte sequences this codec accepts.
    spec fn decodable(bytes: Seq<u8>) -> bool;

    /// What it means for `item` to be the decoding of `bytes`.
    spec fn is_decoded(bytes: Seq<u8>, item: Self::DItem) -> bool;

    /// Decode `bytes`, succeeding exactly on the sequences the codec
    /// accepts.
    fn bytes_decode(bytes: &[u8]) -> (r: Result<Self::DItem, CodecError>)
        ensures
            r is Ok <==> Self::decodable(bytes@),
            (r matches Ok(item) ==> Self::is_decoded(bytes@, item)),
            (r matches Err(e) ==> e == CodecError::LengthMismatch),
    ;
}

} // verus!
