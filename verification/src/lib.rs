//! Typed byte codecs for a byte-oriented key-value store.
//!
//! A codec is a pair of conversion capabilities for one domain type: an
//! encoder that turns a typed value into its flat byte representation, and a
//! decoder that validates an untrusted byte slice and turns it back into a
//! typed value.  Every codec here is a stateless, zero-size marker type; the
//! byte layout of the supported scalar types is fixed little-endian order,
//! read and written byte by byte, so no decode ever depends on the alignment
//! of the incoming buffer.

mod cow_slice;
mod flat;
mod owned_slice;
mod scalars;
mod traits;
mod unaligned_type;
mod unit;

pub use cow_slice::CowSlice;
pub use cow_slice::SliceCow;
pub use flat::decode_seq;
pub use flat::encode_seq;
pub use flat::lemma_bytes_round_trip;
pub use flat::lemma_encode_seq_len;
pub use flat::lemma_sequence_round_trip;
pub use flat::FlatLayout;
pub use owned_slice::OwnedSlice;
pub use traits::BytesDecode;
pub use traits::BytesEncode;
pub use traits::CodecError;
pub use unaligned_type::lemma_scalar_round_trip;
pub use unaligned_type::UnalignedType;
pub use unit::lemma_unit_round_trip;
pub use unit::Unit;
