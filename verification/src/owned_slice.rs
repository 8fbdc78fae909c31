//! The owned-sequence codec.

use crate::cow_slice::CowSlice;
use crate::flat::decode_seq;
use crate::flat::encode_seq;
use crate::flat::lemma_encode_seq_push;
use crate::flat::FlatLayout;
use crate::traits::BytesDecode;
use crate::traits::BytesEncode;
use crate::traits::CodecError;
use vstd::prelude::*;

verus! {

/// Describes a sequence of flat-layout elements whose decoded form is
/// totally owned: it holds no reference to the original byte slice.
///
/// Decoding delegates to [`CowSlice`] and then forces the result into an
/// owned sequence, trading a possible copy for a value that may outlive the
/// read scope that supplied the bytes.  Encoding lays the elements out back
/// to back, each in its flat byte form.
pub struct OwnedSlice<T>(core::marker::PhantomData<T>);

impl<T: FlatLayout> BytesEncode for OwnedSlice<T> {
    type EItem = Vec<T>;

    open spec fn encodable(item: &Vec<T>) -> bool {
        true
    }

    open spec fn encode_spec(item: &Vec<T>) -> Seq<u8> {
        encode_seq::<T>(item@)
    }

    fn bytes_encode(item: &Vec<T>) -> (r: Result<Vec<u8>, CodecError>) {
        let mut out: Vec<u8> = Vec::new();
        let n = item.len();
        let mut i: usize = 0;
        proof {
            assert(item@.take(0) =~= Seq::<T>::empty());
        }
        while i < n
            invariant
                i <= n,
                n == item@.len(),
                out@ == encode_seq::<T>(item@.take(i as int)),
            decreases n - i,
        {
            let x = item[i];
            x.append_bytes(&mut out);
            proof {
                assert(item@.take(i as int + 1) =~= item@.take(i as int).push(item@[i as int]));
                lemma_encode_seq_push::<T>(item@.take(i as int), item@[i as int]);
            }
            i = i + 1;
        }
        proof {
            assert(item@.take(n as int) =~= item@);
        }
        Ok(out)
    }
}

impl<T: FlatLayout> BytesDecode for OwnedSlice<T> {
    type DItem = Vec<T>;

    open spec fn decodable(bytes: Seq<u8>) -> bool {
        bytes.len() % T::byte_size() == 0
    }

    open spec fn is_decoded(bytes: Seq<u8>, item: Vec<T>) -> bool {
        item@ == decode_seq::<T>(bytes)
    }

    fn bytes_decode(bytes: &[u8]) -> (r: Result<Vec<T>, CodecError>) {
        match CowSlice::<T>::bytes_decode(bytes) {
            Ok(cow) => Ok(cow.into_owned()),
            Err(e) => Err(e),
        }
    }
}

} // verus!
