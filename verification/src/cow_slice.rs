//! The borrowed/owned decode result and the slice codec behind it.

use crate::flat::decode_seq;
use crate::flat::lemma_decode_seq_append_block;
use crate::flat::lemma_decode_seq_elementwise;
use crate::flat::FlatLayout;
use crate::traits::CodecError;
use vstd::arithmetic::div_mod::lemma_add_mod_noop;
use vstd::arithmetic::div_mod::lemma_mod_multiples_basic;
use vstd::arithmetic::div_mod::lemma_mod_self_0;
use vstd::arithmetic::div_mod::lemma_small_mod;
use vstd::arithmetic::div_mod::lemma_sub_mod_noop;
use vstd::prelude::*;
use vstd::slice::slice_to_vec;

verus! {

/// A decoded sequence that is either a view borrowed from existing typed
/// storage or an independently owned copy.
///
/// `into_owned` always succeeds, copying when the value is still borrowed;
/// `try_borrowed` succeeds exactly when the value is in the borrowed state.
pub enum SliceCow<'a, T> {
    /// A view into typed storage owned by someone else; it lives exactly as
    /// long as that storage.
    Borrowed(&'a [T]),
    /// An independent copy, free of any tie to the source.
    Owned(Vec<T>),
}

impl<'a, T> View for SliceCow<'a, T> {
    type V = Seq<T>;

    open spec fn view(&self) -> Seq<T> {
        match self {
            SliceCow::Borrowed(values) => values@,
            SliceCow::Owned(values) => values@,
        }
    }
}

impl<'a, T: Copy> SliceCow<'a, T> {
    /// Force the result into an owned sequence, copying if it is still
    /// borrowed.  This never fails and never changes the contents.
    pub fn into_owned(self) -> (r: Vec<T>)
        ensures
            r@ == self@,
    {
        match self {
            SliceCow::Borrowed(values) => slice_to_vec(values),
            SliceCow::Owned(values) => values,
        }
    }

    /// Recover the borrowed view, exactly when the result is still in the
    /// borrowed state.
    pub fn try_borrowed(self) -> (r: Option<&'a [T]>)
        ensures
            r is Some <==> self is Borrowed,
            (r matches Some(values) ==> values@ == self@),
    {
        match self {
            SliceCow::Borrowed(values) => Some(values),
            SliceCow::Owned(_) => None,
        }
    }

    /// Whether the result is still a borrowed view.
    pub fn is_borrowed(&self) -> (b: bool)
        ensures
            b == (self is Borrowed),
    {
        match self {
            SliceCow::Borrowed(_) => true,
            SliceCow::Owned(_) => false,
        }
    }
}

/// The slice codec the owned-sequence codec delegates to: it validates that
/// the byte slice is a whole number of elements and yields either a
/// borrowed view or a fresh copy of the elements.
///
/// The borrowed view is taken when the element layout lets the byte slice
/// already be a value slice, as it is for single-byte elements; an element
/// that spans several bytes is rebuilt with byte-wise reads at whatever
/// offset it falls on, so the decode then pays a copy instead of trusting
/// the buffer's alignment.
pub struct CowSlice<T>(core::marker::PhantomData<T>);

impl<T: FlatLayout> CowSlice<T> {
    /// Decode `bytes` as a sequence of flat-layout elements.  Succeeds
    /// exactly when the length is a whole multiple of the element size, and
    /// then yields exactly the sequence the bytes stand for.
    pub fn bytes_decode<'a>(bytes: &'a [u8]) -> (r: Result<SliceCow<'a, T>, CodecError>)
        ensures
            r is Ok <==> bytes@.len() % T::byte_size() == 0,
            (r matches Ok(cow) ==> cow@ == decode_seq::<T>(bytes@)),
            (r matches Err(e) ==> e == CodecError::LengthMismatch),
    {
        let size = T::size_in_bytes();
        proof {
            T::byte_size_pos();
        }
        if let Some(values) = T::borrow_all(bytes) {
            proof {
                lemma_mod_multiples_basic(values@.len() as int, T::byte_size() as int);
                lemma_decode_seq_elementwise::<T>(bytes@, values@);
            }
            return Ok(SliceCow::Borrowed(values));
        }
        let n = bytes.len();
        if n % size == 0 {
            let mut out: Vec<T> = Vec::new();
            let mut i: usize = 0;
            proof {
                assert(bytes@.take(0) =~= Seq::<u8>::empty());
            }
            while i < n
                invariant
                    i <= n,
                    n == bytes@.len(),
                    size as nat == T::byte_size(),
                    size >= 1,
                    i % size == 0,
                    n % size == 0,
                    out@ == decode_seq::<T>(bytes@.take(i as int)),
                decreases n - i,
            {
                proof {
                    // The gap to the end is a positive multiple of the
                    // element size, so one whole element fits.
                    lemma_small_mod(0, size as nat);
                    lemma_sub_mod_noop(n as int, i as int, size as int);
                    if n - i < size {
                        lemma_small_mod((n - i) as nat, size as nat);
                    }
                    assert(i + size <= n);
                }
                let v = T::read_at(bytes, i);
                out.push(v);
                proof {
                    let block = bytes@.subrange(i as int, i as int + size as int);
                    assert(bytes@.take(i as int + size as int) =~= bytes@.take(i as int) + block);
                    lemma_decode_seq_append_block::<T>(bytes@.take(i as int), block);
                    lemma_mod_self_0(size as int);
                    lemma_add_mod_noop(i as int, size as int, size as int);
                }
                i = i + size;
            }
            proof {
                assert(bytes@.take(n as int) =~= bytes@);
            }
            Ok(SliceCow::Owned(out))
        } else {
            Err(CodecError::LengthMismatch)
        }
    }
}

} // verus!
