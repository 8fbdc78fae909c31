//! Flat-layout types and the byte form of sequences of them.
//!
//! A flat-layout type is one whose serialized form is a fixed number of
//! bytes holding exactly the value, with no pointers or indirection.  The
//! byte form is defined mathematically by `to_bytes` / `from_bytes` and
//! realized by executable readers and writers that touch the buffer one byte
//! at a time, so they are safe at every alignment of the buffer.

use vstd::arithmetic::div_mod::lemma_add_mod_noop;
use vstd::arithmetic::div_mod::lemma_small_mod;
use vstd::arithmetic::div_mod::lemma_sub_mod_noop;
use vstd::prelude::*;

verus! {

/// A type whose in-memory value and its serialized byte form determine each
/// other exactly: a fixed byte size, a total encoding, and a decoding that
/// accepts every byte pattern of that size.
pub trait FlatLayout: Sized + Copy {
    /// The number of bytes in the serialized form of one value.
    spec fn byte_size() -> nat;

    /// The serialized form of this value.
    spec fn to_bytes(self) -> Seq<u8>;

    /// The value a byte sequence of length `byte_size` stands for.
    spec fn from_bytes(bytes: Seq<u8>) -> Self;

    /// A value occupies at least one byte.
    proof fn byte_size_pos()
        ensures
            Self::byte_size() > 0,
    ;

    /// The serialized form has exactly `byte_size` bytes.
    proof fn to_bytes_len(self)
        ensures
            self.to_bytes().len() == Self::byte_size(),
    ;

    /// Decoding a value's own serialized form gives the value back.
    proof fn from_to_bytes(self)
        ensures
            Self::from_bytes(self.to_bytes()) == self,
    ;

    /// Re-serializing the value a byte sequence stands for gives the same
    /// bytes back: every byte pattern of the right size is a valid value.
    proof fn to_from_bytes(bytes: Seq<u8>)
        requires
            bytes.len() == Self::byte_size(),
        ensures
            Self::from_bytes(bytes).to_bytes() == bytes,
    ;

    /// The byte size, as a runtime value.
    fn size_in_bytes() -> (n: usize)
        ensures
            n as nat == Self::byte_size(),
    ;

    /// Append the serialized form of this value to `out`.
    fn append_bytes(self, out: &mut Vec<u8>)
        ensures
            final(out)@ == old(out)@ + self.to_bytes(),
    ;

    /// Read one value out of `bytes`, starting at `start`, byte by byte.
    fn read_at(bytes: &[u8], start: usize) -> (v: Self)
        requires
            start + Self::byte_size() <= bytes@.len(),
        ensures
            v == Self::from_bytes(
                bytes@.subrange(start as int, start as int + Self::byte_size() as int),
            ),
    ;

    /// View `bytes` directly as a slice of values, without copying, when the
    /// type's layout lets a byte slice already be a value slice.  A type
    /// whose values span more than one byte returns `None` here and is
    /// decoded by copying instead.
    fn borrow_all(bytes: &[u8]) -> (r: Option<&[Self]>)
        ensures
            (r matches Some(values) ==> bytes@.len() == values@.len() * Self::byte_size()),
            (r matches Some(values) ==> forall|j: int|
                0 <= j < values@.len() ==> values@[j] == Self::from_bytes(
                    #[trigger] bytes@.subrange(
                        j * Self::byte_size() as int,
                        (j + 1) * Self::byte_size() as int,
                    ),
                )),
    ;
}

/// The byte form of a sequence of flat-layout values: the concatenation of
/// the serialized form of each element, in order.
pub open spec fn encode_seq<T: FlatLayout>(items: Seq<T>) -> Seq<u8>
    decreases items.len(),
{
    if items.len() == 0 {
        Seq::empty()
    } else {
        items[0].to_bytes() + encode_seq::<T>(items.skip(1))
    }
}

/// The sequence of values a byte sequence stands for, read one
/// `byte_size`-sized block at a time.
pub open spec fn decode_seq<T: FlatLayout>(bytes: Seq<u8>) -> Seq<T>
    decreases bytes.len(),
{
    if T::byte_size() == 0 || bytes.len() < T::byte_size() {
        Seq::empty()
    } else {
        seq![T::from_bytes(bytes.take(T::byte_size() as int))] + decode_seq::<T>(
            bytes.skip(T::byte_size() as int),
        )
    }
}

/// An encoded sequence holds exactly `byte_size` bytes per element.
pub proof fn lemma_encode_seq_len<T: FlatLayout>(items: Seq<T>)
    ensures
        encode_seq::<T>(items).len() == items.len() * T::byte_size(),
    decreases items.len(),
{
    if items.len() == 0 {
    } else {
        T::to_bytes_len(items[0]);
        lemma_encode_seq_len::<T>(items.skip(1));
        let n = items.len() as int;
        let s = T::byte_size() as int;
        assert(s + (n - 1) * s == n * s) by (nonlinear_arith);
    }
}

/// Appending one element to a sequence appends its serialized form to the
/// sequence's byte form.
pub proof fn lemma_encode_seq_push<T: FlatLayout>(items: Seq<T>, x: T)
    ensures
        encode_seq::<T>(items.push(x)) == encode_seq::<T>(items) + x.to_bytes(),
    decreases items.len(),
{
    if items.len() == 0 {
        assert(items.push(x)[0] == x);
        assert(items.push(x).skip(1) =~= Seq::<T>::empty());
        assert(encode_seq::<T>(items.push(x)) == x.to_bytes() + encode_seq::<T>(
            Seq::<T>::empty(),
        ));
        assert(encode_seq::<T>(items.push(x)) =~= encode_seq::<T>(items) + x.to_bytes());
    } else {
        assert(items.push(x)[0] == items[0]);
        assert(items.push(x).skip(1) =~= items.skip(1).push(x));
        lemma_encode_seq_push::<T>(items.skip(1), x);
        assert(encode_seq::<T>(items.push(x)) =~= encode_seq::<T>(items) + x.to_bytes());
    }
}

/// Appending one whole `byte_size`-sized block to a byte sequence appends
/// the value that block stands for to the decoded sequence.
pub proof fn lemma_decode_seq_append_block<T: FlatLayout>(prefix: Seq<u8>, block: Seq<u8>)
    requires
        prefix.len() % T::byte_size() == 0,
        block.len() == T::byte_size(),
    ensures
        decode_seq::<T>(prefix + block) == decode_seq::<T>(prefix).push(T::from_bytes(block)),
    decreases prefix.len(),
{
    T::byte_size_pos();
    let s = T::byte_size() as int;
    if prefix.len() == 0 {
        assert((prefix + block).len() == T::byte_size());
        assert((prefix + block).take(s) =~= block);
        assert((prefix + block).skip(s) =~= Seq::<u8>::empty());
        assert(decode_seq::<T>(prefix + block) == seq![
            T::from_bytes((prefix + block).take(s)),
        ] + decode_seq::<T>((prefix + block).skip(s)));
        assert(decode_seq::<T>((prefix + block).skip(s)) == Seq::<T>::empty());
        assert(decode_seq::<T>(prefix) == Seq::<T>::empty());
        assert(decode_seq::<T>(prefix + block) =~= decode_seq::<T>(prefix).push(
            T::from_bytes(block),
        ));
    } else {
        // A nonempty multiple of `byte_size` holds at least one whole block.
        if prefix.len() < T::byte_size() {
            lemma_small_mod(prefix.len(), T::byte_size());
        }
        assert(prefix.len() >= T::byte_size());
        assert((prefix + block).take(s) =~= prefix.take(s));
        assert((prefix + block).skip(s) =~= prefix.skip(s) + block);
        lemma_sub_mod_noop(prefix.len() as int, s, s);
        lemma_small_mod(0, T::byte_size());
        assert(prefix.skip(s).len() % T::byte_size() == 0);
        lemma_decode_seq_append_block::<T>(prefix.skip(s), block);
        assert(decode_seq::<T>(prefix) =~= seq![T::from_bytes(prefix.take(s))] + decode_seq::<T>(
            prefix.skip(s),
        ));
        assert(decode_seq::<T>(prefix + block) =~= decode_seq::<T>(prefix).push(
            T::from_bytes(block),
        ));
    }
}

/// A sequence of values that stand, element by element, for consecutive
/// `byte_size`-sized blocks of a byte sequence is that byte sequence's
/// decoding.
pub proof fn lemma_decode_seq_elementwise<T: FlatLayout>(bytes: Seq<u8>, values: Seq<T>)
    requires
        bytes.len() == values.len() * T::byte_size(),
        forall|j: int|
            0 <= j < values.len() ==> values[j] == T::from_bytes(
                #[trigger] bytes.subrange(
                    j * T::byte_size() as int,
                    (j + 1) * T::byte_size() as int,
                ),
            ),
    ensures
        decode_seq::<T>(bytes) == values,
    decreases values.len(),
{
    T::byte_size_pos();
    let s = T::byte_size() as int;
    if values.len() == 0 {
        assert(decode_seq::<T>(bytes) =~= values);
    } else {
        let n = values.len() as int;
        assert(1 * s <= n * s && n * s - s == (n - 1) * s) by (nonlinear_arith)
            requires
                1 <= n,
                0 < s,
        ;
        let tail = bytes.skip(s);
        let vtail = values.skip(1);
        assert forall|j: int| 0 <= j < vtail.len() implies vtail[j] == T::from_bytes(
            #[trigger] tail.subrange(j * T::byte_size() as int, (j + 1) * T::byte_size() as int),
        ) by {
            assert(0 <= j + 1 < values.len());
            assert(values[j + 1] == T::from_bytes(
                bytes.subrange(
                    (j + 1) * T::byte_size() as int,
                    ((j + 1) + 1) * T::byte_size() as int,
                ),
            ));
            assert((j + 1) * s == j * s + s && ((j + 1) + 1) * s == (j + 1) * s + s && 0 <= j * s
                && ((j + 1) + 1) * s <= n * s) by (nonlinear_arith)
                requires
                    0 <= j,
                    j + 2 <= n,
                    0 < s,
            ;
            assert(tail.subrange(j * s, (j + 1) * s) =~= bytes.subrange(
                (j + 1) * s,
                ((j + 1) + 1) * s,
            ));
            assert(vtail[j] == values[j + 1]);
        }
        lemma_decode_seq_elementwise::<T>(tail, vtail);
        assert(bytes.take(s) =~= bytes.subrange(0 * s, (0 + 1) * s));
        assert(values[0] == T::from_bytes(bytes.take(s)));
        assert(decode_seq::<T>(bytes) =~= values);
    }
}

/// Round-trip law for sequences: the byte form of any finite sequence of
/// flat-layout values has an acceptable length, and decoding it gives the
/// sequence back.
pub proof fn lemma_sequence_round_trip<T: FlatLayout>(items: Seq<T>)
    ensures
        encode_seq::<T>(items).len() % T::byte_size() == 0,
        decode_seq::<T>(encode_seq::<T>(items)) == items,
    decreases items.len(),
{
    T::byte_size_pos();
    let s = T::byte_size() as int;
    if items.len() == 0 {
        lemma_small_mod(0, T::byte_size());
    } else {
        let first = items[0];
        let rest = items.skip(1);
        T::to_bytes_len(first);
        T::from_to_bytes(first);
        lemma_sequence_round_trip::<T>(rest);
        let enc = encode_seq::<T>(items);
        assert(enc.take(s) =~= first.to_bytes());
        assert(enc.skip(s) =~= encode_seq::<T>(rest));
        lemma_add_mod_noop(s, encode_seq::<T>(rest).len() as int, s);
        lemma_small_mod(0, T::byte_size());
        assert(enc.len() % T::byte_size() == 0);
        assert(decode_seq::<T>(enc) =~= items);
    }
}

/// Round-trip law for bytes: re-encoding the sequence a whole number of
/// blocks stands for gives the same bytes back, so decoding loses nothing.
pub proof fn lemma_bytes_round_trip<T: FlatLayout>(bytes: Seq<u8>)
    requires
        bytes.len() % T::byte_size() == 0,
    ensures
        encode_seq::<T>(decode_seq::<T>(bytes)) == bytes,
    decreases bytes.len(),
{
    T::byte_size_pos();
    let s = T::byte_size() as int;
    if bytes.len() == 0 {
        assert(encode_seq::<T>(decode_seq::<T>(bytes)) =~= bytes);
    } else {
        if bytes.len() < T::byte_size() {
            lemma_small_mod(bytes.len(), T::byte_size());
        }
        assert(bytes.len() >= T::byte_size());
        let head = bytes.take(s);
        let tail = bytes.skip(s);
        T::to_from_bytes(head);
        lemma_sub_mod_noop(bytes.len() as int, s, s);
        lemma_small_mod(0, T::byte_size());
        assert(tail.len() % T::byte_size() == 0);
        lemma_bytes_round_trip::<T>(tail);
        let dec = decode_seq::<T>(bytes);
        assert(dec[0] == T::from_bytes(head));
        assert(dec.skip(1) =~= decode_seq::<T>(tail));
        assert(encode_seq::<T>(dec) =~= bytes);
    }
}

} // verus!
