//! Flat layouts for the supported unsigned scalar types.
//!
//! Every scalar is serialized in little-endian byte order, one byte at a
//! time, so reading and writing never depend on how the buffer is aligned.

use crate::flat::FlatLayout;
use vstd::prelude::*;

verus! {

impl FlatLayout for u8 {
    open spec fn byte_size() -> nat {
        1
    }

    open spec fn to_bytes(self) -> Seq<u8> {
        seq![self]
    }

    open spec fn from_bytes(bytes: Seq<u8>) -> u8 {
        bytes[0]
    }

    proof fn byte_size_pos() {
    }

    proof fn to_bytes_len(self) {
    }

    proof fn from_to_bytes(self) {
    }

    proof fn to_from_bytes(bytes: Seq<u8>) {
        assert(u8::from_bytes(bytes).to_bytes() =~= bytes);
    }

    fn size_in_bytes() -> usize {
        1
    }

    fn append_bytes(self, out: &mut Vec<u8>) {
        out.push(self);
        proof {
            assert(out@ =~= old(out)@ + self.to_bytes());
        }
    }

    fn read_at(bytes: &[u8], start: usize) -> u8 {
        bytes[start]
    }

    fn borrow_all(bytes: &[u8]) -> (r: Option<&[u8]>) {
        proof {
            assert(bytes@.len() == bytes@.len() * u8::byte_size());
            assert forall|j: int| 0 <= j < bytes@.len() implies bytes@[j] == u8::from_bytes(
                #[trigger] bytes@.subrange(
                    j * u8::byte_size() as int,
                    (j + 1) * u8::byte_size() as int,
                ),
            ) by {
                assert(bytes@.subrange(j * 1, (j + 1) * 1) =~= bytes@.subrange(j, j + 1));
                assert(bytes@.subrange(j, j + 1)[0] == bytes@[j]);
            }
        }
        Some(bytes)
    }
}

impl FlatLayout for u16 {
    open spec fn byte_size() -> nat {
        2
    }

    open spec fn to_bytes(self) -> Seq<u8> {
        seq![(self & 0xff) as u8, ((self >> 8) & 0xff) as u8]
    }

    open spec fn from_bytes(bytes: Seq<u8>) -> u16 {
        (bytes[0] as u16) | ((bytes[1] as u16) << 8)
    }

    proof fn byte_size_pos() {
    }

    proof fn to_bytes_len(self) {
    }

    proof fn from_to_bytes(self) {
        let v = self;
        assert((((v & 0xff) as u8) as u16) | (((((v >> 8) & 0xff) as u8) as u16) << 8) == v)
            by (bit_vector);
    }

    proof fn to_from_bytes(bytes: Seq<u8>) {
        let b0 = bytes[0];
        let b1 = bytes[1];
        let v = u16::from_bytes(bytes);
        assert(v == (b0 as u16) | ((b1 as u16) << 8));
        assert(((((b0 as u16) | ((b1 as u16) << 8)) & 0xff) as u8) == b0) by (bit_vector);
        assert((((((b0 as u16) | ((b1 as u16) << 8)) >> 8) & 0xff) as u8) == b1) by (bit_vector);
        assert(v.to_bytes() =~= bytes);
    }

    fn size_in_bytes() -> usize {
        2
    }

    fn append_bytes(self, out: &mut Vec<u8>) {
        out.push((self & 0xff) as u8);
        out.push(((self >> 8) & 0xff) as u8);
        proof {
            assert(out@ =~= old(out)@ + self.to_bytes());
        }
    }

    fn read_at(bytes: &[u8], start: usize) -> (v: u16) {
        let b0 = bytes[start];
        let b1 = bytes[start + 1];
        let v = (b0 as u16) | ((b1 as u16) << 8);
        proof {
            let sub = bytes@.subrange(start as int, start as int + 2);
            assert(sub[0] == bytes@[start as int]);
            assert(sub[1] == bytes@[start as int + 1]);
        }
        v
    }

    fn borrow_all(bytes: &[u8]) -> (r: Option<&[u16]>) {
        None
    }
}

impl FlatLayout for u32 {
    open spec fn byte_size() -> nat {
        4
    }

    open spec fn to_bytes(self) -> Seq<u8> {
        seq![
            (self & 0xff) as u8,
            ((self >> 8) & 0xff) as u8,
            ((self >> 16) & 0xff) as u8,
            ((self >> 24) & 0xff) as u8,
        ]
    }

    open spec fn from_bytes(bytes: Seq<u8>) -> u32 {
        (bytes[0] as u32) | ((bytes[1] as u32) << 8) | ((bytes[2] as u32) << 16) | ((
        bytes[3] as u32) << 24)
    }

    proof fn byte_size_pos() {
    }

    proof fn to_bytes_len(self) {
    }

    proof fn from_to_bytes(self) {
        let v = self;
        assert((((v & 0xff) as u8) as u32) | (((((v >> 8) & 0xff) as u8) as u32) << 8) | (((((v
            >> 16) & 0xff) as u8) as u32) << 16) | (((((v >> 24) & 0xff) as u8) as u32) << 24)
            == v) by (bit_vector);
    }

    proof fn to_from_bytes(bytes: Seq<u8>) {
        let b0 = bytes[0];
        let b1 = bytes[1];
        let b2 = bytes[2];
        let b3 = bytes[3];
        let v = u32::from_bytes(bytes);
        assert(v == (b0 as u32) | ((b1 as u32) << 8) | ((b2 as u32) << 16) | ((b3 as u32) << 24));
        let w = (b0 as u32) | ((b1 as u32) << 8) | ((b2 as u32) << 16) | ((b3 as u32) << 24);
        assert(((w & 0xff) as u8) == b0 && (((w >> 8) & 0xff) as u8) == b1 && (((w >> 16)
            & 0xff) as u8) == b2 && (((w >> 24) & 0xff) as u8) == b3) by (bit_vector)
            requires
                w == (b0 as u32) | ((b1 as u32) << 8) | ((b2 as u32) << 16) | ((b3 as u32) << 24),
        ;
        assert(v.to_bytes() =~= bytes);
    }

    fn size_in_bytes() -> usize {
        4
    }

    fn append_bytes(self, out: &mut Vec<u8>) {
        out.push((self & 0xff) as u8);
        out.push(((self >> 8) & 0xff) as u8);
        out.push(((self >> 16) & 0xff) as u8);
        out.push(((self >> 24) & 0xff) as u8);
        proof {
            assert(out@ =~= old(out)@ + self.to_bytes());
        }
    }

    fn read_at(bytes: &[u8], start: usize) -> (v: u32) {
        let b0 = bytes[start];
        let b1 = bytes[start + 1];
        let b2 = bytes[start + 2];
        let b3 = bytes[start + 3];
        let v = (b0 as u32) | ((b1 as u32) << 8) | ((b2 as u32) << 16) | ((b3 as u32) << 24);
        proof {
            let sub = bytes@.subrange(start as int, start as int + 4);
            assert(sub[0] == bytes@[start as int]);
            assert(sub[1] == bytes@[start as int + 1]);
            assert(sub[2] == bytes@[start as int + 2]);
            assert(sub[3] == bytes@[start as int + 3]);
        }
        v
    }

    fn borrow_all(bytes: &[u8]) -> (r: Option<&[u32]>) {
        None
    }
}

impl FlatLayout for u64 {
    open spec fn byte_size() -> nat {
        8
    }

    open spec fn to_bytes(self) -> Seq<u8> {
        seq![
            (self & 0xff) as u8,
            ((self >> 8) & 0xff) as u8,
            ((self >> 16) & 0xff) as u8,
            ((self >> 24) & 0xff) as u8,
            ((self >> 32) & 0xff) as u8,
            ((self >> 40) & 0xff) as u8,
            ((self >> 48) & 0xff) as u8,
            ((self >> 56) & 0xff) as u8,
        ]
    }

    open spec fn from_bytes(bytes: Seq<u8>) -> u64 {
        (bytes[0] as u64) | ((bytes[1] as u64) << 8) | ((bytes[2] as u64) << 16) | ((
        bytes[3] as u64) << 24) | ((bytes[4] as u64) << 32) | ((bytes[5] as u64) << 40) | ((
        bytes[6] as u64) << 48) | ((bytes[7] as u64) << 56)
    }

    proof fn byte_size_pos() {
    }

    proof fn to_bytes_len(self) {
    }

    proof fn from_to_bytes(self) {
        let v = self;
        assert((((v & 0xff) as u8) as u64) | (((((v >> 8) & 0xff) as u8) as u64) << 8) | (((((v
            >> 16) & 0xff) as u8) as u64) << 16) | (((((v >> 24) & 0xff) as u8) as u64) << 24) | ((
        (((v >> 32) & 0xff) as u8) as u64) << 32) | (((((v >> 40) & 0xff) as u8) as u64) << 40)
            | (((((v >> 48) & 0xff) as u8) as u64) << 48) | (((((v >> 56) & 0xff) as u8) as u64)
            << 56) == v) by (bit_vector);
    }

    proof fn to_from_bytes(bytes: Seq<u8>) {
        let b0 = bytes[0];
        let b1 = bytes[1];
        let b2 = bytes[2];
        let b3 = bytes[3];
        let b4 = bytes[4];
        let b5 = bytes[5];
        let b6 = bytes[6];
        let b7 = bytes[7];
        let v = u64::from_bytes(bytes);
        let w = (b0 as u64) | ((b1 as u64) << 8) | ((b2 as u64) << 16) | ((b3 as u64) << 24) | ((
        b4 as u64) << 32) | ((b5 as u64) << 40) | ((b6 as u64) << 48) | ((b7 as u64) << 56);
        assert(v == w);
        assert(((w & 0xff) as u8) == b0 && (((w >> 8) & 0xff) as u8) == b1 && (((w >> 16)
            & 0xff) as u8) == b2 && (((w >> 24) & 0xff) as u8) == b3 && (((w >> 32) & 0xff) as u8)
            == b4 && (((w >> 40) & 0xff) as u8) == b5 && (((w >> 48) & 0xff) as u8) == b6 && (((w
            >> 56) & 0xff) as u8) == b7) by (bit_vector)
            requires
                w == (b0 as u64) | ((b1 as u64) << 8) | ((b2 as u64) << 16) | ((b3 as u64) << 24)
                    | ((b4 as u64) << 32) | ((b5 as u64) << 40) | ((b6 as u64) << 48) | ((
                b7 as u64) << 56),
        ;
        assert(v.to_bytes() =~= bytes);
    }

    fn size_in_bytes() -> usize {
        8
    }

    fn append_bytes(self, out: &mut Vec<u8>) {
        out.push((self & 0xff) as u8);
        out.push(((self >> 8) & 0xff) as u8);
        out.push(((self >> 16) & 0xff) as u8);
        out.push(((self >> 24) & 0xff) as u8);
        out.push(((self >> 32) & 0xff) as u8);
        out.push(((self >> 40) & 0xff) as u8);
        out.push(((self >> 48) & 0xff) as u8);
        out.push(((self >> 56) & 0xff) as u8);
        proof {
            assert(out@ =~= old(out)@ + self.to_bytes());
        }
    }

    fn read_at(bytes: &[u8], start: usize) -> (v: u64) {
        let b0 = bytes[start];
        let b1 = bytes[start + 1];
        let b2 = bytes[start + 2];
        let b3 = bytes[start + 3];
        let b4 = bytes[start + 4];
        let b5 = bytes[start + 5];
        let b6 = bytes[start + 6];
        let b7 = bytes[start + 7];
        let v = (b0 as u64) | ((b1 as u64) << 8) | ((b2 as u64) << 16) | ((b3 as u64) << 24) | ((
        b4 as u64) << 32) | ((b5 as u64) << 40) | ((b6 as u64) << 48) | ((b7 as u64) << 56);
        proof {
            let sub = bytes@.subrange(start as int, start as int + 8);
            assert(sub[0] == bytes@[start as int]);
            assert(sub[1] == bytes@[start as int + 1]);
            assert(sub[2] == bytes@[start as int + 2]);
            assert(sub[3] == bytes@[start as int + 3]);
            assert(sub[4] == bytes@[start as int + 4]);
            assert(sub[5] == bytes@[start as int + 5]);
            assert(sub[6] == bytes@[start as int + 6]);
            assert(sub[7] == bytes@[start as int + 7]);
        }
        v
    }

    fn borrow_all(bytes: &[u8]) -> (r: Option<&[u64]>) {
        None
    }
}

} // verus!
