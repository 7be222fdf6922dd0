//! Components with a statically known type: a fixed-width byte codec.
//!
//! The store holds every component as a raw byte cell; a type usable through
//! the typed handle (`Table`) says how wide its cells are and how a value
//! maps to and from its cell, and proves that the mapping round-trips.

use vstd::bytes::lemma_auto_spec_u128_to_from_le_bytes;
use vstd::bytes::lemma_auto_spec_u16_to_from_le_bytes;
use vstd::bytes::lemma_auto_spec_u32_to_from_le_bytes;
use vstd::bytes::lemma_auto_spec_u64_to_from_le_bytes;
use vstd::bytes::spec_u128_from_le_bytes;
use vstd::bytes::spec_u128_to_le_bytes;
use vstd::bytes::spec_u16_from_le_bytes;
use vstd::bytes::spec_u16_to_le_bytes;
use vstd::bytes::spec_u32_from_le_bytes;
use vstd::bytes::spec_u32_to_le_bytes;
use vstd::bytes::spec_u64_from_le_bytes;
use vstd::bytes::spec_u64_to_le_bytes;
use vstd::bytes::u128_from_le_bytes;
use vstd::bytes::u128_to_le_bytes;
use vstd::bytes::u16_from_le_bytes;
use vstd::bytes::u16_to_le_bytes;
use vstd::bytes::u32_from_le_bytes;
use vstd::bytes::u32_to_le_bytes;
use vstd::bytes::u64_from_le_bytes;
use vstd::bytes::u64_to_le_bytes;
use vstd::prelude::*;

verus! {

/// A component type that can live in a typed column: a value is exactly
/// `spec_size` bytes, and decoding undoes encoding.  A cell is at least one
/// byte — rows are counted by cells, so zero-sized marker components are not
/// supported.
pub trait Component: Sized {
    /// How many bytes one cell of this type holds.
    spec fn spec_size() -> usize;

    /// The byte image of one value.
    spec fn spec_to_bytes(self) -> Seq<u8>;

    /// The value a byte cell stands for.
    spec fn spec_from_bytes(b: Seq<u8>) -> Self;

    /// A cell is never empty and always exactly `spec_size` bytes.
    proof fn lemma_bytes_len(self)
        ensures
            self.spec_to_bytes().len() == Self::spec_size(),
            Self::spec_size() >= 1,
    ;

    /// Decoding a value's own byte image gives the value back.
    proof fn lemma_round_trip(self)
        ensures
            Self::spec_from_bytes(self.spec_to_bytes()) == self,
    ;

    fn byte_size() -> (n: usize)
        ensures
            n == Self::spec_size(),
            n >= 1,
    ;

    fn to_bytes(self) -> (b: Vec<u8>)
        ensures
            b@ == self.spec_to_bytes(),
            b@.len() == Self::spec_size(),
    ;

    fn from_bytes(b: &Vec<u8>) -> (v: Self)
        requires
            b@.len() == Self::spec_size(),
        ensures
            v == Self::spec_from_bytes(b@),
    ;
}

impl Component for u8 {
    open spec fn spec_size() -> usize {
        1
    }

    open spec fn spec_to_bytes(self) -> Seq<u8> {
        seq![self]
    }

    open spec fn spec_from_bytes(b: Seq<u8>) -> u8 {
        b[0]
    }

    proof fn lemma_bytes_len(self) {
    }

    proof fn lemma_round_trip(self) {
    }

    fn byte_size() -> usize {
        1
    }

    fn to_bytes(self) -> (b: Vec<u8>)
        ensures
            b@ == self.spec_to_bytes(),
            b@.len() == Self::spec_size(),
    {
        let mut b: Vec<u8> = Vec::new();
        b.push(self);
        proof {
            assert(b@ =~= seq![self]);
        }
        b
    }

    fn from_bytes(b: &Vec<u8>) -> u8 {
        b[0]
    }
}

impl Component for bool {
    open spec fn spec_size() -> usize {
        1
    }

    open spec fn spec_to_bytes(self) -> Seq<u8> {
        seq![
            if self {
                1u8
            } else {
                0u8
            },
        ]
    }

    open spec fn spec_from_bytes(b: Seq<u8>) -> bool {
        b[0] == 1u8
    }

    proof fn lemma_bytes_len(self) {
    }

    proof fn lemma_round_trip(self) {
    }

    fn byte_size() -> usize {
        1
    }

    fn to_bytes(self) -> (b: Vec<u8>)
        ensures
            b@ == self.spec_to_bytes(),
            b@.len() == Self::spec_size(),
    {
        let mut b: Vec<u8> = Vec::new();
        if self {
            b.push(1u8);
        } else {
            b.push(0u8);
        }
        proof {
            assert(b@ =~= self.spec_to_bytes());
        }
        b
    }

    fn from_bytes(b: &Vec<u8>) -> bool {
        b[0] == 1u8
    }
}

impl Component for u16 {
    open spec fn spec_size() -> usize {
        2
    }

    open spec fn spec_to_bytes(self) -> Seq<u8> {
        spec_u16_to_le_bytes(self)
    }

    open spec fn spec_from_bytes(b: Seq<u8>) -> u16 {
        spec_u16_from_le_bytes(b)
    }

    proof fn lemma_bytes_len(self) {
        lemma_auto_spec_u16_to_from_le_bytes();
    }

    proof fn lemma_round_trip(self) {
        lemma_auto_spec_u16_to_from_le_bytes();
        assert(spec_u16_to_le_bytes(self).len() == 2);
        assert(spec_u16_from_le_bytes(spec_u16_to_le_bytes(self)) == self);
    }

    fn byte_size() -> usize {
        2
    }

    fn to_bytes(self) -> (b: Vec<u8>)
        ensures
            b@ == self.spec_to_bytes(),
            b@.len() == Self::spec_size(),
    {
        proof {
            lemma_auto_spec_u16_to_from_le_bytes();
        }
        u16_to_le_bytes(self)
    }

    fn from_bytes(b: &Vec<u8>) -> u16 {
        u16_from_le_bytes(b.as_slice())
    }
}

impl Component for u32 {
    open spec fn spec_size() -> usize {
        4
    }

    open spec fn spec_to_bytes(self) -> Seq<u8> {
        spec_u32_to_le_bytes(self)
    }

    open spec fn spec_from_bytes(b: Seq<u8>) -> u32 {
        spec_u32_from_le_bytes(b)
    }

    proof fn lemma_bytes_len(self) {
        lemma_auto_spec_u32_to_from_le_bytes();
    }

    proof fn lemma_round_trip(self) {
        lemma_auto_spec_u32_to_from_le_bytes();
        assert(spec_u32_to_le_bytes(self).len() == 4);
        assert(spec_u32_from_le_bytes(spec_u32_to_le_bytes(self)) == self);
    }

    fn byte_size() -> usize {
        4
    }

    fn to_bytes(self) -> (b: Vec<u8>)
        ensures
            b@ == self.spec_to_bytes(),
            b@.len() == Self::spec_size(),
    {
        proof {
            lemma_auto_spec_u32_to_from_le_bytes();
        }
        u32_to_le_bytes(self)
    }

    fn from_bytes(b: &Vec<u8>) -> u32 {
        u32_from_le_bytes(b.as_slice())
    }
}

impl Component for u64 {
    open spec fn spec_size() -> usize {
        8
    }

    open spec fn spec_to_bytes(self) -> Seq<u8> {
        spec_u64_to_le_bytes(self)
    }

    open spec fn spec_from_bytes(b: Seq<u8>) -> u64 {
        spec_u64_from_le_bytes(b)
    }

    proof fn lemma_bytes_len(self) {
        lemma_auto_spec_u64_to_from_le_bytes();
    }

    proof fn lemma_round_trip(self) {
        lemma_auto_spec_u64_to_from_le_bytes();
        assert(spec_u64_from_le_bytes(spec_u64_to_le_bytes(self)) == self);
    }

    fn byte_size() -> usize {
        8
    }

    fn to_bytes(self) -> (b: Vec<u8>)
        ensures
            b@ == self.spec_to_bytes(),
            b@.len() == Self::spec_size(),
    {
        proof {
            lemma_auto_spec_u64_to_from_le_bytes();
        }
        u64_to_le_bytes(self)
    }

    fn from_bytes(b: &Vec<u8>) -> u64 {
        u64_from_le_bytes(b.as_slice())
    }
}

impl Component for u128 {
    open spec fn spec_size() -> usize {
        16
    }

    open spec fn spec_to_bytes(self) -> Seq<u8> {
        spec_u128_to_le_bytes(self)
    }

    open spec fn spec_from_bytes(b: Seq<u8>) -> u128 {
        spec_u128_from_le_bytes(b)
    }

    proof fn lemma_bytes_len(self) {
        lemma_auto_spec_u128_to_from_le_bytes();
    }

    proof fn lemma_round_trip(self) {
        lemma_auto_spec_u128_to_from_le_bytes();
        assert(spec_u128_to_le_bytes(self).len() == 16);
        assert(spec_u128_from_le_bytes(spec_u128_to_le_bytes(self)) == self);
    }

    fn byte_size() -> usize {
        16
    }

    fn to_bytes(self) -> (b: Vec<u8>)
        ensures
            b@ == self.spec_to_bytes(),
            b@.len() == Self::spec_size(),
    {
        proof {
            lemma_auto_spec_u128_to_from_le_bytes();
        }
        u128_to_le_bytes(self)
    }

    fn from_bytes(b: &Vec<u8>) -> u128 {
        u128_from_le_bytes(b.as_slice())
    }
}

impl Component for usize {
    open spec fn spec_size() -> usize {
        8
    }

    open spec fn spec_to_bytes(self) -> Seq<u8> {
        spec_u64_to_le_bytes(self as u64)
    }

    open spec fn spec_from_bytes(b: Seq<u8>) -> usize {
        spec_u64_from_le_bytes(b) as usize
    }

    proof fn lemma_bytes_len(self) {
        lemma_auto_spec_u64_to_from_le_bytes();
    }

    proof fn lemma_round_trip(self) {
        lemma_auto_spec_u64_to_from_le_bytes();
        assert(spec_u64_from_le_bytes(spec_u64_to_le_bytes(self as u64)) == self as u64);
    }

    fn byte_size() -> usize {
        8
    }

    fn to_bytes(self) -> (b: Vec<u8>)
        ensures
            b@ == self.spec_to_bytes(),
            b@.len() == Self::spec_size(),
    {
        proof {
            lemma_auto_spec_u64_to_from_le_bytes();
        }
        u64_to_le_bytes(self as u64)
    }

    fn from_bytes(b: &Vec<u8>) -> usize {
        u64_from_le_bytes(b.as_slice()) as usize
    }
}


impl Component for i16 {
    open spec fn spec_size() -> usize {
        2
    }

    open spec fn spec_to_bytes(self) -> Seq<u8> {
        spec_u16_to_le_bytes(self as u16)
    }

    open spec fn spec_from_bytes(b: Seq<u8>) -> i16 {
        spec_u16_from_le_bytes(b) as i16
    }

    proof fn lemma_bytes_len(self) {
        lemma_auto_spec_u16_to_from_le_bytes();
        assert(spec_u16_to_le_bytes(self as u16).len() == 2);
    }

    proof fn lemma_round_trip(self) {
        lemma_auto_spec_u16_to_from_le_bytes();
        assert(spec_u16_to_le_bytes(self as u16).len() == 2);
        assert(spec_u16_from_le_bytes(spec_u16_to_le_bytes(self as u16)) == self
            as u16);
        assert((self as u16) as i16 == self) by (bit_vector);
    }

    fn byte_size() -> usize {
        2
    }

    fn to_bytes(self) -> (b: Vec<u8>)
        ensures
            b@ == self.spec_to_bytes(),
            b@.len() == Self::spec_size(),
    {
        proof {
            lemma_auto_spec_u16_to_from_le_bytes();
            assert(spec_u16_to_le_bytes(self as u16).len() == 2);
        }
        u16_to_le_bytes(self as u16)
    }

    fn from_bytes(b: &Vec<u8>) -> i16 {
        u16_from_le_bytes(b.as_slice()) as i16
    }
}


impl Component for i32 {
    open spec fn spec_size() -> usize {
        4
    }

    open spec fn spec_to_bytes(self) -> Seq<u8> {
        spec_u32_to_le_bytes(self as u32)
    }

    open spec fn spec_from_bytes(b: Seq<u8>) -> i32 {
        spec_u32_from_le_bytes(b) as i32
    }

    proof fn lemma_bytes_len(self) {
        lemma_auto_spec_u32_to_from_le_bytes();
        assert(spec_u32_to_le_bytes(self as u32).len() == 4);
    }

    proof fn lemma_round_trip(self) {
        lemma_auto_spec_u32_to_from_le_bytes();
        assert(spec_u32_to_le_bytes(self as u32).len() == 4);
        assert(spec_u32_from_le_bytes(spec_u32_to_le_bytes(self as u32)) == self
            as u32);
        assert((self as u32) as i32 == self) by (bit_vector);
    }

    fn byte_size() -> usize {
        4
    }

    fn to_bytes(self) -> (b: Vec<u8>)
        ensures
            b@ == self.spec_to_bytes(),
            b@.len() == Self::spec_size(),
    {
        proof {
            lemma_auto_spec_u32_to_from_le_bytes();
            assert(spec_u32_to_le_bytes(self as u32).len() == 4);
        }
        u32_to_le_bytes(self as u32)
    }

    fn from_bytes(b: &Vec<u8>) -> i32 {
        u32_from_le_bytes(b.as_slice()) as i32
    }
}


impl Component for i64 {
    open spec fn spec_size() -> usize {
        8
    }

    open spec fn spec_to_bytes(self) -> Seq<u8> {
        spec_u64_to_le_bytes(self as u64)
    }

    open spec fn spec_from_bytes(b: Seq<u8>) -> i64 {
        spec_u64_from_le_bytes(b) as i64
    }

    proof fn lemma_bytes_len(self) {
        lemma_auto_spec_u64_to_from_le_bytes();
        assert(spec_u64_to_le_bytes(self as u64).len() == 8);
    }

    proof fn lemma_round_trip(self) {
        lemma_auto_spec_u64_to_from_le_bytes();
        assert(spec_u64_to_le_bytes(self as u64).len() == 8);
        assert(spec_u64_from_le_bytes(spec_u64_to_le_bytes(self as u64)) == self
            as u64);
        assert((self as u64) as i64 == self) by (bit_vector);
    }

    fn byte_size() -> usize {
        8
    }

    fn to_bytes(self) -> (b: Vec<u8>)
        ensures
            b@ == self.spec_to_bytes(),
            b@.len() == Self::spec_size(),
    {
        proof {
            lemma_auto_spec_u64_to_from_le_bytes();
            assert(spec_u64_to_le_bytes(self as u64).len() == 8);
        }
        u64_to_le_bytes(self as u64)
    }

    fn from_bytes(b: &Vec<u8>) -> i64 {
        u64_from_le_bytes(b.as_slice()) as i64
    }
}


impl Component for i128 {
    open spec fn spec_size() -> usize {
        16
    }

    open spec fn spec_to_bytes(self) -> Seq<u8> {
        spec_u128_to_le_bytes(self as u128)
    }

    open spec fn spec_from_bytes(b: Seq<u8>) -> i128 {
        spec_u128_from_le_bytes(b) as i128
    }

    proof fn lemma_bytes_len(self) {
        lemma_auto_spec_u128_to_from_le_bytes();
        assert(spec_u128_to_le_bytes(self as u128).len() == 16);
    }

    proof fn lemma_round_trip(self) {
        lemma_auto_spec_u128_to_from_le_bytes();
        assert(spec_u128_to_le_bytes(self as u128).len() == 16);
        assert(spec_u128_from_le_bytes(spec_u128_to_le_bytes(self as u128)) == self
            as u128);
        assert((self as u128) as i128 == self) by (bit_vector);
    }

    fn byte_size() -> usize {
        16
    }

    fn to_bytes(self) -> (b: Vec<u8>)
        ensures
            b@ == self.spec_to_bytes(),
            b@.len() == Self::spec_size(),
    {
        proof {
            lemma_auto_spec_u128_to_from_le_bytes();
            assert(spec_u128_to_le_bytes(self as u128).len() == 16);
        }
        u128_to_le_bytes(self as u128)
    }

    fn from_bytes(b: &Vec<u8>) -> i128 {
        u128_from_le_bytes(b.as_slice()) as i128
    }
}


impl Component for i8 {
    open spec fn spec_size() -> usize {
        1
    }

    open spec fn spec_to_bytes(self) -> Seq<u8> {
        seq![self as u8]
    }

    open spec fn spec_from_bytes(b: Seq<u8>) -> i8 {
        b[0] as i8
    }

    proof fn lemma_bytes_len(self) {
    }

    proof fn lemma_round_trip(self) {
        assert((self as u8) as i8 == self) by (bit_vector);
    }

    fn byte_size() -> usize {
        1
    }

    fn to_bytes(self) -> (b: Vec<u8>)
        ensures
            b@ == self.spec_to_bytes(),
            b@.len() == Self::spec_size(),
    {
        let mut b: Vec<u8> = Vec::new();
        b.push(self as u8);
        proof {
            assert(b@ =~= seq![self as u8]);
        }
        b
    }

    fn from_bytes(b: &Vec<u8>) -> i8 {
        b[0] as i8
    }
}

} // verus!
