//! Single-precision numbers as the library carries them: by bit pattern.
//!
//! The library stores and orders such numbers and never computes with them.

use vstd::prelude::*;
use crate::ordered::{Duplicate, Ordered, Ranked};

verus! {

/// A single-precision number, given by its IEEE-754 bit pattern.
pub type Scalar = u32;

/// The bit pattern of positive zero.
pub const SCALAR_ZERO: u32 = 0;

/// An integer that grows with the number that `bits` encodes: negative numbers
/// map below positive ones, and among numbers of one sign the order of
/// magnitudes is kept or reversed as the sign asks.
pub open spec fn order_key(bits: u32) -> u32 {
    if bits & 0x8000_0000u32 != 0 {
        !bits
    } else {
        bits | 0x8000_0000u32
    }
}

/// Computes `order_key`.
pub fn order_key_of(bits: u32) -> (k: u32)
    ensures
        k == order_key(bits),
{
    if bits & 0x8000_0000u32 != 0 {
        !bits
    } else {
        bits | 0x8000_0000u32
    }
}

/// Different bit patterns have different order keys.
pub proof fn lemma_order_key_injective(a: u32, b: u32)
    requires
        order_key(a) == order_key(b),
    ensures
        a == b,
{
    assert(order_key(a) == order_key(b) ==> a == b) by (bit_vector)
        requires
            order_key(a) == (if a & 0x8000_0000u32 != 0 { !a } else { a | 0x8000_0000u32 }),
            order_key(b) == (if b & 0x8000_0000u32 != 0 { !b } else { b | 0x8000_0000u32 }),
    ;
}

/// Whether the number encoded by `a` ranks strictly above the one encoded by
/// `b`.
pub open spec fn ranks_above(a: u32, b: u32) -> bool {
    order_key(a) > order_key(b)
}

/// The sort key of a scored item: higher scores first, then lower ids.
#[derive(Debug, Clone, Copy, PartialEq, Eq)]
pub struct RankKey {
    pub score: u32,
    pub id: u64,
}

impl View for RankKey {
    type V = RankKey;

    open spec fn view(&self) -> RankKey {
        *self
    }
}

impl Duplicate for RankKey {
    fn duplicate(&self) -> (r: Self) {
        *self
    }
}

impl Ranked for RankKey {
    open spec fn key_lt(a: RankKey, b: RankKey) -> bool {
        ranks_above(a.score, b.score) || (a.score == b.score && a.id < b.id)
    }

    proof fn lemma_irreflexive(a: RankKey) {
    }

    proof fn lemma_transitive(a: RankKey, b: RankKey, c: RankKey) {
    }

    fn less(&self, other: &Self) -> (r: bool) {
        let ka = order_key_of(self.score);
        let kb = order_key_of(other.score);
        ka > kb || (self.score == other.score && self.id < other.id)
    }
}

impl Ordered for RankKey {
    proof fn lemma_total(a: RankKey, b: RankKey) {
        if order_key(a.score) == order_key(b.score) {
            lemma_order_key_injective(a.score, b.score);
        }
    }

    fn same(&self, other: &Self) -> (r: bool) {
        self.score == other.score && self.id == other.id
    }
}

/// An integer that grows with the double-precision number that `bits`
/// encodes, as `order_key` does for single precision.
pub open spec fn order_key64(bits: u64) -> u64 {
    if bits & 0x8000_0000_0000_0000u64 != 0 {
        !bits
    } else {
        bits | 0x8000_0000_0000_0000u64
    }
}

/// Computes `order_key64`.
pub fn order_key64_of(bits: u64) -> (k: u64)
    ensures
        k == order_key64(bits),
{
    if bits & 0x8000_0000_0000_0000u64 != 0 {
        !bits
    } else {
        bits | 0x8000_0000_0000_0000u64
    }
}

/// Different bit patterns have different order keys.
pub proof fn lemma_order_key64_injective(a: u64, b: u64)
    requires
        order_key64(a) == order_key64(b),
    ensures
        a == b,
{
    assert(order_key64(a) == order_key64(b) ==> a == b) by (bit_vector)
        requires
            order_key64(a) == (if a & 0x8000_0000_0000_0000u64 != 0 {
                !a
            } else {
                a | 0x8000_0000_0000_0000u64
            }),
            order_key64(b) == (if b & 0x8000_0000_0000_0000u64 != 0 {
                !b
            } else {
                b | 0x8000_0000_0000_0000u64
            }),
    ;
}

/// The sort key of an item that is scored in double precision: higher scores
/// first, then lower ids.
#[derive(Debug, Clone, Copy, PartialEq, Eq)]
pub struct RankKey64 {
    pub score: u64,
    pub id: u64,
}

impl View for RankKey64 {
    type V = RankKey64;

    open spec fn view(&self) -> RankKey64 {
        *self
    }
}

impl Duplicate for RankKey64 {
    fn duplicate(&self) -> (r: Self) {
        *self
    }
}

impl Ranked for RankKey64 {
    open spec fn key_lt(a: RankKey64, b: RankKey64) -> bool {
        order_key64(a.score) > order_key64(b.score) || (a.score == b.score && a.id < b.id)
    }

    proof fn lemma_irreflexive(a: RankKey64) {
    }

    proof fn lemma_transitive(a: RankKey64, b: RankKey64, c: RankKey64) {
    }

    fn less(&self, other: &Self) -> (r: bool) {
        let ka = order_key64_of(self.score);
        let kb = order_key64_of(other.score);
        ka > kb || (self.score == other.score && self.id < other.id)
    }
}

impl Ordered for RankKey64 {
    proof fn lemma_total(a: RankKey64, b: RankKey64) {
        if order_key64(a.score) == order_key64(b.score) {
            lemma_order_key64_injective(a.score, b.score);
        }
    }

    fn same(&self, other: &Self) -> (r: bool) {
        self.score == other.score && self.id == other.id
    }
}

} // verus!
