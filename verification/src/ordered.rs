//! Keys with a strict total order, and values that can be duplicated.

use vstd::prelude::*;
use crate::text::{
    lemma_lex_lt_irreflexive, lemma_lex_lt_total, lemma_lex_lt_transitive, lex_lt, same_text,
    str_less,
};

verus! {

/// A value that can be copied out in full: the copy has the same view.
pub trait Duplicate: View + Sized {
    fn duplicate(&self) -> (r: Self)
        ensures
            r@ == self@,
    ;
}

/// A type whose views are ranked by a strict order: nothing ranks before
/// itself, and ranking chains. Different views may rank alike.
pub trait Ranked: View + Sized {
    /// The strict order on views.
    spec fn key_lt(a: Self::V, b: Self::V) -> bool;

    proof fn lemma_irreflexive(a: Self::V)
        ensures
            !Self::key_lt(a, a),
    ;

    proof fn lemma_transitive(a: Self::V, b: Self::V, c: Self::V)
        requires
            Self::key_lt(a, b),
            Self::key_lt(b, c),
        ensures
            Self::key_lt(a, c),
    ;

    /// Whether `self` comes strictly before `other`.
    fn less(&self, other: &Self) -> (r: bool)
        ensures
            r == Self::key_lt(self@, other@),
    ;
}

/// A key type whose views are strictly and totally ordered.
pub trait Ordered: Ranked + Duplicate {
    proof fn lemma_total(a: Self::V, b: Self::V)
        ensures
            Self::key_lt(a, b) || a == b || Self::key_lt(b, a),
    ;

    /// Whether `self` and `other` are the same key.
    fn same(&self, other: &Self) -> (r: bool)
        ensures
            r == (self@ == other@),
    ;
}

impl Duplicate for u64 {
    fn duplicate(&self) -> (r: Self) {
        *self
    }
}

impl Ranked for u64 {
    open spec fn key_lt(a: u64, b: u64) -> bool {
        a < b
    }

    proof fn lemma_irreflexive(a: u64) {
    }

    proof fn lemma_transitive(a: u64, b: u64, c: u64) {
    }

    fn less(&self, other: &Self) -> (r: bool) {
        *self < *other
    }
}

impl Ordered for u64 {
    proof fn lemma_total(a: u64, b: u64) {
    }

    fn same(&self, other: &Self) -> (r: bool) {
        *self == *other
    }
}

impl Duplicate for String {
    fn duplicate(&self) -> (r: Self) {
        self.clone()
    }
}

impl Ranked for String {
    open spec fn key_lt(a: Seq<char>, b: Seq<char>) -> bool {
        lex_lt(a, b)
    }

    proof fn lemma_irreflexive(a: Seq<char>) {
        lemma_lex_lt_irreflexive(a);
    }

    proof fn lemma_transitive(a: Seq<char>, b: Seq<char>, c: Seq<char>) {
        lemma_lex_lt_transitive(a, b, c);
    }

    fn less(&self, other: &Self) -> (r: bool) {
        str_less(self.as_str(), other.as_str())
    }
}

impl Ordered for String {
    proof fn lemma_total(a: Seq<char>, b: Seq<char>) {
        lemma_lex_lt_total(a, b);
    }

    fn same(&self, other: &Self) -> (r: bool) {
        same_text(self.as_str(), other.as_str())
    }
}

impl Duplicate for Vec<u64> {
    fn duplicate(&self) -> (r: Self) {
        let mut out: Vec<u64> = Vec::new();
        let mut i: usize = 0;
        while i < self.len()
            invariant
                i <= self.len(),
                out@ == self@.subrange(0, i as int),
            decreases self.len() - i,
        {
            out.push(self[i]);
            i += 1;
            assert(out@ =~= self@.subrange(0, i as int));
        }
        assert(self@.subrange(0, self.len() as int) =~= self@);
        out
    }
}

impl Duplicate for Vec<u32> {
    fn duplicate(&self) -> (r: Self) {
        let mut out: Vec<u32> = Vec::new();
        let mut i: usize = 0;
        while i < self.len()
            invariant
                i <= self.len(),
                out@ == self@.subrange(0, i as int),
            decreases self.len() - i,
        {
            out.push(self[i]);
            i += 1;
            assert(out@ =~= self@.subrange(0, i as int));
        }
        assert(self@.subrange(0, self.len() as int) =~= self@);
        out
    }
}

impl Duplicate for Vec<u8> {
    fn duplicate(&self) -> (r: Self) {
        let mut out: Vec<u8> = Vec::new();
        let mut i: usize = 0;
        while i < self.len()
            invariant
                i <= self.len(),
                out@ == self@.subrange(0, i as int),
            decreases self.len() - i,
        {
            out.push(self[i]);
            i += 1;
            assert(out@ =~= self@.subrange(0, i as int));
        }
        assert(self@.subrange(0, self.len() as int) =~= self@);
        out
    }
}

impl Duplicate for (u64, u64) {
    fn duplicate(&self) -> (r: Self) {
        (self.0, self.1)
    }
}

impl Ranked for (u64, u64) {
    open spec fn key_lt(a: (u64, u64), b: (u64, u64)) -> bool {
        a.0 < b.0 || (a.0 == b.0 && a.1 < b.1)
    }

    proof fn lemma_irreflexive(a: (u64, u64)) {
    }

    proof fn lemma_transitive(a: (u64, u64), b: (u64, u64), c: (u64, u64)) {
    }

    fn less(&self, other: &Self) -> (r: bool) {
        self.0 < other.0 || (self.0 == other.0 && self.1 < other.1)
    }
}

impl Ordered for (u64, u64) {
    proof fn lemma_total(a: (u64, u64), b: (u64, u64)) {
    }

    fn same(&self, other: &Self) -> (r: bool) {
        self.0 == other.0 && self.1 == other.1
    }
}

impl Duplicate for (u64, u64, String) {
    fn duplicate(&self) -> (r: Self) {
        (self.0, self.1, self.2.clone())
    }
}

impl Ranked for (u64, u64, String) {
    open spec fn key_lt(a: (u64, u64, Seq<char>), b: (u64, u64, Seq<char>)) -> bool {
        a.0 < b.0 || (a.0 == b.0 && (a.1 < b.1 || (a.1 == b.1 && lex_lt(a.2, b.2))))
    }

    proof fn lemma_irreflexive(a: (u64, u64, Seq<char>)) {
        lemma_lex_lt_irreflexive(a.2);
    }

    proof fn lemma_transitive(
        a: (u64, u64, Seq<char>),
        b: (u64, u64, Seq<char>),
        c: (u64, u64, Seq<char>),
    ) {
        if a.0 == b.0 && b.0 == c.0 && a.1 == b.1 && b.1 == c.1 {
            lemma_lex_lt_transitive(a.2, b.2, c.2);
        }
    }

    fn less(&self, other: &Self) -> (r: bool) {
        self.0 < other.0 || (self.0 == other.0 && (self.1 < other.1 || (self.1 == other.1
            && str_less(self.2.as_str(), other.2.as_str()))))
    }
}

impl Ordered for (u64, u64, String) {
    proof fn lemma_total(a: (u64, u64, Seq<char>), b: (u64, u64, Seq<char>)) {
        lemma_lex_lt_total(a.2, b.2);
    }

    fn same(&self, other: &Self) -> (r: bool) {
        self.0 == other.0 && self.1 == other.1 && same_text(self.2.as_str(), other.2.as_str())
    }
}

} // verus!
