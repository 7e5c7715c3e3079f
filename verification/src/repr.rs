//! The mathematical model of a big unsigned integer: which of the two
//! representations a value is in, and what it holds there.

use crate::decimal::decimal;
use crate::ops::sum_words;
use crate::words::{radix, stripped, words_value};
use vstd::prelude::*;

verus! {

/// The largest value that is stored inline.
pub const INLINE_MAX: u64 = 0x7fff_ffff_ffff_ffff;

/// What a big unsigned integer holds.
pub enum Repr {
    /// A value of at most `INLINE_MAX`, kept in the integer itself.
    Inline(u64),
    /// The words of a heap buffer, least significant first. They may end
    /// in zero words, and there may be none at all.
    Heap(Seq<u64>),
}

impl Repr {
    /// An inline value is within the inline range. A heap buffer may hold
    /// any words.
    pub open spec fn wf(self) -> bool {
        self matches Repr::Inline(v) ==> v <= INLINE_MAX
    }

    /// The words of the value, least significant first: the one word of an
    /// inline value, or the words of the heap buffer.
    pub open spec fn magnitude(self) -> Seq<u64> {
        match self {
            Repr::Inline(v) => seq![v],
            Repr::Heap(words) => words,
        }
    }

    /// The number that is represented.
    pub open spec fn value(self) -> nat {
        words_value(self.magnitude())
    }

    /// The representation chosen for a single word: inline where it fits,
    /// else a heap buffer of that one word.
    pub open spec fn of_word(n: u64) -> Repr {
        if n <= INLINE_MAX {
            Repr::Inline(n)
        } else {
            Repr::Heap(seq![n])
        }
    }

    /// Equality of two values whatever their representation: their
    /// magnitudes agree once trailing zero words are stripped.
    pub open spec fn equal(self, other: Repr) -> bool {
        stripped(self.magnitude()) == stripped(other.magnitude())
    }

    /// The sum. Two inline values give the representation of the sum as a
    /// word; with a heap operand the sum is on the heap, in one word more
    /// than the longer magnitude.
    pub open spec fn plus(self, other: Repr) -> Repr {
        match (self, other) {
            (Repr::Inline(a), Repr::Inline(b)) => Repr::of_word((a + b) as u64),
            _ => Repr::Heap(sum_words(self.magnitude(), other.magnitude())),
        }
    }

    /// The representation chosen for the product of two words: that of the
    /// product as a word where it fits in one, else a heap buffer of its
    /// low and its high word.
    pub open spec fn of_product(a: u64, b: u64) -> Repr {
        let product = (a * b) as nat;
        if product < radix() {
            Repr::of_word(product as u64)
        } else {
            Repr::Heap(seq![(product % radix()) as u64, (product / radix()) as u64])
        }
    }

    /// The decimal digits of the number that is represented.
    pub open spec fn rendering(self) -> Seq<char> {
        decimal(self.value())
    }
}

} // verus!
