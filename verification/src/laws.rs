//! What holds of the model for all values: round trips, equality and
//! arithmetic.

use crate::decimal::decimal;
use crate::ops::lemma_sum_words_value;
use crate::repr::{Repr, INLINE_MAX};
use crate::words::{
    lemma_stripped_eq_iff_value_eq, lemma_stripped_ignores_trailing_zeros,
    lemma_value_of_one_word, radix, words_value, zeros,
};
use vstd::prelude::*;

verus! {

/// A word within the inline range is stored inline as it is, so it is read
/// back unchanged and is rendered as its own decimal digits.
pub proof fn lemma_inline_round_trip(n: u64)
    requires
        n <= INLINE_MAX,
    ensures
        Repr::of_word(n) == Repr::Inline(n),
        Repr::of_word(n).value() == n,
        Repr::of_word(n).rendering() == decimal(n as nat),
{
    lemma_value_of_one_word(n);
}

/// Whichever representation a word gets, it denotes that word.
pub proof fn lemma_of_word_value(n: u64)
    ensures
        Repr::of_word(n).wf(),
        Repr::of_word(n).value() == n,
{
    lemma_value_of_one_word(n);
}

/// Two values are equal exactly when they denote the same number.
pub proof fn lemma_equal_iff_same_value(x: Repr, y: Repr)
    ensures
        x.equal(y) <==> x.value() == y.value(),
{
    lemma_stripped_eq_iff_value_eq(x.magnitude(), y.magnitude());
}

/// A word equals the heap value that holds just that word, whether or not
/// the word itself is stored inline.
pub proof fn lemma_word_equals_heap_word(n: u64)
    ensures
        Repr::of_word(n).equal(Repr::Heap(seq![n])),
{
}

/// A heap value equals the same value with zero words appended at the
/// significant end.
pub proof fn lemma_trailing_zeros_equal(words: Seq<u64>, extra: nat)
    ensures
        Repr::Heap(words).equal(Repr::Heap(words + zeros(extra))),
        Repr::Heap(words + zeros(extra)).value() == Repr::Heap(words).value(),
{
    lemma_stripped_ignores_trailing_zeros(words, extra);
    lemma_equal_iff_same_value(Repr::Heap(words), Repr::Heap(words + zeros(extra)));
}

/// Every value equals itself.
pub proof fn lemma_equal_reflexive(x: Repr)
    ensures
        x.equal(x),
{
}

/// Equality does not depend on the order of its operands.
pub proof fn lemma_equal_symmetric(x: Repr, y: Repr)
    ensures
        x.equal(y) <==> y.equal(x),
{
}

/// Two values that equal a third equal each other.
pub proof fn lemma_equal_transitive(x: Repr, y: Repr, z: Repr)
    requires
        x.equal(y),
        y.equal(z),
    ensures
        x.equal(z),
{
}

/// The sum of two values denotes the sum of their numbers, whichever way
/// the operands are stored.
pub proof fn lemma_plus_value(x: Repr, y: Repr)
    requires
        x.wf(),
        y.wf(),
    ensures
        x.plus(y).wf(),
        x.plus(y).value() == x.value() + y.value(),
{
    lemma_sum_words_value(x.magnitude(), y.magnitude());
    if let (Repr::Inline(a), Repr::Inline(b)) = (x, y) {
        lemma_value_of_one_word(a);
        lemma_value_of_one_word(b);
        lemma_value_of_one_word((a + b) as u64);
    }
}

/// Two inline values whose sum still fits the inline range add up inline;
/// a larger sum moves to a heap buffer of one word.
pub proof fn lemma_plus_inline(a: u64, b: u64)
    requires
        a <= INLINE_MAX,
        b <= INLINE_MAX,
    ensures
        a + b <= INLINE_MAX ==> Repr::Inline(a).plus(Repr::Inline(b)) == Repr::Inline(
            (a + b) as u64,
        ),
        a + b > INLINE_MAX ==> Repr::Inline(a).plus(Repr::Inline(b)) == Repr::Heap(
            seq![(a + b) as u64],
        ),
{
}

/// The product of two words denotes the product of their numbers. It is
/// stored as a word where it fits in one, else in a heap buffer of two
/// words whose high word is not zero.
pub proof fn lemma_product_value(a: u64, b: u64)
    ensures
        Repr::of_product(a, b).wf(),
        Repr::of_product(a, b).value() == a * b,
        Repr::of_product(a, b).value() == Repr::Inline(a).value() * Repr::Inline(b).value(),
        a * b >= radix() ==> (Repr::of_product(a, b) matches Repr::Heap(words) && words.len() == 2
            && words[1] != 0),
{
    lemma_value_of_one_word(a);
    lemma_value_of_one_word(b);
    let product = (a * b) as nat;
    assert(product <= 0xffff_ffff_ffff_ffff * 0xffff_ffff_ffff_ffff) by (nonlinear_arith)
        requires
            product == a * b,
            a <= 0xffff_ffff_ffff_ffff,
            b <= 0xffff_ffff_ffff_ffff,
    ;
    if product < radix() {
        lemma_value_of_one_word(product as u64);
    } else {
        let (low, high) = ((product % radix()) as u64, (product / radix()) as u64);
        let words = seq![low, high];
        assert(words.skip(1) =~= seq![high]);
        lemma_value_of_one_word(high);
        assert(words_value(words) == low + radix() * high);
    }
}

} // verus!
