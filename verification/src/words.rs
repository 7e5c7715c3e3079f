//! Magnitudes: sequences of 64-bit words, least significant word first.

use vstd::prelude::*;
use vstd::slice::slice_subrange;

verus! {

/// The radix of a magnitude: one more than the largest word.
pub open spec fn radix() -> nat {
    0x1_0000_0000_0000_0000
}

/// The number that a little-endian word sequence denotes.
pub open spec fn words_value(words: Seq<u64>) -> nat
    decreases words.len(),
{
    if words.len() == 0 {
        0
    } else {
        words[0] as nat + radix() * words_value(words.skip(1))
    }
}

/// The little-endian representation of `value` in exactly `len` words
/// (the digits above `len` words, if any, are cut off).
pub open spec fn words_of(value: nat, len: nat) -> Seq<u64>
    decreases len,
{
    if len == 0 {
        Seq::empty()
    } else {
        seq![(value % radix()) as u64] + words_of(value / radix(), (len - 1) as nat)
    }
}

/// A magnitude is canonical when its most significant word is not zero.
/// The empty magnitude is the canonical form of zero.
pub open spec fn is_canonical(words: Seq<u64>) -> bool {
    words.len() == 0 || words.last() != 0
}

/// The magnitude without its trailing (most significant) zero words.
pub open spec fn stripped(words: Seq<u64>) -> Seq<u64>
    decreases words.len(),
{
    if is_canonical(words) {
        words
    } else {
        stripped(words.drop_last())
    }
}

/// A sequence of `len` zero words.
pub open spec fn zeros(len: nat) -> Seq<u64> {
    Seq::new(len, |i: int| 0u64)
}

/// A magnitude of one word denotes that word.
pub proof fn lemma_value_of_one_word(word: u64)
    ensures
        words_value(seq![word]) == word,
{
    assert(seq![word].skip(1).len() == 0);
    assert(words_value(seq![word].skip(1)) == 0);
}

/// `stripped` yields the canonical prefix: what it cuts off is all zero.
pub proof fn lemma_stripped_shape(words: Seq<u64>)
    ensures
        is_canonical(stripped(words)),
        stripped(words).len() <= words.len(),
        stripped(words) == words.take(stripped(words).len() as int),
        forall|i: int| stripped(words).len() <= i < words.len() ==> words[i] == 0,
    decreases words.len(),
{
    if !is_canonical(words) {
        let shorter = words.drop_last();
        lemma_stripped_shape(shorter);
        let n = stripped(words).len() as int;
        assert(shorter.take(n) =~= words.take(n));
        assert forall|i: int| n <= i < words.len() implies words[i] == 0 by {
            if i < shorter.len() {
                assert(shorter[i] == words[i]);
            }
        }
    } else {
        assert(words.take(words.len() as int) =~= words);
    }
}

/// Zero words appended at the significant end are stripped again.
pub proof fn lemma_stripped_ignores_trailing_zeros(words: Seq<u64>, extra: nat)
    ensures
        stripped(words + zeros(extra)) == stripped(words),
    decreases extra,
{
    if extra == 0 {
        assert(words + zeros(0) =~= words);
    } else {
        let padded = words + zeros(extra);
        assert(padded.last() == 0);
        assert(padded.drop_last() =~= words + zeros((extra - 1) as nat));
        lemma_stripped_ignores_trailing_zeros(words, (extra - 1) as nat);
    }
}

/// A most significant zero word adds nothing to the value.
pub proof fn lemma_value_drop_zero(words: Seq<u64>)
    requires
        words.len() > 0,
        words.last() == 0,
    ensures
        words_value(words.drop_last()) == words_value(words),
    decreases words.len(),
{
    if words.len() == 1 {
        assert(words.skip(1).len() == 0);
        assert(words_value(words.skip(1)) == 0);
        assert(words.drop_last().len() == 0);
    } else {
        let tail = words.skip(1);
        lemma_value_drop_zero(tail);
        assert(words.drop_last().skip(1) =~= tail.drop_last());
        assert(words.drop_last()[0] == words[0]);
    }
}

/// Stripping keeps the value.
pub proof fn lemma_stripped_value(words: Seq<u64>)
    ensures
        words_value(stripped(words)) == words_value(words),
    decreases words.len(),
{
    if !is_canonical(words) {
        lemma_value_drop_zero(words);
        lemma_stripped_value(words.drop_last());
    }
}

/// A non-empty canonical magnitude denotes a positive number.
pub proof fn lemma_canonical_positive(words: Seq<u64>)
    requires
        words.len() > 0,
        is_canonical(words),
    ensures
        words_value(words) > 0,
    decreases words.len(),
{
    if words.len() > 1 {
        let tail = words.skip(1);
        assert(tail.last() == words.last());
        lemma_canonical_positive(tail);
    }
}

/// Two canonical magnitudes of one value are the same sequence.
pub proof fn lemma_canonical_unique(a: Seq<u64>, b: Seq<u64>)
    requires
        is_canonical(a),
        is_canonical(b),
        words_value(a) == words_value(b),
    ensures
        a == b,
    decreases a.len(),
{
    if a.len() == 0 {
        if b.len() > 0 {
            lemma_canonical_positive(b);
        }
        assert(a =~= b);
    } else if b.len() == 0 {
        lemma_canonical_positive(a);
    } else {
        let (ta, tb) = (a.skip(1), b.skip(1));
        assert(a[0] == b[0] && words_value(ta) == words_value(tb)) by {
            lemma_split_unique(a[0], words_value(ta), b[0], words_value(tb));
        }
        assert(is_canonical(ta)) by {
            if ta.len() > 0 {
                assert(ta.last() == a.last());
            }
        }
        assert(is_canonical(tb)) by {
            if tb.len() > 0 {
                assert(tb.last() == b.last());
            }
        }
        lemma_canonical_unique(ta, tb);
        assert(a =~= seq![a[0]] + ta);
        assert(b =~= seq![b[0]] + tb);
    }
}

/// A number splits in one way only into a low word and the rest.
proof fn lemma_split_unique(low_a: u64, high_a: nat, low_b: u64, high_b: nat)
    requires
        low_a + radix() * high_a == low_b + radix() * high_b,
    ensures
        low_a == low_b,
        high_a == high_b,
{
}

/// Two magnitudes have the same stripped form exactly when they denote the
/// same number.
pub proof fn lemma_stripped_eq_iff_value_eq(a: Seq<u64>, b: Seq<u64>)
    ensures
        stripped(a) == stripped(b) <==> words_value(a) == words_value(b),
{
    lemma_stripped_value(a);
    lemma_stripped_value(b);
    lemma_stripped_shape(a);
    lemma_stripped_shape(b);
    if words_value(a) == words_value(b) {
        lemma_canonical_unique(stripped(a), stripped(b));
    }
}

/// Two magnitudes of one length with the same stripped form are equal.
pub proof fn lemma_same_len_stripped(a: Seq<u64>, b: Seq<u64>)
    requires
        a.len() == b.len(),
        stripped(a) == stripped(b),
    ensures
        a == b,
{
    lemma_stripped_shape(a);
    lemma_stripped_shape(b);
    let n = stripped(a).len() as int;
    assert forall|i: int| 0 <= i < a.len() implies a[i] == b[i] by {
        if i < n {
            assert(a[i] == a.take(n)[i]);
            assert(b[i] == b.take(n)[i]);
        }
    }
    assert(a =~= b);
}

/// `words_of` yields as many words as it is asked for.
pub proof fn lemma_words_of_len(value: nat, len: nat)
    ensures
        words_of(value, len).len() == len,
    decreases len,
{
    if len > 0 {
        lemma_words_of_len(value / radix(), (len - 1) as nat);
    }
}

/// Zero words appended at the significant end add nothing to the value.
pub proof fn lemma_value_ignores_trailing_zeros(words: Seq<u64>, extra: nat)
    ensures
        words_value(words + zeros(extra)) == words_value(words),
{
    lemma_stripped_ignores_trailing_zeros(words, extra);
    lemma_stripped_eq_iff_value_eq(words + zeros(extra), words);
}

/// Removes the trailing zero words of a magnitude: the result ends just
/// past the most significant word that is not zero, and is empty where
/// every word is zero.
pub fn strip_trailing_zeros(v: &[u64]) -> (r: &[u64])
    ensures
        r@ == stripped(v@),
        r@.len() <= v@.len(),
        r@ == v@.take(r@.len() as int),
        r@.len() == 0 || r@.last() != 0,
        forall|i: int| r@.len() <= i < v@.len() ==> v@[i] == 0,
{
    proof {
        lemma_stripped_shape(v@);
    }
    let mut n: usize = v.len();
    assert(v@.take(n as int) =~= v@);
    while n > 0 && v[n - 1] == 0
        invariant
            n <= v.len(),
            stripped(v@) == stripped(v@.take(n as int)),
        decreases n,
    {
        proof {
            let cur = v@.take(n as int);
            assert(cur.last() == 0);
            assert(cur.drop_last() =~= v@.take(n - 1));
        }
        n -= 1;
    }
    proof {
        let cur = v@.take(n as int);
        assert(is_canonical(cur));
        assert(cur =~= v@.subrange(0, n as int));
    }
    slice_subrange(v, 0, n)
}

/// Whether two slices hold the same words.
fn same_words(a: &[u64], b: &[u64]) -> (r: bool)
    ensures
        r == (a@ == b@),
{
    if a.len() != b.len() {
        return false;
    }
    let mut i: usize = 0;
    while i < a.len()
        invariant
            i <= a.len(),
            a.len() == b.len(),
            a@.take(i as int) == b@.take(i as int),
        decreases a.len() - i,
    {
        if a[i] != b[i] {
            return false;
        }
        proof {
            assert(a@.take(i + 1) =~= a@.take(i as int).push(a@[i as int]));
            assert(b@.take(i + 1) =~= b@.take(i as int).push(b@[i as int]));
        }
        i += 1;
    }
    proof {
        assert(a@.take(a@.len() as int) =~= a@);
        assert(b@.take(b@.len() as int) =~= b@);
    }
    true
}

/// Whether two magnitudes are equal once their trailing zero words are
/// stripped, that is, whether they denote the same number.
pub fn eq(a: &[u64], b: &[u64]) -> (r: bool)
    ensures
        r == (stripped(a@) == stripped(b@)),
        r == (words_value(a@) == words_value(b@)),
{
    proof {
        lemma_stripped_eq_iff_value_eq(a@, b@);
    }
    if a.len() == b.len() {
        proof {
            if stripped(a@) == stripped(b@) {
                lemma_same_len_stripped(a@, b@);
            }
        }
        same_words(a, b)
    } else {
        same_words(strip_trailing_zeros(a), strip_trailing_zeros(b))
    }
}

} // verus!
