//! Arithmetic on words and magnitudes: the full product of two words and
//! ripple-carry addition of magnitudes.

use crate::biguint::BigUint;
use crate::repr::Repr;
use crate::words::{
    lemma_value_ignores_trailing_zeros, lemma_value_of_one_word, lemma_words_of_len, radix,
    words_of, words_value, zeros,
};
use core::ops::{Add, AddAssign, Mul};
use vstd::prelude::*;
use vstd::std_specs::ops::{AddSpecImpl, MulSpecImpl};

verus! {

/// The sum of two magnitudes, in one word more than the longer of them:
/// room for every word of both and for a final carry.
pub open spec fn sum_words(a: Seq<u64>, b: Seq<u64>) -> Seq<u64> {
    let len = if a.len() >= b.len() {
        a.len()
    } else {
        b.len()
    };
    words_of(words_value(a) + words_value(b), len + 1)
}

/// The value of a magnitude from word `from` upwards, counted from there;
/// zero past the end.
spec fn upper_value(words: Seq<u64>, from: int) -> nat {
    if 0 <= from < words.len() {
        words_value(words.skip(from))
    } else {
        0
    }
}

/// The word at position `at`, or zero past the end.
spec fn word_at(words: Seq<u64>, at: int) -> u64 {
    if 0 <= at < words.len() {
        words[at]
    } else {
        0
    }
}

/// The upper value splits into its lowest word and the upper value above it.
proof fn lemma_upper_value_step(words: Seq<u64>, from: int)
    requires
        0 <= from,
    ensures
        upper_value(words, from) == word_at(words, from) + radix() * upper_value(
            words,
            from + 1,
        ),
{
    if from < words.len() {
        let rest = words.skip(from);
        assert(rest.skip(1) =~= words.skip(from + 1));
        if from + 1 == words.len() {
            assert(words_value(rest.skip(1)) == 0);
        }
    }
}

/// One more word than the longer of two magnitudes holds their sum and a
/// carry of at most one.
proof fn lemma_sum_fits(a: Seq<u64>, b: Seq<u64>, carry: nat, len: nat)
    requires
        a.len() <= len,
        b.len() <= len,
        carry <= 1,
    ensures
        words_value(words_of(words_value(a) + words_value(b) + carry, len + 1)) == words_value(a)
            + words_value(b) + carry,
    decreases len,
{
    let total = words_value(a) + words_value(b) + carry;
    let low = seq![(total % radix()) as u64];
    let high = words_of(total / radix(), len);
    assert((low + high).skip(1) =~= high);
    if len == 0 {
        assert(words_value(high) == 0);
    } else {
        let ta = if a.len() > 0 { a.skip(1) } else { a };
        let tb = if b.len() > 0 { b.skip(1) } else { b };
        let digit = word_at(a, 0) + word_at(b, 0) + carry;
        assert(total == digit + radix() * (words_value(ta) + words_value(tb)));
        let up = (digit / radix() as int) as nat;
        assert(total / radix() == words_value(ta) + words_value(tb) + up);
        lemma_sum_fits(ta, tb, up, (len - 1) as nat);
    }
}

/// `sum_words` denotes the sum of the two values.
pub proof fn lemma_sum_words_value(a: Seq<u64>, b: Seq<u64>)
    ensures
        words_value(sum_words(a, b)) == words_value(a) + words_value(b),
        sum_words(a, b).len() == (if a.len() >= b.len() {
            a.len()
        } else {
            b.len()
        }) + 1,
{
    let len = if a.len() >= b.len() {
        a.len()
    } else {
        b.len()
    };
    lemma_sum_fits(a, b, 0, len);
    lemma_words_of_len(words_value(a) + words_value(b), len + 1);
}

/// The full product of two words as (low word, high word).
pub fn mul_with_carry(a: u64, b: u64) -> (r: (u64, u64))
    ensures
        r.0 + radix() * r.1 == a * b,
{
    assert(a * b <= 0xffff_ffff_ffff_ffff * 0xffff_ffff_ffff_ffff) by (nonlinear_arith)
        requires
            a <= 0xffff_ffff_ffff_ffff,
            b <= 0xffff_ffff_ffff_ffff,
    ;
    let c: u128 = a as u128 * b as u128;
    let low: u64 = #[verifier::truncate]
    (c as u64);
    let high: u64 = #[verifier::truncate]
    ((c >> 64) as u64);
    assert(low == c % 0x1_0000_0000_0000_0000 && high == c / 0x1_0000_0000_0000_0000)
        by (bit_vector)
        requires
            low == c as u64,
            high == (c >> 64) as u64,
    ;
    (low, high)
}

/// Adds the magnitude `b` to the magnitude `a` in place. `a` grows to one
/// word more than the longer of the two, and the carry ripples through
/// every word of it.
pub fn add_assign(a: &mut Vec<u64>, b: &[u64])
    ensures
        final(a)@ == sum_words(old(a)@, b@),
        words_value(final(a)@) == words_value(old(a)@) + words_value(b@),
{
    let ghost before = a@;
    let ghost total = words_value(before) + words_value(b@);
    let len: usize = if a.len() >= b.len() {
        a.len()
    } else {
        b.len()
    };
    a.resize(len, 0);
    a.push(0);
    let ghost padded = a@;
    let ghost sum = words_of(total, (len + 1) as nat);
    proof {
        assert(padded =~= before + zeros((len + 1 - before.len()) as nat));
        lemma_value_ignores_trailing_zeros(before, (len + 1 - before.len()) as nat);
        lemma_words_of_len(total, (len + 1) as nat);
        assert(padded.skip(0) =~= padded);
        assert(sum.skip(0) =~= sum);
        if b@.len() > 0 {
            assert(b@.skip(0) =~= b@);
        }
    }
    let mut carry: bool = false;
    let mut i: usize = 0;
    while i < len
        invariant
            i <= len,
            a.len() == len + 1,
            padded.len() == len + 1,
            sum.len() == len + 1,
            b@.len() <= len,
            padded[len as int] == 0,
            a@.skip(i as int) == padded.skip(i as int),
            a@.take(i as int) == sum.take(i as int),
            sum.skip(i as int) == words_of(
                upper_value(padded, i as int) + upper_value(b@, i as int) + (if carry {
                    1nat
                } else {
                    0nat
                }),
                (len + 1 - i) as nat,
            ),
        decreases len - i,
    {
        let x: u64 = a[i];
        let y: u64 = if i < b.len() {
            b[i]
        } else {
            0
        };
        let mut s: u64 = x.wrapping_add(y);
        if carry {
            s = s.wrapping_add(1);
        }
        let ghost carry_in: nat = if carry {
            1
        } else {
            0
        };
        // The wrapped sum is below an addend exactly when it overflowed;
        // with a carry coming in it may also come out equal to it.
        let carry_out: bool = s < y || (carry && s == y);
        proof {
            let digit = x + y + carry_in;
            let carry_up: nat = if carry_out {
                1
            } else {
                0
            };
            assert(a@.skip(i as int)[0] == padded.skip(i as int)[0]);
            assert(x == word_at(padded, i as int));
            assert(y == word_at(b@, i as int));
            assert(digit == s + radix() * carry_up);
            // What is left to add from here on has `s` as its lowest word
            // and passes the carry to the words above.
            lemma_upper_value_step(padded, i as int);
            lemma_upper_value_step(b@, i as int);
            let upper = upper_value(padded, i + 1) + upper_value(b@, i + 1);
            let here = upper_value(padded, i as int) + upper_value(b@, i as int) + carry_in;
            assert(here == s + radix() * (upper + carry_up));
            assert(here % radix() == s && here / radix() == upper + carry_up);
            let rest = words_of(here / radix(), (len - i) as nat);
            assert(sum.skip(i as int) == seq![s] + rest);
            assert(sum[i as int] == sum.skip(i as int)[0]);
            assert(sum.skip(i + 1) =~= sum.skip(i as int).skip(1));
            assert((seq![s] + rest).skip(1) =~= rest);
        }
        let ghost prev = a@;
        a[i] = s;
        carry = carry_out;
        proof {
            let (now, then) = (a@.skip(i + 1), padded.skip(i + 1));
            assert forall|j: int| 0 <= j < len - i implies #[trigger] now[j] == then[j] by {
                assert(prev.skip(i as int)[j + 1] == padded.skip(i as int)[j + 1]);
            }
            assert(a@.skip(i + 1) =~= padded.skip(i + 1));
            assert(a@.take(i + 1) =~= sum.take(i + 1));
        }
        i += 1;
    }
    // Both operands end below the extra word: only the carry is left for it.
    proof {
        let last = words_of(
            (if carry {
                1nat
            } else {
                0nat
            }),
            1,
        );
        assert(upper_value(padded, len as int) == 0) by {
            lemma_upper_value_step(padded, len as int);
        }
        assert(sum.skip(len as int) == last);
        assert(words_of(0, 0).len() == 0);
        assert(sum[len as int] == sum.skip(len as int)[0]);
        assert(a@[len as int] == a@.skip(len as int)[0]);
    }
    if carry {
        let top: u64 = a[len];
        a[len] = top.wrapping_add(1);
    }
    proof {
        assert(a@.take(len as int) =~= sum.take(len as int));
        assert(a@ =~= sum);
        lemma_sum_words_value(before, b@);
    }
}

impl AddSpecImpl for BigUint {
    /// A heap value is known by its view only, so the sum is specified by
    /// the `ensures` of `add` and not by a value here.
    open spec fn obeys_add_spec() -> bool {
        false
    }

    open spec fn add_req(self, rhs: BigUint) -> bool {
        true
    }

    open spec fn add_spec(self, rhs: BigUint) -> BigUint {
        arbitrary()
    }
}

impl Add for BigUint {
    type Output = BigUint;

    /// The sum of two values. Two inline values are added as words and the
    /// sum goes inline where it fits. With a heap operand, one operand's
    /// buffer is taken over, grown and added to in place.
    fn add(self, other: BigUint) -> (r: BigUint)
        ensures
            r@ == self@.plus(other@),
            r@.value() == self@.value() + other@.value(),
    {
        proof {
            lemma_sum_words_value(self@.magnitude(), other@.magnitude());
        }
        match (self.inline_val(), other.inline_val()) {
            (Some(a), Some(b)) => {
                proof {
                    lemma_value_of_one_word(a);
                    lemma_value_of_one_word(b);
                    lemma_value_of_one_word((a + b) as u64);
                }
                BigUint::from(a + b)
            },
            (None, None) => {
                let mut a = self.into_storage().unwrap();
                let b = other.heap_value().unwrap();
                self::add_assign(&mut a, b);
                BigUint::from_storage(a)
            },
            (Some(a), None) => {
                let mut b = other.into_storage().unwrap();
                let one: [u64; 1] = [a];
                assert(one@ =~= seq![a]);
                self::add_assign(&mut b, one.as_slice());
                BigUint::from_storage(b)
            },
            (None, Some(b)) => {
                let mut a = self.into_storage().unwrap();
                let one: [u64; 1] = [b];
                assert(one@ =~= seq![b]);
                self::add_assign(&mut a, one.as_slice());
                BigUint::from_storage(a)
            },
        }
    }
}

impl AddAssign for BigUint {
    /// Replaces the value by its sum with `other`.
    fn add_assign(&mut self, other: BigUint)
        ensures
            final(self)@ == old(self)@.plus(other@),
            final(self)@.value() == old(self)@.value() + other@.value(),
    {
        let mut taken = BigUint::default();
        core::mem::swap(self, &mut taken);
        *self = taken + other;
    }
}

impl MulSpecImpl for BigUint {
    /// A heap value is known by its view only, so the product is specified
    /// by the `ensures` of `mul` and not by a value here.
    open spec fn obeys_mul_spec() -> bool {
        false
    }

    /// Only inline values can be multiplied.
    open spec fn mul_req(self, rhs: BigUint) -> bool {
        self@ is Inline && rhs@ is Inline
    }

    open spec fn mul_spec(self, rhs: BigUint) -> BigUint {
        arbitrary()
    }
}

impl Mul for BigUint {
    type Output = BigUint;

    /// The product of two inline values: a word where it fits in one, else
    /// a heap buffer of its low and its high word.
    fn mul(self, other: BigUint) -> (r: BigUint)
        ensures
            r@ == Repr::of_product(self@->Inline_0, other@->Inline_0),
            r@.value() == self@.value() * other@.value(),
    {
        let a = self.inline_val().unwrap();
        let b = other.inline_val().unwrap();
        let (low, high) = mul_with_carry(a, b);
        proof {
            lemma_value_of_one_word(a);
            lemma_value_of_one_word(b);
            lemma_value_of_one_word(low);
            lemma_value_of_pair(low, high);
        }
        if high == 0 {
            BigUint::from(low)
        } else {
            let mut result = BigUint::with_capacity(2);
            let buf = result.heap_value_mut().unwrap();
            buf[0] = low;
            buf[1] = high;
            assert(buf@ =~= seq![low, high]);
            result
        }
    }
}

/// A magnitude of two words denotes the low word plus the high word times
/// the radix.
proof fn lemma_value_of_pair(low: u64, high: u64)
    ensures
        words_value(seq![low, high]) == low + radix() * high,
{
    assert(seq![low, high].skip(1) =~= seq![high]);
    lemma_value_of_one_word(high);
}

} // verus!
