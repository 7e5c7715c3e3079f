//! The integer type: construction, access to either representation,
//! copying, equality and rendering.

use crate::decimal::{decimal, decimal_string};
use crate::repr::{Repr, INLINE_MAX};
use crate::words::{lemma_stripped_eq_iff_value_eq, lemma_value_of_one_word, zeros};
use vstd::prelude::*;
use vstd::std_specs::cmp::PartialEqSpecImpl;
use vstd::std_specs::convert::FromSpecImpl;

verus! {

/// A word that fits the inline range.
#[derive(Clone, Copy, Debug)]
struct InlineWord {
    value: u64,
}

impl InlineWord {
    #[verifier::type_invariant]
    spec fn fits(self) -> bool {
        self.value <= INLINE_MAX
    }
}

/// Where the value lives. The variant is the only thing that tells the
/// two representations apart.
#[derive(Debug)]
enum Slot {
    Inline(InlineWord),
    Heap(Vec<u64>),
}

/// An arbitrary-precision unsigned integer. A value of at most
/// `INLINE_MAX` needs no allocation; anything else lives in a heap buffer
/// of 64-bit words, least significant first, that the integer owns alone.
///
/// The price of telling the representations apart by an enum rather than
/// by a stolen bit of a pointer is a few bytes per value. The buffer is a
/// `Vec`, which keeps its own length and capacity: no word of the buffer
/// is set aside for them, and the buffer is freed when the integer is
/// dropped.
#[derive(Debug)]
pub struct BigUint {
    slot: Slot,
}

impl View for BigUint {
    type V = Repr;

    closed spec fn view(&self) -> Repr {
        match self.slot {
            Slot::Inline(word) => Repr::Inline(word.value),
            Slot::Heap(buffer) => Repr::Heap(buffer@),
        }
    }
}

impl BigUint {
    /// Creates a `BigUint` from the words in the provided slice, least
    /// significant word first: 2^128 is `[0, 0, 1]`. The result is always
    /// on the heap, also where the value would fit inline.
    pub fn from_slice(v: &[u64]) -> (r: Self)
        ensures
            r@ == Repr::Heap(v@),
    {
        let mut result = Self::with_capacity(v.len());
        let words = result.heap_value_mut().unwrap();
        let mut i: usize = 0;
        while i < v.len()
            invariant
                i <= v.len(),
                words@.len() == v@.len(),
                words@.take(i as int) == v@.take(i as int),
            decreases v.len() - i,
        {
            words[i] = v[i];
            assert(words@.take(i + 1) =~= v@.take(i + 1));
            i += 1;
        }
        assert(words@ =~= words@.take(v@.len() as int) && v@ =~= v@.take(v@.len() as int));
        result
    }

    /// Creates a `BigUint` with `n` zero words on the heap.
    pub fn with_capacity(n: usize) -> (r: Self)
        ensures
            r@ == Repr::Heap(zeros(n as nat)),
    {
        let buffer: Vec<u64> = vec![0; n];
        assert(buffer@ =~= zeros(n as nat));
        Self::from_storage(buffer)
    }

    /// Whether the value is stored inline.
    pub fn is_inline(&self) -> (r: bool)
        ensures
            r == (self@ is Inline),
    {
        match &self.slot {
            Slot::Inline(_) => true,
            Slot::Heap(_) => false,
        }
    }

    /// Whether the value is stored on the heap.
    pub fn is_heap(&self) -> (r: bool)
        ensures
            r == (self@ is Heap),
    {
        !self.is_inline()
    }

    /// The words of the heap buffer; `None` for an inline value.
    pub fn heap_value(&self) -> (r: Option<&[u64]>)
        ensures
            match self@ {
                Repr::Inline(_) => r is None,
                Repr::Heap(words) => r is Some && r->0@ == words,
            },
    {
        match &self.slot {
            Slot::Inline(_) => None,
            Slot::Heap(buffer) => Some(buffer.as_slice()),
        }
    }

    /// The words of the heap buffer, to be written in place; `None` for an
    /// inline value. Whatever is written, the value stays on the heap with
    /// as many words as before.
    pub fn heap_value_mut(&mut self) -> (r: Option<&mut [u64]>)
        ensures
            match old(self)@ {
                Repr::Inline(_) => r is None && final(self)@ == old(self)@,
                Repr::Heap(words) => r is Some && r->0@ == words && final(self)@ == Repr::Heap(
                    final(r->0)@,
                ),
            },
    {
        match &mut self.slot {
            Slot::Inline(_) => None,
            Slot::Heap(buffer) => Some(buffer.as_mut_slice()),
        }
    }

    /// The value, if it is stored inline; `None` for a heap value.
    pub fn inline_val(&self) -> (r: Option<u64>)
        ensures
            self@.wf(),
            match self@ {
                Repr::Inline(value) => r == Some(value),
                Repr::Heap(_) => r is None,
            },
    {
        match &self.slot {
            Slot::Inline(word) => {
                proof {
                    use_type_invariant(word);
                }
                Some(word.value)
            },
            Slot::Heap(_) => None,
        }
    }

    /// Takes the heap buffer out of a heap value; `None` for an inline
    /// value.
    pub fn into_storage(self) -> (r: Option<Vec<u64>>)
        ensures
            match self@ {
                Repr::Inline(_) => r is None,
                Repr::Heap(words) => r is Some && r->0@ == words,
            },
    {
        match self.slot {
            Slot::Inline(_) => None,
            Slot::Heap(buffer) => Some(buffer),
        }
    }

    /// Makes a heap value that owns the given buffer.
    pub fn from_storage(vec: Vec<u64>) -> (r: Self)
        ensures
            r@ == Repr::Heap(vec@),
    {
        BigUint { slot: Slot::Heap(vec) }
    }

    /// The decimal digits of an inline value.
    pub fn to_string(&self) -> (r: String)
        requires
            self@ is Inline,
        ensures
            r@ == self@.rendering(),
            r@ == decimal(self@->Inline_0 as nat),
    {
        let value = self.inline_val().unwrap();
        proof {
            lemma_value_of_one_word(value);
        }
        decimal_string(value)
    }
}

impl Default for BigUint {
    /// Zero, stored inline.
    fn default() -> (r: Self)
        ensures
            r@ == Repr::Inline(0),
    {
        BigUint { slot: Slot::Inline(InlineWord { value: 0 }) }
    }
}

impl Clone for BigUint {
    /// A copy that shares nothing with the value it is made from: a heap
    /// value gets a buffer of its own.
    fn clone(&self) -> (r: Self)
        ensures
            r@ == self@,
    {
        match &self.slot {
            Slot::Inline(word) => BigUint { slot: Slot::Inline(*word) },
            Slot::Heap(buffer) => BigUint { slot: Slot::Heap(buffer.clone()) },
        }
    }
}

impl FromSpecImpl<u64> for BigUint {
    /// A heap value is known by its view only, so the conversion is
    /// specified by the `ensures` of `from` and not by a value here.
    open spec fn obeys_from_spec() -> bool {
        false
    }

    open spec fn from_spec(n: u64) -> Self {
        arbitrary()
    }
}

impl From<u64> for BigUint {
    /// A word becomes an inline value where it fits, else a heap buffer of
    /// that one word.
    fn from(n: u64) -> (r: Self)
        ensures
            r@ == Repr::of_word(n),
    {
        if n <= INLINE_MAX {
            BigUint { slot: Slot::Inline(InlineWord { value: n }) }
        } else {
            let mut x = Self::with_capacity(1);
            let words = x.heap_value_mut().unwrap();
            words[0] = n;
            assert(words@ =~= seq![n]);
            x
        }
    }
}

impl PartialEqSpecImpl for BigUint {
    open spec fn obeys_eq_spec() -> bool {
        true
    }

    open spec fn eq_spec(&self, other: &Self) -> bool {
        self@.equal(other@)
    }
}

impl PartialEq for BigUint {
    /// Two values are equal when they denote the same number, whichever
    /// way each is stored and however many zero words a buffer ends in.
    fn eq(&self, other: &Self) -> (r: bool) {
        proof {
            lemma_stripped_eq_iff_value_eq(self@.magnitude(), other@.magnitude());
        }
        match (self.inline_val(), other.inline_val()) {
            (Some(a), Some(b)) => {
                proof {
                    lemma_value_of_one_word(a);
                    lemma_value_of_one_word(b);
                }
                a == b
            },
            (Some(a), None) => {
                let one: [u64; 1] = [a];
                assert(one@ =~= seq![a]);
                crate::words::eq(one.as_slice(), other.heap_value().unwrap())
            },
            (None, Some(b)) => {
                let one: [u64; 1] = [b];
                assert(one@ =~= seq![b]);
                crate::words::eq(self.heap_value().unwrap(), one.as_slice())
            },
            (None, None) => crate::words::eq(
                self.heap_value().unwrap(),
                other.heap_value().unwrap(),
            ),
        }
    }
}

impl Eq for BigUint {

}

} // verus!
