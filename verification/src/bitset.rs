//! A fixed-capacity set of bits, packed into 64-bit words.

use vstd::prelude::*;

verus! {

/// Whether bit `k` of a word is set.
pub open spec fn word_bit(w: u64, k: u64) -> bool {
    w & (1u64 << k) != 0
}

proof fn lemma_zero_word(k: u64)
    requires
        k < 64,
    ensures
        !word_bit(0u64, k),
{
    assert(0u64 & (1u64 << k) == 0) by (bit_vector);
}

proof fn lemma_or_bit(w: u64, k: u64, j: u64)
    requires
        k < 64,
        j < 64,
    ensures
        word_bit(w | (1u64 << k), j) == (word_bit(w, j) || j == k),
        word_bit(w | (0u64 << k), j) == word_bit(w, j),
{
    assert(((w | (1u64 << k)) & (1u64 << j) != 0) == ((w & (1u64 << j) != 0) || j == k)) by (bit_vector)
        requires
            k < 64,
            j < 64,
    ;
    assert(w | (0u64 << k) == w) by (bit_vector);
}

/// A set of bits with a capacity fixed at creation.
pub struct BitSet {
    pub data: Vec<u64>,
}

impl View for BitSet {
    type V = Seq<bool>;

    /// One flag per bit, over the whole capacity.
    open spec fn view(&self) -> Seq<bool> {
        Seq::new((self.data@.len() * 64) as nat, |i: int| word_bit(self.data@[i / 64], (i % 64) as u64))
    }
}

impl BitSet {
    /// A set with room for at least `size` bits, none of them set. The
    /// capacity is `size` rounded up to a whole number of words.
    pub fn new(size: usize) -> (r: Self)
        ensures
            r@.len() >= size,
            r@.len() == 64 * ((size + 63) / 64),
            forall|i: int| 0 <= i < r@.len() ==> !r@[i],
    {
        let words: usize = if size % 64 == 0 {
            size / 64
        } else {
            size / 64 + 1
        };
        let r = Self { data: vec![0u64; words] };
        proof {
            assert forall|i: int| 0 <= i < r@.len() implies !r@[i] by {
                lemma_zero_word((i % 64) as u64);
            }
        }
        r
    }

    /// Whether bit `index` is set.
    pub fn get(&self, index: usize) -> (r: bool)
        requires
            index < self@.len(),
        ensures
            r == self@[index as int],
    {
        let k: u64 = (index % 64) as u64;
        (self.data[index / 64] & (1u64 << k)) != 0
    }

    /// Sets bit `index`, leaving every other bit as it was.
    pub fn set(&mut self, index: usize)
        requires
            index < old(self)@.len(),
        ensures
            final(self)@ == old(self)@.update(index as int, true),
    {
        self.set_if(index, true);
    }

    /// Sets bit `index` when `flag` holds; a bit that is set stays set.
    pub fn set_if(&mut self, index: usize, flag: bool)
        requires
            index < old(self)@.len(),
        ensures
            final(self)@ == old(self)@.update(index as int, old(self)@[index as int] || flag),
    {
        let k: u64 = (index % 64) as u64;
        let bit: u64 = if flag { 1 } else { 0 };
        let word = self.data[index / 64];
        let updated = word | (bit << k);
        self.data[index / 64] = updated;
        proof {
            assert forall|i: int| 0 <= i < old(self)@.len() implies self@[i] == old(self)@.update(
                index as int,
                old(self)@[index as int] || flag,
            )[i] by {
                if i / 64 == index as int / 64 {
                    lemma_or_bit(word, k, (i % 64) as u64);
                }
            }
            assert(self@ =~= old(self)@.update(index as int, old(self)@[index as int] || flag));
        }
    }
}

} // verus!
