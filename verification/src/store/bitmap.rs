//! Bit-packed boolean storage: one bit per slot, backed by whole words.
//! Serves as the occupation table of the row stores (the single source of
//! truth for whether a row's storage holds data or a freelist link) and as
//! the backing of bit-packed columns, where accessors compute a word index
//! and a bit offset instead of taking a whole-row reference.  In a
//! concurrent deployment these accessors map to atomic load, store, set
//! and clear operations on the backing words.

use vstd::prelude::*;

use crate::index::Length;

verus! {

/// Bit `k` of word `w`.
pub open spec fn word_bit(w: u64, k: u64) -> bool {
    (w >> k) & 1 == 1
}

/// Bit `i` of a word array.
pub open spec fn seq_bit(words: Seq<u64>, i: int) -> bool {
    word_bit(words[i / 64], (i % 64) as u64)
}

/// How many words hold `len` bits.
pub open spec fn word_count(len: int) -> int {
    (len + 63) / 64
}

/// Setting bit `k` of a word sets exactly that bit.
proof fn lemma_word_set(w: u64, k: u64, j: u64)
    requires
        k < 64,
        j < 64,
    ensures
        word_bit(w | (1u64 << k), j) == (j == k || word_bit(w, j)),
{
    assert(((w | (1u64 << k)) >> j) & 1 == (if j == k {
        1u64
    } else {
        (w >> j) & 1
    })) by (bit_vector)
        requires
            k < 64,
            j < 64,
    ;
}

/// Clearing bit `k` of a word clears exactly that bit.
proof fn lemma_word_clear(w: u64, k: u64, j: u64)
    requires
        k < 64,
        j < 64,
    ensures
        word_bit(w & !(1u64 << k), j) == (j != k && word_bit(w, j)),
{
    assert(((w & !(1u64 << k)) >> j) & 1 == (if j == k {
        0u64
    } else {
        (w >> j) & 1
    })) by (bit_vector)
        requires
            k < 64,
            j < 64,
    ;
}

/// No bit of the zero word is set.
proof fn lemma_word_zero(j: u64)
    requires
        j < 64,
    ensures
        !word_bit(0u64, j),
{
    assert((0u64 >> j) & 1 == 0) by (bit_vector);
}

/// `len` bits fit in `word_count(len)` words.
proof fn lemma_word_count_covers(len: int)
    requires
        len >= 0,
    ensures
        word_count(len) >= 0,
        len <= word_count(len) * 64,
{
    assert(len + 63 == 64 * ((len + 63) / 64) + (len + 63) % 64);
}

/// The word a bit lies in, and the bounds that places on the bit.
proof fn lemma_bit_word(i: int, wlen: int)
    requires
        0 <= i,
    ensures
        i == 64 * (i / 64) + i % 64,
        0 <= i % 64 < 64,
        i < wlen * 64 ==> i / 64 < wlen,
        i / 64 < wlen ==> i < wlen * 64,
{
}

/// A bitmap of `len()` bits, one per slot.
pub struct BitMap {
    words: Vec<u64>,
    len: Length,
}

impl BitMap {
    /// The bits, in slot order.
    pub closed spec fn bits(&self) -> Seq<bool> {
        Seq::new(self.len as nat, (|i: int| seq_bit(self.words@, i)))
    }

    /// How many bits the map holds.
    pub closed spec fn spec_len(&self) -> nat {
        self.len as nat
    }

    /// Internal well-formedness: the word array covers the bit range, and
    /// bits beyond `len` are clear, so growth exposes only clear bits.
    pub closed spec fn wf(&self) -> bool {
        &&& self.words@.len() == word_count(self.len as int)
        &&& forall|i: int|
            self.len <= i < self.words@.len() * 64 ==> !seq_bit(self.words@, i)
    }

    /// The bit table covers exactly the map's length.
    pub proof fn view_props(&self)
        ensures
            self.bits().len() == self.spec_len(),
    {
    }

    /// A map of `len` bits, all clear.
    pub fn new(len: Length) -> (r: Self)
        ensures
            r.wf(),
            r.spec_len() == len,
            r.bits() == Seq::new(len as nat, (|i: int| false)),
    {
        let count64 = (len as u64 + 63) / 64;
        let count = count64 as usize;
        let words = vec![0u64; count];
        let r = BitMap { words, len };
        proof {
            assert forall|i: int| 0 <= i < count * 64 implies !seq_bit(r.words@, i) by {
                lemma_word_zero((i % 64) as u64);
            }
            assert(r.bits() =~= Seq::new(len as nat, (|i: int| false)));
        }
        r
    }

    /// How many bits the map holds.
    pub fn len(&self) -> (r: Length)
        ensures
            r == self.spec_len(),
    {
        self.len
    }

    /// Reads bit `i`.
    pub fn load(&self, i: Length) -> (r: bool)
        requires
            self.wf(),
            i < self.spec_len(),
        ensures
            r == self.bits()[i as int],
    {
        let word = self.words[(i / 64) as usize];
        (word >> ((i % 64) as u64)) & 1 == 1
    }

    /// Sets bit `i`.
    pub fn set(&mut self, i: Length)
        requires
            old(self).wf(),
            i < old(self).spec_len(),
        ensures
            final(self).wf(),
            final(self).spec_len() == old(self).spec_len(),
            final(self).bits() == old(self).bits().update(i as int, true),
    {
        let wi = (i / 64) as usize;
        let k = (i % 64) as u64;
        let word = self.words[wi];
        let updated = word | (1u64 << k);
        let target = vstd::std_specs::vec::vec_index_mut(&mut self.words, wi);
        *target = updated;
        proof {
            assert forall|j: int| 0 <= j < self.words@.len() * 64 implies seq_bit(self.words@, j)
                == (j == i || seq_bit(old(self).words@, j)) by {
                if j / 64 == i / 64 {
                    lemma_word_set(old(self).words@[i as int / 64], k, (j % 64) as u64);
                } else {
                    assert(self.words@[j / 64] == old(self).words@[j / 64]);
                }
            }
            assert(final(self).bits() =~= old(self).bits().update(i as int, true));
        }
    }

    /// Clears bit `i`.
    pub fn clear(&mut self, i: Length)
        requires
            old(self).wf(),
            i < old(self).spec_len(),
        ensures
            final(self).wf(),
            final(self).spec_len() == old(self).spec_len(),
            final(self).bits() == old(self).bits().update(i as int, false),
    {
        let wi = (i / 64) as usize;
        let k = (i % 64) as u64;
        let word = self.words[wi];
        let updated = word & !(1u64 << k);
        let target = vstd::std_specs::vec::vec_index_mut(&mut self.words, wi);
        *target = updated;
        proof {
            assert forall|j: int| 0 <= j < self.words@.len() * 64 implies seq_bit(self.words@, j)
                == (j != i && seq_bit(old(self).words@, j)) by {
                if j / 64 == i / 64 {
                    lemma_word_clear(old(self).words@[i as int / 64], k, (j % 64) as u64);
                } else {
                    assert(self.words@[j / 64] == old(self).words@[j / 64]);
                }
            }
            assert(final(self).bits() =~= old(self).bits().update(i as int, false));
        }
    }

    /// Writes bit `i`.
    pub fn store(&mut self, i: Length, value: bool)
        requires
            old(self).wf(),
            i < old(self).spec_len(),
        ensures
            final(self).wf(),
            final(self).spec_len() == old(self).spec_len(),
            final(self).bits() == old(self).bits().update(i as int, value),
    {
        if value {
            self.set(i);
        } else {
            self.clear(i);
        }
    }

    /// Grows the map to `new_len` bits; the old bits keep their values and
    /// every new bit is clear.
    pub fn grow(&mut self, new_len: Length)
        requires
            old(self).wf(),
            new_len >= old(self).spec_len(),
        ensures
            final(self).wf(),
            final(self).spec_len() == new_len,
            final(self).bits() == old(self).bits() + Seq::new(
                (new_len - old(self).spec_len()) as nat,
                (|i: int| false),
            ),
    {
        let count64 = (new_len as u64 + 63) / 64;
        let count = count64 as usize;
        while self.words.len() < count
            invariant
                old(self).wf(),
                count == word_count(new_len as int),
                self.words@.len() >= old(self).words@.len(),
                self.words@.len() <= count,
                self.len == old(self).len,
                forall|k: int|
                    0 <= k < old(self).words@.len() ==> self.words@[k] == old(self).words@[k],
                forall|k: int|
                    old(self).words@.len() <= k < self.words@.len() ==> self.words@[k] == 0,
            decreases count - self.words@.len(),
        {
            self.words.push(0u64);
        }
        self.len = new_len;
        proof {
            lemma_word_count_covers(old(self).len as int);
            lemma_word_count_covers(new_len as int);
            assert forall|i: int|
                new_len <= i < self.words@.len() * 64 implies !seq_bit(self.words@, i) by {
                lemma_bit_word(i, self.words@.len() as int);
                lemma_bit_word(i, old(self).words@.len() as int);
                if i / 64 < old(self).words@.len() {
                    assert(self.words@[i / 64] == old(self).words@[i / 64]);
                    assert(!seq_bit(old(self).words@, i));
                } else {
                    assert(self.words@[i / 64] == 0);
                    lemma_word_zero((i % 64) as u64);
                }
            }
            assert forall|i: int|
                0 <= i < old(self).len implies seq_bit(self.words@, i) == seq_bit(
                old(self).words@,
                i,
            ) by {
                lemma_bit_word(i, old(self).words@.len() as int);
                assert(self.words@[i / 64] == old(self).words@[i / 64]);
            }
            assert forall|i: int|
                old(self).len <= i < new_len implies !seq_bit(self.words@, i) by {
                lemma_bit_word(i, self.words@.len() as int);
                lemma_bit_word(i, old(self).words@.len() as int);
                if i / 64 < old(self).words@.len() {
                    assert(self.words@[i / 64] == old(self).words@[i / 64]);
                    assert(!seq_bit(old(self).words@, i));
                } else {
                    assert(self.words@[i / 64] == 0);
                    lemma_word_zero((i % 64) as u64);
                }
            }
            assert(final(self).bits() =~= old(self).bits() + Seq::new(
                (new_len - old(self).spec_len()) as nat,
                (|i: int| false),
            ));
        }
    }

    /// Clears every bit, keeping the length.
    pub fn clear_all(&mut self)
        requires
            old(self).wf(),
        ensures
            final(self).wf(),
            final(self).spec_len() == old(self).spec_len(),
            final(self).bits() == Seq::new(old(self).spec_len(), (|i: int| false)),
    {
        let count = self.words.len();
        self.words = vec![0u64; count];
        proof {
            assert forall|i: int| 0 <= i < count * 64 implies !seq_bit(self.words@, i) by {
                lemma_word_zero((i % 64) as u64);
            }
            assert(final(self).bits() =~= Seq::new(old(self).spec_len(), (|i: int| false)));
        }
    }
}

} // verus!
