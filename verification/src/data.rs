//! Generic data structures: a fixed-length bit vector packed into 64-bit
//! words.
//!
//! The kernel shares the bits across code paths by storing the words in
//! atomics; on a single hart the sequence of word values is the whole
//! story, so the model keeps plain words and a `Seq<bool>` view.

use vstd::prelude::*;

verus! {

/// Number of bits in one backing word.
pub const WORD_BITS: usize = 64;

/// Bit `j` of the word `w`, for `j < 64`.
pub open spec fn bit64(w: u64, j: u64) -> bool {
    (w >> j) & 1 == 1
}

/// A fixed length vector of packed bits. The bits are represented in
/// 64-bit words.
pub struct AtomicBitVec {
    /// Backing memory for the bits.
    inner: Vec<u64>,
    /// Length of the vector. This length is enforced even if more bits
    /// are allocated.
    length: usize,
}

/// `(w >> j) & 1` is a single bit: zero exactly when the bit is clear.
proof fn lemma_bit64_test(w: u64, j: u64)
    ensures
        ((w >> j) & 1 == 0) <==> !bit64(w, j),
{
    assert((w >> j) & 1 == 0 || (w >> j) & 1 == 1) by (bit_vector);
}

proof fn lemma_bit64_zero(j: u64)
    ensures
        !bit64(0, j),
{
    assert((0u64 >> j) & 1 == 0) by (bit_vector);
}

proof fn lemma_bit64_single(k: u64, j: u64)
    requires
        k < 64,
        j < 64,
    ensures
        bit64(1u64 << k, j) == (j == k),
{
    assert(((1u64 << k) >> j) & 1 == (if j == k {
        1u64
    } else {
        0u64
    })) by (bit_vector)
        requires
            k < 64,
            j < 64,
    ;
}

proof fn lemma_bit64_or(w: u64, m: u64, j: u64)
    requires
        j < 64,
    ensures
        bit64(w | m, j) == (bit64(w, j) || bit64(m, j)),
{
    assert(((w | m) >> j) & 1 == (((w >> j) & 1) | ((m >> j) & 1))) by (bit_vector);
    assert(((w >> j) & 1) | ((m >> j) & 1) == (if ((w >> j) & 1 == 1) || ((m >> j) & 1 == 1) {
        1u64
    } else {
        0u64
    })) by (bit_vector);
}

proof fn lemma_bit64_and_not(w: u64, m: u64, j: u64)
    requires
        j < 64,
    ensures
        bit64(w & !m, j) == (bit64(w, j) && !bit64(m, j)),
{
    assert(((w & !m) >> j) & 1 == (if ((w >> j) & 1 == 1) && !((m >> j) & 1 == 1) {
        1u64
    } else {
        0u64
    })) by (bit_vector);
}

/// Every index below `length` splits uniquely into a word index and a bit
/// offset.
proof fn lemma_word_split(index: int, length: int, words: int)
    requires
        0 <= index < length,
        words == (length + 63) / 64,
    ensures
        0 <= index / 64 < words,
        0 <= index % 64 < 64,
        index == 64 * (index / 64) + index % 64,
{
    assert(0 <= index / 64 < words && 0 <= index % 64 < 64 && index == 64 * (index / 64) + index
        % 64) by (nonlinear_arith)
        requires
            0 <= index < length,
            words == (length + 63) / 64,
    ;
}

/// Two indices with the same word index and bit offset are equal.
proof fn lemma_word_split_unique(a: int, b: int)
    requires
        0 <= a,
        0 <= b,
        a / 64 == b / 64,
        a % 64 == b % 64,
    ensures
        a == b,
{
    assert(a == 64 * (a / 64) + a % 64 && b == 64 * (b / 64) + b % 64) by (nonlinear_arith)
        requires
            0 <= a,
            0 <= b,
    ;
}

impl View for AtomicBitVec {
    type V = Seq<bool>;

    closed spec fn view(&self) -> Seq<bool> {
        Seq::new(self.length as nat, |i: int| bit64(self.inner@[i / 64], (i % 64) as u64))
    }
}

impl AtomicBitVec {
    /// The view never holds more entries than a length field can count.
    pub proof fn lemma_len_bound(&self)
        ensures
            self@.len() <= usize::MAX,
    {
    }

    /// Well-formed: the backing words cover exactly the stored length, and
    /// every bit past the length is clear.
    pub closed spec fn wf(&self) -> bool {
        &&& self.inner@.len() == (self.length + 63) / 64
        &&& forall|i: int|
            self.length <= i < 64 * self.inner@.len() ==> !bit64(
                #[trigger] self.inner@[i / 64],
                (i % 64) as u64,
            )
    }

    /// Creates a new bit vec storing `size` bits, all clear.
    pub fn new_in(size: usize) -> (r: Self)
        requires
            size <= usize::MAX - 63,
        ensures
            r.wf(),
            r@.len() == size,
            forall|i: int| 0 <= i < size ==> !r@[i],
    {
        let num_elems = (size + 63) / 64;
        let mut inner: Vec<u64> = Vec::new();
        while inner.len() < num_elems
            invariant
                inner@.len() <= num_elems,
                forall|k: int| 0 <= k < inner@.len() ==> inner@[k] == 0u64,
            decreases num_elems - inner@.len(),
        {
            inner.push(0);
        }
        let r = Self { inner, length: size };
        proof {
            assert forall|i: int| 0 <= i < 64 * r.inner@.len() implies !bit64(
                #[trigger] r.inner@[i / 64],
                (i % 64) as u64,
            ) by {
                assert(0 <= i / 64 < r.inner@.len() && 0 <= i % 64 < 64) by (nonlinear_arith)
                    requires
                        0 <= i < 64 * r.inner@.len(),
                ;
                lemma_bit64_zero((i % 64) as u64);
            }
        }
        r
    }

    /// Obtains the bit corresponding to `index`, or `None` if the index is
    /// out of bounds.
    pub fn get(&self, index: usize) -> (r: Option<bool>)
        requires
            self.wf(),
        ensures
            r == if index < self@.len() {
                Some(self@[index as int])
            } else {
                None::<bool>
            },
    {
        if index >= self.length {
            return None;
        }
        proof {
            lemma_word_split(index as int, self.length as int, self.inner@.len() as int);
        }
        let packed = self.inner[index / 64];
        Some((packed >> ((index % 64) as u64)) & 1 == 1)
    }

    /// Sets the bit corresponding to `index`, or `None` if the index is
    /// out of bounds. Returns the new value at `index`, if it was set.
    pub fn set(&mut self, index: usize, val: bool) -> (r: Option<bool>)
        requires
            old(self).wf(),
        ensures
            final(self).wf(),
            final(self)@.len() == old(self)@.len(),
            r == if index < old(self)@.len() {
                Some(val)
            } else {
                None::<bool>
            },
            index < old(self)@.len() ==> final(self)@ == old(self)@.update(index as int, val),
            index >= old(self)@.len() ==> *final(self) == *old(self),
    {
        if index >= self.length {
            return None;
        }
        proof {
            lemma_word_split(index as int, self.length as int, self.inner@.len() as int);
        }
        let word_index = index / 64;
        let offset = (index % 64) as u64;
        let packed = self.inner[word_index];
        let updated = if val {
            packed | (1u64 << offset)
        } else {
            packed & !(1u64 << offset)
        };
        proof {
            assert forall|j: u64| j < 64 implies #[trigger] bit64(updated, j) == (if j == offset {
                val
            } else {
                bit64(packed, j)
            }) by {
                lemma_bit64_single(offset, j);
                if val {
                    lemma_bit64_or(packed, 1u64 << offset, j);
                } else {
                    lemma_bit64_and_not(packed, 1u64 << offset, j);
                }
            }
        }
        self.inner.set(word_index, updated);
        proof {
            self.lemma_after_word_update(*old(self), index as int, val);
        }
        Some(val)
    }

    /// After replacing the word holding `index` so that only the bit of
    /// `index` changed, the view changed at `index` alone and the trailing
    /// bits stayed clear.
    proof fn lemma_after_word_update(&self, prior: Self, index: int, val: bool)
        requires
            prior.wf(),
            0 <= index < prior.length,
            self.length == prior.length,
            self.inner@.len() == prior.inner@.len(),
            forall|k: int|
                0 <= k < prior.inner@.len() && k != index / 64 ==> self.inner@[k]
                    == prior.inner@[k],
            forall|j: u64|
                j < 64 ==> #[trigger] bit64(self.inner@[index / 64], j) == if j == (index
                    % 64) as u64 {
                    val
                } else {
                    bit64(prior.inner@[index / 64], j)
                },
        ensures
            self.wf(),
            self@ == prior@.update(index, val),
    {
        assert forall|i: int| 0 <= i < 64 * self.inner@.len() implies (bit64(
            #[trigger] self.inner@[i / 64],
            (i % 64) as u64,
        ) == if i == index {
            val
        } else {
            bit64(prior.inner@[i / 64], (i % 64) as u64)
        }) by {
            assert(0 <= i / 64 < self.inner@.len() && 0 <= i % 64 < 64) by (nonlinear_arith)
                requires
                    0 <= i < 64 * self.inner@.len(),
            ;
            lemma_word_split(index, self.length as int, self.inner@.len() as int);
            if i / 64 == index / 64 && i % 64 == index % 64 {
                lemma_word_split_unique(i, index);
            }
        }
        assert forall|i: int| self.length <= i < 64 * self.inner@.len() implies !bit64(
            #[trigger] self.inner@[i / 64],
            (i % 64) as u64,
        ) by {}
        assert(self@ =~= prior@.update(index, val));
    }

    /// Finds the first clear bit in the bit vec, or `None` if the entire
    /// bit vec is set.
    pub fn _find_false(&self) -> (r: Option<usize>)
        requires
            self.wf(),
        ensures
            match r {
                Some(i) => i < self@.len() && !self@[i as int] && forall|j: int|
                    0 <= j < i ==> self@[j],
                None => forall|j: int| 0 <= j < self@.len() ==> self@[j],
            },
    {
        let num_words = self.inner.len();
        let mut word_index: usize = 0;
        while word_index < num_words
            invariant
                self.wf(),
                word_index <= num_words,
                num_words == self.inner@.len(),
                forall|j: int| 0 <= j < self@.len() && j < 64 * word_index ==> self@[j],
            decreases num_words - word_index,
        {
            let packed = self.inner[word_index];
            let mut offset: usize = 0;
            while offset < 64
                invariant
                    self.wf(),
                    word_index < self.inner@.len(),
                    packed == self.inner@[word_index as int],
                    offset <= 64,
                    forall|j: u64| j < offset ==> #[trigger] bit64(packed, j),
                    forall|j: int| 0 <= j < self@.len() && j < 64 * word_index ==> self@[j],
                decreases 64 - offset,
            {
                proof {
                    lemma_bit64_test(packed, offset as u64);
                }
                if (packed >> (offset as u64)) & 1 == 0 {
                    let found = word_index * 64 + offset;
                    proof {
                        assert(found / 64 == word_index && found % 64 == offset)
                            by (nonlinear_arith)
                            requires
                                found == word_index * 64 + offset,
                                offset < 64,
                        ;
                        assert forall|j: int| 0 <= j < self@.len() && j < found implies self@[j] by {
                            if j >= 64 * word_index {
                                assert(j / 64 == word_index && j % 64 == j - 64 * word_index)
                                    by (nonlinear_arith)
                                    requires
                                        64 * word_index <= j < found,
                                        found == word_index * 64 + offset,
                                        offset < 64,
                                ;
                            }
                        }
                    }
                    if found < self.length {
                        return Some(found);
                    } else {
                        // Trailing bits past the length are always clear:
                        // every real bit is set.
                        return None;
                    }
                }
                offset += 1;
            }
            proof {
                assert forall|j: int|
                    0 <= j < self@.len() && j < 64 * (word_index + 1) implies self@[j] by {
                    if j >= 64 * word_index {
                        assert(j / 64 == word_index && 0 <= j % 64 < 64) by (nonlinear_arith)
                            requires
                                64 * word_index <= j < 64 * (word_index + 1),
                        ;
                    }
                }
            }
            word_index += 1;
        }
        proof {
            assert forall|j: int| 0 <= j < self@.len() implies self@[j] by {
                assert(j < 64 * num_words) by (nonlinear_arith)
                    requires
                        0 <= j < self.length,
                        num_words == (self.length + 63) / 64,
                ;
            }
        }
        None
    }

    /// A word whose bits `lo..=hi` are set and all others are clear.
    fn mask_range(lo: u64, hi: u64) -> (m: u64)
        requires
            lo <= hi < 64,
        ensures
            forall|j: u64| j < 64 ==> #[trigger] bit64(m, j) == (lo <= j <= hi),
    {
        let mut m: u64 = 0;
        let mut o: u64 = lo;
        proof {
            assert forall|j: u64| j < 64 implies !bit64(0u64, j) by {
                lemma_bit64_zero(j);
            }
        }
        while o <= hi
            invariant
                lo <= o <= hi + 1,
                hi < 64,
                forall|j: u64| j < 64 ==> #[trigger] bit64(m, j) == (lo <= j < o),
            decreases hi + 1 - o,
        {
            let updated = m | (1u64 << o);
            proof {
                assert forall|j: u64| j < 64 implies bit64(updated, j) == (lo <= j < o + 1) by {
                    lemma_bit64_or(m, 1u64 << o, j);
                    lemma_bit64_single(o, j);
                }
            }
            m = updated;
            o += 1;
        }
        m
    }

    /// Sets all indices from `lo_index` to `hi_index` (inclusive) to
    /// `val`, returning the number of bits written, or `None` if the range
    /// is reversed or reaches out of bounds.
    pub fn _bulk_write(&mut self, lo_index: usize, hi_index: usize, val: bool) -> (r: Option<
        usize,
    >)
        requires
            old(self).wf(),
        ensures
            final(self).wf(),
            final(self)@.len() == old(self)@.len(),
            r == if lo_index <= hi_index < old(self)@.len() {
                Some((hi_index - lo_index + 1) as usize)
            } else {
                None::<usize>
            },
            lo_index <= hi_index < old(self)@.len() ==> final(self)@ == Seq::new(
                old(self)@.len(),
                |i: int|
                    if lo_index <= i <= hi_index {
                        val
                    } else {
                        old(self)@[i]
                    },
            ),
            !(lo_index <= hi_index < old(self)@.len()) ==> *final(self) == *old(self),
    {
        if lo_index > hi_index || hi_index >= self.length {
            return None;
        }
        let ghost prior = *self;
        let lo_word = lo_index / 64;
        let hi_word = hi_index / 64;
        proof {
            lemma_word_split(lo_index as int, self.length as int, self.inner@.len() as int);
            lemma_word_split(hi_index as int, self.length as int, self.inner@.len() as int);
            assert(lo_word <= hi_word) by (nonlinear_arith)
                requires
                    lo_index <= hi_index,
                    lo_word == lo_index / 64,
                    hi_word == hi_index / 64,
            ;
        }
        let mut word_index = lo_word;
        while word_index <= hi_word
            invariant
                self.length == prior.length,
                self.inner@.len() == prior.inner@.len(),
                prior.wf(),
                lo_index <= hi_index < self.length,
                lo_word == lo_index / 64,
                hi_word == hi_index / 64,
                lo_word <= word_index <= hi_word + 1,
                hi_word < self.inner@.len(),
                forall|k: int|
                    0 <= k < self.inner@.len() && !(lo_word <= k < word_index)
                        ==> self.inner@[k] == prior.inner@[k],
                forall|i: int|
                    0 <= i < 64 * self.inner@.len() && lo_word <= i / 64 < word_index ==> bit64(
                        #[trigger] self.inner@[i / 64],
                        (i % 64) as u64,
                    ) == if lo_index <= i <= hi_index {
                        val
                    } else {
                        bit64(prior.inner@[i / 64], (i % 64) as u64)
                    },
            decreases hi_word + 1 - word_index,
        {
            let lo_offset = if word_index == lo_word {
                (lo_index % 64) as u64
            } else {
                0
            };
            let hi_offset = if word_index == hi_word {
                (hi_index % 64) as u64
            } else {
                63
            };
            proof {
                if word_index < hi_word {
                    assert(lo_offset <= hi_offset) by (nonlinear_arith)
                        requires
                            lo_offset == if word_index == lo_word {
                                lo_index % 64
                            } else {
                                0
                            },
                            hi_offset == 63usize,
                            lo_index % 64 < 64,
                    ;
                } else {
                    assert(lo_offset <= hi_offset) by (nonlinear_arith)
                        requires
                            word_index == hi_word,
                            lo_word <= hi_word,
                            lo_index <= hi_index,
                            lo_word == lo_index / 64,
                            hi_word == hi_index / 64,
                            lo_offset == if word_index == lo_word {
                                lo_index % 64
                            } else {
                                0
                            },
                            hi_offset == hi_index % 64,
                    ;
                }
            }
            let mask = Self::mask_range(lo_offset, hi_offset);
            let packed = self.inner[word_index];
            let updated = if val {
                packed | mask
            } else {
                packed & !mask
            };
            proof {
                assert forall|j: u64| j < 64 implies bit64(updated, j) == if lo_offset <= j
                    <= hi_offset {
                    val
                } else {
                    bit64(packed, j)
                } by {
                    if val {
                        lemma_bit64_or(packed, mask, j);
                    } else {
                        lemma_bit64_and_not(packed, mask, j);
                    }
                }
            }
            self.inner.set(word_index, updated);
            proof {
                assert forall|i: int|
                    0 <= i < 64 * self.inner@.len() && i / 64 == word_index implies (bit64(
                    #[trigger] self.inner@[i / 64],
                    (i % 64) as u64,
                ) == if lo_index <= i <= hi_index {
                    val
                } else {
                    bit64(prior.inner@[i / 64], (i % 64) as u64)
                }) by {
                    assert(i == 64 * word_index + i % 64 && 0 <= i % 64 < 64) by (nonlinear_arith)
                        requires
                            0 <= i,
                            i / 64 == word_index,
                    ;
                    // The in-word range seen by this word covers exactly
                    // the indices lo_index..=hi_index that land in it.
                    assert((lo_offset <= (i % 64) as u64 <= hi_offset) == (lo_index <= i
                        <= hi_index)) by (nonlinear_arith)
                        requires
                            i == 64 * word_index + i % 64,
                            0 <= i % 64 < 64,
                            lo_word <= word_index <= hi_word,
                            lo_word == lo_index / 64,
                            hi_word == hi_index / 64,
                            lo_index == 64 * lo_word + lo_index % 64,
                            hi_index == 64 * hi_word + hi_index % 64,
                            0 <= lo_index % 64 < 64,
                            0 <= hi_index % 64 < 64,
                            lo_offset == if word_index == lo_word {
                                (lo_index % 64) as u64
                            } else {
                                0u64
                            },
                            hi_offset == if word_index == hi_word {
                                (hi_index % 64) as u64
                            } else {
                                63u64
                            },
                    ;
                }
            }
            word_index += 1;
        }
        proof {
            assert forall|i: int| 0 <= i < 64 * self.inner@.len() implies (bit64(
                #[trigger] self.inner@[i / 64],
                (i % 64) as u64,
            ) == if lo_index <= i <= hi_index {
                val
            } else {
                bit64(prior.inner@[i / 64], (i % 64) as u64)
            }) by {
                assert(0 <= i / 64 < self.inner@.len() && i == 64 * (i / 64) + i % 64 && 0 <= i
                    % 64 < 64) by (nonlinear_arith)
                    requires
                        0 <= i < 64 * self.inner@.len(),
                ;
                if !(lo_word <= i / 64 <= hi_word) {
                    assert(!(lo_index <= i <= hi_index)) by (nonlinear_arith)
                        requires
                            i == 64 * (i / 64) + i % 64,
                            0 <= i % 64 < 64,
                            !(lo_word <= i / 64 <= hi_word),
                            lo_index == 64 * lo_word + lo_index % 64,
                            hi_index == 64 * hi_word + hi_index % 64,
                            0 <= lo_index % 64 < 64,
                            0 <= hi_index % 64 < 64,
                    ;
                }
            }
            assert(self@ =~= Seq::new(
                prior@.len(),
                |i: int|
                    if lo_index <= i <= hi_index {
                        val
                    } else {
                        prior@[i]
                    },
            ));
        }
        Some(hi_index - lo_index + 1)
    }

    /// Returns the length of this bit vec.
    pub fn _len(&self) -> (r: usize)
        ensures
            r == self@.len(),
    {
        self.length
    }
}

} // verus!
