use vstd::prelude::*;

verus! {

/// Number of machine words in one chunk: a 64-byte cache line of 8-byte words.
pub const WORDS_PER_CHUNK: usize = 8;

/// Number of bits held by one chunk: 64 bytes of 8 bits each.
pub const BITS_PER_CHUNK: usize = 512;

/// Word-wise bitwise complement of a chunk's words.
pub open spec fn negated_words(s: Seq<usize>) -> Seq<usize> {
    Seq::new(s.len(), |i: int| !s[i])
}

/// Word-wise XOR of two word sequences of equal length.
pub open spec fn xored_words(a: Seq<usize>, b: Seq<usize>) -> Seq<usize> {
    Seq::new(a.len(), |i: int| a[i] ^ b[i])
}

/// Every word of the sequence is zero.
pub open spec fn all_zero_words(s: Seq<usize>) -> bool {
    forall|i: int| 0 <= i < s.len() ==> s[i] == 0
}

/// Double negation is the identity on a chunk's words: complementing every
/// word twice restores the original bit pattern.
pub proof fn lemma_double_negation_words(s: Seq<usize>)
    ensures
        negated_words(negated_words(s)) == s,
{
    assert forall|i: int| 0 <= i < s.len() implies negated_words(negated_words(s))[i] == s[i] by {
        let w = s[i];
        assert(!(!w) == w) by (bit_vector);
    }
    assert(negated_words(negated_words(s)) =~= s);
}

/// XOR of a chunk's words with themselves zeroes every word.
pub proof fn lemma_self_xor_words(s: Seq<usize>)
    ensures
        all_zero_words(xored_words(s, s)),
{
    assert forall|i: int| 0 <= i < s.len() implies xored_words(s, s)[i] == 0 by {
        let w = s[i];
        assert(w ^ w == 0) by (bit_vector);
    }
}

/// Word-wise XOR is commutative over word sequences of equal length.
pub proof fn lemma_xor_commutes_words(a: Seq<usize>, b: Seq<usize>)
    requires
        a.len() == b.len(),
    ensures
        xored_words(a, b) == xored_words(b, a),
{
    assert forall|i: int| 0 <= i < a.len() implies xored_words(a, b)[i] == xored_words(b, a)[i] by {
        let x = a[i];
        let y = b[i];
        assert(x ^ y == y ^ x) by (bit_vector);
    }
    assert(xored_words(a, b) =~= xored_words(b, a));
}

/// One cache line's worth of bits, stored as a fixed-length array of machine
/// words. The atomic unit of storage and bitwise operation: never resized,
/// created all-zero, mutated in place.
pub struct AlignedChunk {
    chunk: [usize; WORDS_PER_CHUNK],
}

impl View for AlignedChunk {
    type V = Seq<usize>;

    closed spec fn view(&self) -> Seq<usize> {
        self.chunk@
    }
}

impl AlignedChunk {
    /// A chunk's word count is a structural constant: it is fixed at
    /// construction and never changes.
    pub proof fn lemma_word_count(&self)
        ensures
            self@.len() == WORDS_PER_CHUNK,
    {
    }

    /// A fresh chunk with every word zero.
    pub fn new() -> (c: Self)
        ensures
            c@.len() == WORDS_PER_CHUNK,
            all_zero_words(c@),
    {
        AlignedChunk { chunk: [0; WORDS_PER_CHUNK] }
    }

    /// Flips every bit in place: each word becomes its bitwise complement.
    pub fn negate(&mut self)
        ensures
            final(self)@ == negated_words(old(self)@),
    {
        let mut i: usize = 0;
        while i < WORDS_PER_CHUNK
            invariant
                i <= WORDS_PER_CHUNK,
                self@.len() == WORDS_PER_CHUNK,
                forall|j: int| 0 <= j < i ==> self@[j] == !old(self)@[j],
                forall|j: int| i <= j < WORDS_PER_CHUNK ==> self@[j] == old(self)@[j],
            decreases WORDS_PER_CHUNK - i,
        {
            self.chunk[i] = !self.chunk[i];
            i = i + 1;
        }
        assert(self@ =~= negated_words(old(self)@));
    }

    /// In-place, word-by-word XOR of the receiver with `other`. Both operands
    /// have the same word count by construction, so no size check is needed.
    pub fn xor(&mut self, other: &AlignedChunk)
        ensures
            final(self)@ == xored_words(old(self)@, other@),
    {
        let mut i: usize = 0;
        while i < WORDS_PER_CHUNK
            invariant
                i <= WORDS_PER_CHUNK,
                self@.len() == WORDS_PER_CHUNK,
                forall|j: int| 0 <= j < i ==> self@[j] == (old(self)@[j] ^ other@[j]),
                forall|j: int| i <= j < WORDS_PER_CHUNK ==> self@[j] == old(self)@[j],
            decreases WORDS_PER_CHUNK - i,
        {
            self.chunk[i] = self.chunk[i] ^ other.chunk[i];
            i = i + 1;
        }
        assert(self@ =~= xored_words(old(self)@, other@));
    }

    /// Overwrites the word at `idx`, leaving every other word unchanged.
    /// Passing an out-of-range index is a precondition violation, not a
    /// recoverable error.
    pub fn set_word(&mut self, idx: usize, w: usize)
        requires
            idx < WORDS_PER_CHUNK,
        ensures
            final(self)@ == old(self)@.update(idx as int, w),
    {
        self.chunk[idx] = w;
    }

    /// The word at `idx`. Passing an out-of-range index is a precondition
    /// violation, not a recoverable error.
    pub fn get(&self, idx: usize) -> (w: usize)
        requires
            idx < WORDS_PER_CHUNK,
        ensures
            w == self@[idx as int],
    {
        self.chunk[idx]
    }
}

/// Chunk-wise bitwise complement of a vector's chunks.
pub open spec fn negated_chunks(s: Seq<Seq<usize>>) -> Seq<Seq<usize>> {
    Seq::new(s.len(), |i: int| negated_words(s[i]))
}

/// Chunk-wise XOR of two vectors of chunks of equal chunk count.
pub open spec fn xored_chunks(a: Seq<Seq<usize>>, b: Seq<Seq<usize>>) -> Seq<Seq<usize>> {
    Seq::new(a.len(), |i: int| xored_words(a[i], b[i]))
}

/// Every word of every chunk of the vector is zero.
pub open spec fn all_zero_chunks(s: Seq<Seq<usize>>) -> bool {
    forall|i: int| 0 <= i < s.len() ==> all_zero_words(s[i])
}

/// Double negation is the identity on a whole vector: two `inv` calls in a
/// row restore the original bit pattern of every chunk.
pub proof fn lemma_double_negation(s: Seq<Seq<usize>>)
    ensures
        negated_chunks(negated_chunks(s)) == s,
{
    assert forall|i: int| 0 <= i < s.len() implies negated_chunks(negated_chunks(s))[i] == s[i] by {
        lemma_double_negation_words(s[i]);
    }
    assert(negated_chunks(negated_chunks(s)) =~= s);
}

/// XOR of a vector with itself zeroes every word of every chunk.
pub proof fn lemma_self_xor(s: Seq<Seq<usize>>)
    ensures
        all_zero_chunks(xored_chunks(s, s)),
{
    assert forall|i: int| 0 <= i < s.len() implies all_zero_words(xored_chunks(s, s)[i]) by {
        lemma_self_xor_words(s[i]);
    }
}

/// Chunk-wise XOR is commutative: starting from the same two vectors,
/// `a.xor(&b)` and `b.xor(&a)` leave bitwise equal contents behind.
pub proof fn lemma_xor_commutes(a: Seq<Seq<usize>>, b: Seq<Seq<usize>>)
    requires
        a.len() == b.len(),
        forall|i: int| 0 <= i < a.len() ==> (#[trigger] a[i]).len() == b[i].len(),
    ensures
        xored_chunks(a, b) == xored_chunks(b, a),
{
    assert forall|i: int| 0 <= i < a.len() implies xored_chunks(a, b)[i] == xored_chunks(
        b,
        a,
    )[i] by {
        lemma_xor_commutes_words(a[i], b[i]);
    }
    assert(xored_chunks(a, b) =~= xored_chunks(b, a));
}

/// An ordered sequence of exclusively owned chunks, sized at construction to
/// cover a requested number of logical bits. Whole-vector operations are
/// distributed chunk by chunk; the chunk count never changes afterwards.
pub struct AlignedChunks {
    chunks: Vec<AlignedChunk>,
}

impl View for AlignedChunks {
    type V = Seq<Seq<usize>>;

    closed spec fn view(&self) -> Seq<Seq<usize>> {
        self.chunks@.map(|i: int, c: AlignedChunk| c@)
    }
}

impl AlignedChunks {
    /// Every chunk of a vector holds exactly `WORDS_PER_CHUNK` words: the
    /// chunk size is a structural constant.
    pub proof fn lemma_chunk_word_counts(&self)
        ensures
            forall|i: int| 0 <= i < self@.len() ==> (#[trigger] self@[i]).len() == WORDS_PER_CHUNK,
    {
        assert forall|i: int| 0 <= i < self@.len() implies (#[trigger] self@[i]).len()
            == WORDS_PER_CHUNK by {
            self.chunks@[i].lemma_word_count();
        }
    }

    /// A vector covering `n_qubits` logical bits: `1 + n_qubits / BITS_PER_CHUNK`
    /// chunks (integer division), each zero-initialized. Every non-negative
    /// `n_qubits` is valid; there are no failure modes.
    pub fn new(n_qubits: usize) -> (v: Self)
        ensures
            v@.len() == 1 + n_qubits as int / BITS_PER_CHUNK as int,
            all_zero_chunks(v@),
    {
        let count: usize = 1 + n_qubits / BITS_PER_CHUNK;
        let mut aligned_chunks = Self { chunks: Vec::with_capacity(count) };
        for _i in 0..count
            invariant
                aligned_chunks.chunks@.len() == _i,
                forall|j: int| 0 <= j < _i ==> all_zero_words(
                    (#[trigger] aligned_chunks.chunks@[j])@,
                ),
        {
            aligned_chunks.chunks.push(AlignedChunk::new());
        }
        proof {
            assert forall|j: int| 0 <= j < aligned_chunks@.len() implies all_zero_words(
                aligned_chunks@[j],
            ) by {
                assert(aligned_chunks@[j] == aligned_chunks.chunks@[j]@);
            }
        }
        aligned_chunks
    }

    /// The chunk count: a pure query with no side effects.
    pub fn len(&self) -> (n: usize)
        ensures
            n == self@.len(),
    {
        self.chunks.len()
    }

    /// Chunk-by-chunk, in-place XOR of the receiver with `other`. Both
    /// vectors must hold the same number of chunks; a mismatch is a
    /// precondition violation, not a recoverable error.
    pub fn xor(&mut self, other: &AlignedChunks)
        requires
            old(self)@.len() == other@.len(),
        ensures
            final(self)@ == xored_chunks(old(self)@, other@),
    {
        let n = self.chunks.len();
        for i in 0..n
            invariant
                n == old(self).chunks@.len(),
                self.chunks@.len() == n,
                other.chunks@.len() == n,
                forall|j: int| 0 <= j < i ==> (#[trigger] self.chunks@[j])@ == xored_words(
                    old(self).chunks@[j]@,
                    other.chunks@[j]@,
                ),
                forall|j: int| i <= j < n ==> (#[trigger] self.chunks@[j])@ == old(
                    self,
                ).chunks@[j]@,
        {
            self.chunks[i].xor(&other.chunks[i]);
        }
        proof {
            assert forall|j: int| 0 <= j < n implies self@[j] == xored_words(
                old(self)@[j],
                other@[j],
            ) by {
                assert(self@[j] == self.chunks@[j]@);
                assert(old(self)@[j] == old(self).chunks@[j]@);
                assert(other@[j] == other.chunks@[j]@);
            }
            assert(self@ =~= xored_chunks(old(self)@, other@));
        }
    }

    /// Negates every chunk in place: equivalent to XOR with an all-ones
    /// vector of the same chunk count.
    pub fn inv(&mut self)
        ensures
            final(self)@ == negated_chunks(old(self)@),
    {
        let n = self.chunks.len();
        for i in 0..n
            invariant
                n == old(self).chunks@.len(),
                self.chunks@.len() == n,
                forall|j: int| 0 <= j < i ==> (#[trigger] self.chunks@[j])@ == negated_words(
                    old(self).chunks@[j]@,
                ),
                forall|j: int| i <= j < n ==> (#[trigger] self.chunks@[j])@ == old(
                    self,
                ).chunks@[j]@,
        {
            self.chunks[i].negate();
        }
        proof {
            assert forall|j: int| 0 <= j < n implies self@[j] == negated_words(old(self)@[j]) by {
                assert(self@[j] == self.chunks@[j]@);
                assert(old(self)@[j] == old(self).chunks@[j]@);
            }
            assert(self@ =~= negated_chunks(old(self)@));
        }
    }

    /// The chunk at `idx`. Passing an out-of-range index is a precondition
    /// violation, not a recoverable error.
    pub fn get_chunk(&mut self, idx: usize) -> (c: &AlignedChunk)
        requires
            idx < old(self)@.len(),
        ensures
            *final(self) == *old(self),
            c@ == old(self)@[idx as int],
    {
        &self.chunks[idx]
    }
}

} // verus!