use vstd::prelude::*;
use proptest::prelude::Rng;
use proptest::test_runner::{RngAlgorithm, TestRng};

verus! {

/// Words fetched from the generator at a time.
pub const BLOCK_WORDS: usize = 64;

/// The length of the stream before it starts over: the largest multiple of
/// `BLOCK_WORDS` that a `u64` index can reach with a block after it.
pub const STREAM_LIMIT: u64 = 0xffff_ffff_ffff_ffc0;

/// Word `i` (from zero) that a ChaCha generator seeded with `seed` yields.
pub uninterp spec fn chacha_word(seed: Seq<u8>, i: nat) -> u64;

/// Relies on proptest's `TestRng::from_seed` with the ChaCha algorithm, which
/// yields the same words for the same 32-byte seed on every system: the words
/// at indices `skip` to `skip + count - 1`.
#[verifier::external_body]
fn chacha_words(seed: &[u8; 32], skip: u64, count: usize) -> (r: Vec<u64>)
    ensures
        r@.len() == count,
        forall|j: int| 0 <= j < count ==> #[trigger] r@[j] == chacha_word(seed@, (skip + j) as nat),
{
    let mut rng = TestRng::from_seed(RngAlgorithm::ChaCha, seed);
    for _ in 0..skip {
        rng.next_u64();
    }
    let mut out = Vec::with_capacity(count);
    for _ in 0..count {
        out.push(rng.next_u64());
    }
    out
}

/// A deterministic random stream: the words of proptest's ChaCha generator
/// from its seed, in order.
pub struct SeededRng {
    seed: [u8; 32],
    start: u64,
    buf: Vec<u64>,
    pos: usize,
}

/// Where a stream stands: its seed and the index of its next word.
pub struct StreamPos {
    pub seed: Seq<u8>,
    pub index: nat,
}

impl StreamPos {
    /// The word that the stream yields next.
    pub open spec fn word(self) -> u64 {
        chacha_word(self.seed, self.index)
    }

    /// The stream after one more word.
    pub open spec fn next(self) -> StreamPos {
        if self.index + 1 < STREAM_LIMIT {
            StreamPos { index: self.index + 1, ..self }
        } else {
            StreamPos { index: 0, ..self }
        }
    }

    /// The next `n` words.
    pub open spec fn words(self, n: nat) -> Seq<u64>
        decreases n,
    {
        if n == 0 {
            Seq::empty()
        } else {
            seq![self.word()] + self.next().words((n - 1) as nat)
        }
    }

    /// The stream after `n` more words.
    pub open spec fn skip(self, n: nat) -> StreamPos
        decreases n,
    {
        if n == 0 {
            self
        } else {
            self.next().skip((n - 1) as nat)
        }
    }

    /// The stream at the start of a seed.
    pub open spec fn start(seed: Seq<u8>) -> StreamPos {
        StreamPos { seed, index: 0 }
    }
}

/// Drawing `n + 1` words draws `n` words and then one more.
pub proof fn lemma_words_step(s: StreamPos, n: nat)
    ensures
        s.words(n + 1) == s.words(n).push(s.skip(n).word()),
        s.skip(n + 1) == s.skip(n).next(),
    decreases n,
{
    if n > 0 {
        lemma_words_step(s.next(), (n - 1) as nat);
        assert(s.words(n + 1) =~= s.words(n).push(s.skip(n).word()));
    } else {
        assert(s.next().words(0) =~= Seq::<u64>::empty());
        assert(s.words(1) =~= seq![s.word()] + s.next().words(0));
        assert(s.words(1) =~= s.words(0).push(s.skip(0).word()));
        assert(s.next().skip(0) == s.next());
    }
}

impl View for SeededRng {
    type V = StreamPos;

    closed spec fn view(&self) -> StreamPos {
        StreamPos { seed: self.seed@, index: (self.start + self.pos) as nat }
    }
}

impl SeededRng {
    pub closed spec fn wf(&self) -> bool {
        &&& self.pos < BLOCK_WORDS
        &&& self.start % (BLOCK_WORDS as u64) == 0
        &&& self.start + BLOCK_WORDS <= STREAM_LIMIT
        &&& self.buf@.len() == BLOCK_WORDS
        &&& forall|j: int| 0 <= j < BLOCK_WORDS ==> #[trigger] self.buf@[j] == chacha_word(self.seed@, (self.start + j) as nat)
    }

    /// A stream at its start, from a seed of 32 bytes.
    pub fn from_seed(seed: [u8; 32]) -> (r: SeededRng)
        ensures
            r.wf(),
            r@ == StreamPos::start(seed@),
    {
        let buf = chacha_words(&seed, 0, BLOCK_WORDS);
        SeededRng { seed, start: 0, buf, pos: 0 }
    }

    /// Yields the next word of the stream.
    pub fn next_u64(&mut self) -> (r: u64)
        requires
            old(self).wf(),
        ensures
            final(self).wf(),
            r == old(self)@.word(),
            final(self)@ == old(self)@.next(),
    {
        let r = self.buf[self.pos];
        if self.pos + 1 < BLOCK_WORDS {
            self.pos = self.pos + 1;
        } else {
            if self.start + (BLOCK_WORDS as u64) < STREAM_LIMIT {
                self.start = self.start + BLOCK_WORDS as u64;
            } else {
                self.start = 0;
            }
            self.buf = chacha_words(&self.seed, self.start, BLOCK_WORDS);
            self.pos = 0;
        }
        r
    }

    /// Yields the next `n` words of the stream.
    pub fn next_words(&mut self, n: usize) -> (r: Vec<u64>)
        requires
            old(self).wf(),
        ensures
            final(self).wf(),
            r@ == old(self)@.words(n as nat),
            r@.len() == n,
            final(self)@ == old(self)@.skip(n as nat),
    {
        let ghost s0 = self@;
        let mut out: Vec<u64> = Vec::new();
        let mut i: usize = 0;
        while i < n
            invariant
                self.wf(),
                i <= n,
                out@ == s0.words(i as nat),
                out@.len() == i,
                self@ == s0.skip(i as nat),
            decreases n - i,
        {
            proof {
                lemma_words_step(s0, i as nat);
            }
            let w = self.next_u64();
            out.push(w);
            i = i + 1;
        }
        out
    }
}

} // verus!
