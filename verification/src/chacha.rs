//! A small repeatable generator for solvers: sixteen words that are stirred
//! with ChaCha quarter rounds each time they have all been handed out.

use vstd::prelude::*;

verus! {

/// `x` with its bits moved `n` places to the left, those that leave at the
/// top coming back at the bottom.
pub open spec fn rotated(x: u32, n: u32) -> u32 {
    (x << n) | (x >> ((32 - n) as u32))
}

/// One quarter round on the words `a`, `b`, `c` and `d` of `s`.
pub open spec fn quarter(s: Seq<u32>, a: int, b: int, c: int, d: int) -> Seq<u32> {
    let s = s.update(a, s[a].wrapping_add(s[b]));
    let s = s.update(d, rotated(s[d] ^ s[a], 16));
    let s = s.update(c, s[c].wrapping_add(s[d]));
    let s = s.update(b, rotated(s[b] ^ s[c], 12));
    let s = s.update(a, s[a].wrapping_add(s[b]));
    let s = s.update(d, rotated(s[d] ^ s[a], 8));
    let s = s.update(c, s[c].wrapping_add(s[d]));
    s.update(b, rotated(s[b] ^ s[c], 7))
}

/// Four quarter rounds down the columns, then four along the diagonals.
pub open spec fn double_round(s: Seq<u32>) -> Seq<u32> {
    let s = quarter(s, 0, 4, 8, 12);
    let s = quarter(s, 1, 5, 9, 13);
    let s = quarter(s, 2, 6, 10, 14);
    let s = quarter(s, 3, 7, 11, 15);
    let s = quarter(s, 0, 5, 10, 15);
    let s = quarter(s, 1, 6, 11, 12);
    let s = quarter(s, 2, 7, 8, 13);
    quarter(s, 3, 4, 9, 14)
}

/// `n` double rounds.
pub open spec fn stirred(s: Seq<u32>, n: nat) -> Seq<u32>
    decreases n,
{
    if n == 0 {
        s
    } else {
        stirred(double_round(s), (n - 1) as nat)
    }
}

/// The words of a generator that was just seeded: four constants, the low
/// and the high half of the seed, and zeros.
pub open spec fn seeded_words(seed: u64) -> Seq<u32> {
    seq![
        0x61707865u32,
        0x3320646eu32,
        0x79622d32u32,
        0x6b206574u32,
        (seed & 0xFFFFFFFF) as u32,
        (seed >> 32) as u32,
        0u32,
        0u32,
        0u32,
        0u32,
        0u32,
        0u32,
        0u32,
        0u32,
        0u32,
        0u32,
    ]
}

/// The words from which the next number is handed out: they are stirred
/// first if the next number is the first of the sixteen.
pub open spec fn words_for_draw(words: Seq<u32>, index: int) -> Seq<u32> {
    if index == 0 {
        stirred(words, 8)
    } else {
        words
    }
}

/// The number that a draw from `[low, high]` makes of the word `word`.
pub open spec fn ranged(word: u32, low: i64, high: i64) -> int {
    low + (word as int) % (high - low + 1)
}

/// Moves the bits of `x` by `n` places to the left, around the word.
fn rotate(x: u32, n: u32) -> (r: u32)
    requires
        0 < n < 32,
    ensures
        r == rotated(x, n),
{
    (x << n) | (x >> (32 - n))
}

/// Sixteen words and the place of the next one to hand out.
pub struct ChaCha8Rng {
    state: [u32; 16],
    index: usize,
}

impl ChaCha8Rng {
    /// The sixteen words.
    pub closed spec fn words(&self) -> Seq<u32> {
        self.state@
    }

    /// The place of the next word to hand out.
    pub closed spec fn position(&self) -> int {
        self.index as int
    }

    /// The place lies among the sixteen words.
    pub closed spec fn wf(&self) -> bool {
        self.index < 16
    }

    /// A generator that depends on `seed` alone.
    pub fn seed_from_u64(seed: u64) -> (rng: ChaCha8Rng)
        ensures
            rng.wf(),
            rng.words() == seeded_words(seed),
            rng.position() == 0,
    {
        let low: u32 = (seed & 0xFFFFFFFF) as u32;
        let high: u32 = (seed >> 32) as u32;
        let state: [u32; 16] = [
            0x61707865,
            0x3320646e,
            0x79622d32,
            0x6b206574,
            low,
            high,
            0,
            0,
            0,
            0,
            0,
            0,
            0,
            0,
            0,
            0,
        ];
        assert(state@ =~= seeded_words(seed));
        ChaCha8Rng { state, index: 0 }
    }

    fn quarter_round(state: &mut [u32; 16], a: usize, b: usize, c: usize, d: usize)
        requires
            a < 16,
            b < 16,
            c < 16,
            d < 16,
        ensures
            final(state)@ == quarter(old(state)@, a as int, b as int, c as int, d as int),
    {
        state[a] = state[a].wrapping_add(state[b]);
        state[d] = rotate(state[d] ^ state[a], 16);
        state[c] = state[c].wrapping_add(state[d]);
        state[b] = rotate(state[b] ^ state[c], 12);
        state[a] = state[a].wrapping_add(state[b]);
        state[d] = rotate(state[d] ^ state[a], 8);
        state[c] = state[c].wrapping_add(state[d]);
        state[b] = rotate(state[b] ^ state[c], 7);
    }

    fn chacha8_rounds(&mut self)
        ensures
            final(self).state@ == stirred(old(self).state@, 8),
            final(self).index == old(self).index,
    {
        let mut round: u32 = 0;
        while round < 8
            invariant
                round <= 8,
                self.index == old(self).index,
                stirred(self.state@, (8 - round) as nat) == stirred(old(self).state@, 8),
            decreases 8 - round,
        {
            Self::quarter_round(&mut self.state, 0, 4, 8, 12);
            Self::quarter_round(&mut self.state, 1, 5, 9, 13);
            Self::quarter_round(&mut self.state, 2, 6, 10, 14);
            Self::quarter_round(&mut self.state, 3, 7, 11, 15);
            Self::quarter_round(&mut self.state, 0, 5, 10, 15);
            Self::quarter_round(&mut self.state, 1, 6, 11, 12);
            Self::quarter_round(&mut self.state, 2, 7, 8, 13);
            Self::quarter_round(&mut self.state, 3, 4, 9, 14);
            round = round + 1;
        }
    }

    /// Hands out the next word; the words are stirred before the first of
    /// each sixteen.
    pub fn gen_u32(&mut self) -> (word: u32)
        requires
            old(self).wf(),
        ensures
            final(self).wf(),
            final(self).words() == words_for_draw(old(self).words(), old(self).position()),
            word == final(self).words()[old(self).position()],
            final(self).position() == (old(self).position() + 1) % 16,
    {
        if self.index == 0 {
            self.chacha8_rounds();
        }
        let result = self.state[self.index];
        self.index = (self.index + 1) % 16;
        result
    }

    /// A number of `[low, high]`: `low` plus what is left of the next word
    /// when it is divided by the size of the range.
    pub fn gen_range(&mut self, low: i64, high: i64) -> (value: i64)
        requires
            old(self).wf(),
            low <= high,
            high - low < i64::MAX,
        ensures
            final(self).wf(),
            final(self).words() == words_for_draw(old(self).words(), old(self).position()),
            final(self).position() == (old(self).position() + 1) % 16,
            value == ranged(final(self).words()[old(self).position()], low, high),
            low <= value <= high,
    {
        let diff: i64 = high - low;
        let word: u32 = self.gen_u32();
        let random_value: i64 = (word as i64) % (diff + 1);
        low + random_value
    }
}

} // verus!
