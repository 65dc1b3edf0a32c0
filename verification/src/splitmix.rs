//! The SplitMix64 generator that sealing draws its obfuscation from.
use vstd::prelude::*;

use crate::bytes;

verus! {

pub const GAMMA: u64 = 0x9E37_79B9_7F4A_7C15;
pub const MIX_A: u64 = 0xBF58_476D_1CE4_E5B9;
pub const MIX_B: u64 = 0x94D0_49BB_1331_11EB;

/// The output function of the generator.
pub open spec fn mix(z: u64) -> u64 {
    let a = (z ^ (z >> 30)).wrapping_mul(MIX_A);
    let b = (a ^ (a >> 27)).wrapping_mul(MIX_B);
    b ^ (b >> 31)
}

/// The state of a generator that starts from `seed`.
pub open spec fn seeded(seed: u64) -> u64 {
    seed.wrapping_mul(GAMMA)
}

/// The state `n` draws after state `s`.
pub open spec fn advance(s: u64, n: nat) -> u64
    decreases n,
{
    if n == 0 {
        s
    } else {
        advance(s, (n - 1) as nat).wrapping_add(GAMMA)
    }
}

/// The draw number `n` (counted from zero) of a generator in state `s`.
pub open spec fn draw(s: u64, n: nat) -> u64 {
    mix(advance(s, n + 1))
}

/// The first `n` bytes that a generator in state `s` gives out, eight of each
/// draw.
pub open spec fn stream(s: u64, n: nat) -> Seq<u8> {
    Seq::new(n, |i: int| bytes::le_bytes(draw(s, (i / 8) as nat) as nat, 8)[i % 8])
}

/// Number of draws that `n` bytes take.
pub open spec fn draws_for(n: nat) -> nat {
    (n + 7) / 8
}

pub proof fn lemma_advance_adds(s: u64, m: nat, n: nat)
    ensures
        advance(advance(s, m), n) == advance(s, m + n),
    decreases n,
{
    if n > 0 {
        lemma_advance_adds(s, m, (n - 1) as nat);
    }
}

/// A SplitMix64 generator.
pub struct SplitMix {
    state: u64,
}

impl View for SplitMix {
    type V = u64;

    closed spec fn view(&self) -> u64 {
        self.state
    }
}

impl SplitMix {
    pub fn new(seed: u64) -> (r: SplitMix)
        ensures
            r@ == seeded(seed),
    {
        SplitMix { state: seed.wrapping_mul(GAMMA) }
    }

    /// The next word.
    pub fn next_u64(&mut self) -> (x: u64)
        ensures
            x == draw(old(self)@, 0),
            final(self)@ == advance(old(self)@, 1),
    {
        proof {
            reveal_with_fuel(advance, 2);
        }
        self.state = self.state.wrapping_add(GAMMA);
        let z: u64 = self.state;
        let a: u64 = (z ^ (z >> 30)).wrapping_mul(MIX_A);
        let b: u64 = (a ^ (a >> 27)).wrapping_mul(MIX_B);
        b ^ (b >> 31)
    }

    /// The low byte of the next word.
    pub fn next_u8(&mut self) -> (x: u8)
        ensures
            x == (draw(old(self)@, 0) % 256) as u8,
            final(self)@ == advance(old(self)@, 1),
    {
        let w: u64 = self.next_u64();
        (w % 256) as u8
    }

    /// The next word, reduced to less than `n`.
    pub fn choice(&mut self, n: u64) -> (x: u64)
        requires
            n > 0,
        ensures
            x == draw(old(self)@, 0) % n,
            final(self)@ == advance(old(self)@, 1),
    {
        self.next_u64() % n
    }

    /// Fills a buffer with the next bytes.
    pub fn fill(&mut self, out: &mut [u8])
        ensures
            final(out)@ == stream(old(self)@, old(out)@.len()),
            final(self)@ == advance(old(self)@, draws_for(old(out)@.len())),
    {
        let ghost s0 = self@;
        let mut i: usize = 0;
        let ghost mut words: nat = 0;
        proof {
            reveal_with_fuel(advance, 1);
        }
        while i < out.len()
            invariant
                i <= out@.len(),
                i == 8 * words || (i == out@.len() && i <= 8 * words < i + 8),
                self@ == advance(s0, words),
                forall|j: int| 0 <= j < i ==> out@[j] == stream(s0, out@.len())[j],
                out@.len() == old(out)@.len(),
            decreases out@.len() - i,
        {
            let ghost before = out@;
            let x: u64 = self.next_u64();
            proof {
                lemma_advance_adds(s0, words, 1);
                assert(draw(advance(s0, words), 0) == draw(s0, words));
            }
            let b: [u8; 8] = bytes::u64_to_le(x);
            let n: usize = if out.len() - i < 8 { out.len() - i } else { 8 };
            let mut k: usize = 0;
            while k < n
                invariant
                    k <= n <= 8,
                    i + n <= out@.len(),
                    out@.len() == old(out)@.len(),
                    i == 8 * words,
                    b@ == bytes::le_bytes(draw(s0, words) as nat, 8),
                    forall|j: int| 0 <= j < i + k ==> out@[j] == stream(s0, out@.len())[j],
                decreases n - k,
            {
                proof {
                    assert(i + n <= out.len());
                    assert((i + k) / 8 == words && (i + k) % 8 == k as int);
                }
                out[i + k] = b[k];
                k = k + 1;
            }
            i = i + n;
            proof {
                words = words + 1;
            }
        }
        proof {
            assert(words == draws_for(out@.len()));
            assert(out@ =~= stream(s0, out@.len()));
        }
    }
}

/// The generator adds a constant for each draw and mixes the sum: both
/// constants and shifts are those of SplitMix64.
pub proof fn law_draws(s: u64, n: nat)
    ensures
        seeded(s) == s.wrapping_mul(0x9E37_79B9_7F4A_7C15),
        draw(s, n) == ({
            let z = advance(s, n + 1);
            let a = (z ^ (z >> 30)).wrapping_mul(0xBF58_476D_1CE4_E5B9);
            let b = (a ^ (a >> 27)).wrapping_mul(0x94D0_49BB_1331_11EB);
            b ^ (b >> 31)
        }),
        advance(s, n + 1) == advance(s, n).wrapping_add(0x9E37_79B9_7F4A_7C15),
        advance(s, 0) == s,
{
}

/// Bytes are taken from the draws eight at a time, least significant first, and
/// a longer stream goes on from a shorter one.
pub proof fn law_stream(s: u64, m: nat, n: nat, i: int)
    requires
        0 <= i < m <= n,
    ensures
        stream(s, n).len() == n,
        stream(s, m)[i] == stream(s, n)[i],
        stream(s, n)[i] == bytes::le_bytes(draw(s, (i / 8) as nat) as nat, 8)[i % 8],
{
}

} // verus!
