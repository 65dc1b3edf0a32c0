//! Noise for the screen: a small generator and the characters that it draws.
use vstd::prelude::*;

use crate::xorshift;

verus! {

/// How many characters the noise is made of.
pub const GLYPH_COUNT: usize = 76;

/// The characters that the noise is made of.
pub const GLYPHS: [char; GLYPH_COUNT] = [
    'A', 'B', 'C', 'D', 'E', 'F', 'G', 'H', 'J', 'K', 'L', 'M', 'N', 'P', 'Q', 'R',
    'S', 'T', 'U', 'V', 'W', 'X', 'Y', 'Z', 'a', 'b', 'c', 'd', 'e', 'f', 'g', 'h',
    'j', 'k', 'm', 'n', 'p', 'q', 'r', 's', 't', 'u', 'v', 'w', 'x', 'y', 'z', '0',
    '1', '2', '3', '4', '5', '6', '7', '8', '9', '#', '@', '%', '&', '*', '+', '=',
    '!', '?', '$', '<', '>', '/', '\\', '|', ';', ':', '~', '^',
];

/// The character that a drawn number stands for.
pub open spec fn glyph_of(x: u64) -> char {
    GLYPHS@[(x % 76) as int]
}

/// The `n` characters that are drawn from a state.
pub open spec fn noise(state: u64, n: nat) -> Seq<char> {
    Seq::new(n, |i: int| glyph_of(xorshift::shifted_by(state, (i + 1) as nat)))
}

/// A generator for noise. What it draws is for the eye only.
pub struct Rng {
    state: u64,
}

impl Rng {
    /// The state of the generator.
    pub closed spec fn state(self) -> u64 {
        self.state
    }

    /// A generator that starts from a clock and an address.
    pub fn new(nanos: u64, addr: u64) -> (r: Rng)
        ensures
            r.state() == nanos ^ 0x9E37_79B9_7F4A_7C15 ^ addr,
    {
        Rng { state: nanos ^ 0x9E37_79B9_7F4A_7C15 ^ addr }
    }

    /// The next number.
    pub fn next_u64(&mut self) -> (x: u64)
        ensures
            x == xorshift::shifted(old(self).state()),
            final(self).state() == x,
    {
        self.state = xorshift::xorshift(self.state);
        self.state
    }

    /// The next character.
    pub fn glyph(&mut self) -> (c: char)
        ensures
            c == glyph_of(final(self).state()),
            final(self).state() == xorshift::shifted(old(self).state()),
    {
        let x: u64 = self.next_u64();
        GLYPHS[(x % 76) as usize]
    }

    /// `width` characters of noise.
    pub fn fill(&mut self, width: usize) -> (s: String)
        ensures
            s@ == noise(old(self).state(), width as nat),
            final(self).state() == xorshift::shifted_by(old(self).state(), width as nat),
    {
        let mut s = String::new();
        let ghost from = self.state();
        let mut i: usize = 0;
        proof {
            assert(s@ =~= noise(from, 0));
        }
        while i < width
            invariant
                i <= width,
                s@ == noise(from, i as nat),
                self.state() == xorshift::shifted_by(from, i as nat),
            decreases width - i,
        {
            let c = self.glyph();
            s.push(c);
            i += 1;
            proof {
                assert(self.state() == xorshift::shifted_by(from, i as nat));
                assert(s@ =~= noise(from, i as nat));
            }
        }
        s
    }

    /// A line of noise, `width` characters long.
    pub fn fill_line(&mut self, width: usize) -> (s: String)
        ensures
            s@ == noise(old(self).state(), width as nat),
            final(self).state() == xorshift::shifted_by(old(self).state(), width as nat),
    {
        self.fill(width)
    }
}

/// Noise has the length asked for and is made of the 76 characters alone; a
/// longer row of noise starts with the shorter one.
pub proof fn law_noise(state: u64, m: nat, n: nat, i: int)
    requires
        0 <= i < m <= n,
    ensures
        noise(state, n).len() == n,
        noise(state, m)[i] == noise(state, n)[i],
        GLYPHS@.contains(noise(state, n)[i]),
{
    let x = xorshift::shifted_by(state, (i + 1) as nat);
    assert(GLYPHS@[(x % 76) as int] == noise(state, n)[i]);
}

} // verus!
