//! The xorshift64 step.
use vstd::prelude::*;

verus! {

/// The state after `x`.
pub open spec fn shifted(x: u64) -> u64 {
    let a = x ^ (x << 13);
    let b = a ^ (a >> 7);
    b ^ (b << 17)
}

/// The state `n` steps after `x`.
pub open spec fn shifted_by(x: u64, n: nat) -> u64
    decreases n,
{
    if n == 0 {
        x
    } else {
        shifted(shifted_by(x, (n - 1) as nat))
    }
}

/// One step.
pub fn xorshift(x: u64) -> (r: u64)
    ensures
        r == shifted(x),
{
    let a: u64 = x ^ (x << 13);
    let b: u64 = a ^ (a >> 7);
    b ^ (b << 17)
}

pub proof fn lemma_shifted_adds(x: u64, m: nat, n: nat)
    ensures
        shifted_by(shifted_by(x, m), n) == shifted_by(x, m + n),
    decreases n,
{
    if n > 0 {
        lemma_shifted_adds(x, m, (n - 1) as nat);
    }
}

/// A step mixes the state with itself, shifted left by thirteen, right by seven
/// and left by seventeen bits; zero stays zero, and no other state leads there.
pub proof fn law_step(x: u64)
    ensures
        shifted(x) == ({
            let a = x ^ (x << 13u64);
            let b = a ^ (a >> 7u64);
            b ^ (b << 17u64)
        }),
        shifted(0) == 0,
        x != 0 ==> shifted(x) != 0,
{
    lemma_step(x);
    lemma_step(0);
}

proof fn lemma_step(x: u64)
    by (bit_vector)
    ensures
        x == 0 <==> ({
            let a = x ^ (x << 13u64);
            let b = a ^ (a >> 7u64);
            b ^ (b << 17u64)
        }) == 0,
{
}

} // verus!
