//! Byte strings: fixed-width integers as bytes, XOR, copies and slices.
use vstd::prelude::*;

verus! {

/// The number of values that `n` bytes can hold.
pub open spec fn pow256(n: nat) -> nat
    decreases n,
{
    if n == 0 {
        1
    } else {
        256 * pow256((n - 1) as nat)
    }
}

/// The `n` low bytes of `x`, least significant first.
pub open spec fn le_bytes(x: nat, n: nat) -> Seq<u8>
    decreases n,
{
    if n == 0 {
        Seq::empty()
    } else {
        seq![(x % 256) as u8] + le_bytes(x / 256, (n - 1) as nat)
    }
}

/// The number that `s` spells, least significant byte first.
pub open spec fn le_value(s: Seq<u8>) -> nat
    decreases s.len(),
{
    if s.len() == 0 {
        0
    } else {
        s[0] as nat + 256 * le_value(s.drop_first())
    }
}

/// The number that `s` spells, most significant byte first.
pub open spec fn be_value(s: Seq<u8>) -> nat
    decreases s.len(),
{
    if s.len() == 0 {
        0
    } else {
        256 * be_value(s.drop_last()) + s.last() as nat
    }
}

/// The `n` low bytes of `x`, most significant first.
pub open spec fn be_bytes(x: nat, n: nat) -> Seq<u8> {
    le_bytes(x, n).reverse()
}

/// Byte-by-byte XOR of two strings of one length.
pub open spec fn xor_seq(a: Seq<u8>, b: Seq<u8>) -> Seq<u8> {
    Seq::new(a.len(), |i: int| a[i] ^ b[i])
}

/// `n` zero bytes.
pub open spec fn zeros(n: nat) -> Seq<u8> {
    Seq::new(n, |i: int| 0u8)
}

pub proof fn lemma_le_bytes_len(x: nat, n: nat)
    ensures
        le_bytes(x, n).len() == n,
    decreases n,
{
    if n > 0 {
        lemma_le_bytes_len(x / 256, (n - 1) as nat);
    }
}

/// A number that fits in `n` bytes is read back from its bytes.
pub proof fn lemma_le_value_of_bytes(x: nat, n: nat)
    requires
        x < pow256(n),
    ensures
        le_value(le_bytes(x, n)) == x,
    decreases n,
{
    if n > 0 {
        lemma_le_value_of_bytes(x / 256, (n - 1) as nat);
        let s = le_bytes(x, n);
        assert(s.drop_first() =~= le_bytes(x / 256, (n - 1) as nat));
    }
}

/// A byte string is spelled again by the number it spells.
pub proof fn lemma_le_bytes_of_value(s: Seq<u8>)
    ensures
        le_bytes(le_value(s), s.len()) == s,
    decreases s.len(),
{
    if s.len() > 0 {
        lemma_le_bytes_of_value(s.drop_first());
        let v = le_value(s);
        assert(v % 256 == s[0] as nat && v / 256 == le_value(s.drop_first()));
        assert(seq![s[0]] + s.drop_first() =~= s);
    } else {
        assert(s =~= Seq::empty());
    }
}

pub proof fn lemma_le_value_bound(s: Seq<u8>)
    ensures
        le_value(s) < pow256(s.len()),
    decreases s.len(),
{
    if s.len() > 0 {
        lemma_le_value_bound(s.drop_first());
    }
}

pub proof fn lemma_be_value_bound(s: Seq<u8>)
    ensures
        be_value(s) < pow256(s.len()),
    decreases s.len(),
{
    if s.len() > 0 {
        lemma_be_value_bound(s.drop_last());
    }
}

pub proof fn lemma_pow256_small()
    ensures
        pow256(2) == 0x1_0000,
        pow256(4) == 0x1_0000_0000,
        pow256(8) == 0x1_0000_0000_0000_0000,
        pow256(16) == 0x1_0000_0000_0000_0000_0000_0000_0000_0000,
{
    reveal_with_fuel(pow256, 17);
}

/// A byte behind a string counts for its place.
pub proof fn lemma_le_value_push(s: Seq<u8>, b: u8)
    ensures
        le_value(s.push(b)) == le_value(s) + pow256(s.len()) * b,
    decreases s.len(),
{
    let t = s.push(b);
    if s.len() == 0 {
        assert(t.drop_first() =~= Seq::<u8>::empty());
        let q = pow256(0) as int;
        let c = b as int;
        assert(q * c == c) by (nonlinear_arith)
            requires
                q == 1,
        ;
        assert(le_value(t.drop_first()) == 0);
        assert(le_value(t) == b as nat);
        assert(le_value(s) == 0);
    } else {
        assert(t.drop_first() =~= s.drop_first().push(b));
        lemma_le_value_push(s.drop_first(), b);
        let p = pow256((s.len() - 1) as nat) as int;
        let q = pow256(s.len()) as int;
        let c = b as int;
        assert(t[0] == s[0]);
        assert(q * c == 256 * (p * c)) by (nonlinear_arith)
            requires
                q == 256 * p,
        ;
        assert(le_value(t) == t[0] as nat + 256 * le_value(t.drop_first()));
        assert(le_value(s) == s[0] as nat + 256 * le_value(s.drop_first()));
        assert(le_value(t.drop_first()) == le_value(s.drop_first()) + p * c);
        assert(le_value(t) == le_value(s) + q * c);
    }
}

pub proof fn lemma_xor_u8(a: u8, b: u8)
    by (bit_vector)
    ensures
        (a ^ b) ^ b == a,
        a ^ b == b ^ a,
        a ^ a == 0,
        a ^ 0 == a,
{
}

/// Masking a string twice with one mask gives the string back.
pub proof fn lemma_xor_seq_twice(a: Seq<u8>, b: Seq<u8>)
    requires
        a.len() == b.len(),
    ensures
        xor_seq(xor_seq(a, b), b) == a,
{
    assert forall|i: int| 0 <= i < a.len() implies xor_seq(xor_seq(a, b), b)[i] == a[i] by {
        lemma_xor_u8(a[i], b[i]);
    }
    assert(xor_seq(xor_seq(a, b), b) =~= a);
}

/// The eight bytes of `x`, least significant first.
pub fn u64_to_le(x: u64) -> (r: [u8; 8])
    ensures
        r@ == le_bytes(x as nat, 8),
{
    let mut r: [u8; 8] = [0; 8];
    let mut rest: u64 = x;
    let mut i: usize = 0;
    while i < 8
        invariant
            i <= 8,
            r@.subrange(0, i as int) + le_bytes(rest as nat, (8 - i) as nat) =~= le_bytes(
                x as nat,
                8,
            ),
        decreases 8 - i,
    {
        let ghost before = r@;
        let b: u8 = (rest % 256) as u8;
        r[i] = b;
        proof {
            assert(before.subrange(0, i as int) + le_bytes(rest as nat, (8 - i) as nat)
                =~= r@.subrange(0, i + 1) + le_bytes(rest as nat / 256, (8 - i - 1) as nat));
        }
        rest = rest / 256;
        i = i + 1;
    }
    proof {
        assert(r@.subrange(0, 8) =~= r@);
        assert(le_bytes(rest as nat, 0) =~= Seq::<u8>::empty());
    }
    r
}

/// The four bytes of `x`, least significant first.
pub fn u32_to_le(x: u32) -> (r: [u8; 4])
    ensures
        r@ == le_bytes(x as nat, 4),
{
    let mut r: [u8; 4] = [0; 4];
    let mut rest: u32 = x;
    let mut i: usize = 0;
    while i < 4
        invariant
            i <= 4,
            r@.subrange(0, i as int) + le_bytes(rest as nat, (4 - i) as nat) =~= le_bytes(
                x as nat,
                4,
            ),
        decreases 4 - i,
    {
        let ghost before = r@;
        let b: u8 = (rest % 256) as u8;
        r[i] = b;
        proof {
            assert(before.subrange(0, i as int) + le_bytes(rest as nat, (4 - i) as nat)
                =~= r@.subrange(0, i + 1) + le_bytes(rest as nat / 256, (4 - i - 1) as nat));
        }
        rest = rest / 256;
        i = i + 1;
    }
    proof {
        assert(r@.subrange(0, 4) =~= r@);
        assert(le_bytes(rest as nat, 0) =~= Seq::<u8>::empty());
    }
    r
}

/// Reads a little-endian number of at most eight bytes, `buf[at..at + n]`.
pub fn read_le(buf: &[u8], at: usize, n: usize) -> (v: u64)
    requires
        n <= 8,
        at + n <= buf@.len(),
    ensures
        v == le_value(buf@.subrange(at as int, at + n)),
        v < pow256(n as nat),
{
    let mut v: u64 = 0;
    let mut i: usize = n;
    proof {
        assert(buf@.subrange(at + n, at + n) =~= Seq::<u8>::empty());
        lemma_pow256_small();
    }
    while i > 0
        invariant
            i <= n <= 8,
            at + n <= buf@.len(),
            v == le_value(buf@.subrange(at + i, at + n)),
            v < pow256((n - i) as nat),
        decreases i,
    {
        i = i - 1;
        let ghost tail = buf@.subrange(at + i, at + n);
        proof {
            assert(tail.drop_first() =~= buf@.subrange(at + i + 1, at + n));
            lemma_pow256_mono((n - i) as nat, 8);
            lemma_pow256_small();
            lemma_le_value_bound(tail);
            assert(at + n <= buf.len());
        }
        v = v * 256 + buf[at + i] as u64;
    }
    v
}

/// Reads a big-endian number of at most eight bytes, `buf[at..at + n]`.
pub fn read_be(buf: &[u8], at: usize, n: usize) -> (v: u64)
    requires
        n <= 8,
        at + n <= buf@.len(),
    ensures
        v == be_value(buf@.subrange(at as int, at + n)),
        v < pow256(n as nat),
{
    let mut v: u64 = 0;
    let mut i: usize = 0;
    proof {
        assert(buf@.subrange(at as int, at as int) =~= Seq::<u8>::empty());
    }
    while i < n
        invariant
            i <= n <= 8,
            at + n <= buf@.len(),
            v == be_value(buf@.subrange(at as int, at + i)),
            v < pow256(i as nat),
        decreases n - i,
    {
        let ghost head = buf@.subrange(at as int, at + i + 1);
        proof {
            assert(head.drop_last() =~= buf@.subrange(at as int, at + i));
            lemma_pow256_mono((i + 1) as nat, 8);
            lemma_pow256_small();
            lemma_be_value_bound(head);
            assert(at + n <= buf.len());
        }
        v = v * 256 + buf[at + i] as u64;
        i = i + 1;
    }
    v
}

pub proof fn lemma_pow256_mono(m: nat, n: nat)
    requires
        m <= n,
    ensures
        1 <= pow256(m) <= pow256(n),
    decreases n,
{
    if n > 0 && m < n {
        lemma_pow256_mono(m, (n - 1) as nat);
    } else if n > 0 {
        lemma_pow256_mono((n - 1) as nat, (n - 1) as nat);
    }
}

/// Copies a slice of the right length into an array.
pub fn to_array<const N: usize>(s: &[u8]) -> (r: [u8; N])
    requires
        s@.len() == N,
    ensures
        r@ == s@,
{
    let mut r: [u8; N] = [0u8; N];
    let mut i: usize = 0;
    while i < N
        invariant
            i <= N,
            s@.len() == N,
            r@.subrange(0, i as int) =~= s@.subrange(0, i as int),
        decreases N - i,
    {
        let ghost before = r@;
        r[i] = s[i];
        proof {
            assert forall|j: int| 0 <= j < i + 1 implies r@[j] == s@[j] by {
                if j < i {
                    assert(before.subrange(0, i as int)[j] == s@.subrange(0, i as int)[j]);
                }
            }
        }
        i = i + 1;
    }
    proof {
        assert(r@.subrange(0, N as int) =~= r@);
        assert(s@.subrange(0, N as int) =~= s@);
    }
    r
}

/// Copies a slice into a vector.
pub fn to_vec(s: &[u8]) -> (r: Vec<u8>)
    ensures
        r@ == s@,
{
    let mut r: Vec<u8> = Vec::new();
    r.extend_from_slice(s);
    proof {
        assert(r@ =~= s@);
    }
    r
}

/// XOR of two arrays.
pub fn xor_arrays<const N: usize>(a: &[u8; N], b: &[u8; N]) -> (r: [u8; N])
    ensures
        r@ == xor_seq(a@, b@),
{
    let mut r: [u8; N] = [0u8; N];
    let mut i: usize = 0;
    while i < N
        invariant
            i <= N,
            forall|j: int| 0 <= j < i ==> r@[j] == a@[j] ^ b@[j],
        decreases N - i,
    {
        r[i] = a[i] ^ b[i];
        i = i + 1;
    }
    proof {
        assert(r@ =~= xor_seq(a@, b@));
    }
    r
}

/// `a` followed by `b`.
pub fn concat(a: &[u8], b: &[u8]) -> (r: Vec<u8>)
    ensures
        r@ == a@ + b@,
{
    let mut r: Vec<u8> = to_vec(a);
    r.extend_from_slice(b);
    proof {
        assert(r@ =~= a@ + b@);
    }
    r
}

/// Whether two slices hold the same bytes.
pub fn slices_equal(a: &[u8], b: &[u8]) -> (r: bool)
    ensures
        r == (a@ == b@),
{
    if a.len() != b.len() {
        return false;
    }
    let mut i: usize = 0;
    while i < a.len()
        invariant
            i <= a@.len(),
            a@.len() == b@.len(),
            forall|j: int| 0 <= j < i ==> a@[j] == b@[j],
        decreases a@.len() - i,
    {
        if a[i] != b[i] {
            return false;
        }
        i = i + 1;
    }
    proof {
        assert(a@ =~= b@);
    }
    true
}

/// Numbers are written least significant byte first, or, where so said, most
/// significant byte first.
pub proof fn law_byte_order(a: u8, s: Seq<u8>, x: nat, n: nat)
    requires
        n > 0,
    ensures
        le_value(seq![a] + s) == a + 256 * le_value(s),
        be_value(s.push(a)) == 256 * be_value(s) + a,
        le_value(Seq::empty()) == 0,
        be_value(Seq::empty()) == 0,
        le_bytes(x, n).len() == n,
        le_bytes(x, n)[0] == x % 256,
        be_bytes(x, n).len() == n,
        be_bytes(x, n)[n - 1] == x % 256,
{
    assert((seq![a] + s).drop_first() =~= s);
    assert(s.push(a).drop_last() =~= s);
    lemma_le_bytes_len(x, n);
}

/// Numbers that fit are read back from their bytes, in either order.
pub proof fn law_numbers_read_back(x: nat, n: nat)
    requires
        x < pow256(n),
    ensures
        le_value(le_bytes(x, n)) == x,
        be_value(be_bytes(x, n)) == x,
{
    lemma_le_value_of_bytes(x, n);
    lemma_reversed(le_bytes(x, n));
}

proof fn lemma_reversed(s: Seq<u8>)
    ensures
        be_value(s.reverse()) == le_value(s),
    decreases s.len(),
{
    if s.len() > 0 {
        lemma_reversed(s.drop_first());
        assert(s.reverse().drop_last() =~= s.drop_first().reverse());
        assert(s.reverse().last() == s[0]);
    } else {
        assert(s.reverse() =~= Seq::<u8>::empty());
    }
}

/// Zeros are zeros, and masking goes byte by byte.
pub proof fn law_zeros_and_masks(n: nat, a: Seq<u8>, b: Seq<u8>, i: int)
    ensures
        zeros(n).len() == n,
        0 <= i < n ==> zeros(n)[i] == 0,
        xor_seq(a, b).len() == a.len(),
        0 <= i < a.len() ==> xor_seq(a, b)[i] == a[i] ^ b[i],
{
}

} // verus!
