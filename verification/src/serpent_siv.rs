//! Serpent-SIV: deterministic authenticated encryption under a synthetic IV,
//! with Serpent as the block cipher. The 256-bit key splits into a half
//! for the synthetic IV (CMAC) and a half for the counter mode.
//!
//! A block is a 128-bit number, least significant byte first.
use vstd::prelude::*;

use crate::bytes;
use crate::crypto;
use crate::primitives;

verus! {

/// Bytes in a block.
pub const BLOCK: usize = 16;

/// One more than the largest block.
pub open spec fn modulus() -> nat {
    bytes::pow256(BLOCK as nat)
}

/// Doubling in the field GF(2^128) with the polynomial
/// x^128 + x^7 + x^2 + x + 1.
pub open spec fn doubled(s: Seq<u8>) -> Seq<u8> {
    let twice = 2 * bytes::le_value(s);
    let low = bytes::le_bytes(twice % modulus(), BLOCK as nat);
    if twice >= modulus() {
        low.update(0, low[0] ^ 0x87)
    } else {
        low
    }
}

/// The block `n` places after `q`.
pub open spec fn counted(q: Seq<u8>, n: nat) -> Seq<u8> {
    bytes::le_bytes((bytes::le_value(q) + n) % modulus(), BLOCK as nat)
}

/// A text shorter than a block, a one bit behind it, and zeros up to a block.
pub open spec fn padded(x: Seq<u8>) -> Seq<u8> {
    x.push(0x80) + bytes::zeros((BLOCK - 1 - x.len()) as nat)
}

/// `last` with `d` masked onto its last block.
pub open spec fn xor_end(last: Seq<u8>, d: Seq<u8>) -> Seq<u8> {
    let cut = last.len() - BLOCK;
    last.subrange(0, cut) + bytes::xor_seq(last.subrange(cut, last.len() as int), d)
}

/// The chaining value once the first `n` strings of associated data have gone
/// in.
pub open spec fn s2v_state(k1: Seq<u8>, ads: Seq<Seq<u8>>, n: nat) -> Seq<u8>
    decreases n,
{
    if n == 0 {
        primitives::cmac_serpent_tag(k1, bytes::zeros(BLOCK as nat))
    } else {
        bytes::xor_seq(
            doubled(s2v_state(k1, ads, (n - 1) as nat)),
            primitives::cmac_serpent_tag(k1, ads[n - 1]),
        )
    }
}

/// The synthetic IV of associated data and plaintext.
pub open spec fn synthetic_iv(k1: Seq<u8>, ads: Seq<Seq<u8>>, last: Seq<u8>) -> Seq<u8> {
    let d = s2v_state(k1, ads, ads.len());
    if last.len() >= BLOCK {
        primitives::cmac_serpent_tag(k1, xor_end(last, d))
    } else {
        primitives::cmac_serpent_tag(k1, bytes::xor_seq(doubled(d), padded(last)))
    }
}

/// The first counter block: the synthetic IV with bits 31 and 63 cleared.
pub open spec fn first_counter(v: Seq<u8>) -> Seq<u8> {
    v.update(3, v[3] & 0x7f).update(7, v[7] & 0x7f)
}

/// The first `n` bytes of the counter-mode stream that starts from `q`.
pub open spec fn ctr_stream(k2: Seq<u8>, q: Seq<u8>, n: nat) -> Seq<u8> {
    Seq::new(n, |i: int| primitives::serpent_encrypted(k2, counted(q, (i / 16) as nat))[i % 16])
}

/// `data` masked with the counter-mode stream of the IV `v`.
pub open spec fn ctr_masked(k2: Seq<u8>, v: Seq<u8>, data: Seq<u8>) -> Seq<u8> {
    bytes::xor_seq(data, ctr_stream(k2, first_counter(v), data.len()))
}

/// The sealed form of a plaintext: the synthetic IV, then the masked text.
pub open spec fn siv_sealed(key: Seq<u8>, ad: Seq<u8>, plaintext: Seq<u8>) -> Seq<u8> {
    let v = synthetic_iv(key.subrange(0, 16), seq![ad], plaintext);
    v + ctr_masked(key.subrange(16, 32), v, plaintext)
}

/// What a sealed text opens to: nothing where it is shorter than an IV, or
/// where the IV is not that of the text it unmasks to.
pub open spec fn siv_opened(key: Seq<u8>, ad: Seq<u8>, sealed: Seq<u8>) -> Option<Seq<u8>> {
    if sealed.len() < BLOCK {
        None
    } else {
        let v = sealed.subrange(0, BLOCK as int);
        let text = ctr_masked(
            key.subrange(16, 32),
            v,
            sealed.subrange(BLOCK as int, sealed.len() as int),
        );
        if synthetic_iv(key.subrange(0, 16), seq![ad], text) == v {
            Some(text)
        } else {
            None
        }
    }
}

fn xor_block(a: &[u8; 16], b: &[u8; 16]) -> (r: [u8; 16])
    ensures
        r@ == bytes::xor_seq(a@, b@),
{
    bytes::xor_arrays(a, b)
}

/// Doubles a block.
fn dbl(s: &[u8; 16]) -> (r: [u8; 16])
    ensures
        r@ == doubled(s@),
{
    let mut r: [u8; 16] = [0; 16];
    let mut carry: u16 = 0;
    let mut i: usize = 0;
    proof {
        assert(s@.subrange(0, 0) =~= Seq::<u8>::empty());
        assert(r@.subrange(0, 0) =~= Seq::<u8>::empty());
        assert(bytes::pow256(0) * carry == 0) by (nonlinear_arith)
            requires
                carry == 0,
        ;
    }
    while i < BLOCK
        invariant
            i <= BLOCK,
            carry <= 1,
            bytes::le_value(r@.subrange(0, i as int)) + bytes::pow256(i as nat) * carry == 2
                * bytes::le_value(s@.subrange(0, i as int)),
        decreases BLOCK - i,
    {
        let ghost before = r@;
        let ghost old_carry = carry as int;
        let t: u16 = 2 * (s[i] as u16) + carry;
        r[i] = (t % 256) as u8;
        carry = t / 256;
        proof {
            assert(r@.subrange(0, i + 1) =~= before.subrange(0, i as int).push(r@[i as int]));
            assert(s@.subrange(0, i + 1) =~= s@.subrange(0, i as int).push(s@[i as int]));
            bytes::lemma_le_value_push(before.subrange(0, i as int), r@[i as int]);
            bytes::lemma_le_value_push(s@.subrange(0, i as int), s@[i as int]);
            let p = bytes::pow256(i as nat) as int;
            let lo = r@[i as int] as int;
            let hi = carry as int;
            let b = s@[i as int] as int;
            assert(p * lo + (256 * p) * hi == p * (2 * b + old_carry)) by (nonlinear_arith)
                requires
                    lo + 256 * hi == 2 * b + old_carry,
            ;
            assert(p * (2 * b + old_carry) == 2 * (p * b) + p * old_carry) by (nonlinear_arith);
        }
        i = i + 1;
    }
    proof {
        assert(r@.subrange(0, 16) =~= r@);
        assert(s@.subrange(0, 16) =~= s@);
        let v = bytes::le_value(r@);
        let m = modulus() as int;
        let twice = 2 * bytes::le_value(s@);
        bytes::lemma_le_value_bound(r@);
        assert(carry == 0 || carry == 1);
        assert(m * carry == if carry == 1 { m } else { 0 }) by (nonlinear_arith)
            requires
                carry == 0 || carry == 1,
        ;
        if carry == 1 {
            vstd::arithmetic::div_mod::lemma_fundamental_div_mod_converse(
                twice as int,
                m,
                1,
                v as int,
            );
        } else {
            vstd::arithmetic::div_mod::lemma_small_mod(twice, m as nat);
        }
        assert(twice % (m as nat) == v);
        bytes::lemma_le_bytes_of_value(r@);
    }
    if carry == 1 {
        r[0] = r[0] ^ 0x87;
    }
    r
}

/// Counting on from a counted block.
proof fn lemma_counted_next(q: Seq<u8>, n: nat)
    ensures
        counted(counted(q, n), 1) == counted(q, n + 1),
{
    let m = modulus() as int;
    let base = bytes::le_value(q) as int;
    bytes::lemma_pow256_small();
    vstd::arithmetic::div_mod::lemma_mod_bound(base + n, m);
    bytes::lemma_le_value_of_bytes(((base + n) % m) as nat, BLOCK as nat);
    vstd::arithmetic::div_mod::lemma_small_mod(1, m as nat);
    vstd::arithmetic::div_mod::lemma_add_mod_noop(base + n, 1, m);
}

proof fn lemma_counted_zero(q: Seq<u8>)
    requires
        q.len() == BLOCK,
    ensures
        counted(q, 0) == q,
{
    bytes::lemma_le_value_bound(q);
    vstd::arithmetic::div_mod::lemma_small_mod(bytes::le_value(q), modulus());
    bytes::lemma_le_bytes_of_value(q);
}

/// Adds one to a block, wrapping around.
fn inc128(c: &mut [u8; 16])
    ensures
        final(c)@ == counted(old(c)@, 1),
{
    let ghost before = c@;
    let mut carry: bool = true;
    let mut i: usize = 0;
    proof {
        assert(before.subrange(0, 0) =~= Seq::<u8>::empty());
    }
    while i < BLOCK
        invariant
            i <= BLOCK,
            before.len() == BLOCK,
            forall|j: int| i <= j < BLOCK ==> c@[j] == before[j],
            bytes::le_value(c@.subrange(0, i as int)) + (if carry {
                bytes::pow256(i as nat) as int
            } else {
                0
            }) == bytes::le_value(before.subrange(0, i as int)) + 1,
        decreases BLOCK - i,
    {
        let ghost mid = c@;
        if carry {
            if c[i] == 255 {
                c[i] = 0;
            } else {
                c[i] = c[i] + 1;
                carry = false;
            }
        }
        proof {
            assert(c@.subrange(0, i + 1) =~= mid.subrange(0, i as int).push(c@[i as int]));
            assert(before.subrange(0, i + 1) =~= before.subrange(0, i as int).push(
                before[i as int],
            ));
            bytes::lemma_le_value_push(mid.subrange(0, i as int), c@[i as int]);
            bytes::lemma_le_value_push(before.subrange(0, i as int), before[i as int]);
            let p = bytes::pow256(i as nat) as int;
            let b = before[i as int] as int;
            assert(p * (b + 1) == p * b + p) by (nonlinear_arith);
            assert(p * 0 == 0) by (nonlinear_arith);
            assert(p * 255 + p == 256 * p) by (nonlinear_arith);
        }
        i = i + 1;
    }
    proof {
        assert(c@.subrange(0, 16) =~= c@);
        assert(before.subrange(0, 16) =~= before);
        let m = modulus() as int;
        let v0 = bytes::le_value(before) as int;
        let v1 = bytes::le_value(c@) as int;
        bytes::lemma_le_value_bound(c@);
        bytes::lemma_le_value_bound(before);
        if carry {
            assert(v1 + m == v0 + 1);
            vstd::arithmetic::div_mod::lemma_fundamental_div_mod_converse(v0 + 1, m, 1, v1);
        } else {
            vstd::arithmetic::div_mod::lemma_small_mod((v0 + 1) as nat, m as nat);
        }
        bytes::lemma_le_bytes_of_value(c@);
    }
}

/// Pads a text shorter than a block.
fn pad16(x: &[u8]) -> (r: [u8; 16])
    requires
        x@.len() < BLOCK,
    ensures
        r@ == padded(x@),
{
    let mut r: [u8; 16] = [0; 16];
    let mut i: usize = 0;
    while i < x.len()
        invariant
            i <= x@.len() < BLOCK,
            forall|j: int| 0 <= j < i ==> r@[j] == x@[j],
            forall|j: int| i <= j < BLOCK ==> r@[j] == 0,
        decreases x@.len() - i,
    {
        r[i] = x[i];
        i = i + 1;
    }
    r[i] = 0x80;
    proof {
        assert(r@ =~= padded(x@));
    }
    r
}

/// The strings behind a row of slices.
pub open spec fn strings(v: Seq<&[u8]>) -> Seq<Seq<u8>> {
    v.map_values(|s: &[u8]| s@)
}

/// The synthetic IV of any number of strings of associated data and of the
/// plaintext.
pub fn s2v(k1: &[u8], ads: &[&[u8]], last: &[u8]) -> (v: [u8; 16])
    requires
        k1@.len() == 16,
    ensures
        v@ == synthetic_iv(k1@, strings(ads@), last@),
{
    let zero: [u8; 16] = [0; 16];
    proof {
        assert(zero@ =~= bytes::zeros(BLOCK as nat));
    }
    let mut d: [u8; 16] = primitives::cmac_serpent(k1, &zero);
    let mut n: usize = 0;
    while n < ads.len()
        invariant
            n <= ads@.len(),
            k1@.len() == 16,
            d@ == s2v_state(k1@, strings(ads@), n as nat),
        decreases ads@.len() - n,
    {
        let tag: [u8; 16] = primitives::cmac_serpent(k1, ads[n]);
        let twice: [u8; 16] = dbl(&d);
        d = xor_block(&twice, &tag);
        proof {
            assert(strings(ads@)[n as int] == ads@[n as int]@);
        }
        n = n + 1;
    }
    if last.len() >= BLOCK {
        let mut t: Vec<u8> = bytes::to_vec(last);
        let end: usize = t.len() - BLOCK;
        let mut j: usize = 0;
        while j < BLOCK
            invariant
                j <= BLOCK,
                end + BLOCK == last@.len(),
                t@.len() == last@.len(),
                forall|i: int| 0 <= i < end ==> t@[i] == last@[i],
                forall|i: int| 0 <= i < j ==> t@[end + i] == last@[end + i] ^ d@[i],
                forall|i: int| end + j <= i < t@.len() ==> t@[i] == last@[i],
            decreases BLOCK - j,
        {
            proof {
                assert(end + BLOCK == t.len());
            }
            t[end + j] = t[end + j] ^ d[j];
            j = j + 1;
        }
        proof {
            let want = xor_end(last@, d@);
            assert(want.len() == t@.len());
            assert forall|i: int| 0 <= i < t@.len() implies t@[i] == want[i] by {
                if i >= end {
                    assert(t@[end + (i - end)] == last@[end + (i - end)] ^ d@[i - end]);
                }
            }
            assert(t@ =~= want);
        }
        primitives::cmac_serpent(k1, t.as_slice())
    } else {
        let twice: [u8; 16] = dbl(&d);
        let pad: [u8; 16] = pad16(last);
        let t: [u8; 16] = xor_block(&twice, &pad);
        primitives::cmac_serpent(k1, &t)
    }
}

/// Clears the two bits of the IV that the counter mode leaves out.
fn ctr_mask(v: &[u8; 16]) -> (q: [u8; 16])
    ensures
        q@ == first_counter(v@),
{
    let mut q: [u8; 16] = *v;
    q[3] = q[3] & 0x7f;
    q[7] = q[7] & 0x7f;
    q
}

/// Masks `data` with the counter-mode stream of the IV `v`, and appends it to
/// `out`.
fn ctr_append(k2: &[u8], v: &[u8; 16], data: &[u8], out: &mut Vec<u8>)
    requires
        k2@.len() == 16,
    ensures
        final(out)@ == old(out)@ + ctr_masked(k2@, v@, data@),
{
    let q: [u8; 16] = ctr_mask(v);
    let mut counter: [u8; 16] = q;
    let ghost stream = ctr_stream(k2@, q@, data@.len());
    let ghost start = out@;
    let ghost mut n: nat = 0;
    proof {
        lemma_counted_zero(q@);
    }
    let mut i: usize = 0;
    while i < data.len()
        invariant
            i <= data@.len(),
            i == 16 * n || i == data@.len(),
            i < data@.len() ==> i == 16 * n,
            k2@.len() == 16,
            stream == ctr_stream(k2@, q@, data@.len()),
            counter@ == counted(q@, n),
            out@.len() == start.len() + i,
            forall|j: int| 0 <= j < start.len() ==> out@[j] == start[j],
            forall|j: int| 0 <= j < i ==> out@[start.len() + j] == data@[j] ^ stream[j],
        decreases data@.len() - i,
    {
        let ek: [u8; 16] = primitives::serpent_block(k2, &counter);
        let take: usize = if data.len() - i < BLOCK { data.len() - i } else { BLOCK };
        let mut j: usize = 0;
        while j < take
            invariant
                j <= take <= 16,
                i + take <= data@.len(),
                i == 16 * n,
                stream == ctr_stream(k2@, q@, data@.len()),
                ek@ == primitives::serpent_encrypted(k2@, counted(q@, n)),
                out@.len() == start.len() + i + j,
                forall|k: int| 0 <= k < start.len() ==> out@[k] == start[k],
                forall|k: int| 0 <= k < i + j ==> out@[start.len() + k] == data@[k] ^ stream[k],
            decreases take - j,
        {
            proof {
                assert(i + take <= data.len());
                assert((i + j) / 16 == n && (i + j) % 16 == j as int);
            }
            out.push(data[i + j] ^ ek[j]);
            j = j + 1;
        }
        proof {
            lemma_counted_next(q@, n);
            n = n + 1;
        }
        inc128(&mut counter);
        i = i + take;
    }
    proof {
        let want = start + ctr_masked(k2@, v@, data@);
        assert(out@.len() == want.len());
        assert forall|k: int| 0 <= k < out@.len() implies out@[k] == want[k] by {
            if k >= start.len() {
                assert(out@[start.len() + (k - start.len())] == data@[k - start.len()] ^ stream[k
                    - start.len()]);
            }
        }
        assert(out@ =~= want);
    }
}

/// Seals a plaintext. What is sealed opens again under the same key and
/// associated data.
pub fn siv_encrypt(key32: &[u8], ad: &[u8], plaintext: &[u8]) -> (out: Vec<u8>)
    requires
        key32@.len() >= 32,
    ensures
        out@ == siv_sealed(key32@, ad@, plaintext@),
        out@.len() == BLOCK + plaintext@.len(),
        siv_opened(key32@, ad@, out@) == Some(plaintext@),
{
    let k1: &[u8] = vstd::slice::slice_subrange(key32, 0, 16);
    let k2: &[u8] = vstd::slice::slice_subrange(key32, 16, 32);
    let ads: [&[u8]; 1] = [ad];
    proof {
        assert(strings(ads@) =~= seq![ad@]);
    }
    let v: [u8; 16] = s2v(k1, &ads, plaintext);
    let mut out: Vec<u8> = bytes::to_vec(&v);
    ctr_append(k2, &v, plaintext, &mut out);
    proof {
        let body = ctr_masked(k2@, v@, plaintext@);
        assert(out@.subrange(0, BLOCK as int) =~= v@);
        assert(out@.subrange(BLOCK as int, out@.len() as int) =~= body);
        bytes::lemma_xor_seq_twice(
            plaintext@,
            ctr_stream(k2@, first_counter(v@), plaintext@.len()),
        );
    }
    out
}

/// Opens a sealed text. Whatever opens is what sealing its plaintext gives.
pub fn siv_decrypt(key32: &[u8], ad: &[u8], ciphertext: &[u8]) -> (r: Option<Vec<u8>>)
    requires
        key32@.len() >= 32,
    ensures
        primitives::opt_bytes(r) == siv_opened(key32@, ad@, ciphertext@),
        r matches Some(p) ==> siv_sealed(key32@, ad@, p@) == ciphertext@,
{
    if ciphertext.len() < BLOCK {
        return None;
    }
    let k1: &[u8] = vstd::slice::slice_subrange(key32, 0, 16);
    let k2: &[u8] = vstd::slice::slice_subrange(key32, 16, 32);
    let (head, ct) = ciphertext.split_at(BLOCK);
    let v: [u8; 16] = bytes::to_array(head);
    let mut out: Vec<u8> = Vec::new();
    ctr_append(k2, &v, ct, &mut out);
    proof {
        assert(out@ =~= ctr_masked(k2@, v@, ct@));
    }
    let ads: [&[u8]; 1] = [ad];
    proof {
        assert(strings(ads@) =~= seq![ad@]);
    }
    let v_check: [u8; 16] = s2v(k1, &ads, out.as_slice());
    if !crypto::ct_eq(&v_check, &v) {
        return None;
    }
    proof {
        bytes::lemma_xor_seq_twice(ct@, ctr_stream(k2@, first_counter(v@), ct@.len()));
        assert(ciphertext@ =~= v@ + ct@);
    }
    Some(out)
}

/// Whether CMAC gives one tag for two different strings.
pub open spec fn tags_collide(k1: Seq<u8>) -> bool {
    exists|x: Seq<u8>, y: Seq<u8>|
        x != y && #[trigger] primitives::cmac_serpent_tag(k1, x)
            == #[trigger] primitives::cmac_serpent_tag(k1, y)
}

proof fn lemma_xor_keeps_apart(a: u8, b: u8, c: u8)
    by (bit_vector)
    ensures
        a ^ c == b ^ c ==> a == b,
        c ^ a == c ^ b ==> a == b,
{
}

/// A mask does not hide a difference.
proof fn lemma_xor_seq_apart(a: Seq<u8>, b: Seq<u8>, c: Seq<u8>)
    requires
        a.len() == b.len(),
        bytes::xor_seq(a, c) == bytes::xor_seq(b, c),
    ensures
        a == b,
{
    assert forall|i: int| 0 <= i < a.len() implies a[i] == b[i] by {
        let z = c[i];
        assert(bytes::xor_seq(a, c)[i] == a[i] ^ z);
        assert(bytes::xor_seq(b, c)[i] == b[i] ^ z);
        lemma_xor_keeps_apart(a[i], b[i], z);
    }
    assert(a =~= b);
}

proof fn lemma_xor_end_apart(p: Seq<u8>, q: Seq<u8>, d: Seq<u8>)
    requires
        p.len() >= 16,
        q.len() >= 16,
        xor_end(p, d) == xor_end(q, d),
    ensures
        p == q,
{
    let x = xor_end(p, d);
    let y = xor_end(q, d);
    assert(x.len() == p.len() && y.len() == q.len());
    let cut = p.len() - 16;
    assert(x.subrange(0, cut) =~= p.subrange(0, cut));
    assert(y.subrange(0, cut) =~= q.subrange(0, cut));
    let u = p.subrange(cut, p.len() as int);
    let v = q.subrange(cut, q.len() as int);
    assert(x.subrange(cut, p.len() as int) =~= bytes::xor_seq(u, d));
    assert(y.subrange(cut, q.len() as int) =~= bytes::xor_seq(v, d));
    lemma_xor_seq_apart(u, v, d);
    assert(p =~= p.subrange(0, cut) + u);
    assert(q =~= q.subrange(0, cut) + v);
}

proof fn lemma_padded_apart(p: Seq<u8>, q: Seq<u8>)
    requires
        p.len() < 16,
        q.len() < 16,
        padded(p) == padded(q),
    ensures
        p == q,
{
    let x = padded(p);
    let y = padded(q);
    if p.len() < q.len() {
        assert(x[q.len() as int] == 0 && y[q.len() as int] == 0x80);
    } else if q.len() < p.len() {
        assert(y[p.len() as int] == 0 && x[p.len() as int] == 0x80);
    } else {
        assert forall|i: int| 0 <= i < p.len() implies p[i] == q[i] by {
            assert(x[i] == p.push(0x80)[i] && y[i] == q.push(0x80)[i]);
        }
        assert(p =~= q);
    }
}

proof fn lemma_short_input_apart(p: Seq<u8>, q: Seq<u8>, d: Seq<u8>)
    requires
        p.len() < 16,
        q.len() < 16,
        bytes::xor_seq(doubled(d), padded(p)) == bytes::xor_seq(doubled(d), padded(q)),
    ensures
        p == q,
{
    let m = doubled(d);
    bytes::lemma_le_bytes_len(2 * bytes::le_value(d) % modulus(), 16);
    assert(m.len() == 16);
    assert forall|i: int| 0 <= i < 16 implies padded(p)[i] == padded(q)[i] by {
        assert(bytes::xor_seq(m, padded(p))[i] == bytes::xor_seq(m, padded(q))[i]);
        lemma_xor_keeps_apart(padded(p)[i], padded(q)[i], m[i]);
    }
    assert(padded(p) =~= padded(q));
    lemma_padded_apart(p, q);
}

/// Every byte of a plaintext is authenticated: under one key and one row of
/// associated data, two plaintexts have the same synthetic IV only if they are
/// the same, or if CMAC gives one tag for two different strings. This holds of
/// any two plaintexts that are both at least a block long, of any two that are
/// both shorter, and of a short one beside one of more than a block.
pub proof fn law_every_byte_is_authenticated(
    k1: Seq<u8>,
    ads: Seq<Seq<u8>>,
    p: Seq<u8>,
    q: Seq<u8>,
)
    requires
        p != q,
        p.len() < 16 ==> q.len() != 16,
        q.len() < 16 ==> p.len() != 16,
        synthetic_iv(k1, ads, p) == synthetic_iv(k1, ads, q),
    ensures
        tags_collide(k1),
{
    let d = s2v_state(k1, ads, ads.len());
    let x = if p.len() >= 16 {
        xor_end(p, d)
    } else {
        bytes::xor_seq(doubled(d), padded(p))
    };
    let y = if q.len() >= 16 {
        xor_end(q, d)
    } else {
        bytes::xor_seq(doubled(d), padded(q))
    };
    bytes::lemma_le_bytes_len(2 * bytes::le_value(d) % modulus(), 16);
    assert(doubled(d).len() == 16);
    if x == y {
        if p.len() >= 16 && q.len() >= 16 {
            lemma_xor_end_apart(p, q, d);
        } else if p.len() < 16 && q.len() < 16 {
            lemma_short_input_apart(p, q, d);
        } else {
            assert(x.len() != y.len());
        }
    }
    assert(x != y && primitives::cmac_serpent_tag(k1, x) == primitives::cmac_serpent_tag(k1, y));
}

/// The tag of a longer text is taken of a string of the same length, which
/// differs from the text in its last block alone.
pub proof fn law_tag_covers_the_text(k1: Seq<u8>, ads: Seq<Seq<u8>>, p: Seq<u8>)
    requires
        p.len() >= 16,
    ensures
        exists|x: Seq<u8>|
            synthetic_iv(k1, ads, p) == #[trigger] primitives::cmac_serpent_tag(k1, x) && x.len()
                == p.len() && x.subrange(0, p.len() - 16) == p.subrange(0, p.len() - 16),
{
    let x = xor_end(p, s2v_state(k1, ads, ads.len()));
    assert(x.subrange(0, p.len() - 16) =~= p.subrange(0, p.len() - 16));
    assert(synthetic_iv(k1, ads, p) == primitives::cmac_serpent_tag(k1, x) && x.len() == p.len());
}

/// Every string of associated data is authenticated: two rows that differ in
/// their last string alone give the same synthetic IV only where CMAC gives one
/// tag for two different strings. The tags are taken to be blocks, as CMAC
/// gives them.
pub proof fn law_associated_data_is_authenticated(
    k1: Seq<u8>,
    front: Seq<Seq<u8>>,
    a: Seq<u8>,
    b: Seq<u8>,
    p: Seq<u8>,
)
    requires
        a != b,
        p.len() >= 16,
        primitives::cmac_serpent_tag(k1, a).len() == 16,
        primitives::cmac_serpent_tag(k1, b).len() == 16,
        synthetic_iv(k1, front.push(a), p) == synthetic_iv(k1, front.push(b), p),
    ensures
        tags_collide(k1),
{
    let ta = primitives::cmac_serpent_tag(k1, a);
    let tb = primitives::cmac_serpent_tag(k1, b);
    if ta != tb {
        let n = front.len();
        lemma_state_prefix(k1, front, a, n);
        lemma_state_prefix(k1, front, b, n);
        let m = doubled(s2v_state(k1, front, n));
        let da = bytes::xor_seq(m, ta);
        let db = bytes::xor_seq(m, tb);
        bytes::lemma_le_bytes_len(2 * bytes::le_value(s2v_state(k1, front, n)) % modulus(), 16);
        assert(m.len() == 16);
        assert(s2v_state(k1, front.push(a), n + 1) == da);
        assert(s2v_state(k1, front.push(b), n + 1) == db);
        let x = xor_end(p, da);
        let y = xor_end(p, db);
        if x == y {
            let cut = p.len() - 16;
            assert forall|i: int| 0 <= i < 16 implies ta[i] == tb[i] by {
                assert(x[cut + i] == y[cut + i]);
                assert(x[cut + i] == p[cut + i] ^ da[i]);
                assert(y[cut + i] == p[cut + i] ^ db[i]);
                lemma_xor_keeps_apart(da[i], db[i], p[cut + i]);
                lemma_xor_keeps_apart(ta[i], tb[i], m[i]);
            }
            assert(ta =~= tb);
        }
        assert(x != y && primitives::cmac_serpent_tag(k1, x) == primitives::cmac_serpent_tag(
            k1,
            y,
        ));
    } else {
        assert(a != b && primitives::cmac_serpent_tag(k1, a) == primitives::cmac_serpent_tag(
            k1,
            b,
        ));
    }
}

/// The chaining value does not read what has not gone in yet.
proof fn lemma_state_prefix(k1: Seq<u8>, front: Seq<Seq<u8>>, a: Seq<u8>, n: nat)
    requires
        n <= front.len(),
    ensures
        s2v_state(k1, front.push(a), n) == s2v_state(k1, front, n),
    decreases n,
{
    if n > 0 {
        lemma_state_prefix(k1, front, a, (n - 1) as nat);
        assert(front.push(a)[n - 1] == front[n - 1]);
    }
}

/// Different bytes under one mask stay different, so what a ciphertext unmasks
/// to tells it apart.
proof fn lemma_unmasked_apart(k2: Seq<u8>, v: Seq<u8>, c: Seq<u8>, d: Seq<u8>)
    requires
        ctr_masked(k2, v, c) == ctr_masked(k2, v, d),
    ensures
        c == d,
{
    assert(ctr_masked(k2, v, c).len() == c.len());
    assert(ctr_masked(k2, v, d).len() == d.len());
    lemma_xor_seq_apart(c, d, ctr_stream(k2, first_counter(v), c.len()));
}

/// A change is noticed: a sealed text of at least a block that is changed
/// anywhere behind its first sixteen bytes, and keeps its length, does not open,
/// unless CMAC gives one tag for two different strings.
pub proof fn law_change_is_noticed(key: Seq<u8>, ad: Seq<u8>, p: Seq<u8>, changed: Seq<u8>)
    requires
        key.len() >= 32,
        p.len() >= 16,
        synthetic_iv(key.subrange(0, 16), seq![ad], p).len() == 16,
        changed != siv_sealed(key, ad, p),
        changed.len() == siv_sealed(key, ad, p).len(),
        changed.subrange(0, 16) == siv_sealed(key, ad, p).subrange(0, 16),
        siv_opened(key, ad, changed) is Some,
    ensures
        tags_collide(key.subrange(0, 16)),
{
    let k1 = key.subrange(0, 16);
    let k2 = key.subrange(16, 32);
    let v = synthetic_iv(k1, seq![ad], p);
    let sealed = siv_sealed(key, ad, p);
    assert(sealed.subrange(0, 16) =~= v);
    let body = sealed.subrange(16, sealed.len() as int);
    assert(body =~= ctr_masked(k2, v, p));
    let other = changed.subrange(16, changed.len() as int);
    let q = ctr_masked(k2, v, other);
    assert(q.len() == p.len());
    bytes::lemma_xor_seq_twice(p, ctr_stream(k2, first_counter(v), p.len()));
    assert(ctr_masked(k2, v, body) == p);
    if q == p {
        lemma_unmasked_apart(k2, v, other, body);
        assert(changed =~= v + other);
        assert(sealed =~= v + body);
    }
    law_every_byte_is_authenticated(k1, seq![ad], p, q);
}

/// No two blocks are masked alike: the counters of any two blocks differ.
pub proof fn law_no_counter_comes_twice(q: Seq<u8>, m: nat, n: nat)
    requires
        m < n < 0x1_0000_0000_0000_0000_0000_0000_0000_0000int,
    ensures
        counted(q, m) != counted(q, n),
{
    let b = bytes::le_value(q) as int;
    let k = 0x1_0000_0000_0000_0000_0000_0000_0000_0000int;
    bytes::lemma_pow256_small();
    assert(modulus() == k);
    vstd::arithmetic::div_mod::lemma_mod_bound(b + m, k);
    vstd::arithmetic::div_mod::lemma_mod_bound(b + n, k);
    bytes::lemma_le_value_of_bytes(((b + m) % k) as nat, 16);
    bytes::lemma_le_value_of_bytes(((b + n) % k) as nat, 16);
    if (b + m) % k == (b + n) % k {
        vstd::arithmetic::div_mod::lemma_fundamental_div_mod(b + m, k);
        vstd::arithmetic::div_mod::lemma_fundamental_div_mod(b + n, k);
        let x = (b + m) / k;
        let y = (b + n) / k;
        assert(n - m == k * y - k * x);
        assert(k * y - k * x == k * (y - x)) by (nonlinear_arith);
        assert(y - x >= 1 ==> k * (y - x) >= k) by (nonlinear_arith)
            requires
                k > 0,
        ;
        assert(y - x <= 0 ==> k * (y - x) <= 0) by (nonlinear_arith)
            requires
                k > 0,
        ;
    }
}

/// Where the sealed text lies and what masks it: the first sixteen bytes are the
/// synthetic IV, and each byte behind them is one of the plaintext, masked with
/// the cipher's block for its place.
pub proof fn law_sealed_layout(key: Seq<u8>, ad: Seq<u8>, p: Seq<u8>, i: int)
    requires
        key.len() >= 32,
        synthetic_iv(key.subrange(0, 16), seq![ad], p).len() == 16,
        0 <= i < p.len(),
    ensures
        ({
            let v = synthetic_iv(key.subrange(0, 16), seq![ad], p);
            let start = v.update(3, v[3] & 0x7f).update(7, v[7] & 0x7f);
            let sealed = siv_sealed(key, ad, p);
            &&& sealed.len() == p.len() + 16
            &&& sealed.subrange(0, 16) == v
            &&& sealed[16 + i] == p[i] ^ primitives::serpent_encrypted(
                key.subrange(16, 32),
                bytes::le_bytes(
                    ((bytes::le_value(start) + i / 16)
                        % 0x1_0000_0000_0000_0000_0000_0000_0000_0000int) as nat,
                    16,
                ),
            )[i % 16]
        }),
{
    bytes::lemma_pow256_small();
    let v = synthetic_iv(key.subrange(0, 16), seq![ad], p);
    assert(siv_sealed(key, ad, p).subrange(0, 16) =~= v);
}

/// Doubling shifts a block by one bit; a bit that falls out comes back as the
/// polynomial's low bits.
pub proof fn law_doubling(s: Seq<u8>)
    requires
        s.len() == 16,
    ensures
        doubled(s).len() == 16,
        ({
            let v = bytes::le_value(s);
            let half = 0x8000_0000_0000_0000_0000_0000_0000_0000nat;
            &&& v < half ==> bytes::le_value(doubled(s)) == 2 * v
            &&& v >= half ==> doubled(s) == ({
                let low = bytes::le_bytes((2 * v - 2 * half) as nat, 16);
                low.update(0, low[0] ^ 0x87)
            })
        }),
{
    bytes::lemma_pow256_small();
    bytes::lemma_le_value_bound(s);
    let v = bytes::le_value(s);
    let m = modulus();
    bytes::lemma_le_bytes_len(2 * v % m, 16);
    if 2 * v < m {
        vstd::arithmetic::div_mod::lemma_small_mod(2 * v, m);
        bytes::lemma_le_value_of_bytes(2 * v, 16);
    } else {
        vstd::arithmetic::div_mod::lemma_fundamental_div_mod_converse(
            (2 * v) as int,
            m as int,
            1,
            2 * v - m,
        );
    }
}

/// The synthetic IV of one string of associated data and a text of at least a
/// block: the CMAC tag of the text, onto whose end the doubled tag of a zero
/// block and the tag of the associated data are masked.
pub proof fn law_synthetic_iv(k1: Seq<u8>, ad: Seq<u8>, p: Seq<u8>)
    requires
        p.len() >= 16,
    ensures
        synthetic_iv(k1, seq![ad], p) == primitives::cmac_serpent_tag(
            k1,
            p.subrange(0, p.len() - 16) + bytes::xor_seq(
                p.subrange(p.len() - 16, p.len() as int),
                bytes::xor_seq(
                    doubled(primitives::cmac_serpent_tag(k1, Seq::new(16, |i: int| 0u8))),
                    primitives::cmac_serpent_tag(k1, ad),
                ),
            ),
        ),
{
    assert(bytes::zeros(16) =~= Seq::new(16, |i: int| 0u8));
    assert(s2v_state(k1, seq![ad], 0) == primitives::cmac_serpent_tag(k1, bytes::zeros(16)));
    assert(s2v_state(k1, seq![ad], 1) == bytes::xor_seq(
        doubled(s2v_state(k1, seq![ad], 0)),
        primitives::cmac_serpent_tag(k1, ad),
    ));
}

/// Each further string of associated data goes in by doubling what is there and
/// masking it with the tag of the string.
pub proof fn law_chaining(k1: Seq<u8>, ads: Seq<Seq<u8>>, a: Seq<u8>)
    ensures
        s2v_state(k1, ads.push(a), ads.len() + 1) == bytes::xor_seq(
            doubled(s2v_state(k1, ads, ads.len())),
            primitives::cmac_serpent_tag(k1, a),
        ),
        s2v_state(k1, ads, 0) == primitives::cmac_serpent_tag(k1, Seq::new(16, |i: int| 0u8)),
{
    lemma_state_prefix(k1, ads, a, ads.len());
    assert(bytes::zeros(16) =~= Seq::new(16, |i: int| 0u8));
}

/// A text shorter than a block is filled up with 0x80 and zeros, and masked with
/// the chaining value doubled once more.
pub proof fn law_short_text(k1: Seq<u8>, ads: Seq<Seq<u8>>, p: Seq<u8>)
    requires
        p.len() < 16,
    ensures
        synthetic_iv(k1, ads, p) == primitives::cmac_serpent_tag(
            k1,
            bytes::xor_seq(
                doubled(s2v_state(k1, ads, ads.len())),
                p + seq![0x80u8] + Seq::new((15 - p.len()) as nat, |i: int| 0u8),
            ),
        ),
{
    assert(padded(p) =~= p + seq![0x80u8] + Seq::new((15 - p.len()) as nat, |i: int| 0u8));
}

/// What is shorter than an IV does not open, and what opens is sixteen bytes
/// shorter than it was sealed.
pub proof fn law_lengths(key: Seq<u8>, ad: Seq<u8>, sealed: Seq<u8>)
    ensures
        sealed.len() < 16 ==> siv_opened(key, ad, sealed) is None,
        siv_opened(key, ad, sealed) matches Some(p) ==> p.len() + 16 == sealed.len(),
        siv_opened(key, ad, sealed) matches Some(p) ==> synthetic_iv(
            key.subrange(0, 16),
            seq![ad],
            p,
        ) == sealed.subrange(0, 16),
{
}

} // verus!
