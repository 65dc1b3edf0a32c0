//! Writing key machine programs: a program that rebuilds two key halves from
//! the key material, padded with instructions that do nothing.
use vstd::prelude::*;

use crate::rustyvm;
use crate::rustyvm::{
    OP_CF_OBFUSCATE_BASE, OP_HALT, OP_OPAQUE_LABEL, OP_OPAQUE_PRED_BASE, OP_PUSH1, OP_PUSHKEY,
    OP_WRMEM, OP_XOR,
};
use crate::splitmix;
use crate::splitmix::SplitMix;

verus! {

/// Bytes in one half of the key.
pub const HALF: usize = 32;

/// No program is longer than this.
pub const PROGRAM_MAX: usize = 1031;

/// `depth` instructions that do nothing, drawn from generator state `s`.
pub open spec fn filler(s: u64, depth: nat) -> Seq<u8>
    decreases depth,
{
    if depth == 0 {
        Seq::empty()
    } else {
        let t = splitmix::advance(s, (3 * (depth - 1)) as nat);
        filler(s, (depth - 1) as nat) + seq![
            (OP_CF_OBFUSCATE_BASE + splitmix::draw(t, 0) % 6) as u8,
            (splitmix::draw(t, 1) % 16) as u8,
            (splitmix::draw(t, 2) % 256) as u8,
        ]
    }
}

/// How many filler instructions stand before a byte's code.
pub open spec fn filler_depth(s: u64) -> nat {
    (splitmix::draw(s, 0) % 3 + 1) as nat
}

/// The instructions that put `material[addr] ^ mask` into output byte `addr`.
pub open spec fn store_code(mask: u8, addr: u8) -> Seq<u8> {
    seq![OP_PUSHKEY, addr, OP_PUSH1, mask, OP_XOR, OP_WRMEM, addr]
}

/// The code of the first `n` bytes of a key half, and the generator state
/// behind it.
pub open spec fn half_code(s: u64, key: Seq<u8>, km: Seq<u8>, base: int, n: nat) -> (Seq<u8>, u64)
    decreases n,
{
    if n == 0 {
        (Seq::empty(), s)
    } else {
        let (code, t) = half_code(s, key, km, base, (n - 1) as nat);
        let depth = filler_depth(t);
        (
            code + filler(splitmix::advance(t, 1), depth) + store_code(
                key[n - 1] ^ km[base + n - 1],
                (base + n - 1) as u8,
            ),
            splitmix::advance(t, 1 + 3 * depth),
        )
    }
}

/// The byte that marks the end of a half: the opaque predicate number `i`.
pub open spec fn label_byte(s: u64, i: nat) -> u8 {
    (OP_OPAQUE_PRED_BASE + splitmix::draw(s, i) % 4) as u8
}

/// The program for the key halves `k1` and `k2`, the key material `km` and a
/// seed.
pub open spec fn vm_program(k1: Seq<u8>, k2: Seq<u8>, km: Seq<u8>, seed: u64) -> Seq<u8> {
    let s = splitmix::seeded(seed);
    let (first, t) = half_code(splitmix::advance(s, 64), k1, km, 0, HALF as nat);
    let (second, _) = half_code(t, k2, km, HALF as int, HALF as nat);
    first + seq![OP_OPAQUE_LABEL, 0u8, label_byte(s, 0)] + second + seq![
        OP_OPAQUE_LABEL,
        1u8,
        label_byte(s, 32),
        OP_HALT,
    ]
}

/// Draws one opaque predicate opcode.
fn gen_opaque_predicate(rng: &mut SplitMix) -> (op: u8)
    ensures
        op == label_byte(old(rng)@, 0),
        final(rng)@ == splitmix::advance(old(rng)@, 1),
{
    let c: u64 = rng.choice(4);
    OP_OPAQUE_PRED_BASE + (c as u8)
}

/// Appends filler instructions and the code that stores one byte.
fn push_byte(prog: &mut Vec<u8>, rng: &mut SplitMix, mask: u8, addr: u8)
    ensures
        final(prog)@ == old(prog)@ + filler(
            splitmix::advance(old(rng)@, 1),
            filler_depth(old(rng)@),
        ) + store_code(mask, addr),
        final(rng)@ == splitmix::advance(old(rng)@, 1 + 3 * filler_depth(old(rng)@)),
{
    let ghost p = prog@;
    let ghost t = rng@;
    let depth: u64 = rng.choice(3) + 1;
    let ghost t1 = rng@;
    let mut d: u64 = 0;
    proof {
        assert(p =~= p + filler(t1, 0));
    }
    while d < depth
        invariant
            d <= depth <= 3,
            prog@ == p + filler(t1, d as nat),
            rng@ == splitmix::advance(t1, (3 * d) as nat),
        decreases depth - d,
    {
        let ghost u = rng@;
        let op: u8 = OP_CF_OBFUSCATE_BASE + (rng.choice(6) as u8);
        proof {
            splitmix::lemma_advance_adds(u, 1, 1);
            splitmix::lemma_advance_adds(u, 2, 1);
        }
        let reg: u8 = rng.choice(16) as u8;
        let noise: u8 = rng.next_u8();
        prog.push(op);
        prog.push(reg);
        prog.push(noise);
        proof {
            splitmix::lemma_advance_adds(t1, (3 * d) as nat, 3);
            assert(splitmix::draw(splitmix::advance(u, 1), 0) == splitmix::draw(u, 1));
            assert(splitmix::draw(splitmix::advance(u, 2), 0) == splitmix::draw(u, 2));
            assert(prog@ =~= p + filler(t1, (d + 1) as nat));
        }
        d = d + 1;
    }
    prog.push(OP_PUSHKEY);
    prog.push(addr);
    prog.push(OP_PUSH1);
    prog.push(mask);
    prog.push(OP_XOR);
    prog.push(OP_WRMEM);
    prog.push(addr);
    proof {
        splitmix::lemma_advance_adds(t, 1, (3 * depth) as nat);
        assert(prog@ =~= p + filler(t1, depth as nat) + store_code(mask, addr));
    }
}

/// Appends the code of one key half.
fn push_half(prog: &mut Vec<u8>, rng: &mut SplitMix, key: &[u8; 32], km: &[u8; 64], base: usize)
    requires
        base == 0 || base == HALF,
    ensures
        final(prog)@ == old(prog)@ + half_code(old(rng)@, key@, km@, base as int, HALF as nat).0,
        final(rng)@ == half_code(old(rng)@, key@, km@, base as int, HALF as nat).1,
{
    let ghost p0 = prog@;
    let ghost s0 = rng@;
    let mut i: usize = 0;
    proof {
        assert(p0 =~= p0 + half_code(s0, key@, km@, base as int, 0).0);
    }
    while i < HALF
        invariant
            i <= HALF,
            base == 0 || base == HALF,
            prog@ == p0 + half_code(s0, key@, km@, base as int, i as nat).0,
            rng@ == half_code(s0, key@, km@, base as int, i as nat).1,
        decreases HALF - i,
    {
        let mask: u8 = key[i] ^ km[base + i];
        let target_addr: u8 = (base + i) as u8;
        push_byte(prog, rng, mask, target_addr);
        i = i + 1;
        proof {
            assert(prog@ =~= p0 + half_code(s0, key@, km@, base as int, i as nat).0);
        }
    }
}

/// Writes the program that rebuilds `k1` and `k2` from `km`.
pub fn gen_vm_program(k1: &[u8; 32], k2: &[u8; 32], km: &[u8; 64], seed: u64) -> (prog: Vec<u8>)
    ensures
        prog@ == vm_program(k1@, k2@, km@, seed),
        prog@.len() <= PROGRAM_MAX,
{
    let mut rng = SplitMix::new(seed);
    let ghost s = rng@;
    let mut labels: Vec<u8> = Vec::new();
    let mut i: usize = 0;
    while i < 64
        invariant
            i <= 64,
            labels@.len() == i,
            rng@ == splitmix::advance(s, i as nat),
            forall|j: int| 0 <= j < i ==> labels@[j] == label_byte(s, j as nat),
        decreases 64 - i,
    {
        proof {
            splitmix::lemma_advance_adds(s, i as nat, 1);
        }
        let label: u8 = gen_opaque_predicate(&mut rng);
        labels.push(label);
        i = i + 1;
    }
    let mut prog: Vec<u8> = Vec::new();
    push_half(&mut prog, &mut rng, k1, km, 0);
    prog.push(OP_OPAQUE_LABEL);
    prog.push(0);
    prog.push(labels[0]);
    push_half(&mut prog, &mut rng, k2, km, HALF);
    prog.push(OP_OPAQUE_LABEL);
    prog.push(1);
    prog.push(labels[32]);
    prog.push(OP_HALT);
    proof {
        assert(prog@ =~= vm_program(k1@, k2@, km@, seed));
        let s1 = splitmix::advance(s, 64);
        lemma_half_len(s1, k1@, km@, 0, HALF as nat);
        let t = half_code(s1, k1@, km@, 0, HALF as nat).1;
        lemma_half_len(t, k2@, km@, HALF as int, HALF as nat);
    }
    prog
}

/// A byte takes at most three filler instructions and seven bytes of code.
proof fn lemma_half_len(s: u64, key: Seq<u8>, km: Seq<u8>, base: int, n: nat)
    ensures
        half_code(s, key, km, base, n).0.len() <= 16 * n,
    decreases n,
{
    if n > 0 {
        lemma_half_len(s, key, km, base, (n - 1) as nat);
        let t = half_code(s, key, km, base, (n - 1) as nat).1;
        lemma_filler_len(splitmix::advance(t, 1), filler_depth(t));
    }
}

/// A machine at rest between two byte codes: no live cell, nothing invalid.
pub open spec fn clear_state(ip: int, out: Seq<u8>) -> rustyvm::VmState {
    rustyvm::VmState { stack: Seq::empty(), ip, ok: true, out, fault: false }
}

/// `out` with its bytes from `base` on replaced by `part`.
pub open spec fn overlay(out: Seq<u8>, base: int, part: Seq<u8>) -> Seq<u8> {
    Seq::new(
        out.len(),
        |i: int| if base <= i < base + part.len() { part[i - base] } else { out[i] },
    )
}

proof fn lemma_filler_len(s: u64, depth: nat)
    ensures
        filler(s, depth).len() == 3 * depth,
    decreases depth,
{
    if depth > 0 {
        lemma_filler_len(s, (depth - 1) as nat);
    }
}

/// Filler instructions change nothing but the position.
proof fn lemma_filler_runs(prog: Seq<u8>, km: Seq<u8>, ip: int, out: Seq<u8>, s: u64, depth: nat)
    requires
        0 <= ip,
        ip + 3 * depth <= prog.len(),
        prog.subrange(ip, ip + 3 * depth) == filler(s, depth),
    ensures
        rustyvm::run_from(prog, km, clear_state(ip, out)) == rustyvm::run_from(
            prog,
            km,
            clear_state(ip + 3 * depth, out),
        ),
    decreases depth,
{
    if depth > 0 {
        let d = (depth - 1) as nat;
        lemma_filler_len(s, depth);
        lemma_filler_len(s, d);
        assert(filler(s, depth).subrange(0, 3 * d as int) =~= filler(s, d));
        assert(prog.subrange(ip, ip + 3 * d) =~= prog.subrange(ip, ip + 3 * depth).subrange(
            0,
            3 * d as int,
        ));
        lemma_filler_runs(prog, km, ip, out, s, d);
        let at = ip + 3 * d;
        assert(prog[at] == prog.subrange(ip, ip + 3 * depth)[3 * d as int]);
        let c = clear_state(at, out);
        assert(rustyvm::step(prog, km, c) =~= clear_state(at + 3, out));
    }
}

/// The code of one byte stores that byte.
proof fn lemma_store_runs(prog: Seq<u8>, km: Seq<u8>, ip: int, out: Seq<u8>, key: u8, addr: u8)
    requires
        0 <= ip,
        ip + 7 <= prog.len(),
        addr < km.len(),
        addr < out.len(),
        prog.subrange(ip, ip + 7) == store_code(key ^ km[addr as int], addr),
    ensures
        rustyvm::run_from(prog, km, clear_state(ip, out)) == rustyvm::run_from(
            prog,
            km,
            clear_state(ip + 7, out.update(addr as int, key)),
        ),
{
    let code = prog.subrange(ip, ip + 7);
    let k = km[addr as int];
    let mask = key ^ k;
    assert(forall|j: int| 0 <= j < 7 ==> prog[ip + j] == #[trigger] code[j]);
    assert(code[0] == OP_PUSHKEY && code[1] == addr && code[2] == OP_PUSH1 && code[3] == mask
        && code[4] == OP_XOR && code[5] == OP_WRMEM && code[6] == addr);
    let s0 = clear_state(ip, out);
    let s1 = rustyvm::VmState { stack: seq![k as u64], ip: ip + 2, ..s0 };
    let s2 = rustyvm::VmState { stack: seq![k as u64, mask as u64], ip: ip + 4, ..s0 };
    let x = (mask as u64) ^ (k as u64);
    let s3 = rustyvm::VmState { stack: seq![x], ip: ip + 5, ..s0 };
    let s4 = rustyvm::VmState { stack: Seq::empty(), ip: ip + 7, out: out.update(addr as int, x as u8), ..s0 };
    assert(rustyvm::step(prog, km, s0) =~= s1);
    assert(rustyvm::step(prog, km, s1) =~= s2);
    assert(rustyvm::step(prog, km, s2) =~= s3);
    assert(rustyvm::step(prog, km, s3) =~= s4);
    assert(rustyvm::run_from(prog, km, s0) == rustyvm::run_from(prog, km, s1));
    assert(rustyvm::run_from(prog, km, s1) == rustyvm::run_from(prog, km, s2));
    assert(rustyvm::run_from(prog, km, s2) == rustyvm::run_from(prog, km, s3));
    assert(rustyvm::run_from(prog, km, s3) == rustyvm::run_from(prog, km, s4));
    assert(x as u8 == key) by {
        assert((((key ^ k) as u64) ^ (k as u64)) as u8 == key) by (bit_vector);
    }
}

/// The code of the first `n` bytes of a half stores those bytes.
proof fn lemma_half_runs(
    prog: Seq<u8>,
    km: Seq<u8>,
    ip: int,
    out: Seq<u8>,
    s: u64,
    key: Seq<u8>,
    base: int,
    n: nat,
)
    requires
        0 <= ip,
        n <= key.len() == HALF,
        0 <= base <= HALF,
        km.len() == 64,
        out.len() == 64,
        ip + half_code(s, key, km, base, n).0.len() <= prog.len(),
        prog.subrange(ip, ip + half_code(s, key, km, base, n).0.len()) == half_code(
            s,
            key,
            km,
            base,
            n,
        ).0,
    ensures
        rustyvm::run_from(prog, km, clear_state(ip, out)) == rustyvm::run_from(
            prog,
            km,
            clear_state(
                ip + half_code(s, key, km, base, n).0.len(),
                overlay(out, base, key.subrange(0, n as int)),
            ),
        ),
    decreases n,
{
    if n == 0 {
        assert(overlay(out, base, key.subrange(0, 0)) =~= out);
    } else {
        let m = (n - 1) as nat;
        let (code, t) = half_code(s, key, km, base, m);
        let depth = filler_depth(t);
        let fill = filler(splitmix::advance(t, 1), depth);
        lemma_filler_len(splitmix::advance(t, 1), depth);
        let addr = (base + m) as u8;
        let store = store_code(key[m as int] ^ km[base + m], addr);
        let whole = half_code(s, key, km, base, n).0;
        assert(whole == code + fill + store);
        let text = prog.subrange(ip, ip + whole.len());
        assert(text.subrange(0, code.len() as int) =~= code);
        assert(prog.subrange(ip, ip + code.len()) =~= text.subrange(0, code.len() as int));
        lemma_half_runs(prog, km, ip, out, s, key, base, m);
        let n1 = code.len() as int;
        let n2 = n1 + 3 * depth;
        let ip1 = ip + code.len();
        let ip2 = ip1 + 3 * depth;
        assert(text.subrange(n1, n2) =~= fill);
        assert(prog.subrange(ip1, ip2) =~= text.subrange(n1, n2));
        let out1 = overlay(out, base, key.subrange(0, m as int));
        lemma_filler_runs(prog, km, ip1, out1, splitmix::advance(t, 1), depth);
        assert(text.subrange(n2, n2 + 7) =~= store);
        assert(prog.subrange(ip2, ip2 + 7) =~= text.subrange(n2, n2 + 7));
        lemma_store_runs(prog, km, ip2, out1, key[m as int], addr);
        assert(out1.update(addr as int, key[m as int]) =~= overlay(
            out,
            base,
            key.subrange(0, n as int),
        ));
    }
}

/// A label changes nothing but the position.
proof fn lemma_label_runs(prog: Seq<u8>, km: Seq<u8>, ip: int, out: Seq<u8>)
    requires
        0 <= ip,
        ip + 3 <= prog.len(),
        prog[ip] == OP_OPAQUE_LABEL,
    ensures
        rustyvm::run_from(prog, km, clear_state(ip, out)) == rustyvm::run_from(
            prog,
            km,
            clear_state(ip + 3, out),
        ),
{
    assert(rustyvm::step(prog, km, clear_state(ip, out)) =~= clear_state(ip + 3, out));
}

/// A generated program is valid and rebuilds the key: run on the key material
/// it was written for, it leaves `k1` followed by `k2` in the output, for
/// every seed.
pub proof fn law_program_rebuilds_key(
    k1: Seq<u8>,
    k2: Seq<u8>,
    km: Seq<u8>,
    seed: u64,
    out: Seq<u8>,
)
    requires
        k1.len() == HALF,
        k2.len() == HALF,
        km.len() == 64,
        out.len() == 64,
    ensures
        !rustyvm::run_result(vm_program(k1, k2, km, seed), km, out).fault,
        rustyvm::run_result(vm_program(k1, k2, km, seed), km, out).ok,
        rustyvm::run_result(vm_program(k1, k2, km, seed), km, out).out == k1 + k2,
{
    let prog = vm_program(k1, k2, km, seed);
    let s = splitmix::seeded(seed);
    let s1 = splitmix::advance(s, 64);
    let first = half_code(s1, k1, km, 0, HALF as nat).0;
    let t = half_code(s1, k1, km, 0, HALF as nat).1;
    let second = half_code(t, k2, km, HALF as int, HALF as nat).0;
    lemma_program_runs(
        prog,
        k1,
        k2,
        km,
        out,
        s1,
        t,
        seq![OP_OPAQUE_LABEL, 0u8, label_byte(s, 0)],
        seq![OP_OPAQUE_LABEL, 1u8, label_byte(s, 32), OP_HALT],
    );
}

proof fn lemma_program_runs(
    prog: Seq<u8>,
    k1: Seq<u8>,
    k2: Seq<u8>,
    km: Seq<u8>,
    out: Seq<u8>,
    s1: u64,
    s2: u64,
    mid: Seq<u8>,
    end: Seq<u8>,
)
    requires
        k1.len() == HALF,
        k2.len() == HALF,
        km.len() == 64,
        out.len() == 64,
        mid.len() == 3,
        mid[0] == OP_OPAQUE_LABEL,
        end.len() == 4,
        end[0] == OP_OPAQUE_LABEL,
        end[3] == OP_HALT,
        prog == half_code(s1, k1, km, 0, HALF as nat).0 + mid + half_code(
            s2,
            k2,
            km,
            HALF as int,
            HALF as nat,
        ).0 + end,
    ensures
        rustyvm::run_result(prog, km, out).out == k1 + k2,
        rustyvm::run_result(prog, km, out).ok,
        !rustyvm::run_result(prog, km, out).fault,
{
    let first = half_code(s1, k1, km, 0, HALF as nat).0;
    let second = half_code(s2, k2, km, HALF as int, HALF as nat).0;
    let n1 = first.len() as int;
    let n2 = second.len() as int;
    let n3 = n1 + 3 + n2;
    assert(prog.subrange(0, n1) =~= first);
    assert(prog[n1] == mid[0]);
    assert(prog.subrange(n1 + 3, n3) =~= second);
    assert(prog[n3] == end[0]);
    assert(prog[n3 + 3] == end[3]);
    let out1 = overlay(out, 0, k1.subrange(0, HALF as int));
    let out2 = overlay(out1, HALF as int, k2.subrange(0, HALF as int));
    lemma_half_runs(prog, km, 0, out, s1, k1, 0, HALF as nat);
    lemma_label_runs(prog, km, n1, out1);
    lemma_half_runs(prog, km, n1 + 3, out1, s2, k2, HALF as int, HALF as nat);
    lemma_label_runs(prog, km, n3, out2);
    assert(out2 =~= k1 + k2);
    assert(rustyvm::start_state(out) =~= clear_state(0, out));
    assert(rustyvm::run_from(prog, km, clear_state(n3 + 3, out2)) == clear_state(n3 + 3, out2));
}

/// The code of a key half hangs on the key through its masks alone.
proof fn lemma_same_masks(
    s: u64,
    key: Seq<u8>,
    km: Seq<u8>,
    other_key: Seq<u8>,
    other_km: Seq<u8>,
    base: int,
    n: nat,
)
    requires
        forall|i: int|
            0 <= i < n ==> (#[trigger] key[i]) ^ km[base + i] == other_key[i] ^ other_km[base + i],
    ensures
        half_code(s, key, km, base, n) == half_code(s, other_key, other_km, base, n),
    decreases n,
{
    if n > 0 {
        lemma_same_masks(s, key, km, other_key, other_km, base, (n - 1) as nat);
        let i = n - 1;
        assert(key[i] ^ km[base + i] == other_key[i] ^ other_km[base + i]);
    }
}

proof fn lemma_xor_moves(a: u8, b: u8, c: u8)
    by (bit_vector)
    ensures
        (a ^ b ^ c) ^ c == a ^ b,
{
}

/// The program does not hold the key: it needs the key material it was written
/// for. Run on other material, it leaves each key byte masked with both
/// materials, so a byte comes out right only where they agree.
pub proof fn law_program_needs_its_material(
    k1: Seq<u8>,
    k2: Seq<u8>,
    km: Seq<u8>,
    other: Seq<u8>,
    seed: u64,
    out: Seq<u8>,
    i: int,
)
    requires
        k1.len() == 32,
        k2.len() == 32,
        km.len() == 64,
        other.len() == 64,
        out.len() == 64,
        0 <= i < 64,
    ensures
        rustyvm::run_result(vm_program(k1, k2, km, seed), other, out).out[i] == (k1 + k2)[i] ^ km[i]
            ^ other[i],
{
    let a = Seq::new(32, |j: int| k1[j] ^ km[j] ^ other[j]);
    let b = Seq::new(32, |j: int| k2[j] ^ km[32 + j] ^ other[32 + j]);
    assert forall|j: int| 0 <= j < 32 implies (#[trigger] k1[j]) ^ km[0 + j] == a[j] ^ other[0
        + j] by {
        lemma_xor_moves(k1[j], km[j], other[j]);
    }
    assert forall|j: int| 0 <= j < 32 implies (#[trigger] k2[j]) ^ km[32 + j] == b[j] ^ other[32
        + j] by {
        lemma_xor_moves(k2[j], km[32 + j], other[32 + j]);
    }
    let s = splitmix::advance(splitmix::seeded(seed), 64);
    lemma_same_masks(s, k1, km, a, other, 0, 32);
    let t = half_code(s, k1, km, 0, 32).1;
    lemma_same_masks(t, k2, km, b, other, 32, 32);
    assert(vm_program(k1, k2, km, seed) == vm_program(a, b, other, seed));
    law_program_rebuilds_key(a, b, other, seed, out);
}

} // verus!
