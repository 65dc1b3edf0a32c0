//! The timestamp guard: the opening time split into eight masked fragments
//! with a digest chain over them.
//!
//! Layout: eight fragments, eight masks (64-bit, least significant byte
//! first), eight order bytes, which are the numbers from zero to seven in some
//! order, and the SHA3-256 digest of the fragments and masks taken in that
//! order.
use vstd::prelude::*;

use crate::bytes;
use crate::crypto;
use crate::primitives;
use crate::splitmix;
use crate::splitmix::SplitMix;

verus! {

/// Bytes in front of the digest.
pub const BODY_LEN: usize = 136;

/// Bytes in a guard.
pub const GUARD_LEN: usize = 168;

/// What a seed is masked with before the guard draws from it.
pub const GUARD_SEED_MASK: u64 = 0x5157;

/// Fragment number `i`.
pub open spec fn fragment(guard: Seq<u8>, i: int) -> u64 {
    bytes::le_value(guard.subrange(8 * i, 8 * i + 8)) as u64
}

/// Mask number `i`.
pub open spec fn mask(guard: Seq<u8>, i: int) -> u64 {
    bytes::le_value(guard.subrange(64 + 8 * i, 64 + 8 * i + 8)) as u64
}

/// Which fragment comes at place `i` of the chain.
pub open spec fn place(guard: Seq<u8>, i: int) -> int {
    guard[128 + i] as int % 8
}

/// The fragments and masks at the first `n` places of the chain.
pub open spec fn chain_input(guard: Seq<u8>, n: nat) -> Seq<u8>
    decreases n,
{
    if n == 0 {
        Seq::empty()
    } else {
        let k = place(guard, n - 1);
        chain_input(guard, (n - 1) as nat) + guard.subrange(8 * k, 8 * k + 8) + guard.subrange(
            64 + 8 * k,
            64 + 8 * k + 8,
        )
    }
}

/// Whether the order bytes are the numbers from zero to seven, each once.
pub open spec fn order_sound(guard: Seq<u8>) -> bool {
    &&& forall|i: int| 0 <= i < 8 ==> #[trigger] guard[128 + i] < 8
    &&& forall|i: int, j: int|
        0 <= i < j < 8 ==> #[trigger] guard[128 + i] != #[trigger] guard[128 + j]
}

/// Whether a guard is sound and stands for the time `ts`.
pub open spec fn guard_holds(guard: Seq<u8>, ts: u64) -> bool {
    &&& guard.len() == GUARD_LEN
    &&& forall|i: int|
        0 <= i < 8 ==> (#[trigger] fragment(guard, i)) ^ mask(guard, i) == ts
    &&& order_sound(guard)
    &&& primitives::sha3_256_digest(chain_input(guard, 8)) == guard.subrange(
        BODY_LEN as int,
        GUARD_LEN as int,
    )
}

/// The fragments, masks and order bytes for the time `ts`, drawn from the
/// generator state `s`.
pub open spec fn guard_body(ts: u64, s: u64) -> Seq<u8> {
    fragment_bytes(ts, s) + splitmix::stream(s, 64) + ranks(
        splitmix::stream(splitmix::advance(s, 8), 8),
    )
}

/// Whether the byte at `j` comes before the byte at `i` when bytes are sorted;
/// of equal bytes, the one in front comes first.
pub open spec fn comes_before(b: Seq<u8>, j: int, i: int) -> bool {
    b[j] < b[i] || (b[j] == b[i] && j < i)
}

/// How many of the first `n` bytes come before the byte at `i`.
pub open spec fn rank(b: Seq<u8>, i: int, n: nat) -> nat
    decreases n,
{
    if n == 0 {
        0
    } else {
        rank(b, i, (n - 1) as nat) + (if comes_before(b, n - 1, i) {
            1nat
        } else {
            0nat
        })
    }
}

/// The place of each byte among all of them: an order drawn by chance.
pub open spec fn ranks(b: Seq<u8>) -> Seq<u8> {
    Seq::new(b.len(), |i: int| rank(b, i, b.len()) as u8)
}

/// The guard for the time `ts` and a seed.
pub open spec fn ts_guard(ts: u64, seed: u64) -> Seq<u8> {
    let body = guard_body(ts, splitmix::seeded(seed ^ GUARD_SEED_MASK));
    body + primitives::sha3_256_digest(chain_input(body, 8))
}

/// The chain does not read the digest behind it.
proof fn lemma_chain_input_prefix(a: Seq<u8>, b: Seq<u8>, n: nat)
    requires
        a.len() >= BODY_LEN,
        b.len() >= BODY_LEN,
        n <= 8,
        a.subrange(0, BODY_LEN as int) == b.subrange(0, BODY_LEN as int),
    ensures
        chain_input(a, n) == chain_input(b, n),
    decreases n,
{
    if n > 0 {
        lemma_chain_input_prefix(a, b, (n - 1) as nat);
        let pa = a.subrange(0, BODY_LEN as int);
        let pb = b.subrange(0, BODY_LEN as int);
        assert(a[128 + n - 1] == pa[128 + n - 1]);
        assert(b[128 + n - 1] == pb[128 + n - 1]);
        let k = place(a, n - 1);
        assert(a.subrange(8 * k, 8 * k + 8) =~= pa.subrange(8 * k, 8 * k + 8));
        assert(b.subrange(8 * k, 8 * k + 8) =~= pb.subrange(8 * k, 8 * k + 8));
        assert(a.subrange(64 + 8 * k, 64 + 8 * k + 8) =~= pa.subrange(64 + 8 * k, 64 + 8 * k + 8));
        assert(b.subrange(64 + 8 * k, 64 + 8 * k + 8) =~= pb.subrange(64 + 8 * k, 64 + 8 * k + 8));
    }
}

/// What comes before a byte comes before every later one, so ranks tell bytes
/// apart.
proof fn lemma_rank_grows(b: Seq<u8>, i: int, k: int, n: nat)
    requires
        comes_before(b, i, k),
        0 <= i,
        0 <= k,
    ensures
        rank(b, i, n) + (if i < n {
            1nat
        } else {
            0nat
        }) <= rank(b, k, n),
    decreases n,
{
    if n > 0 {
        lemma_rank_grows(b, i, k, (n - 1) as nat);
    }
}

/// A byte does not come before itself, so no rank reaches the number of bytes.
proof fn lemma_rank_bound(b: Seq<u8>, i: int, n: nat)
    requires
        0 <= i,
    ensures
        rank(b, i, n) + (if i < n {
            1nat
        } else {
            0nat
        }) <= n,
    decreases n,
{
    if n > 0 {
        lemma_rank_bound(b, i, (n - 1) as nat);
    }
}

/// The ranks of eight bytes are the numbers from zero to seven, each once.
proof fn lemma_ranks_sound(b: Seq<u8>)
    requires
        b.len() == 8,
    ensures
        forall|i: int| 0 <= i < 8 ==> #[trigger] ranks(b)[i] < 8,
        forall|i: int, j: int| 0 <= i < j < 8 ==> #[trigger] ranks(b)[i] != #[trigger] ranks(b)[j],
{
    assert forall|i: int| 0 <= i < 8 implies #[trigger] ranks(b)[i] < 8 by {
        lemma_rank_bound(b, i, 8);
    }
    assert forall|i: int, j: int| 0 <= i < j < 8 implies #[trigger] ranks(b)[i]
        != #[trigger] ranks(b)[j] by {
        lemma_rank_bound(b, i, 8);
        lemma_rank_bound(b, j, 8);
        if comes_before(b, i, j) {
            lemma_rank_grows(b, i, j, 8);
        } else {
            lemma_rank_grows(b, j, i, 8);
        }
    }
}

/// The place of each of eight bytes among all of them.
fn rank_bytes(b: &[u8; 8]) -> (r: [u8; 8])
    ensures
        r@ == ranks(b@),
{
    let mut r: [u8; 8] = [0; 8];
    let mut i: usize = 0;
    while i < 8
        invariant
            i <= 8,
            forall|k: int| 0 <= k < i ==> r@[k] == ranks(b@)[k],
        decreases 8 - i,
    {
        let mut n: u8 = 0;
        let mut j: usize = 0;
        while j < 8
            invariant
                i < 8,
                j <= 8,
                n == rank(b@, i as int, j as nat),
                n <= j,
            decreases 8 - j,
        {
            if b[j] < b[i] || (b[j] == b[i] && j < i) {
                n = n + 1;
            }
            j = j + 1;
        }
        r[i] = n;
        i = i + 1;
    }
    proof {
        assert(r@ =~= ranks(b@));
    }
    r
}

/// Whether the order bytes are the numbers from zero to seven, each once.
fn check_order(guard: &[u8]) -> (ok: bool)
    requires
        guard@.len() >= BODY_LEN,
    ensures
        ok == order_sound(guard@),
{
    let mut i: usize = 0;
    while i < 8
        invariant
            i <= 8,
            guard@.len() >= BODY_LEN,
            forall|a: int| 0 <= a < i ==> #[trigger] guard@[128 + a] < 8,
            forall|a: int, b: int|
                0 <= a < b < i ==> #[trigger] guard@[128 + a] != #[trigger] guard@[128 + b],
        decreases 8 - i,
    {
        if guard[128 + i] >= 8 {
            return false;
        }
        let mut j: usize = 0;
        while j < i
            invariant
                j <= i < 8,
                guard@.len() >= BODY_LEN,
                forall|a: int| 0 <= a < j ==> #[trigger] guard@[128 + a] != guard@[128 + i],
            decreases i - j,
        {
            if guard[128 + j] == guard[128 + i] {
                return false;
            }
            j = j + 1;
        }
        i = i + 1;
    }
    true
}

/// Gathers the fragments and masks in the order of the chain.
fn gather_chain(guard: &[u8]) -> (input: Vec<u8>)
    requires
        guard@.len() >= BODY_LEN,
    ensures
        input@ == chain_input(guard@, 8),
{
    let mut input: Vec<u8> = Vec::new();
    let mut i: usize = 0;
    while i < 8
        invariant
            i <= 8,
            guard@.len() >= BODY_LEN,
            input@ == chain_input(guard@, i as nat),
        decreases 8 - i,
    {
        let k: usize = (guard[128 + i] % 8) as usize;
        let ghost before = input@;
        let frag: &[u8] = vstd::slice::slice_subrange(guard, 8 * k, 8 * k + 8);
        let mask: &[u8] = vstd::slice::slice_subrange(guard, 64 + 8 * k, 64 + 8 * k + 8);
        input.extend_from_slice(frag);
        input.extend_from_slice(mask);
        proof {
            assert(input@ =~= before + frag@ + mask@);
        }
        i = i + 1;
    }
    input
}

/// Whether a guard is sound and stands for the time `ts`.
pub fn ts_guard_valid(guard: &[u8], ts: u64) -> (ok: bool)
    ensures
        ok == guard_holds(guard@, ts),
{
    if guard.len() != GUARD_LEN {
        return false;
    }
    let mut i: usize = 0;
    while i < 8
        invariant
            i <= 8,
            guard@.len() == GUARD_LEN,
            forall|j: int| 0 <= j < i ==> (#[trigger] fragment(guard@, j)) ^ mask(guard@, j) == ts,
        decreases 8 - i,
    {
        let f: u64 = bytes::read_le(guard, 8 * i, 8);
        let m: u64 = bytes::read_le(guard, 64 + 8 * i, 8);
        proof {
            assert(f == fragment(guard@, i as int) && m == mask(guard@, i as int));
        }
        if f ^ m != ts {
            return false;
        }
        i = i + 1;
    }
    if !check_order(guard) {
        return false;
    }
    let input: Vec<u8> = gather_chain(guard);
    let chain: [u8; 32] = crypto::sha3_256(input.as_slice());
    let expected: &[u8] = vstd::slice::slice_subrange(guard, BODY_LEN, GUARD_LEN);
    crypto::ct_eq(&chain, expected)
}

/// The fragments of the time `ts`, drawn from the generator state `s`.
pub open spec fn fragment_bytes(ts: u64, s: u64) -> Seq<u8> {
    Seq::new(
        64,
        |i: int| bytes::le_bytes((ts ^ splitmix::draw(s, (i / 8) as nat)) as nat, 8)[i % 8],
    )
}

/// The eight masked fragments of the time `ts`.
fn build_fragments(ts: u64, masks: &[u8; 64], Ghost(s): Ghost<u64>) -> (frags: Vec<u8>)
    requires
        masks@ == splitmix::stream(s, 64),
    ensures
        frags@ == fragment_bytes(ts, s),
{
    let mut frags: Vec<u8> = Vec::new();
    let mut i: usize = 0;
    let ghost want = fragment_bytes(ts, s);
    while i < 8
        invariant
            i <= 8,
            masks@ == splitmix::stream(s, 64),
            want == fragment_bytes(ts, s),
            frags@ == want.subrange(0, 8 * i),
        decreases 8 - i,
    {
        let m: u64 = bytes::read_le(masks, 8 * i, 8);
        proof {
            lemma_mask_word(s, i as int);
        }
        let frag: [u8; 8] = bytes::u64_to_le(ts ^ m);
        let ghost before = frags@;
        frags.extend_from_slice(&frag);
        proof {
            assert(frags@ =~= before + frag@);
            assert forall|j: int| 0 <= j < 8 implies frag@[j] == want[8 * i + j] by {
                assert((8 * i + j) / 8 == i as int && (8 * i + j) % 8 == j);
            }
            assert(frags@ =~= want.subrange(0, 8 * (i + 1)));
        }
        i = i + 1;
    }
    proof {
        assert(want.subrange(0, 64) =~= want);
    }
    frags
}

/// Every fragment of a built guard unmasks to its time.
proof fn lemma_fragments_unmask(guard: Seq<u8>, ts: u64, s: u64, j: int)
    requires
        guard.len() >= BODY_LEN,
        guard.subrange(0, BODY_LEN as int) == guard_body(ts, s),
        0 <= j < 8,
    ensures
        fragment(guard, j) ^ mask(guard, j) == ts,
{
    let body = guard_body(ts, s);
    let pre = guard.subrange(0, BODY_LEN as int);
    let w = splitmix::draw(s, j as nat);
    let x = ts ^ w;
    bytes::lemma_le_bytes_len(x as nat, 8);
    let part = guard.subrange(8 * j, 8 * j + 8);
    assert forall|k: int| 0 <= k < 8 implies bytes::le_bytes(x as nat, 8)[k] == part[k] by {
        assert((8 * j + k) / 8 == j && (8 * j + k) % 8 == k);
        assert(part[k] == pre[8 * j + k]);
        assert(pre[8 * j + k] == fragment_bytes(ts, s)[8 * j + k]);
    }
    assert(part =~= bytes::le_bytes(x as nat, 8));
    let masks = guard.subrange(64 + 8 * j, 64 + 8 * j + 8);
    assert forall|k: int| 0 <= k < 8 implies masks[k] == splitmix::stream(s, 64)[8 * j + k] by {
        assert(masks[k] == pre[64 + 8 * j + k]);
    }
    assert(masks =~= splitmix::stream(s, 64).subrange(8 * j, 8 * j + 8));
    lemma_mask_word(s, j);
    bytes::lemma_pow256_small();
    bytes::lemma_le_value_of_bytes(x as nat, 8);
    assert(((ts ^ w) ^ w) == ts) by (bit_vector);
}

/// Builds the guard for the time `ts`. It holds for that time and for no
/// other.
pub fn build_ts_guard(ts: u64, seed: u64) -> (guard: Vec<u8>)
    ensures
        guard@ == ts_guard(ts, seed),
        forall|t: u64| #[trigger] guard_holds(guard@, t) <==> t == ts,
{
    let mut rng = SplitMix::new(seed ^ GUARD_SEED_MASK);
    let ghost s = rng@;
    let mut masks: [u8; 64] = [0; 64];
    rng.fill(&mut masks);
    let mut drawn: [u8; 8] = [0; 8];
    rng.fill(&mut drawn);
    let order: [u8; 8] = rank_bytes(&drawn);
    let mut guard: Vec<u8> = build_fragments(ts, &masks, Ghost(s));
    guard.extend_from_slice(&masks);
    guard.extend_from_slice(&order);
    proof {
        assert(guard@ =~= guard_body(ts, s));
    }
    let input: Vec<u8> = gather_chain(guard.as_slice());
    let chain: [u8; 32] = crypto::sha3_256(input.as_slice());
    let ghost body = guard@;
    guard.extend_from_slice(&chain);
    proof {
        assert(guard@ =~= body + chain@);
        assert(guard@.subrange(0, BODY_LEN as int) =~= body);
        assert(body.subrange(0, BODY_LEN as int) =~= body);
        lemma_chain_input_prefix(body, guard@, 8);
        lemma_ranks_sound(drawn@);
        assert(forall|i: int| 0 <= i < 8 ==> #[trigger] guard@[128 + i] == ranks(drawn@)[i]);
        assert(guard@.subrange(BODY_LEN as int, GUARD_LEN as int) =~= chain@);
        assert forall|j: int| 0 <= j < 8 implies (#[trigger] fragment(guard@, j)) ^ mask(guard@, j)
            == ts by {
            lemma_fragments_unmask(guard@, ts, s, j);
        }
        assert forall|t: u64| #[trigger] guard_holds(guard@, t) implies t == ts by {
            assert(fragment(guard@, 0) ^ mask(guard@, 0) == ts);
        }
    }
    guard
}

/// A word of the generator's byte stream is the draw it came from.
proof fn lemma_mask_word(s: u64, i: int)
    requires
        0 <= i < 8,
    ensures
        bytes::le_value(splitmix::stream(s, 64).subrange(8 * i, 8 * i + 8))
            == splitmix::draw(s, i as nat),
{
    let w = splitmix::draw(s, i as nat) as nat;
    bytes::lemma_le_bytes_len(w, 8);
    let part = splitmix::stream(s, 64).subrange(8 * i, 8 * i + 8);
    assert forall|k: int| 0 <= k < 8 implies part[k] == bytes::le_bytes(w, 8)[k] by {
        assert((8 * i + k) / 8 == i && (8 * i + k) % 8 == k);
    }
    assert(part =~= bytes::le_bytes(w, 8));
    bytes::lemma_pow256_small();
    bytes::lemma_le_value_of_bytes(w, 8);
}

proof fn lemma_xor_cancel(a: u64, b: u64, c: u64)
    by (bit_vector)
    ensures
        a ^ c == b ^ c ==> a == b,
        c ^ a == c ^ b ==> a == b,
{
}

/// Different bytes make different words.
proof fn lemma_word_differs(a: Seq<u8>, b: Seq<u8>)
    requires
        a.len() == 8,
        b.len() == 8,
        a != b,
    ensures
        bytes::le_value(a) as u64 != bytes::le_value(b) as u64,
{
    bytes::lemma_pow256_small();
    bytes::lemma_le_value_bound(a);
    bytes::lemma_le_value_bound(b);
    bytes::lemma_le_bytes_of_value(a);
    bytes::lemma_le_bytes_of_value(b);
}

/// Eight different numbers below eight are all there are.
proof fn lemma_order_is_full(guard: Seq<u8>, v: u8)
    requires
        guard.len() >= BODY_LEN,
        order_sound(guard),
        v < 8,
    ensures
        exists|i: int| 0 <= i < 8 && #[trigger] guard[128 + i] == v,
{
    let order = Seq::new(8, |i: int| guard[128 + i] as int);
    assert(order.no_duplicates()) by {
        assert forall|i: int, j: int| 0 <= i < 8 && 0 <= j < 8 && i != j implies order[i]
            != order[j] by {
            assert(guard[128 + i] != guard[128 + j]);
        }
    }
    order.unique_seq_to_set();
    let all = vstd::set_lib::set_int_range(0, 8);
    vstd::set_lib::lemma_int_range(0, 8);
    assert(order.to_set().subset_of(all)) by {
        assert forall|x: int| order.to_set().contains(x) implies all.contains(x) by {
            let i = choose|i: int| 0 <= i < 8 && order[i] == x;
            assert(guard[128 + i] < 8);
        }
    }
    vstd::set_lib::lemma_subset_equality(order.to_set(), all);
    assert(order.to_set().contains(v as int));
    let i = choose|i: int| 0 <= i < 8 && order[i] == v as int;
    assert(guard[128 + i] == v);
}

/// A single stray byte makes a guard fail, wherever it is.
pub proof fn law_guard_stray_byte(guard: Seq<u8>, ts: u64, at: int, b: u8)
    requires
        guard_holds(guard, ts),
        0 <= at < GUARD_LEN,
        guard[at] != b,
    ensures
        !guard_holds(guard.update(at, b), ts),
{
    let bad = guard.update(at, b);
    if at < 64 {
        let i = at / 8;
        let x = guard.subrange(8 * i, 8 * i + 8);
        let y = bad.subrange(8 * i, 8 * i + 8);
        assert(x[at - 8 * i] != y[at - 8 * i]);
        lemma_word_differs(x, y);
        assert(guard.subrange(64 + 8 * i, 64 + 8 * i + 8) =~= bad.subrange(
            64 + 8 * i,
            64 + 8 * i + 8,
        ));
        assert(fragment(guard, i) ^ mask(guard, i) == ts);
        lemma_xor_cancel(fragment(guard, i), fragment(bad, i), mask(guard, i));
        assert(fragment(bad, i) ^ mask(bad, i) != ts);
    } else if at < 128 {
        let i = (at - 64) / 8;
        let x = guard.subrange(64 + 8 * i, 64 + 8 * i + 8);
        let y = bad.subrange(64 + 8 * i, 64 + 8 * i + 8);
        assert(x[at - 64 - 8 * i] != y[at - 64 - 8 * i]);
        lemma_word_differs(x, y);
        assert(guard.subrange(8 * i, 8 * i + 8) =~= bad.subrange(8 * i, 8 * i + 8));
        assert(fragment(guard, i) ^ mask(guard, i) == ts);
        lemma_xor_cancel(mask(guard, i), mask(bad, i), fragment(guard, i));
        assert(fragment(bad, i) ^ mask(bad, i) != ts);
    } else if at < BODY_LEN {
        assert(bad[128 + (at - 128)] == b);
        if b < 8 {
            lemma_order_is_full(guard, b);
            let i = choose|i: int| 0 <= i < 8 && #[trigger] guard[128 + i] == b;
            assert(bad[128 + i] == b && i != at - 128);
        }
        assert(!order_sound(bad));
    } else {
        assert(guard.subrange(0, BODY_LEN as int) =~= bad.subrange(0, BODY_LEN as int));
        lemma_chain_input_prefix(guard, bad, 8);
        let x = guard.subrange(BODY_LEN as int, GUARD_LEN as int);
        let y = bad.subrange(BODY_LEN as int, GUARD_LEN as int);
        assert(x[at - BODY_LEN] != y[at - BODY_LEN]);
    }
}

/// What the digest of a guard is taken of: 128 bytes, for each place of the
/// chain the fragment that the order names, and its mask.
pub proof fn law_digest_covers_all_pairs(guard: Seq<u8>, i: int, j: int)
    requires
        guard.len() >= 136,
        0 <= i < 8,
        0 <= j < 8,
    ensures
        ({
            let k = guard[128 + i] as int % 8;
            let chain = chain_input(guard, 8);
            &&& chain.len() == 128
            &&& chain[16 * i + j] == guard[8 * k + j]
            &&& chain[16 * i + 8 + j] == guard[64 + 8 * k + j]
        }),
{
    lemma_chain_place(guard, 8, i, j);
}

proof fn lemma_chain_place(guard: Seq<u8>, n: nat, i: int, j: int)
    requires
        guard.len() >= 136,
        n <= 8,
        0 <= i < 8,
        0 <= j < 8,
    ensures
        chain_input(guard, n).len() == 16 * n,
        i < n ==> chain_input(guard, n)[16 * i + j] == guard[8 * (guard[128 + i] as int % 8) + j],
        i < n ==> chain_input(guard, n)[16 * i + 8 + j] == guard[64 + 8 * (guard[128 + i] as int
            % 8) + j],
    decreases n,
{
    if n > 0 {
        lemma_chain_place(guard, (n - 1) as nat, i, j);
    }
}

/// A guard that holds for a time holds for no other.
pub proof fn law_guard_is_for_one_time(guard: Seq<u8>, ts: u64, other: u64)
    requires
        guard_holds(guard, ts),
        guard_holds(guard, other),
    ensures
        ts == other,
{
    assert(fragment(guard, 0) ^ mask(guard, 0) == ts);
}

/// Whether a guard holds, byte by byte: it has 168 bytes, each of the eight
/// fragments masked with its mask is the time, the order bytes are the numbers
/// below eight, each once, and the last 32 bytes are the SHA3-256 digest of the
/// pairs in that order.
pub proof fn law_guard_in_bytes(guard: Seq<u8>, ts: u64)
    ensures
        guard_holds(guard, ts) <==> {
            &&& guard.len() == 168
            &&& forall|i: int|
                0 <= i < 8 ==> (bytes::le_value(
                    #[trigger] guard.subrange(8 * i, 8 * i + 8),
                ) as u64) ^ (bytes::le_value(guard.subrange(64 + 8 * i, 72 + 8 * i)) as u64) == ts
            &&& forall|i: int| 0 <= i < 8 ==> #[trigger] guard[128 + i] < 8
            &&& forall|i: int, j: int|
                0 <= i < j < 8 ==> #[trigger] guard[128 + i] != #[trigger] guard[128 + j]
            &&& primitives::sha3_256_digest(chain_input(guard, 8)) == guard.subrange(136, 168)
        },
{
    if guard_holds(guard, ts) {
        assert forall|i: int| 0 <= i < 8 implies (bytes::le_value(
            #[trigger] guard.subrange(8 * i, 8 * i + 8),
        ) as u64) ^ (bytes::le_value(guard.subrange(64 + 8 * i, 72 + 8 * i)) as u64) == ts by {
            assert(fragment(guard, i) ^ mask(guard, i) == ts);
        }
    }
}

/// What a built guard is made of: 168 bytes, of which the second 64 are drawn
/// masks, the first 64 the time under each of them, and the order the ranks of
/// eight more drawn bytes.
pub proof fn law_built_guard(ts: u64, seed: u64, i: int)
    requires
        0 <= i < 8,
        primitives::sha3_256_digest(
            chain_input(guard_body(ts, splitmix::seeded(seed ^ 0x5157)), 8),
        ).len() == 32,
    ensures
        ({
            let g = ts_guard(ts, seed);
            let s = splitmix::seeded(seed ^ 0x5157);
            let more = splitmix::stream(splitmix::advance(s, 8), 8);
            &&& g.len() == 168
            &&& g.subrange(64, 128) == splitmix::stream(s, 64)
            &&& g.subrange(8 * i, 8 * i + 8) == bytes::le_bytes(
                (ts ^ splitmix::draw(s, i as nat)) as nat,
                8,
            )
            &&& g[128 + i] < 8
            &&& forall|j: int|
                0 <= j < 8 && more[j] < more[i] ==> #[trigger] g[128 + j] < g[128 + i]
        }),
{
    let g = ts_guard(ts, seed);
    let s = splitmix::seeded(seed ^ 0x5157);
    let more = splitmix::stream(splitmix::advance(s, 8), 8);
    let body = guard_body(ts, s);
    assert(body.len() == 136);
    assert(g.subrange(64, 128) =~= splitmix::stream(s, 64));
    let x = (ts ^ splitmix::draw(s, i as nat)) as nat;
    bytes::lemma_le_bytes_len(x, 8);
    let part = g.subrange(8 * i, 8 * i + 8);
    assert forall|k: int| 0 <= k < 8 implies part[k] == bytes::le_bytes(x, 8)[k] by {
        assert((8 * i + k) / 8 == i && (8 * i + k) % 8 == k);
        assert(part[k] == fragment_bytes(ts, s)[8 * i + k]);
    }
    assert(part =~= bytes::le_bytes(x, 8));
    lemma_ranks_sound(more);
    assert forall|j: int| 0 <= j < 8 implies #[trigger] g[128 + j] == ranks(more)[j] by {}
    assert forall|j: int| 0 <= j < 8 && more[j] < more[i] implies #[trigger] g[128 + j] < g[128
        + i] by {
        lemma_rank_grows(more, j, i, 8);
        lemma_rank_bound(more, j, 8);
        lemma_rank_bound(more, i, 8);
    }
}

} // verus!
