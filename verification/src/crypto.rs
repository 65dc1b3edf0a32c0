//! Key derivation, digests, key wrapping and whitening.
use vstd::prelude::*;

use crate::bytes;
use crate::primitives;
use crate::text;

verus! {

/// Argon2id cost: memory in KiB.
pub const ARGON2_MEMORY_KIB: u32 = 262144;

/// Argon2id cost: passes over the memory.
pub const ARGON2_ITERATIONS: u32 = 4;

/// Argon2id cost: lanes.
pub const ARGON2_PARALLELISM: u32 = 8;

/// Bytes of nonce in front of a wrapped key.
pub const NONCE_LEN: usize = 12;

/// Bytes of tag behind a wrapped key.
pub const TAG_LEN: usize = 16;

/// The master key of a passphrase.
pub open spec fn master_key(password: Seq<u8>, salt: Seq<u8>) -> Seq<u8> {
    primitives::argon2id_tag(
        password,
        salt,
        ARGON2_MEMORY_KIB,
        ARGON2_ITERATIONS,
        ARGON2_PARALLELISM,
    )
}

/// Stretches a passphrase at a given cost.
pub fn stretch(
    password: &[u8],
    salt: &[u8],
    memory_kib: u32,
    iterations: u32,
    lanes: u32,
) -> (key: [u8; 32])
    requires
        password@.len() <= u32::MAX,
        8 <= salt@.len() <= u32::MAX,
        1 <= iterations,
        1 <= lanes <= 0xff_ffff,
        8 * lanes <= memory_kib <= 0x20_0000,
    ensures
        key@ == primitives::argon2id_tag(password@, salt@, memory_kib, iterations, lanes),
{
    primitives::argon2id(password, salt, memory_kib, iterations, lanes)
}

/// Derives the master key of a passphrase.
pub fn argon2id_hash(password: &[u8], salt: &[u8]) -> (key: [u8; 32])
    requires
        password@.len() <= u32::MAX,
        8 <= salt@.len() <= u32::MAX,
    ensures
        key@ == master_key(password@, salt@),
        key@ == primitives::argon2id_tag(password@, salt@, 262144, 4, 8),
{
    stretch(password, salt, ARGON2_MEMORY_KIB, ARGON2_ITERATIONS, ARGON2_PARALLELISM)
}

/// HKDF extraction: the pseudorandom key.
pub open spec fn hkdf_prk(ikm: Seq<u8>, salt: Seq<u8>) -> Seq<u8> {
    primitives::hmac_sha256_tag(salt, ikm)
}

/// HKDF expansion: block `T(n)`, where `T(0)` is empty. The block counter is
/// one byte and wraps.
pub open spec fn hkdf_block(prk: Seq<u8>, info: Seq<u8>, n: nat) -> Seq<u8>
    decreases n,
{
    if n == 0 {
        Seq::empty()
    } else {
        primitives::hmac_sha256_tag(
            prk,
            hkdf_block(prk, info, (n - 1) as nat) + info + seq![(n % 256) as u8],
        )
    }
}

/// HKDF-SHA-256 output of `len` bytes: `T(1)`, `T(2)`, ... one behind the
/// other.
pub open spec fn hkdf(ikm: Seq<u8>, salt: Seq<u8>, info: Seq<u8>, len: nat) -> Seq<u8> {
    Seq::new(
        len,
        |i: int| hkdf_block(hkdf_prk(ikm, salt), info, (i / 32 + 1) as nat)[i % 32],
    )
}

/// HKDF-SHA-256: extract, then expand to `out_len` bytes.
pub fn hkdf_sha256(ikm: &[u8], salt: &[u8], info: &[u8], out_len: usize) -> (okm: Vec<u8>)
    ensures
        okm@ == hkdf(ikm@, salt@, info@, out_len as nat),
{
    let prk: [u8; 32] = primitives::hmac_sha256(salt, ikm);
    let mut okm: Vec<u8> = Vec::new();
    let mut t: Vec<u8> = Vec::new();
    let mut counter: u8 = 1;
    let ghost mut n: nat = 0;
    while okm.len() < out_len
        invariant
            okm@.len() <= out_len,
            okm@.len() == 32 * n || (okm@.len() == out_len && okm@.len() <= 32 * n),
            prk@ == hkdf_prk(ikm@, salt@),
            t@ == hkdf_block(prk@, info@, n),
            counter == (n + 1) % 256,
            forall|i: int|
                0 <= i < okm@.len() ==> okm@[i] == hkdf(ikm@, salt@, info@, out_len as nat)[i],
        decreases out_len - okm@.len(),
    {
        let mut msg: Vec<u8> = bytes::concat(t.as_slice(), info);
        msg.push(counter);
        proof {
            assert(msg@ =~= hkdf_block(prk@, info@, n) + info@ + seq![((n + 1) % 256) as u8]);
        }
        let block: [u8; 32] = primitives::hmac_sha256(&prk, msg.as_slice());
        t = bytes::to_vec(&block);
        proof {
            n = n + 1;
        }
        let base: usize = okm.len();
        let take: usize = if out_len - base < 32 { out_len - base } else { 32 };
        let mut k: usize = 0;
        while k < take
            invariant
                k <= take <= 32,
                base + take <= out_len,
                okm@.len() == base + k,
                base == 32 * (n - 1),
                n >= 1,
                prk@ == hkdf_prk(ikm@, salt@),
                block@ == hkdf_block(prk@, info@, n),
                forall|i: int|
                    0 <= i < okm@.len() ==> okm@[i] == hkdf(ikm@, salt@, info@, out_len as nat)[i],
            decreases take - k,
        {
            proof {
                assert((base + k) / 32 + 1 == n && (base + k) % 32 == k as int);
            }
            okm.push(block[k]);
            k = k + 1;
        }
        counter = counter.wrapping_add(1);
    }
    proof {
        assert(okm@ =~= hkdf(ikm@, salt@, info@, out_len as nat));
    }
    okm
}

/// The HKDF salt of the wrapping keys.
pub open spec fn wrap_salt() -> Seq<u8> {
    text::ascii("hello-old-v1"@)
}

/// The HKDF labels of the six wrapping keys.
pub open spec fn wrap_label(i: int) -> Seq<u8> {
    if i == 0 {
        text::ascii("wrap-rsa"@)
    } else if i == 1 {
        text::ascii("wrap-kyber"@)
    } else if i == 2 {
        text::ascii("wrap-mceliece"@)
    } else if i == 3 {
        text::ascii("wrap-frodokem"@)
    } else if i == 4 {
        text::ascii("wrap-dilithium"@)
    } else {
        text::ascii("wrap-serpent-dek"@)
    }
}

fn wrap_label_bytes(i: usize) -> (label: Vec<u8>)
    ensures
        label@ == wrap_label(i as int),
{
    if i == 0 {
        text::ascii_bytes("wrap-rsa")
    } else if i == 1 {
        text::ascii_bytes("wrap-kyber")
    } else if i == 2 {
        text::ascii_bytes("wrap-mceliece")
    } else if i == 3 {
        text::ascii_bytes("wrap-frodokem")
    } else if i == 4 {
        text::ascii_bytes("wrap-dilithium")
    } else {
        text::ascii_bytes("wrap-serpent-dek")
    }
}

/// Wrapping key number `i` of a key.
pub open spec fn wrapping_key(key: Seq<u8>, i: int) -> Seq<u8> {
    hkdf(key, wrap_salt(), wrap_label(i), 32)
}

/// Derives the six wrapping keys: RSA, Kyber, McEliece, FrodoKEM, Dilithium,
/// and the data key's own.
pub fn derive_wrapping_keys(master_key: &[u8; 32]) -> (keys: [[u8; 32]; 6])
    ensures
        forall|i: int| 0 <= i < 6 ==> (#[trigger] keys@[i])@ == wrapping_key(master_key@, i),
{
    let salt: Vec<u8> = text::ascii_bytes("hello-old-v1");
    let mut keys: [[u8; 32]; 6] = [[0u8; 32]; 6];
    let mut i: usize = 0;
    while i < 6
        invariant
            i <= 6,
            salt@ == wrap_salt(),
            forall|j: int| 0 <= j < i ==> (#[trigger] keys@[j])@ == wrapping_key(master_key@, j),
        decreases 6 - i,
    {
        let label: Vec<u8> = wrap_label_bytes(i);
        let key: Vec<u8> = hkdf_sha256(master_key, salt.as_slice(), label.as_slice(), 32);
        let arr: [u8; 32] = bytes::to_array(key.as_slice());
        keys[i] = arr;
        i = i + 1;
    }
    keys
}

/// SHA3-256.
pub fn sha3_256(data: &[u8]) -> (d: [u8; 32])
    ensures
        d@ == primitives::sha3_256_digest(data@),
{
    primitives::sha3(data)
}

/// SM3.
pub fn sm3_256(data: &[u8]) -> (d: [u8; 32])
    ensures
        d@ == primitives::sm3_digest(data@),
{
    primitives::sm3(data)
}

/// BLAKE3.
pub fn blake3_256(data: &[u8]) -> (d: [u8; 32])
    ensures
        d@ == primitives::blake3_digest(data@),
{
    primitives::blake3(data)
}

/// Compares without a branch on the bytes compared.
pub fn ct_eq(a: &[u8], b: &[u8]) -> (r: bool)
    ensures
        r == (a@ == b@),
{
    primitives::constant_time_eq(a, b)
}

/// Overwrites a buffer with zeros.
pub fn zeroize(buf: &mut [u8])
    ensures
        final(buf)@ == bytes::zeros(old(buf)@.len()),
{
    primitives::volatile_zero(buf)
}

/// What a wrapped key opens to: a nonce of twelve bytes, then the ciphertext.
pub open spec fn unwrapped(key: Seq<u8>, blob: Seq<u8>) -> Option<Seq<u8>> {
    if blob.len() < NONCE_LEN + TAG_LEN {
        None
    } else {
        primitives::chacha_opened(
            key,
            blob.subrange(0, NONCE_LEN as int),
            blob.subrange(NONCE_LEN as int, blob.len() as int),
        )
    }
}

/// Opens a wrapped key. `None` where the blob is too short to hold a nonce and
/// a tag, or where its tag is wrong: what opens was sealed under the key.
pub fn decrypt(key: &[u8; 32], blob: &[u8]) -> (plain: Option<Vec<u8>>)
    ensures
        primitives::opt_bytes(plain) == unwrapped(key@, blob@),
        plain matches Some(p) ==> p@.len() + NONCE_LEN + TAG_LEN == blob@.len(),
        plain matches Some(p) ==> blob@ == blob@.subrange(0, NONCE_LEN as int)
            + primitives::chacha_sealed(key@, blob@.subrange(0, NONCE_LEN as int), p@),
{
    if blob.len() < NONCE_LEN + TAG_LEN {
        return None;
    }
    let (nonce, ct) = blob.split_at(NONCE_LEN);
    let nonce: [u8; 12] = bytes::to_array(nonce);
    proof {
        assert(blob@ =~= nonce@ + ct@);
    }
    primitives::chacha_open(key, &nonce, ct)
}

/// The nonce of a wrapped key: the first bytes of a digest of key and label.
pub open spec fn wrap_nonce(key: Seq<u8>, label: Seq<u8>) -> Seq<u8> {
    primitives::sha3_256_digest(key + label).subrange(0, NONCE_LEN as int)
}

/// A wrapped key: the nonce, then the ciphertext with its tag.
pub open spec fn wrapped(key: Seq<u8>, label: Seq<u8>, plain: Seq<u8>) -> Seq<u8> {
    wrap_nonce(key, label) + primitives::chacha_sealed(key, wrap_nonce(key, label), plain)
}

fn nonce_for(key: &[u8; 32], label: &[u8]) -> (nonce: [u8; 12])
    ensures
        nonce@ == wrap_nonce(key@, label@),
{
    let input: Vec<u8> = bytes::concat(key, label);
    let digest: [u8; 32] = sha3_256(input.as_slice());
    let (head, _) = digest.as_slice().split_at(NONCE_LEN);
    bytes::to_array(head)
}

/// Wraps `plain` under `key`. What is wrapped can be opened again under the
/// same key.
pub fn wrap_key(key: &[u8; 32], label: &[u8], plain: &[u8]) -> (blob: Vec<u8>)
    requires
        plain@.len() <= primitives::CHACHA_MAX,
    ensures
        blob@ == wrapped(key@, label@, plain@),
        blob@.len() == plain@.len() + NONCE_LEN + TAG_LEN,
        unwrapped(key@, blob@) == Some(plain@),
{
    let nonce: [u8; 12] = nonce_for(key, label);
    let ct: Vec<u8> = primitives::chacha_seal(key, &nonce, plain);
    let blob: Vec<u8> = bytes::concat(&nonce, ct.as_slice());
    proof {
        assert(blob@.subrange(0, NONCE_LEN as int) =~= nonce@);
        assert(blob@.subrange(NONCE_LEN as int, blob@.len() as int) =~= ct@);
    }
    blob
}

/// The seed of the whitening stream.
pub open spec fn whitening_seed(k1: Seq<u8>, k2: Seq<u8>, salt: Seq<u8>) -> Seq<u8> {
    primitives::blake3_digest(k1 + k2 + salt)
}

/// The first `n` bytes of the counter-mode stream of a seed.
pub open spec fn counter_stream(seed: Seq<u8>, n: nat) -> Seq<u8> {
    Seq::new(
        n,
        |i: int|
            primitives::blake3_digest(seed + bytes::le_bytes((i / 32) as nat, 8))[i % 32],
    )
}

/// `data` masked with the whitening stream of `k1`, `k2` and `salt`.
pub open spec fn whitened(k1: Seq<u8>, k2: Seq<u8>, salt: Seq<u8>, data: Seq<u8>) -> Seq<u8> {
    bytes::xor_seq(data, counter_stream(whitening_seed(k1, k2, salt), data.len()))
}

/// Whitening is its own inverse.
pub proof fn law_whitening_twice(k1: Seq<u8>, k2: Seq<u8>, salt: Seq<u8>, data: Seq<u8>)
    ensures
        whitened(k1, k2, salt, whitened(k1, k2, salt, data)) == data,
{
    bytes::lemma_xor_seq_twice(data, counter_stream(whitening_seed(k1, k2, salt), data.len()));
}

/// One 32-byte block of the counter-mode stream.
pub fn counter_block(seed: &[u8; 32], ctr: u64) -> (block: [u8; 32])
    ensures
        block@ == primitives::blake3_digest(seed@ + bytes::le_bytes(ctr as nat, 8)),
{
    let count: [u8; 8] = bytes::u64_to_le(ctr);
    let input: Vec<u8> = bytes::concat(seed, &count);
    primitives::blake3(input.as_slice())
}

/// Masks `buf` in place with the whitening stream.
pub fn blake3_keystream(k1: &[u8; 32], k2: &[u8; 32], salt: &[u8], buf: &mut [u8])
    ensures
        final(buf)@ == whitened(k1@, k2@, salt@, old(buf)@),
{
    let pair: Vec<u8> = bytes::concat(k1, k2);
    let mut seed_input: Vec<u8> = bytes::concat(pair.as_slice(), salt);
    let mut seed: [u8; 32] = primitives::blake3(seed_input.as_slice());
    zeroize(seed_input.as_mut_slice());
    let ghost s = seed@;
    let ghost before = buf@;
    let ghost stream = counter_stream(s, before.len());
    let mut ctr: u64 = 0;
    let mut pos: usize = 0;
    while pos < buf.len()
        invariant
            pos <= buf@.len(),
            buf@.len() == before.len(),
            stream == counter_stream(s, before.len()),
            seed@ == s,
            pos == 32 * ctr || pos == buf@.len(),
            pos < buf@.len() ==> pos == 32 * ctr,
            forall|i: int| 0 <= i < pos ==> buf@[i] == before[i] ^ stream[i],
            forall|i: int| pos <= i < buf@.len() ==> buf@[i] == before[i],
        decreases buf@.len() - pos,
    {
        let block: [u8; 32] = counter_block(&seed, ctr);
        let n: usize = if buf.len() - pos < 32 { buf.len() - pos } else { 32 };
        let mut k: usize = 0;
        while k < n
            invariant
                k <= n <= 32,
                pos + n <= buf@.len(),
                buf@.len() == before.len(),
                stream == counter_stream(s, before.len()),
                pos == 32 * ctr,
                block@ == primitives::blake3_digest(s + bytes::le_bytes(ctr as nat, 8)),
                forall|i: int| 0 <= i < pos + k ==> buf@[i] == before[i] ^ stream[i],
                forall|i: int| pos + k <= i < buf@.len() ==> buf@[i] == before[i],
            decreases n - k,
        {
            proof {
                assert(pos + n <= buf.len());
                assert((pos + k) / 32 == ctr as int && (pos + k) % 32 == k as int);
            }
            buf[pos + k] = buf[pos + k] ^ block[k];
            k = k + 1;
        }
        pos = pos + n;
        if pos < buf.len() {
            ctr = ctr + 1;
        }
    }
    zeroize(&mut seed);
    proof {
        assert(buf@ =~= bytes::xor_seq(before, stream));
    }
}

/// The master key is the Argon2id tag of the passphrase under the salt, with
/// 256 MiB of memory, four passes and eight lanes.
pub proof fn law_master_key_is_the_tag(password: Seq<u8>, salt: Seq<u8>)
    ensures
        master_key(password, salt) == primitives::argon2id_tag(password, salt, 262144, 4, 8),
{
}

/// HKDF extracts a key from the input under the salt, and its first 32 bytes
/// are the tag of the label and a one under that key.
pub proof fn law_hkdf_first_block(
    ikm: Seq<u8>,
    salt: Seq<u8>,
    info: Seq<u8>,
    len: nat,
    i: int,
)
    requires
        0 <= i < 32,
        i < len,
    ensures
        hkdf(ikm, salt, info, len).len() == len,
        hkdf(ikm, salt, info, len)[i] == primitives::hmac_sha256_tag(
            primitives::hmac_sha256_tag(salt, ikm),
            info.push(1),
        )[i],
{
    let prk = primitives::hmac_sha256_tag(salt, ikm);
    assert(hkdf_block(prk, info, 0) =~= Seq::empty());
    assert(Seq::<u8>::empty() + info + seq![1u8] =~= info.push(1));
    assert(hkdf_block(prk, info, 1) == primitives::hmac_sha256_tag(prk, info.push(1)));
}

/// Every further block of HKDF is the tag of the block before it, the label and
/// the number of the block.
pub proof fn law_hkdf_next_block(
    ikm: Seq<u8>,
    salt: Seq<u8>,
    info: Seq<u8>,
    len: nat,
    n: int,
    i: int,
)
    requires
        1 <= n < 255,
        0 <= i < 32,
        32 * n + i < len,
        forall|x: Seq<u8>|
            (#[trigger] primitives::hmac_sha256_tag(primitives::hmac_sha256_tag(salt, ikm), x)).len()
                == 32,
    ensures
        ({
            let okm = hkdf(ikm, salt, info, len);
            okm[32 * n + i] == primitives::hmac_sha256_tag(
                primitives::hmac_sha256_tag(salt, ikm),
                okm.subrange(32 * (n - 1), 32 * n) + info + seq![(n + 1) as u8],
            )[i]
        }),
{
    let prk = primitives::hmac_sha256_tag(salt, ikm);
    let okm = hkdf(ikm, salt, info, len);
    let before = hkdf_block(prk, info, n as nat);
    assert(before.len() == 32);
    let part = okm.subrange(32 * (n - 1), 32 * n);
    assert forall|k: int| 0 <= k < 32 implies part[k] == before[k] by {
        assert((32 * (n - 1) + k) / 32 == n - 1 && (32 * (n - 1) + k) % 32 == k);
    }
    assert(part =~= before);
    assert((32 * n + i) / 32 == n && (32 * n + i) % 32 == i);
    assert(hkdf_block(prk, info, (n + 1) as nat) == primitives::hmac_sha256_tag(
        prk,
        before + info + seq![((n + 1) % 256) as u8],
    ));
}

/// Asked for fewer bytes, HKDF gives the front of what it gives for more.
pub proof fn law_hkdf_prefix(ikm: Seq<u8>, salt: Seq<u8>, info: Seq<u8>, m: nat, n: nat)
    requires
        m <= n,
    ensures
        hkdf(ikm, salt, info, m) == hkdf(ikm, salt, info, n).subrange(0, m as int),
{
    assert(hkdf(ikm, salt, info, m) =~= hkdf(ikm, salt, info, n).subrange(0, m as int));
}

/// The six wrapping keys come from HKDF under the salt `hello-old-v1`, each
/// with a label of its own: `wrap-rsa`, `wrap-kyber`, `wrap-mceliece`,
/// `wrap-frodokem`, `wrap-dilithium` and `wrap-serpent-dek`.
pub proof fn law_wrapping_keys(key: Seq<u8>)
    ensures
        wrapping_key(key, 0) == hkdf(
            key,
            seq![104u8, 101, 108, 108, 111, 45, 111, 108, 100, 45, 118, 49],
            seq![119u8, 114, 97, 112, 45, 114, 115, 97],
            32,
        ),
        wrapping_key(key, 1) == hkdf(
            key,
            seq![104u8, 101, 108, 108, 111, 45, 111, 108, 100, 45, 118, 49],
            seq![119u8, 114, 97, 112, 45, 107, 121, 98, 101, 114],
            32,
        ),
        wrapping_key(key, 2) == hkdf(
            key,
            seq![104u8, 101, 108, 108, 111, 45, 111, 108, 100, 45, 118, 49],
            seq![119u8, 114, 97, 112, 45, 109, 99, 101, 108, 105, 101, 99, 101],
            32,
        ),
        wrapping_key(key, 3) == hkdf(
            key,
            seq![104u8, 101, 108, 108, 111, 45, 111, 108, 100, 45, 118, 49],
            seq![119u8, 114, 97, 112, 45, 102, 114, 111, 100, 111, 107, 101, 109],
            32,
        ),
        wrapping_key(key, 4) == hkdf(
            key,
            seq![104u8, 101, 108, 108, 111, 45, 111, 108, 100, 45, 118, 49],
            seq![119u8, 114, 97, 112, 45, 100, 105, 108, 105, 116, 104, 105, 117, 109],
            32,
        ),
        wrapping_key(key, 5) == hkdf(
            key,
            seq![104u8, 101, 108, 108, 111, 45, 111, 108, 100, 45, 118, 49],
            seq![119u8, 114, 97, 112, 45, 115, 101, 114, 112, 101, 110, 116, 45, 100, 101, 107],
            32,
        ),
{
    reveal_strlit("hello-old-v1");
    reveal_strlit("wrap-rsa");
    reveal_strlit("wrap-kyber");
    reveal_strlit("wrap-mceliece");
    reveal_strlit("wrap-frodokem");
    reveal_strlit("wrap-dilithium");
    reveal_strlit("wrap-serpent-dek");
    assert(wrap_salt() =~= seq![104u8, 101, 108, 108, 111, 45, 111, 108, 100, 45, 118, 49]);
    assert(wrap_label(0) =~= seq![119u8, 114, 97, 112, 45, 114, 115, 97]);
    assert(wrap_label(1) =~= seq![119u8, 114, 97, 112, 45, 107, 121, 98, 101, 114]);
    assert(wrap_label(2) =~= seq![119u8, 114, 97, 112, 45, 109, 99, 101, 108, 105, 101, 99, 101]);
    assert(wrap_label(3) =~= seq![119u8, 114, 97, 112, 45, 102, 114, 111, 100, 111, 107, 101, 109]);
    assert(wrap_label(4) =~= seq![119u8, 114, 97, 112, 45, 100, 105, 108, 105, 116, 104, 105, 117, 109]);
    assert(wrap_label(5) =~= seq![119u8, 114, 97, 112, 45, 115, 101, 114, 112, 101, 110, 116, 45, 100, 101, 107]);
}

/// No two of the six labels are the same.
pub proof fn law_wrapping_labels_differ(i: int, j: int)
    requires
        0 <= i < j < 6,
    ensures
        wrap_label(i) != wrap_label(j),
{
    reveal_strlit("wrap-rsa");
    reveal_strlit("wrap-kyber");
    reveal_strlit("wrap-mceliece");
    reveal_strlit("wrap-frodokem");
    reveal_strlit("wrap-dilithium");
    reveal_strlit("wrap-serpent-dek");
    let a = wrap_label(i);
    let b = wrap_label(j);
    if a == b {
        assert(a.len() == b.len() && a[5] == b[5] && a[6] == b[6]);
    }
}

/// A wrapped key is a nonce of twelve bytes, taken from the digest of key and
/// label, and behind it the ciphertext under key and nonce; and that is how it
/// is opened. What is shorter than nonce and tag opens to nothing.
pub proof fn law_wrapped_layout(key: Seq<u8>, label: Seq<u8>, plain: Seq<u8>, blob: Seq<u8>)
    ensures
        wrapped(key, label, plain) == ({
            let nonce = primitives::sha3_256_digest(key + label).subrange(0, 12);
            nonce + primitives::chacha_sealed(key, nonce, plain)
        }),
        unwrapped(key, blob) == (if blob.len() < 28 {
            None
        } else {
            primitives::chacha_opened(
                key,
                blob.subrange(0, 12),
                blob.subrange(12, blob.len() as int),
            )
        }),
{
}

/// Whitening masks each byte with the stream of its own place, and keeps the
/// length: byte `i` with byte `i % 32` of the digest of the seed and the number
/// `i / 32`, where the seed is the digest of both key halves and the salt.
pub proof fn law_whitening(k1: Seq<u8>, k2: Seq<u8>, salt: Seq<u8>, data: Seq<u8>, i: int)
    requires
        0 <= i < data.len(),
    ensures
        whitened(k1, k2, salt, data).len() == data.len(),
        whitened(k1, k2, salt, data)[i] == data[i] ^ primitives::blake3_digest(
            primitives::blake3_digest(k1 + k2 + salt) + bytes::le_bytes((i / 32) as nat, 8),
        )[i % 32],
{
}

/// Under one key no two texts whiten to the same.
pub proof fn law_whitening_tells_apart(
    k1: Seq<u8>,
    k2: Seq<u8>,
    salt: Seq<u8>,
    a: Seq<u8>,
    b: Seq<u8>,
)
    requires
        whitened(k1, k2, salt, a) == whitened(k1, k2, salt, b),
    ensures
        a == b,
{
    law_whitening_twice(k1, k2, salt, a);
    law_whitening_twice(k1, k2, salt, b);
}

} // verus!
