//! Sealing: how a payload becomes a vault.
use vstd::prelude::*;

use crate::bytes;
use crate::crypto;
use crate::guard;
use crate::primitives;
use crate::serpent_siv;
use crate::splitmix;
use crate::splitmix::SplitMix;
use crate::text;
use crate::vault;
use crate::vault::Vault;
use crate::vmgen;

verus! {

/// What the seed of the first key half is masked with.
pub const K1_SEED_MASK: u64 = 0xA5A5;

/// What the seed of the second key half is masked with.
pub const K2_SEED_MASK: u64 = 0x5A5A;

/// What the seed of the key material is masked with.
pub const KM_SEED_MASK: u64 = 0x3C3C;

/// What the seed of the key machine program is masked with.
pub const VM_SEED_MASK: u64 = 0xDEAD;

/// Bits of the RSA key.
pub const RSA_BITS: usize = 4096;

/// Everything about a vault that is drawn by chance.
pub struct Material {
    pub salt: [u8; 32],
    pub k1: [u8; 32],
    pub k2: [u8; 32],
    pub km: [u8; 64],
    pub guard_seed: u64,
    pub vm_seed: u64,
    pub rsa_der: Vec<u8>,
    pub ct_rsa: Vec<u8>,
    pub s_rsa: [u8; 32],
    pub ky_seed: [u8; 64],
    pub ct_ky: [u8; primitives::MLKEM_CT_LEN],
    pub s_ky: [u8; 32],
    pub mce_sk: Vec<u8>,
    pub ct_mce: [u8; primitives::MCELIECE_CT_LEN],
    pub s_mce: [u8; 32],
    pub frodo_sk: Vec<u8>,
    pub ct_frodo: Vec<u8>,
    pub s_frodo: [u8; 32],
    pub dilithium_vk: Vec<u8>,
    pub dilithium_sk: Vec<u8>,
    pub ed_secret: [u8; 57],
}

impl Material {
    /// The keys are short enough to be wrapped, and the McEliece key is one.
    pub open spec fn wf(&self) -> bool {
        &&& self.rsa_der@.len() <= primitives::CHACHA_MAX
        &&& self.mce_sk@.len() == primitives::MCELIECE_SECRET_LEN
        &&& self.frodo_sk@.len() <= primitives::CHACHA_MAX
        &&& self.dilithium_sk@.len() <= primitives::CHACHA_MAX
    }

    /// The data key.
    pub open spec fn dek(&self) -> Seq<u8> {
        vault::combined(
            self.s_rsa@,
            self.s_ky@,
            self.s_mce@,
            self.s_frodo@,
            primitives::blake3_digest(self.dilithium_vk@),
            primitives::sm3_digest(self.dilithium_vk@),
        )
    }

    /// The sealed payload.
    pub open spec fn sealed(&self, ts: u64, payload: Seq<u8>) -> Seq<u8> {
        serpent_siv::siv_sealed(
            self.dek(),
            bytes::le_bytes(ts as nat, 8),
            crypto::whitened(self.k1@, self.k2@, self.salt@, primitives::lzma_packed(payload)),
        )
    }

    /// What both signatures sign.
    pub open spec fn binding(&self, ts: u64, payload: Seq<u8>) -> Seq<u8> {
        vault::binding(ts, self.dek(), self.sealed(ts, payload))
    }

    /// Whether the key halves and the key material are drawn from seeds, the
    /// keys are what their schemes generate, and every ciphertext is one of its
    /// shard under its key.
    pub open spec fn made(&self) -> bool {
        &&& exists|seed: u64| self.k1@ == #[trigger] drawn(seed, K1_SEED_MASK, 32)
        &&& exists|seed: u64| self.k2@ == #[trigger] drawn(seed, K2_SEED_MASK, 32)
        &&& exists|seed: u64| self.km@ == #[trigger] drawn(seed, KM_SEED_MASK, 64)
        &&& primitives::rsa_key(RSA_BITS, self.rsa_der@)
        &&& primitives::rsa_balanced(self.rsa_der@)
        &&& primitives::rsa_oaep_ciphertext(self.rsa_der@, self.s_rsa@, self.ct_rsa@)
        &&& primitives::mlkem_encapsulated(self.ky_seed@, self.ct_ky@, self.s_ky@)
        &&& exists|public: Seq<u8>|
            primitives::mceliece_pair(public, self.mce_sk@)
                && #[trigger] primitives::mceliece_encapsulated(public, self.ct_mce@, self.s_mce@)
        &&& frodo_carries(self.frodo_sk@, self.ct_frodo@, self.s_frodo@)
        &&& primitives::mldsa_pair(self.dilithium_vk@, self.dilithium_sk@)
        &&& self.dilithium_sk@.len() == primitives::MLDSA_SECRET_LEN
    }

    /// Whether the four ciphertexts open to their shards. The key schemes
    /// allow for failures of negligible chance.
    pub open spec fn shards_open(&self) -> bool {
        &&& primitives::rsa_balanced(self.rsa_der@)
        &&& primitives::rsa_oaep_opened(self.rsa_der@, self.ct_rsa@) == Some(self.s_rsa@)
        &&& primitives::mlkem_shared(self.ky_seed@, self.ct_ky@) == self.s_ky@
        &&& primitives::mceliece_shared(self.mce_sk@, self.ct_mce@) == self.s_mce@
        &&& primitives::frodo_opened(self.frodo_sk@, self.ct_frodo@) == Some(self.s_frodo@)
    }

    /// Whether the Ed448 signature on the binding message is regular.
    pub open spec fn ed_regular(&self, ts: u64, payload: Seq<u8>) -> bool {
        primitives::ed448_regular(
            primitives::ed448_public_key(self.ed_secret@),
            primitives::ed448_signature(self.ed_secret@, self.binding(ts, payload)),
        )
    }

    /// Whether the Dilithium signature on the binding message holds, and the
    /// Ed448 signature is regular, so that it holds too.
    pub open spec fn signs(&self, ts: u64, payload: Seq<u8>, dilithium_sig: Seq<u8>) -> bool {
        &&& primitives::mldsa_valid(self.dilithium_vk@, self.binding(ts, payload), dilithium_sig)
        &&& self.ed_regular(ts, payload)
    }
}

/// Whether a passphrase opens a vault to a payload as soon as both clocks say
/// that its time has come.
pub open spec fn opens_to(
    v: vault::VaultView,
    password: Seq<u8>,
    ts: u64,
    payload: Seq<u8>,
) -> bool {
    forall|network_now: u64, local_now: u64|
        ts <= network_now && ts <= local_now ==> #[trigger] vault::attempt(
            v,
            password,
            ts,
            network_now,
            local_now,
        ) == (vault::OutcomeView::Open { payload })
}

/// The vault of a payload under a passphrase.
pub open spec fn sealed_vault(
    m: &Material,
    password: Seq<u8>,
    ts: u64,
    payload: Seq<u8>,
    dilithium_sig: Seq<u8>,
) -> vault::VaultView {
    vault_with(m, crypto::master_key(password, m.salt@), ts, payload, dilithium_sig)
}

/// The vault of a payload under a master key.
pub open spec fn vault_with(
    m: &Material,
    master: Seq<u8>,
    ts: u64,
    payload: Seq<u8>,
    dilithium_sig: Seq<u8>,
) -> vault::VaultView {
    let prog = crypto::wrapped(
        vault::bootstrap_key(master),
        text::ascii("vmprog"@),
        vmgen::vm_program(m.k1@, m.k2@, m.km@, m.vm_seed),
    );
    vault::VaultView {
        salt: m.salt@,
        ts: crypto::wrapped(m.k1@, text::ascii("timestamp"@), bytes::le_bytes(ts as nat, 8)),
        ts_guard: guard::ts_guard(ts, m.guard_seed),
        vm_prog: prog,
        vm_prog_hash: primitives::blake3_digest(prog),
        km: m.km@,
        rsa_sk_wrap: crypto::wrapped(
            crypto::wrapping_key(m.k1@, 0),
            text::ascii("rsa-sk"@),
            m.rsa_der@,
        ),
        ct_rsa: m.ct_rsa@,
        ky_sk_wrap: crypto::wrapped(
            crypto::wrapping_key(m.k1@, 1),
            text::ascii("ky-sk"@),
            m.ky_seed@,
        ),
        ct_ky: m.ct_ky@,
        mce_sk_wrap: crypto::wrapped(
            crypto::wrapping_key(m.k1@, 2),
            text::ascii("mce-sk"@),
            m.mce_sk@,
        ),
        ct_mce: m.ct_mce@,
        frodo_sk_wrap: crypto::wrapped(
            crypto::wrapping_key(m.k1@, 3),
            text::ascii("frodo-sk"@),
            m.frodo_sk@,
        ),
        ct_frodo: m.ct_frodo@,
        dilithium_sk_wrap: crypto::wrapped(
            crypto::wrapping_key(m.k1@, 4),
            text::ascii("dilithium-sk"@),
            m.dilithium_sk@,
        ),
        dilithium_vk: m.dilithium_vk@,
        dilithium_sig,
        siv: m.sealed(ts, payload),
        dek_wrap: serpent_siv::siv_sealed(
            crypto::wrapping_key(m.k1@, 5),
            text::ascii("serpent-dek"@),
            m.dek(),
        ),
        ed_vk: primitives::ed448_public_key(m.ed_secret@),
        ed_sig: primitives::ed448_signature(m.ed_secret@, m.binding(ts, payload)),
        plain_len: payload.len() as u32,
    }
}

/// The data key of sealing.
pub fn seal_dek(m: &Material) -> (dek: [u8; 32])
    ensures
        dek@ == m.dek(),
{
    let e: [u8; 32] = crypto::blake3_256(m.dilithium_vk.as_slice());
    let f: [u8; 32] = crypto::sm3_256(m.dilithium_vk.as_slice());
    vault::xor6(&m.s_rsa, &m.s_ky, &m.s_mce, &m.s_frodo, &e, &f)
}

/// Compresses, whitens and seals a payload.
pub fn seal_payload(m: &Material, dek: &[u8; 32], ts: u64, payload: &[u8]) -> (siv: Vec<u8>)
    requires
        dek@ == m.dek(),
        payload@.len() <= primitives::LZMA_MAX,
    ensures
        siv@ == m.sealed(ts, payload@),
        serpent_siv::siv_opened(m.dek(), bytes::le_bytes(ts as nat, 8), siv@) == Some(
            crypto::whitened(m.k1@, m.k2@, m.salt@, primitives::lzma_packed(payload@)),
        ),
        primitives::lzma_unpacked(primitives::lzma_packed(payload@)) == Some(payload@),
{
    let mut packed: Vec<u8> = primitives::lzma_pack(payload);
    crypto::blake3_keystream(&m.k1, &m.k2, &m.salt, packed.as_mut_slice());
    let when: [u8; 8] = bytes::u64_to_le(ts);
    let siv: Vec<u8> = serpent_siv::siv_encrypt(dek, &when, packed.as_slice());
    crypto::zeroize(packed.as_mut_slice());
    siv
}

fn wrap_labelled(key: &[u8; 32], label: &str, plain: &[u8]) -> (blob: Vec<u8>)
    requires
        plain@.len() <= primitives::CHACHA_MAX,
    ensures
        blob@ == crypto::wrapped(key@, text::ascii(label@), plain@),
        crypto::unwrapped(key@, blob@) == Some(plain@),
{
    let l: Vec<u8> = text::ascii_bytes(label);
    crypto::wrap_key(key, l.as_slice(), plain)
}

/// Wraps the key machine program under the bootstrap key of a master key. The
/// master key is wiped.
fn seal_program(m: &Material, master: &mut [u8; 32]) -> (blob: Vec<u8>)
    ensures
        blob@ == crypto::wrapped(
            vault::bootstrap_key(old(master)@),
            text::ascii("vmprog"@),
            vmgen::vm_program(m.k1@, m.k2@, m.km@, m.vm_seed),
        ),
        crypto::unwrapped(vault::bootstrap_key(old(master)@), blob@) == Some(
            vmgen::vm_program(m.k1@, m.k2@, m.km@, m.vm_seed),
        ),
        final(master)@ == bytes::zeros(32),
{
    let mut bk: [u8; 32] = vault::bootstrap(master);
    let mut prog: Vec<u8> = vmgen::gen_vm_program(&m.k1, &m.k2, &m.km, m.vm_seed);
    let blob: Vec<u8> = wrap_labelled(&bk, "vmprog", prog.as_slice());
    crypto::zeroize(&mut bk);
    crypto::zeroize(prog.as_mut_slice());
    blob
}

/// The chain on a vault that holds what sealing stores.
proof fn lemma_vault_opens(
    m: &Material,
    v: vault::VaultView,
    ts: u64,
    payload: Seq<u8>,
    dilithium_sig: Seq<u8>,
)
    requires
        m.wf(),
        m.s_rsa@.len() == 32,
        v.salt == m.salt@,
        crypto::unwrapped(m.k1@, v.ts) == Some(bytes::le_bytes(ts as nat, 8)),
        guard::guard_holds(v.ts_guard, ts),
        crypto::unwrapped(crypto::wrapping_key(m.k1@, 0), v.rsa_sk_wrap) == Some(m.rsa_der@),
        v.ct_rsa == m.ct_rsa@,
        crypto::unwrapped(crypto::wrapping_key(m.k1@, 1), v.ky_sk_wrap) == Some(m.ky_seed@),
        v.ct_ky == m.ct_ky@,
        crypto::unwrapped(crypto::wrapping_key(m.k1@, 2), v.mce_sk_wrap) == Some(m.mce_sk@),
        v.ct_mce == m.ct_mce@,
        crypto::unwrapped(crypto::wrapping_key(m.k1@, 3), v.frodo_sk_wrap) == Some(m.frodo_sk@),
        v.ct_frodo == m.ct_frodo@,
        v.dilithium_vk == m.dilithium_vk@,
        v.dilithium_sig == dilithium_sig,
        serpent_siv::siv_opened(
            crypto::wrapping_key(m.k1@, 5),
            text::ascii("serpent-dek"@),
            v.dek_wrap,
        ) == Some(m.dek()),
        v.siv == m.sealed(ts, payload),
        v.ed_vk == primitives::ed448_public_key(m.ed_secret@),
        v.ed_vk.len() == 57,
        v.ed_sig == primitives::ed448_signature(m.ed_secret@, m.binding(ts, payload)),
        v.ed_sig.len() == 114,
        m.ed_regular(ts, payload) ==> primitives::ed448_valid(
            v.ed_vk,
            m.binding(ts, payload),
            v.ed_sig,
        ),
        serpent_siv::siv_opened(m.dek(), bytes::le_bytes(ts as nat, 8), v.siv) == Some(
            crypto::whitened(m.k1@, m.k2@, m.salt@, primitives::lzma_packed(payload)),
        ),
        primitives::lzma_unpacked(primitives::lzma_packed(payload)) == Some(payload),
    ensures
        m.shards_open() && m.signs(ts, payload, dilithium_sig) ==> vault::opened(
            v,
            m.k1@ + m.k2@,
            ts,
        ) == Some(payload),
{
    let keys = m.k1@ + m.k2@;
    assert(keys.subrange(0, 32) =~= m.k1@);
    assert(keys.subrange(32, 64) =~= m.k2@);
    if m.shards_open() && m.signs(ts, payload, dilithium_sig) {
        let t = bytes::le_bytes(ts as nat, 8);
        bytes::lemma_le_bytes_len(ts as nat, 8);
        bytes::lemma_pow256_small();
        bytes::lemma_le_value_of_bytes(ts as nat, 8);
        assert(t.subrange(0, 8) =~= t);
        assert(vault::time_sound(v, m.k1@, ts));
        assert(m.s_rsa@.subrange(0, 32) =~= m.s_rsa@);
        assert(m.s_frodo@.subrange(0, 32) =~= m.s_frodo@);
        assert(m.ky_seed@.subrange(0, 64) =~= m.ky_seed@);
        assert(m.ct_mce@.subrange(0, primitives::MCELIECE_CT_LEN as int) =~= m.ct_mce@);
        assert(m.dek().subrange(0, 32) =~= m.dek());
        assert(vault::data_key(v, m.k1@) == Some(m.dek()));
        assert(vault::signatures_hold(v, ts, m.dek()));
        crypto::law_whitening_twice(m.k1@, m.k2@, m.salt@, primitives::lzma_packed(payload));
    }
}

/// Seals a payload into a vault, given everything that is drawn by chance, the
/// master key of the passphrase, and the Dilithium signature of the binding
/// message. The master key is wiped.
///
/// The master key opens the vault's program, the program rebuilds the key
/// halves, and, where the four ciphertexts open to their shards and both
/// signatures hold, the chain ends in the payload.
pub fn seal_vault_with(
    m: &Material,
    master: &mut [u8; 32],
    ts: u64,
    payload: &[u8],
    dilithium_sig: &[u8],
) -> (v: Vault)
    requires
        m.wf(),
        payload@.len() <= primitives::LZMA_MAX,
    ensures
        v@ == vault_with(m, old(master)@, ts, payload@, dilithium_sig@),
        final(master)@ == bytes::zeros(32),
        vault::program_intact(v@),
        vault::program_of(v@, old(master)@) == Some(
            vmgen::vm_program(m.k1@, m.k2@, m.km@, m.vm_seed),
        ),
        vault::rebuilt_keys(vmgen::vm_program(m.k1@, m.k2@, m.km@, m.vm_seed), v@.km) == Some(
            m.k1@ + m.k2@,
        ),
        m.shards_open() && m.signs(ts, payload@, dilithium_sig@) ==> vault::opened(
            v@,
            m.k1@ + m.k2@,
            ts,
        ) == Some(payload@),
        m.shards_open() && m.signs(ts, payload@, dilithium_sig@) ==> forall|
            network_now: u64,
            local_now: u64,
        |
            ts <= network_now && ts <= local_now ==> #[trigger] vault::attempt_with(
                v@,
                old(master)@,
                ts,
                network_now,
                local_now,
            ) == (vault::OutcomeView::Open { payload: payload@ }),
{
    let vm_prog: Vec<u8> = seal_program(m, master);
    let vm_prog_hash: [u8; 32] = crypto::blake3_256(vm_prog.as_slice());
    let mut keys: [[u8; 32]; 6] = crypto::derive_wrapping_keys(&m.k1);
    let mut dek: [u8; 32] = seal_dek(m);
    let siv: Vec<u8> = seal_payload(m, &dek, ts, payload);
    let msg: Vec<u8> = vault::binding_message(ts, &dek, siv.as_slice());
    let when: [u8; 8] = bytes::u64_to_le(ts);
    let ed_vk: [u8; 57] = primitives::ed448_public(&m.ed_secret);
    let ed_sig: [u8; 114] = primitives::ed448_sign(&m.ed_secret, msg.as_slice());
    let dek_label: Vec<u8> = text::ascii_bytes("serpent-dek");
    let v = Vault {
        salt: bytes::to_vec(&m.salt),
        ts: wrap_labelled(&m.k1, "timestamp", &when),
        ts_guard: guard::build_ts_guard(ts, m.guard_seed),
        vm_prog,
        vm_prog_hash: bytes::to_vec(&vm_prog_hash),
        km: bytes::to_vec(&m.km),
        rsa_sk_wrap: wrap_labelled(&keys[0], "rsa-sk", m.rsa_der.as_slice()),
        ct_rsa: bytes::to_vec(m.ct_rsa.as_slice()),
        ky_sk_wrap: wrap_labelled(&keys[1], "ky-sk", &m.ky_seed),
        ct_ky: bytes::to_vec(&m.ct_ky),
        mce_sk_wrap: wrap_labelled(&keys[2], "mce-sk", m.mce_sk.as_slice()),
        ct_mce: bytes::to_vec(&m.ct_mce),
        frodo_sk_wrap: wrap_labelled(&keys[3], "frodo-sk", m.frodo_sk.as_slice()),
        ct_frodo: bytes::to_vec(m.ct_frodo.as_slice()),
        dilithium_sk_wrap: wrap_labelled(&keys[4], "dilithium-sk", m.dilithium_sk.as_slice()),
        dilithium_vk: bytes::to_vec(m.dilithium_vk.as_slice()),
        dilithium_sig: bytes::to_vec(dilithium_sig),
        siv,
        dek_wrap: serpent_siv::siv_encrypt(&keys[5], dek_label.as_slice(), &dek),
        ed_vk: bytes::to_vec(&ed_vk),
        ed_sig: bytes::to_vec(&ed_sig),
        plain_len: payload.len() as u32,
    };
    vault::wipe_keys(&mut keys);
    crypto::zeroize(&mut dek);
    proof {
        vmgen::law_program_rebuilds_key(m.k1@, m.k2@, m.km@, m.vm_seed, bytes::zeros(64));
        lemma_vault_opens(m, v@, ts, payload@, dilithium_sig@);
    }
    v
}

/// Seals a payload into a vault under a passphrase.
///
/// Where the four ciphertexts open to their shards and both signatures hold,
/// the passphrase opens the vault from its opening time on, and what comes out
/// is the payload.
pub fn seal_vault(
    m: &Material,
    password: &[u8],
    ts: u64,
    payload: &[u8],
    dilithium_sig: &[u8],
) -> (v: Vault)
    requires
        m.wf(),
        password@.len() <= u32::MAX,
        payload@.len() <= primitives::LZMA_MAX,
    ensures
        v@ == sealed_vault(m, password@, ts, payload@, dilithium_sig@),
        vault::program_intact(v@),
        m.shards_open() && m.signs(ts, payload@, dilithium_sig@) ==> opens_to(
            v@,
            password@,
            ts,
            payload@,
        ),
{
    let mut master: [u8; 32] = crypto::argon2id_hash(password, &m.salt);
    let ghost key = master@;
    let v: Vault = seal_vault_with(m, &mut master, ts, payload, dilithium_sig);
    proof {
        if m.shards_open() && m.signs(ts, payload@, dilithium_sig@) {
            assert forall|network_now: u64, local_now: u64|
                ts <= network_now && ts <= local_now implies #[trigger] vault::attempt(
                v@,
                password@,
                ts,
                network_now,
                local_now,
            ) == (vault::OutcomeView::Open { payload: payload@ }) by {
                assert(vault::attempt_with(v@, key, ts, network_now, local_now) == (
                vault::OutcomeView::Open { payload: payload@ }));
            }
        }
    }
    v
}

/// `n` bytes drawn from a seed under a mask.
pub open spec fn drawn(seed: u64, mask: u64, n: nat) -> Seq<u8> {
    splitmix::stream(splitmix::seeded(seed ^ mask), n)
}

/// Draws the two key halves from their seeds.
pub fn draw_key_halves(seed1: u64, seed2: u64) -> (r: ([u8; 32], [u8; 32]))
    ensures
        r.0@ == drawn(seed1, K1_SEED_MASK, 32),
        r.1@ == drawn(seed2, K2_SEED_MASK, 32),
{
    let mut k1: [u8; 32] = [0; 32];
    let mut first = SplitMix::new(seed1 ^ K1_SEED_MASK);
    first.fill(&mut k1);
    let mut k2: [u8; 32] = [0; 32];
    let mut second = SplitMix::new(seed2 ^ K2_SEED_MASK);
    second.fill(&mut k2);
    (k1, k2)
}

/// Draws the key material from its seed.
pub fn draw_key_material(seed: u64) -> (km: [u8; 64])
    ensures
        km@ == drawn(seed, KM_SEED_MASK, 64),
{
    let mut km: [u8; 64] = [0; 64];
    let mut rng = SplitMix::new(seed ^ KM_SEED_MASK);
    rng.fill(&mut km);
    km
}

/// The seed in what the system gave: a number of eight bytes.
pub fn seed_from(random: Option<[u8; 32]>) -> (seed: Option<u64>)
    ensures
        seed == match random {
            Some(raw) => Some(bytes::le_value(raw@.subrange(0, 8)) as u64),
            None => None,
        },
{
    match random {
        Some(raw) => Some(bytes::read_le(&raw, 0, 8)),
        None => None,
    }
}

/// A seed from the system, if the system gives one. Which seed it is, chance
/// decides.
fn build_seed() -> (seed: Option<u64>) {
    seed_from(random32())
}

/// 32 bytes from the system, if the system gives them. Which bytes they are,
/// chance decides.
fn random32() -> (r: Option<[u8; 32]>) {
    let mut raw: [u8; 32] = [0; 32];
    if primitives::system_random(&mut raw) {
        Some(raw)
    } else {
        None
    }
}

/// Whether an RSA key of `bits` bits has room for a shard.
pub open spec fn rsa_holds_shard(bits: usize) -> bool {
    32 + primitives::OAEP_PADDING_LEN <= (bits + 7) / 8
}

/// A shard under an RSA key, given both: the private key, the ciphertext and
/// the shard. Nothing where one of them is missing or the key has no room.
pub fn rsa_from(der: Option<Vec<u8>>, shard: Option<[u8; 32]>) -> (r: Option<
    (Vec<u8>, Vec<u8>, [u8; 32]),
>)
    ensures
        r is Some ==> der is Some && shard is Some,
        forall|bits: usize|
            der is Some && shard is Some && #[trigger] primitives::rsa_key(bits, der->0@) ==> (
            r is Some <==> rsa_holds_shard(bits)),
        r matches Some(x) ==> x.0@ == der->0@ && x.2@ == shard->0@
            && primitives::rsa_oaep_ciphertext(x.0@, x.2@, x.1@),
{
    let der: Vec<u8> = der?;
    let shard: [u8; 32] = shard?;
    let ct: Vec<u8> = primitives::rsa_oaep_seal(der.as_slice(), &shard)?;
    Some((der, ct, shard))
}

/// An RSA key of `bits` bits, and a shard under it: the private key, the
/// ciphertext and the shard. Nothing where the key has no room, where the
/// system refuses to give a shard, or where the key that chance gave cannot be
/// written down.
pub fn draw_rsa(bits: usize) -> (r: Option<(Vec<u8>, Vec<u8>, [u8; 32])>)
    requires
        512 <= bits <= 4096,
    ensures
        !rsa_holds_shard(bits) ==> r is None,
        r matches Some(x) ==> primitives::rsa_key(bits, x.0@) && primitives::rsa_oaep_ciphertext(
            x.0@,
            x.2@,
            x.1@,
        ),
        r matches Some(x) ==> primitives::rsa_balanced(x.0@),
{
    rsa_from(primitives::rsa_generate(bits), random32())
}

/// A Kyber key, and a shard under it: the seed of the key, the ciphertext and
/// the shard.
pub fn draw_kyber() -> (r: ([u8; 64], [u8; primitives::MLKEM_CT_LEN], [u8; 32]))
    ensures
        primitives::mlkem_encapsulated(r.0@, r.1@, r.2@),
{
    let seed: [u8; 64] = primitives::mlkem_generate();
    let (ct, shard): ([u8; primitives::MLKEM_CT_LEN], [u8; 32]) = primitives::mlkem_seal(&seed);
    (seed, ct, shard)
}

/// A shard under a McEliece key: the ciphertext and the shard.
pub fn draw_mceliece_shard(public: &[u8]) -> (r: Option<
    ([u8; primitives::MCELIECE_CT_LEN], [u8; 32]),
>)
    ensures
        r is Some <==> public@.len() == primitives::MCELIECE_PUBLIC_LEN,
        r matches Some(x) ==> primitives::mceliece_encapsulated(public@, x.0@, x.1@),
{
    primitives::mceliece_seal(public)
}

/// Whether a FrodoKEM ciphertext carries a shard under the public key that goes
/// with a secret key.
pub open spec fn frodo_carries(secret: Seq<u8>, ct: Seq<u8>, shard: Seq<u8>) -> bool {
    exists|public: Seq<u8>, salt: Seq<u8>|
        primitives::frodo_pair(public, secret) && #[trigger] primitives::frodo_sealed(
            public,
            shard,
            salt,
        ) == Some(ct)
}

/// A shard under a FrodoKEM key, given the key pair, the shard and the salt:
/// the secret key, the ciphertext and the shard. Nothing where shard or salt is
/// missing, or the public key has the wrong length.
pub fn frodo_from(
    public: &[u8],
    secret: Vec<u8>,
    shard: Option<[u8; 32]>,
    salt: Option<[u8; primitives::FRODO_SALT_LEN]>,
) -> (r: Option<(Vec<u8>, Vec<u8>, [u8; 32])>)
    ensures
        r is Some <==> shard is Some && salt is Some && public@.len()
            == primitives::FRODO_PUBLIC_LEN,
        r matches Some(x) ==> x.0@ == secret@ && x.2@ == shard->0@ && primitives::frodo_sealed(
            public@,
            x.2@,
            salt->0@,
        ) == Some(x.1@),
{
    let shard: [u8; 32] = shard?;
    let salt: [u8; primitives::FRODO_SALT_LEN] = salt?;
    let ct: Vec<u8> = primitives::frodo_seal(public, &shard, &salt)?;
    Some((secret, ct, shard))
}

/// A FrodoKEM key, and a shard under it: the secret key, the ciphertext and the
/// shard. Nothing where the system refuses to give shard or salt.
pub fn draw_frodo() -> (r: Option<(Vec<u8>, Vec<u8>, [u8; 32])>)
    ensures
        r matches Some(x) ==> frodo_carries(x.0@, x.1@, x.2@),
{
    let (public, secret): (Vec<u8>, Vec<u8>) = primitives::frodo_generate();
    let shard: Option<[u8; 32]> = random32();
    let mut raw: [u8; primitives::FRODO_SALT_LEN] = [0; primitives::FRODO_SALT_LEN];
    let given: bool = primitives::system_random(&mut raw);
    let salt: Option<[u8; primitives::FRODO_SALT_LEN]> = if given {
        Some(raw)
    } else {
        None
    };
    frodo_from(public.as_slice(), secret, shard, salt)
}

/// The keys of both signatures: the Dilithium public and secret key, and the
/// Ed448 secret key.
pub fn draw_signing_keys() -> (r: (Vec<u8>, Vec<u8>, [u8; 57]))
    ensures
        primitives::mldsa_pair(r.0@, r.1@),
        r.1@.len() == primitives::MLDSA_SECRET_LEN,
{
    let (public, secret): (Vec<u8>, Vec<u8>) = primitives::mldsa_generate();
    (public, secret, primitives::ed448_generate())
}

/// What was drawn for a vault. Where something could not be drawn, there is
/// nothing in its place.
pub struct Draws {
    pub salt: Option<[u8; 32]>,
    pub k1_seed: Option<u64>,
    pub k2_seed: Option<u64>,
    pub guard_seed: Option<u64>,
    pub km_seed: Option<u64>,
    pub vm_seed: Option<u64>,
    /// The RSA private key, the ciphertext and the shard.
    pub rsa: Option<(Vec<u8>, Vec<u8>, [u8; 32])>,
    /// The Kyber seed, the ciphertext and the shard.
    pub kyber: ([u8; 64], [u8; primitives::MLKEM_CT_LEN], [u8; 32]),
    pub mce_sk: Vec<u8>,
    /// The McEliece ciphertext and the shard.
    pub mceliece: Option<([u8; primitives::MCELIECE_CT_LEN], [u8; 32])>,
    /// The FrodoKEM secret key, the ciphertext and the shard.
    pub frodo: Option<(Vec<u8>, Vec<u8>, [u8; 32])>,
    /// The Dilithium public and secret key, and the Ed448 secret key.
    pub signing: (Vec<u8>, Vec<u8>, [u8; 57]),
}

impl Draws {
    /// Whether nothing is missing and every key can be wrapped.
    pub open spec fn complete(&self) -> bool {
        &&& self.salt is Some
        &&& self.k1_seed is Some
        &&& self.k2_seed is Some
        &&& self.guard_seed is Some
        &&& self.km_seed is Some
        &&& self.vm_seed is Some
        &&& self.rsa is Some
        &&& (self.rsa->0).0@.len() <= primitives::CHACHA_MAX
        &&& self.mce_sk@.len() == primitives::MCELIECE_SECRET_LEN
        &&& self.mceliece is Some
        &&& self.frodo is Some
        &&& (self.frodo->0).0@.len() <= primitives::CHACHA_MAX
        &&& self.signing.1@.len() <= primitives::CHACHA_MAX
    }

    /// Whether `m` is the material that was drawn.
    pub open spec fn gives(&self, m: &Material) -> bool {
        &&& m.salt == self.salt->0
        &&& m.k1@ == drawn(self.k1_seed->0, K1_SEED_MASK, 32)
        &&& m.k2@ == drawn(self.k2_seed->0, K2_SEED_MASK, 32)
        &&& m.km@ == drawn(self.km_seed->0, KM_SEED_MASK, 64)
        &&& m.guard_seed == self.guard_seed->0
        &&& m.vm_seed == self.vm_seed->0 ^ VM_SEED_MASK
        &&& (m.rsa_der, m.ct_rsa, m.s_rsa) == self.rsa->0
        &&& (m.ky_seed, m.ct_ky, m.s_ky) == self.kyber
        &&& m.mce_sk == self.mce_sk
        &&& (m.ct_mce, m.s_mce) == self.mceliece->0
        &&& (m.frodo_sk, m.ct_frodo, m.s_frodo) == self.frodo->0
        &&& (m.dilithium_vk, m.dilithium_sk, m.ed_secret) == self.signing
    }
}

/// Puts the material together from what was drawn.
pub fn material_from(d: Draws) -> (r: Option<Material>)
    ensures
        r is Some <==> d.complete(),
        r matches Some(m) ==> d.gives(&m) && m.wf(),
{
    let salt: [u8; 32] = d.salt?;
    let (k1, k2): ([u8; 32], [u8; 32]) = draw_key_halves(d.k1_seed?, d.k2_seed?);
    let guard_seed: u64 = d.guard_seed?;
    let km: [u8; 64] = draw_key_material(d.km_seed?);
    let vm_seed: u64 = d.vm_seed? ^ VM_SEED_MASK;
    let (rsa_der, ct_rsa, s_rsa) = d.rsa?;
    let (ky_seed, ct_ky, s_ky) = d.kyber;
    let mce_sk: Vec<u8> = d.mce_sk;
    let (ct_mce, s_mce) = d.mceliece?;
    let (frodo_sk, ct_frodo, s_frodo) = d.frodo?;
    let (dilithium_vk, dilithium_sk, ed_secret) = d.signing;
    let limit: u64 = primitives::CHACHA_MAX;
    if rsa_der.len() as u64 > limit || frodo_sk.len() as u64 > limit || dilithium_sk.len() as u64
        > limit || mce_sk.len() != primitives::MCELIECE_SECRET_LEN {
        return None;
    }
    Some(
        Material {
            salt,
            k1,
            k2,
            km,
            guard_seed,
            vm_seed,
            rsa_der,
            ct_rsa,
            s_rsa,
            ky_seed,
            ct_ky,
            s_ky,
            mce_sk,
            ct_mce,
            s_mce,
            frodo_sk,
            ct_frodo,
            s_frodo,
            dilithium_vk,
            dilithium_sk,
            ed_secret,
        },
    )
}

/// Draws everything about a vault that chance decides: keys, seeds, salts and
/// ciphertexts. `None` where the system refuses to give random bytes or a key
/// cannot be made.
pub fn draw_material() -> (r: Option<Material>)
    ensures
        r matches Some(m) ==> m.wf() && m.made(),
{
    let (mce_pk, mce_sk): (Vec<u8>, Vec<u8>) = primitives::mceliece_generate();
    let d = Draws {
        salt: random32(),
        k1_seed: build_seed(),
        k2_seed: build_seed(),
        guard_seed: build_seed(),
        km_seed: build_seed(),
        vm_seed: build_seed(),
        rsa: draw_rsa(RSA_BITS),
        kyber: draw_kyber(),
        mce_sk,
        mceliece: draw_mceliece_shard(mce_pk.as_slice()),
        frodo: draw_frodo(),
        signing: draw_signing_keys(),
    };
    let r: Option<Material> = material_from(d);
    proof {
        if r is Some {
            let m = r->0;
            assert(primitives::mceliece_pair(mce_pk@, m.mce_sk@)
                && primitives::mceliece_encapsulated(mce_pk@, m.ct_mce@, m.s_mce@));
        }
    }
    r
}

/// Signs the binding message with the Dilithium key of `m`. The signature
/// holds where the keys are a pair.
pub fn sign_binding(m: &Material, ts: u64, payload: &[u8]) -> (sig: Option<Vec<u8>>)
    requires
        payload@.len() <= primitives::LZMA_MAX,
    ensures
        sig is Some <==> m.dilithium_sk@.len() == primitives::MLDSA_SECRET_LEN,
        sig matches Some(s) ==> primitives::mldsa_signature(
            m.dilithium_sk@,
            m.binding(ts, payload@),
            s@,
        ),
        sig matches Some(s) ==> primitives::mldsa_pair(m.dilithium_vk@, m.dilithium_sk@)
            ==> primitives::mldsa_valid(m.dilithium_vk@, m.binding(ts, payload@), s@),
{
    let mut dek: [u8; 32] = seal_dek(m);
    let siv: Vec<u8> = seal_payload(m, &dek, ts, payload);
    let msg: Vec<u8> = vault::binding_message(ts, &dek, siv.as_slice());
    crypto::zeroize(&mut dek);
    primitives::mldsa_sign(m.dilithium_sk.as_slice(), msg.as_slice())
}

/// Seals a payload with the material that was drawn, if any was. Whatever
/// signature the Dilithium key gives, the vault is the one that `seal_vault`
/// makes with it; where the four ciphertexts open to their shards, the
/// Dilithium keys are a pair and the Ed448 signature is regular, the passphrase
/// opens it from its opening time on.
pub fn seal_material(m: Option<Material>, password: &[u8], ts: u64, payload: &[u8]) -> (r: Option<
    Vault,
>)
    requires
        m is Some ==> m->0.wf(),
        password@.len() <= u32::MAX,
        payload@.len() <= primitives::LZMA_MAX,
    ensures
        r is Some <==> m is Some && m->0.dilithium_sk@.len() == primitives::MLDSA_SECRET_LEN,
        r matches Some(v) ==> exists|sig: Seq<u8>|
            primitives::mldsa_signature(m->0.dilithium_sk@, m->0.binding(ts, payload@), sig) && v@
                == #[trigger] sealed_vault(&m->0, password@, ts, payload@, sig),
        r matches Some(v) ==> m->0.shards_open() && primitives::mldsa_pair(
            m->0.dilithium_vk@,
            m->0.dilithium_sk@,
        ) && m->0.ed_regular(ts, payload@) ==> opens_to(v@, password@, ts, payload@),
{
    let m: Material = m?;
    let sig: Vec<u8> = sign_binding(&m, ts, payload)?;
    let v: Vault = seal_vault(&m, password, ts, payload, sig.as_slice());
    proof {
        assert(v@ == sealed_vault(&m, password@, ts, payload@, sig@));
    }
    Some(v)
}

/// Seals a payload with fresh keys. Whatever keys and signature were drawn,
/// the vault is the one that `seal_vault` makes of them, and the passphrase
/// opens it from its opening time on, but for failures of negligible chance.
/// `None` where the keys could not be drawn.
pub fn seal(password: &[u8], ts: u64, payload: &[u8]) -> (r: Option<Vault>)
    requires
        password@.len() <= u32::MAX,
        payload@.len() <= primitives::LZMA_MAX,
    ensures
        r matches Some(v) ==> exists|m: Material, sig: Seq<u8>|
            m.wf() && m.made() && primitives::mldsa_signature(
                m.dilithium_sk@,
                m.binding(ts, payload@),
                sig,
            ) && v@ == #[trigger] sealed_vault(&m, password@, ts, payload@, sig) && (
            m.shards_open() && m.ed_regular(ts, payload@) ==> opens_to(
                v@,
                password@,
                ts,
                payload@,
            )),
{
    seal_material(draw_material(), password, ts, payload)
}

/// A sealed vault asks for the passphrase it was sealed with: another
/// passphrase is answered as wrong exactly if the key of its own Argon2id tag
/// does not open what was closed with the key of the right one's tag.
pub proof fn law_sealed_vault_asks_for_its_passphrase(
    m: &Material,
    password: Seq<u8>,
    other: Seq<u8>,
    ts: u64,
    payload: Seq<u8>,
    sig: Seq<u8>,
    network_now: u64,
    local_now: u64,
)
    requires
        forall|x: Seq<u8>| (#[trigger] primitives::sha3_256_digest(x)).len() == 32,
        forall|k: Seq<u8>, n: Seq<u8>, x: Seq<u8>|
            (#[trigger] primitives::chacha_sealed(k, n, x)).len() == x.len() + 16,
    ensures
        ({
            let right = primitives::sha3_256_digest(
                primitives::argon2id_tag(password, m.salt@, 262144, 4, 8) + seq![98u8, 111, 111, 116, 115, 116, 114, 97, 112],
            );
            let tried = primitives::sha3_256_digest(
                primitives::argon2id_tag(other, m.salt@, 262144, 4, 8) + seq![98u8, 111, 111, 116, 115, 116, 114, 97, 112],
            );
            let nonce = primitives::sha3_256_digest(right + seq![118u8, 109, 112, 114, 111, 103]).subrange(0, 12);
            let program = vmgen::vm_program(m.k1@, m.k2@, m.km@, m.vm_seed);
            (vault::attempt(
                sealed_vault(m, password, ts, payload, sig),
                other,
                ts,
                network_now,
                local_now,
            ) is WrongPassphrase) == (primitives::chacha_opened(
                tried,
                nonce,
                primitives::chacha_sealed(right, nonce, program),
            ) is None)
        }),
{
    reveal_strlit("bootstrap");
    reveal_strlit("vmprog");
    assert(text::ascii("bootstrap"@) =~= seq![98u8, 111, 111, 116, 115, 116, 114, 97, 112]);
    assert(text::ascii("vmprog"@) =~= seq![118u8, 109, 112, 114, 111, 103]);
    let v = sealed_vault(m, password, ts, payload, sig);
    let right = vault::bootstrap_key(crypto::master_key(password, m.salt@));
    let nonce = primitives::sha3_256_digest(right + seq![118u8, 109, 112, 114, 111, 103]).subrange(0, 12);
    let program = vmgen::vm_program(m.k1@, m.k2@, m.km@, m.vm_seed);
    let ct = primitives::chacha_sealed(right, nonce, program);
    assert(v.vm_prog == nonce + ct);
    assert(v.vm_prog.subrange(0, 12) =~= nonce);
    assert(v.vm_prog.subrange(12, v.vm_prog.len() as int) =~= ct);
    vault::law_passphrase_decides(v, other, ts, network_now, local_now);
}

/// What a sealed vault holds: the salt and key material as drawn, the
/// ciphertexts of the four shards, the digest of the program, the keys and the
/// data key under the wrapping keys of the first key half, and the signatures on
/// opening time, data key and sealed payload.
pub proof fn law_sealed_vault_holds(
    m: &Material,
    password: Seq<u8>,
    ts: u64,
    payload: Seq<u8>,
    sig: Seq<u8>,
)
    ensures
        ({
            let v = sealed_vault(m, password, ts, payload, sig);
            let when = bytes::le_bytes(ts as nat, 8);
            let key = |i: int| crypto::wrapping_key(m.k1@, i);
            let white = crypto::whitened(m.k1@, m.k2@, m.salt@, primitives::lzma_packed(payload));
            let msg = when + m.dek() + primitives::sha3_256_digest(v.siv);
            &&& v.salt == m.salt@ && v.km == m.km@
            &&& v.ct_rsa == m.ct_rsa@ && v.ct_ky == m.ct_ky@ && v.ct_mce == m.ct_mce@
            &&& v.ct_frodo == m.ct_frodo@ && v.dilithium_vk == m.dilithium_vk@
            &&& v.dilithium_sig == sig
            &&& v.vm_prog_hash == primitives::blake3_digest(v.vm_prog)
            &&& v.ts == crypto::wrapped(m.k1@, seq![116u8, 105, 109, 101, 115, 116, 97, 109, 112], when)
            &&& v.rsa_sk_wrap == crypto::wrapped(key(0), seq![114u8, 115, 97, 45, 115, 107], m.rsa_der@)
            &&& v.ky_sk_wrap == crypto::wrapped(key(1), seq![107u8, 121, 45, 115, 107], m.ky_seed@)
            &&& v.mce_sk_wrap == crypto::wrapped(key(2), seq![109u8, 99, 101, 45, 115, 107], m.mce_sk@)
            &&& v.frodo_sk_wrap == crypto::wrapped(key(3), seq![102u8, 114, 111, 100, 111, 45, 115, 107], m.frodo_sk@)
            &&& v.dilithium_sk_wrap == crypto::wrapped(key(4), seq![100u8, 105, 108, 105, 116, 104, 105, 117, 109, 45, 115, 107], m.dilithium_sk@)
            &&& v.dek_wrap == serpent_siv::siv_sealed(key(5), seq![115u8, 101, 114, 112, 101, 110, 116, 45, 100, 101, 107], m.dek())
            &&& v.siv == serpent_siv::siv_sealed(m.dek(), when, white)
            &&& v.ed_vk == primitives::ed448_public_key(m.ed_secret@)
            &&& v.ed_sig == primitives::ed448_signature(m.ed_secret@, msg)
            &&& payload.len() <= u32::MAX ==> v.plain_len == payload.len()
        }),
{
    reveal_strlit("timestamp");
    reveal_strlit("rsa-sk");
    reveal_strlit("ky-sk");
    reveal_strlit("mce-sk");
    reveal_strlit("frodo-sk");
    reveal_strlit("dilithium-sk");
    reveal_strlit("serpent-dek");
    assert(text::ascii("timestamp"@) =~= seq![116u8, 105, 109, 101, 115, 116, 97, 109, 112]);
    assert(text::ascii("rsa-sk"@) =~= seq![114u8, 115, 97, 45, 115, 107]);
    assert(text::ascii("ky-sk"@) =~= seq![107u8, 121, 45, 115, 107]);
    assert(text::ascii("mce-sk"@) =~= seq![109u8, 99, 101, 45, 115, 107]);
    assert(text::ascii("frodo-sk"@) =~= seq![102u8, 114, 111, 100, 111, 45, 115, 107]);
    assert(text::ascii("dilithium-sk"@) =~= seq![100u8, 105, 108, 105, 116, 104, 105, 117, 109, 45, 115, 107]);
    assert(text::ascii("serpent-dek"@) =~= seq![115u8, 101, 114, 112, 101, 110, 116, 45, 100, 101, 107]);
}

/// The data key of sealing is the sum of the six shards: the four drawn ones,
/// and the BLAKE3 and SM3 digests of the Dilithium key.
pub proof fn law_data_key_is_a_sum(m: &Material, i: int)
    requires
        0 <= i < 32,
    ensures
        m.dek().len() == 32,
        m.dek()[i] == m.s_rsa@[i] ^ m.s_ky@[i] ^ m.s_mce@[i] ^ m.s_frodo@[i]
            ^ primitives::blake3_digest(m.dilithium_vk@)[i] ^ primitives::sm3_digest(
            m.dilithium_vk@,
        )[i],
{
}

/// What is drawn from a seed comes from the generator that starts with the seed
/// under a mask of its own: 0xA5A5 and 0x5A5A for the key halves, 0x3C3C for the
/// key material and 0xDEAD for the program.
pub proof fn law_seeds_are_masked(d: Draws, m: Material)
    requires
        d.gives(&m),
    ensures
        m.k1@ == splitmix::stream(splitmix::seeded(d.k1_seed->0 ^ 0xA5A5), 32),
        m.k2@ == splitmix::stream(splitmix::seeded(d.k2_seed->0 ^ 0x5A5A), 32),
        m.km@ == splitmix::stream(splitmix::seeded(d.km_seed->0 ^ 0x3C3C), 64),
        m.vm_seed == d.vm_seed->0 ^ 0xDEAD,
        m.guard_seed == d.guard_seed->0,
{
}

} // verus!
