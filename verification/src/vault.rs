//! The vault: everything that is stored of a sealed text, how it is opened,
//! and when.
use vstd::prelude::*;

use crate::bytes;
use crate::crypto;
use crate::guard;
use crate::primitives;
use crate::rustyvm;
use crate::serpent_siv;
use crate::text;

verus! {

/// The stored parts of a sealed text.
pub struct Vault {
    /// Salt of the passphrase.
    pub salt: Vec<u8>,
    /// The opening time, wrapped under the first key half.
    pub ts: Vec<u8>,
    /// The timestamp guard.
    pub ts_guard: Vec<u8>,
    /// The key machine program, wrapped under the bootstrap key.
    pub vm_prog: Vec<u8>,
    /// BLAKE3 digest of `vm_prog`.
    pub vm_prog_hash: Vec<u8>,
    /// The key material of the key machine.
    pub km: Vec<u8>,
    /// RSA private key, wrapped.
    pub rsa_sk_wrap: Vec<u8>,
    /// RSA ciphertext of the first shard.
    pub ct_rsa: Vec<u8>,
    /// Kyber seed, wrapped.
    pub ky_sk_wrap: Vec<u8>,
    /// Kyber ciphertext of the second shard.
    pub ct_ky: Vec<u8>,
    /// McEliece secret key, wrapped.
    pub mce_sk_wrap: Vec<u8>,
    /// McEliece ciphertext of the third shard.
    pub ct_mce: Vec<u8>,
    /// FrodoKEM decryption key, wrapped.
    pub frodo_sk_wrap: Vec<u8>,
    /// FrodoKEM ciphertext of the fourth shard.
    pub ct_frodo: Vec<u8>,
    /// Dilithium secret key, wrapped.
    pub dilithium_sk_wrap: Vec<u8>,
    /// Dilithium public key, whose digests are the fifth and sixth shard.
    pub dilithium_vk: Vec<u8>,
    /// Dilithium signature of the binding message.
    pub dilithium_sig: Vec<u8>,
    /// The payload: compressed, whitened, sealed.
    pub siv: Vec<u8>,
    /// The data key, sealed under its wrapping key.
    pub dek_wrap: Vec<u8>,
    /// Ed448 public key.
    pub ed_vk: Vec<u8>,
    /// Ed448 signature of the binding message.
    pub ed_sig: Vec<u8>,
    /// Length of the payload before compression.
    pub plain_len: u32,
}

/// The stored parts as byte strings.
#[verifier::ext_equal]
pub struct VaultView {
    pub salt: Seq<u8>,
    pub ts: Seq<u8>,
    pub ts_guard: Seq<u8>,
    pub vm_prog: Seq<u8>,
    pub vm_prog_hash: Seq<u8>,
    pub km: Seq<u8>,
    pub rsa_sk_wrap: Seq<u8>,
    pub ct_rsa: Seq<u8>,
    pub ky_sk_wrap: Seq<u8>,
    pub ct_ky: Seq<u8>,
    pub mce_sk_wrap: Seq<u8>,
    pub ct_mce: Seq<u8>,
    pub frodo_sk_wrap: Seq<u8>,
    pub ct_frodo: Seq<u8>,
    pub dilithium_sk_wrap: Seq<u8>,
    pub dilithium_vk: Seq<u8>,
    pub dilithium_sig: Seq<u8>,
    pub siv: Seq<u8>,
    pub dek_wrap: Seq<u8>,
    pub ed_vk: Seq<u8>,
    pub ed_sig: Seq<u8>,
    pub plain_len: u32,
}

impl View for Vault {
    type V = VaultView;

    open spec fn view(&self) -> VaultView {
        VaultView {
            salt: self.salt@,
            ts: self.ts@,
            ts_guard: self.ts_guard@,
            vm_prog: self.vm_prog@,
            vm_prog_hash: self.vm_prog_hash@,
            km: self.km@,
            rsa_sk_wrap: self.rsa_sk_wrap@,
            ct_rsa: self.ct_rsa@,
            ky_sk_wrap: self.ky_sk_wrap@,
            ct_ky: self.ct_ky@,
            mce_sk_wrap: self.mce_sk_wrap@,
            ct_mce: self.ct_mce@,
            frodo_sk_wrap: self.frodo_sk_wrap@,
            ct_frodo: self.ct_frodo@,
            dilithium_sk_wrap: self.dilithium_sk_wrap@,
            dilithium_vk: self.dilithium_vk@,
            dilithium_sig: self.dilithium_sig@,
            siv: self.siv@,
            dek_wrap: self.dek_wrap@,
            ed_vk: self.ed_vk@,
            ed_sig: self.ed_sig@,
            plain_len: self.plain_len,
        }
    }
}

/// The first `n` bytes, if there are that many.
pub open spec fn head(s: Option<Seq<u8>>, n: int) -> Option<Seq<u8>> {
    match s {
        Some(b) => if b.len() >= n {
            Some(b.subrange(0, n))
        } else {
            None
        },
        None => None,
    }
}

/// Whether the stored program is the one whose digest is stored.
pub open spec fn program_intact(v: VaultView) -> bool {
    primitives::blake3_digest(v.vm_prog) == v.vm_prog_hash
}

/// The key that the key machine program is wrapped under.
pub open spec fn bootstrap_key(master: Seq<u8>) -> Seq<u8> {
    primitives::sha3_256_digest(master + text::ascii("bootstrap"@))
}

/// The key machine program, if the master key opens it.
pub open spec fn program_of(v: VaultView, master: Seq<u8>) -> Option<Seq<u8>> {
    crypto::unwrapped(bootstrap_key(master), v.vm_prog)
}

/// The two key halves that a program rebuilds, if it is valid.
pub open spec fn rebuilt_keys(prog: Seq<u8>, km: Seq<u8>) -> Option<Seq<u8>> {
    let s = rustyvm::run_result(prog, km, bytes::zeros(64));
    if s.fault || !s.ok {
        None
    } else {
        Some(s.out)
    }
}

/// The opening time that is stored, if it can be read.
pub open spec fn sealed_time(v: VaultView, k1: Seq<u8>) -> Option<u64> {
    match head(crypto::unwrapped(k1, v.ts), 8) {
        Some(b) => Some(bytes::le_value(b) as u64),
        None => None,
    }
}

/// Whether the stored opening time and its guard both stand for `open_ts`.
pub open spec fn time_sound(v: VaultView, k1: Seq<u8>, open_ts: u64) -> bool {
    sealed_time(v, k1) == Some(open_ts) && guard::guard_holds(v.ts_guard, open_ts)
}

/// The first shard: the head of what the RSA ciphertext opens to. A key whose
/// second factor is far longer than the first is none.
pub open spec fn rsa_shard(v: VaultView, key: Seq<u8>) -> Option<Seq<u8>> {
    match crypto::unwrapped(key, v.rsa_sk_wrap) {
        Some(der) => if primitives::rsa_balanced(der) {
            head(primitives::rsa_oaep_opened(der, v.ct_rsa), 32)
        } else {
            None
        },
        None => None,
    }
}

/// The second shard: the key that the Kyber ciphertext holds.
pub open spec fn kyber_shard(v: VaultView, key: Seq<u8>) -> Option<Seq<u8>> {
    match head(crypto::unwrapped(key, v.ky_sk_wrap), 64) {
        Some(seed) => if v.ct_ky.len() == primitives::MLKEM_CT_LEN {
            Some(primitives::mlkem_shared(seed, v.ct_ky))
        } else {
            None
        },
        None => None,
    }
}

/// The third shard: the key that the McEliece ciphertext holds.
pub open spec fn mceliece_shard(v: VaultView, key: Seq<u8>) -> Option<Seq<u8>> {
    match crypto::unwrapped(key, v.mce_sk_wrap) {
        Some(sk) => if sk.len() == primitives::MCELIECE_SECRET_LEN && v.ct_mce.len()
            >= primitives::MCELIECE_CT_LEN {
            Some(
                primitives::mceliece_shared(
                    sk,
                    v.ct_mce.subrange(0, primitives::MCELIECE_CT_LEN as int),
                ),
            )
        } else {
            None
        },
        None => None,
    }
}

/// The fourth shard: the head of the message that the FrodoKEM ciphertext
/// carries.
pub open spec fn frodo_shard(v: VaultView, key: Seq<u8>) -> Option<Seq<u8>> {
    match crypto::unwrapped(key, v.frodo_sk_wrap) {
        Some(sk) => head(primitives::frodo_opened(sk, v.ct_frodo), 32),
        None => None,
    }
}

/// Six shards put together.
pub open spec fn combined(
    a: Seq<u8>,
    b: Seq<u8>,
    c: Seq<u8>,
    d: Seq<u8>,
    e: Seq<u8>,
    f: Seq<u8>,
) -> Seq<u8> {
    Seq::new(32, |i: int| a[i] ^ b[i] ^ c[i] ^ d[i] ^ e[i] ^ f[i])
}

/// The data key as it is stored: the head of what its seal opens to.
pub open spec fn stored_key(v: VaultView, key: Seq<u8>) -> Option<Seq<u8>> {
    head(serpent_siv::siv_opened(key, text::ascii("serpent-dek"@), v.dek_wrap), 32)
}

/// The data key: what the six shards combine to, provided it is also the one
/// that is stored.
pub open spec fn data_key(v: VaultView, k1: Seq<u8>) -> Option<Seq<u8>> {
    match (
        rsa_shard(v, crypto::wrapping_key(k1, 0)),
        kyber_shard(v, crypto::wrapping_key(k1, 1)),
        mceliece_shard(v, crypto::wrapping_key(k1, 2)),
        frodo_shard(v, crypto::wrapping_key(k1, 3)),
    ) {
        (Some(a), Some(b), Some(c), Some(d)) => {
            let dek = combined(
                a,
                b,
                c,
                d,
                primitives::blake3_digest(v.dilithium_vk),
                primitives::sm3_digest(v.dilithium_vk),
            );
            if stored_key(v, crypto::wrapping_key(k1, 5)) == Some(dek) {
                Some(dek)
            } else {
                None
            }
        },
        _ => None,
    }
}

/// What both signatures sign: the opening time, the data key, and the digest
/// of the sealed payload.
pub open spec fn binding(ts: u64, dek: Seq<u8>, siv: Seq<u8>) -> Seq<u8> {
    bytes::le_bytes(ts as nat, 8) + dek + primitives::sha3_256_digest(siv)
}

/// Whether both signatures hold.
pub open spec fn signatures_hold(v: VaultView, ts: u64, dek: Seq<u8>) -> bool {
    &&& primitives::mldsa_valid(v.dilithium_vk, binding(ts, dek, v.siv), v.dilithium_sig)
    &&& v.ed_vk.len() == 57
    &&& v.ed_sig.len() == 114
    &&& primitives::ed448_valid(v.ed_vk, binding(ts, dek, v.siv), v.ed_sig)
}

/// The payload under the seal: opened, unmasked, inflated.
pub open spec fn unsealed(v: VaultView, keys: Seq<u8>, ts: u64, dek: Seq<u8>) -> Option<Seq<u8>> {
    match serpent_siv::siv_opened(dek, bytes::le_bytes(ts as nat, 8), v.siv) {
        Some(white) => primitives::lzma_unpacked(
            crypto::whitened(keys.subrange(0, 32), keys.subrange(32, 64), v.salt, white),
        ),
        None => None,
    }
}

/// The payload of a vault under its key halves: the whole chain. Nothing comes
/// out where any link fails.
pub open spec fn opened(v: VaultView, keys: Seq<u8>, open_ts: u64) -> Option<Seq<u8>> {
    let k1 = keys.subrange(0, 32);
    if !time_sound(v, k1, open_ts) {
        None
    } else {
        match data_key(v, k1) {
            Some(dek) => if signatures_hold(v, open_ts, dek) {
                unsealed(v, keys, open_ts, dek)
            } else {
                None
            },
            None => None,
        }
    }
}

/// What an attempt to open a vault comes to.
pub enum Outcome {
    /// The passphrase does not open the program. Nothing is lost.
    WrongPassphrase,
    /// A link of the chain failed: somebody has tampered with the vault.
    Tampered,
    /// The vault is sound, but its time has not come: so many seconds are left.
    Locked { left: u64 },
    /// The vault is open.
    Open { payload: Vec<u8> },
}

/// What an attempt to open a vault comes to.
pub enum OutcomeView {
    WrongPassphrase,
    Tampered,
    Locked { left: u64 },
    Open { payload: Seq<u8> },
}

impl View for Outcome {
    type V = OutcomeView;

    open spec fn view(&self) -> OutcomeView {
        match self {
            Outcome::WrongPassphrase => OutcomeView::WrongPassphrase,
            Outcome::Tampered => OutcomeView::Tampered,
            Outcome::Locked { left } => OutcomeView::Locked { left: *left },
            Outcome::Open { payload } => OutcomeView::Open { payload: payload@ },
        }
    }
}

/// The verdict on a chain that has run: tampering comes before the time, and
/// the agreed network time before the local clock.
pub open spec fn verdict(
    payload: Option<Seq<u8>>,
    open_ts: u64,
    network_now: u64,
    local_now: u64,
) -> OutcomeView {
    match payload {
        None => OutcomeView::Tampered,
        Some(p) => if network_now < open_ts {
            OutcomeView::Locked { left: (open_ts - network_now) as u64 }
        } else if local_now < open_ts {
            OutcomeView::Locked { left: (open_ts - local_now) as u64 }
        } else {
            OutcomeView::Open { payload: p }
        },
    }
}

/// What an attempt with a passphrase comes to.
pub open spec fn attempt(
    v: VaultView,
    password: Seq<u8>,
    open_ts: u64,
    network_now: u64,
    local_now: u64,
) -> OutcomeView {
    attempt_with(v, crypto::master_key(password, v.salt), open_ts, network_now, local_now)
}

/// What an attempt with a master key comes to.
pub open spec fn attempt_with(
    v: VaultView,
    master: Seq<u8>,
    open_ts: u64,
    network_now: u64,
    local_now: u64,
) -> OutcomeView {
    match program_of(v, master) {
        None => OutcomeView::WrongPassphrase,
        Some(prog) => match rebuilt_keys(prog, v.km) {
            None => OutcomeView::Tampered,
            Some(keys) => verdict(opened(v, keys, open_ts), open_ts, network_now, local_now),
        },
    }
}

/// No vault opens before its time, whatever else is true of it.
pub proof fn law_closed_before_time(
    v: VaultView,
    password: Seq<u8>,
    open_ts: u64,
    network_now: u64,
    local_now: u64,
)
    requires
        network_now < open_ts || local_now < open_ts,
    ensures
        !(attempt(v, password, open_ts, network_now, local_now) is Open),
{
}

/// Whether the time has come does not change how a vault that fails its chain
/// is answered: tampering shows before the time as after it.
pub proof fn law_tampering_shows_at_any_time(
    v: VaultView,
    password: Seq<u8>,
    open_ts: u64,
    network_now: u64,
    local_now: u64,
    other_network_now: u64,
    other_local_now: u64,
)
    requires
        attempt(v, password, open_ts, network_now, local_now) is Tampered,
    ensures
        attempt(v, password, open_ts, other_network_now, other_local_now) is Tampered,
{
}

/// Whether the opening time has come.
pub fn time_gate_open(now: u64, open_ts: u64) -> (r: bool)
    ensures
        r == (open_ts <= now),
{
    let ahead: i128 = (now as i128) - (open_ts as i128);
    ahead >= 0
}

/// The bytes behind an optional array.
pub open spec fn opt_array<const N: usize>(r: Option<[u8; N]>) -> Option<Seq<u8>> {
    match r {
        Some(a) => Some(a@),
        None => None,
    }
}

/// The first `N` bytes, if there are that many.
fn take_head<const N: usize>(b: &[u8]) -> (r: Option<[u8; N]>)
    ensures
        opt_array(r) == head(Some(b@), N as int),
{
    if b.len() < N {
        None
    } else {
        let (front, _) = b.split_at(N);
        Some(bytes::to_array(front))
    }
}

/// Whether the stored program is the one whose digest is stored.
pub fn program_is_intact(v: &Vault) -> (r: bool)
    ensures
        r == program_intact(v@),
{
    let digest: [u8; 32] = crypto::blake3_256(v.vm_prog.as_slice());
    crypto::ct_eq(&digest, v.vm_prog_hash.as_slice())
}

/// The key that the key machine program is wrapped under. The master key is
/// wiped.
pub fn bootstrap(master: &mut [u8; 32]) -> (bk: [u8; 32])
    ensures
        bk@ == bootstrap_key(old(master)@),
        final(master)@ == bytes::zeros(32),
{
    let label: Vec<u8> = text::ascii_bytes("bootstrap");
    let mut boot: Vec<u8> = bytes::concat(master, label.as_slice());
    let bk: [u8; 32] = crypto::sha3_256(boot.as_slice());
    crypto::zeroize(boot.as_mut_slice());
    crypto::zeroize(master);
    bk
}

/// Opens the key machine program with a master key. The master key is wiped.
pub fn open_program_with(v: &Vault, master: &mut [u8; 32]) -> (prog: Option<Vec<u8>>)
    ensures
        primitives::opt_bytes(prog) == program_of(v@, old(master)@),
        final(master)@ == bytes::zeros(32),
{
    let mut bk: [u8; 32] = bootstrap(master);
    let prog: Option<Vec<u8>> = crypto::decrypt(&bk, v.vm_prog.as_slice());
    crypto::zeroize(&mut bk);
    prog
}

/// Opens the key machine program with a passphrase. The passphrase is wiped.
pub fn open_program(v: &Vault, password: &mut [u8]) -> (prog: Option<Vec<u8>>)
    requires
        old(password)@.len() <= u32::MAX,
        8 <= v.salt@.len() <= u32::MAX,
    ensures
        primitives::opt_bytes(prog) == program_of(
            v@,
            crypto::master_key(old(password)@, v.salt@),
        ),
        final(password)@ == bytes::zeros(old(password)@.len()),
{
    let mut master: [u8; 32] = crypto::argon2id_hash(password, v.salt.as_slice());
    crypto::zeroize(password);
    open_program_with(v, &mut master)
}

/// Runs the key machine. The program is wiped.
pub fn rebuild_keys(prog: &mut Vec<u8>, km: &[u8]) -> (keys: Option<[u8; 64]>)
    ensures
        opt_array(keys) == rebuilt_keys(old(prog)@, km@),
        final(prog)@ == bytes::zeros(old(prog)@.len()),
{
    let mut keys: [u8; 64] = [0; 64];
    proof {
        assert(keys@ =~= bytes::zeros(64));
    }
    let ran: Option<bool> = rustyvm::run_checked(prog.as_slice(), km, &mut keys);
    crypto::zeroize(prog.as_mut_slice());
    match ran {
        Some(true) => Some(keys),
        _ => None,
    }
}

/// Reads the stored opening time and holds it and its guard against
/// `open_ts`.
pub fn check_time(v: &Vault, k1: &[u8; 32], open_ts: u64) -> (r: bool)
    ensures
        r == time_sound(v@, k1@, open_ts),
{
    let mut blob: Vec<u8> = match crypto::decrypt(k1, v.ts.as_slice()) {
        Some(b) => b,
        None => {
            return false;
        },
    };
    let stored: Option<[u8; 8]> = take_head::<8>(blob.as_slice());
    crypto::zeroize(blob.as_mut_slice());
    let stored: [u8; 8] = match stored {
        Some(s) => s,
        None => {
            return false;
        },
    };
    let wanted: [u8; 8] = bytes::u64_to_le(open_ts);
    proof {
        bytes::lemma_pow256_small();
        bytes::lemma_le_value_of_bytes(open_ts as nat, 8);
        bytes::lemma_le_bytes_of_value(stored@);
        bytes::lemma_le_value_bound(stored@);
    }
    if !crypto::ct_eq(&stored, &wanted) {
        return false;
    }
    guard::ts_guard_valid(v.ts_guard.as_slice(), open_ts)
}

fn open_rsa_shard(v: &Vault, key: &[u8; 32]) -> (r: Option<[u8; 32]>)
    ensures
        opt_array(r) == rsa_shard(v@, key@),
{
    let mut der: Vec<u8> = match crypto::decrypt(key, v.rsa_sk_wrap.as_slice()) {
        Some(b) => b,
        None => {
            return None;
        },
    };
    let balanced: bool = match primitives::rsa_factors(der.as_slice()) {
        Some((p, q)) => q <= p || q - p <= primitives::FACTOR_SLACK,
        None => false,
    };
    let shard: Option<Vec<u8>> = if balanced {
        primitives::rsa_oaep_open(der.as_slice(), v.ct_rsa.as_slice())
    } else {
        None
    };
    crypto::zeroize(der.as_mut_slice());
    match shard {
        Some(mut s) => {
            let front: Option<[u8; 32]> = take_head::<32>(s.as_slice());
            crypto::zeroize(s.as_mut_slice());
            front
        },
        None => None,
    }
}

fn open_kyber_shard(v: &Vault, key: &[u8; 32]) -> (r: Option<[u8; 32]>)
    ensures
        opt_array(r) == kyber_shard(v@, key@),
{
    let mut blob: Vec<u8> = match crypto::decrypt(key, v.ky_sk_wrap.as_slice()) {
        Some(b) => b,
        None => {
            return None;
        },
    };
    let seed: Option<[u8; 64]> = take_head::<64>(blob.as_slice());
    crypto::zeroize(blob.as_mut_slice());
    let mut seed: [u8; 64] = match seed {
        Some(s) => s,
        None => {
            return None;
        },
    };
    if v.ct_ky.len() != primitives::MLKEM_CT_LEN {
        crypto::zeroize(&mut seed);
        return None;
    }
    let ct: [u8; primitives::MLKEM_CT_LEN] = bytes::to_array(v.ct_ky.as_slice());
    let shard: [u8; 32] = primitives::mlkem_open(&seed, &ct);
    crypto::zeroize(&mut seed);
    Some(shard)
}

fn open_mceliece_shard(v: &Vault, key: &[u8; 32]) -> (r: Option<[u8; 32]>)
    ensures
        opt_array(r) == mceliece_shard(v@, key@),
{
    let mut blob: Vec<u8> = match crypto::decrypt(key, v.mce_sk_wrap.as_slice()) {
        Some(b) => b,
        None => {
            return None;
        },
    };
    if blob.len() != primitives::MCELIECE_SECRET_LEN || v.ct_mce.len()
        < primitives::MCELIECE_CT_LEN {
        crypto::zeroize(blob.as_mut_slice());
        return None;
    }
    let (front, _) = v.ct_mce.as_slice().split_at(primitives::MCELIECE_CT_LEN);
    let ct: [u8; primitives::MCELIECE_CT_LEN] = bytes::to_array(front);
    let mut secret: [u8; primitives::MCELIECE_SECRET_LEN] = bytes::to_array(blob.as_slice());
    crypto::zeroize(blob.as_mut_slice());
    let shard: [u8; 32] = primitives::mceliece_open(&secret, &ct);
    crypto::zeroize(&mut secret);
    Some(shard)
}

fn open_frodo_shard(v: &Vault, key: &[u8; 32]) -> (r: Option<[u8; 32]>)
    ensures
        opt_array(r) == frodo_shard(v@, key@),
{
    let mut secret: Vec<u8> = match crypto::decrypt(key, v.frodo_sk_wrap.as_slice()) {
        Some(b) => b,
        None => {
            return None;
        },
    };
    let msg: Option<Vec<u8>> = primitives::frodo_open(secret.as_slice(), v.ct_frodo.as_slice());
    crypto::zeroize(secret.as_mut_slice());
    match msg {
        Some(mut m) => {
            let front: Option<[u8; 32]> = take_head::<32>(m.as_slice());
            crypto::zeroize(m.as_mut_slice());
            front
        },
        None => None,
    }
}

/// Puts six shards together.
pub fn xor6(
    a: &[u8; 32],
    b: &[u8; 32],
    c: &[u8; 32],
    d: &[u8; 32],
    e: &[u8; 32],
    f: &[u8; 32],
) -> (o: [u8; 32])
    ensures
        o@ == combined(a@, b@, c@, d@, e@, f@),
{
    let mut o: [u8; 32] = [0; 32];
    let mut i: usize = 0;
    while i < 32
        invariant
            i <= 32,
            forall|j: int|
                0 <= j < i ==> o@[j] == a@[j] ^ b@[j] ^ c@[j] ^ d@[j] ^ e@[j] ^ f@[j],
        decreases 32 - i,
    {
        o[i] = a[i] ^ b[i] ^ c[i] ^ d[i] ^ e[i] ^ f[i];
        i = i + 1;
    }
    proof {
        assert(o@ =~= combined(a@, b@, c@, d@, e@, f@));
    }
    o
}

/// Overwrites the wrapping keys.
pub(crate) fn wipe_keys(keys: &mut [[u8; 32]; 6])
    ensures
        forall|i: int| 0 <= i < 6 ==> (#[trigger] final(keys)@[i])@ == bytes::zeros(32),
{
    let mut i: usize = 0;
    while i < 6
        invariant
            i <= 6,
            forall|j: int| 0 <= j < i ==> (#[trigger] keys@[j])@ == bytes::zeros(32),
        decreases 6 - i,
    {
        crypto::zeroize(&mut keys[i]);
        i = i + 1;
    }
}

/// Opens the stored data key.
fn open_stored_key(v: &Vault, key: &[u8; 32]) -> (r: Option<[u8; 32]>)
    ensures
        opt_array(r) == stored_key(v@, key@),
{
    let label: Vec<u8> = text::ascii_bytes("serpent-dek");
    match serpent_siv::siv_decrypt(key, label.as_slice(), v.dek_wrap.as_slice()) {
        Some(mut w) => {
            let front: Option<[u8; 32]> = take_head::<32>(w.as_slice());
            crypto::zeroize(w.as_mut_slice());
            front
        },
        None => None,
    }
}

/// Recovers the data key from the six shards, and holds it against the stored
/// one.
pub fn recover_dek(v: &Vault, k1: &[u8; 32]) -> (r: Option<[u8; 32]>)
    ensures
        opt_array(r) == data_key(v@, k1@),
{
    let mut keys: [[u8; 32]; 6] = crypto::derive_wrapping_keys(k1);
    let rsa: Option<[u8; 32]> = open_rsa_shard(v, &keys[0]);
    let kyber: Option<[u8; 32]> = open_kyber_shard(v, &keys[1]);
    let mceliece: Option<[u8; 32]> = open_mceliece_shard(v, &keys[2]);
    let frodo: Option<[u8; 32]> = open_frodo_shard(v, &keys[3]);
    let stored: Option<[u8; 32]> = open_stored_key(v, &keys[5]);
    wipe_keys(&mut keys);
    let (mut a, mut b, mut c, mut d): ([u8; 32], [u8; 32], [u8; 32], [u8; 32]) = match (
        rsa,
        kyber,
        mceliece,
        frodo,
    ) {
        (Some(a), Some(b), Some(c), Some(d)) => (a, b, c, d),
        _ => {
            return None;
        },
    };
    let e: [u8; 32] = crypto::blake3_256(v.dilithium_vk.as_slice());
    let f: [u8; 32] = crypto::sm3_256(v.dilithium_vk.as_slice());
    let mut dek: [u8; 32] = xor6(&a, &b, &c, &d, &e, &f);
    crypto::zeroize(&mut a);
    crypto::zeroize(&mut b);
    crypto::zeroize(&mut c);
    crypto::zeroize(&mut d);
    let same: bool = match stored {
        Some(mut s) => {
            let same: bool = crypto::ct_eq(&dek, &s);
            crypto::zeroize(&mut s);
            same
        },
        None => false,
    };
    if same {
        Some(dek)
    } else {
        crypto::zeroize(&mut dek);
        None
    }
}

/// The message that both signatures sign.
pub fn binding_message(ts: u64, dek: &[u8; 32], siv: &[u8]) -> (msg: Vec<u8>)
    ensures
        msg@ == binding(ts, dek@, siv@),
{
    let when: [u8; 8] = bytes::u64_to_le(ts);
    let mut msg: Vec<u8> = bytes::concat(&when, dek);
    let digest: [u8; 32] = crypto::sha3_256(siv);
    msg.extend_from_slice(&digest);
    proof {
        assert(msg@ =~= binding(ts, dek@, siv@));
    }
    msg
}

/// Checks both signatures.
pub fn check_signatures(v: &Vault, ts: u64, dek: &[u8; 32]) -> (r: bool)
    ensures
        r == signatures_hold(v@, ts, dek@),
{
    let msg: Vec<u8> = binding_message(ts, dek, v.siv.as_slice());
    if !primitives::mldsa_verify(
        v.dilithium_vk.as_slice(),
        msg.as_slice(),
        v.dilithium_sig.as_slice(),
    ) {
        return false;
    }
    if v.ed_vk.len() != 57 || v.ed_sig.len() != 114 {
        return false;
    }
    let public: [u8; 57] = bytes::to_array(v.ed_vk.as_slice());
    let sig: [u8; 114] = bytes::to_array(v.ed_sig.as_slice());
    primitives::ed448_verify(&public, msg.as_slice(), &sig)
}

/// Opens the sealed payload: unseals, unmasks, inflates.
pub fn unseal_payload(v: &Vault, keys: &[u8; 64], ts: u64, dek: &[u8; 32]) -> (r: Option<Vec<u8>>)
    ensures
        primitives::opt_bytes(r) == unsealed(v@, keys@, ts, dek@),
{
    let when: [u8; 8] = bytes::u64_to_le(ts);
    let mut white: Vec<u8> = match serpent_siv::siv_decrypt(dek, &when, v.siv.as_slice()) {
        Some(w) => w,
        None => {
            return None;
        },
    };
    let (first, second) = keys.as_slice().split_at(32);
    let mut k1: [u8; 32] = bytes::to_array(first);
    let mut k2: [u8; 32] = bytes::to_array(second);
    crypto::blake3_keystream(&k1, &k2, v.salt.as_slice(), white.as_mut_slice());
    crypto::zeroize(&mut k1);
    crypto::zeroize(&mut k2);
    let payload: Option<Vec<u8>> = primitives::lzma_unpack(white.as_slice());
    crypto::zeroize(white.as_mut_slice());
    payload
}

/// Runs the whole chain on a vault, whether its time has come or not. `None`
/// where any link fails.
pub fn open_payload(v: &Vault, keys: &[u8; 64], open_ts: u64) -> (r: Option<Vec<u8>>)
    ensures
        primitives::opt_bytes(r) == opened(v@, keys@, open_ts),
{
    let (first, _) = keys.as_slice().split_at(32);
    let mut k1: [u8; 32] = bytes::to_array(first);
    if !check_time(v, &k1, open_ts) {
        crypto::zeroize(&mut k1);
        return None;
    }
    let recovered: Option<[u8; 32]> = recover_dek(v, &k1);
    crypto::zeroize(&mut k1);
    let mut dek: [u8; 32] = match recovered {
        Some(d) => d,
        None => {
            return None;
        },
    };
    if !check_signatures(v, open_ts, &dek) {
        crypto::zeroize(&mut dek);
        return None;
    }
    let payload: Option<Vec<u8>> = unseal_payload(v, keys, open_ts, &dek);
    crypto::zeroize(&mut dek);
    payload
}

/// The verdict on a chain that has run.
pub fn decide(
    payload: Option<Vec<u8>>,
    open_ts: u64,
    network_now: u64,
    local_now: u64,
) -> (outcome: Outcome)
    ensures
        outcome@ == verdict(primitives::opt_bytes(payload), open_ts, network_now, local_now),
{
    match payload {
        None => Outcome::Tampered,
        Some(payload) => if !time_gate_open(network_now, open_ts) {
            Outcome::Locked { left: open_ts - network_now }
        } else if !time_gate_open(local_now, open_ts) {
            Outcome::Locked { left: open_ts - local_now }
        } else {
            Outcome::Open { payload }
        },
    }
}

/// Tries a master key on a vault. The master key is wiped.
pub fn unlock_with(
    v: &Vault,
    master: &mut [u8; 32],
    open_ts: u64,
    network_now: u64,
    local_now: u64,
) -> (outcome: Outcome)
    ensures
        outcome@ == attempt_with(v@, old(master)@, open_ts, network_now, local_now),
        final(master)@ == bytes::zeros(32),
{
    let mut prog: Vec<u8> = match open_program_with(v, master) {
        Some(p) => p,
        None => {
            return Outcome::WrongPassphrase;
        },
    };
    let mut keys: [u8; 64] = match rebuild_keys(&mut prog, v.km.as_slice()) {
        Some(k) => k,
        None => {
            return Outcome::Tampered;
        },
    };
    let payload: Option<Vec<u8>> = open_payload(v, &keys, open_ts);
    crypto::zeroize(&mut keys);
    decide(payload, open_ts, network_now, local_now)
}

/// Tries a passphrase on a vault. The passphrase is wiped.
pub fn unlock(
    v: &Vault,
    password: &mut [u8],
    open_ts: u64,
    network_now: u64,
    local_now: u64,
) -> (outcome: Outcome)
    requires
        old(password)@.len() <= u32::MAX,
        8 <= v.salt@.len() <= u32::MAX,
    ensures
        outcome@ == attempt(v@, old(password)@, open_ts, network_now, local_now),
        final(password)@ == bytes::zeros(old(password)@.len()),
{
    let mut master: [u8; 32] = crypto::argon2id_hash(password, v.salt.as_slice());
    crypto::zeroize(password);
    unlock_with(v, &mut master, open_ts, network_now, local_now)
}

/// The passphrase decides. Whether it opens a vault hangs on the Argon2id tag of
/// the passphrase under the vault's salt, with 256 MiB, four passes and eight
/// lanes: the digest of that tag and the word `bootstrap` must open the program.
/// Where it does not, the answer is that the passphrase is wrong; where it does,
/// that is never the answer.
pub proof fn law_passphrase_decides(
    v: VaultView,
    password: Seq<u8>,
    open_ts: u64,
    network_now: u64,
    local_now: u64,
)
    ensures
        (attempt(v, password, open_ts, network_now, local_now) is WrongPassphrase) == (
        v.vm_prog.len() < 28 || primitives::chacha_opened(
            primitives::sha3_256_digest(
                primitives::argon2id_tag(password, v.salt, 262144, 4, 8) + seq![98u8, 111, 111, 116, 115, 116, 114, 97, 112],
            ),
            v.vm_prog.subrange(0, 12),
            v.vm_prog.subrange(12, v.vm_prog.len() as int),
        ) is None),
{
    reveal_strlit("bootstrap");
    assert(text::ascii("bootstrap"@) =~= seq![98u8, 111, 111, 116, 115, 116, 114, 97, 112]);
}

/// Two passphrases are answered alike only as far as their tags agree: a
/// passphrase counts through its Argon2id tag under the salt and through nothing
/// else.
pub proof fn law_passphrase_counts_by_its_tag(
    v: VaultView,
    password: Seq<u8>,
    other: Seq<u8>,
    open_ts: u64,
    network_now: u64,
    local_now: u64,
)
    requires
        primitives::argon2id_tag(password, v.salt, 262144, 4, 8) == primitives::argon2id_tag(
            other,
            v.salt,
            262144,
            4,
            8,
        ),
    ensures
        attempt(v, password, open_ts, network_now, local_now) == attempt(
            v,
            other,
            open_ts,
            network_now,
            local_now,
        ),
{
}

/// The verdict on a chain: a broken one is tampering at any time; a sound one
/// opens exactly when neither clock is before the opening time, and gives the
/// payload unchanged; otherwise it says how many seconds are left, by the
/// network if the network is early, and else by the local clock.
pub proof fn law_verdict(payload: Seq<u8>, open_ts: u64, network_now: u64, local_now: u64)
    ensures
        verdict(None, open_ts, network_now, local_now) is Tampered,
        open_ts <= network_now && open_ts <= local_now ==> verdict(
            Some(payload),
            open_ts,
            network_now,
            local_now,
        ) == (OutcomeView::Open { payload }),
        !(open_ts <= network_now && open_ts <= local_now) ==> (verdict(
            Some(payload),
            open_ts,
            network_now,
            local_now,
        ) matches OutcomeView::Locked { left } && left + (if network_now < open_ts {
            network_now
        } else {
            local_now
        }) == open_ts),
{
}

proof fn lemma_xor_shards(a: u8, b: u8, c: u8, d: u8, e: u8, f: u8, x: u8)
    by (bit_vector)
    ensures
        a ^ b ^ c ^ d ^ e ^ f == x ^ b ^ c ^ d ^ e ^ f ==> a == x,
        a ^ b ^ c ^ d ^ e ^ f == a ^ x ^ c ^ d ^ e ^ f ==> b == x,
        a ^ b ^ c ^ d ^ e ^ f == a ^ b ^ x ^ d ^ e ^ f ==> c == x,
        a ^ b ^ c ^ d ^ e ^ f == a ^ b ^ c ^ x ^ e ^ f ==> d == x,
        a ^ b ^ c ^ d ^ e ^ f == a ^ b ^ c ^ d ^ x ^ f ==> e == x,
        a ^ b ^ c ^ d ^ e ^ f == a ^ b ^ c ^ d ^ e ^ x ==> f == x,
{
}

/// Every shard counts: with one shard changed in any byte, and the other five
/// as they were, another data key comes out.
pub proof fn law_every_shard_counts(
    a: Seq<u8>,
    b: Seq<u8>,
    c: Seq<u8>,
    d: Seq<u8>,
    e: Seq<u8>,
    f: Seq<u8>,
    x: Seq<u8>,
    i: int,
)
    requires
        0 <= i < 32,
    ensures
        combined(a, b, c, d, e, f).len() == 32,
        x[i] != a[i] ==> combined(x, b, c, d, e, f) != combined(a, b, c, d, e, f),
        x[i] != b[i] ==> combined(a, x, c, d, e, f) != combined(a, b, c, d, e, f),
        x[i] != c[i] ==> combined(a, b, x, d, e, f) != combined(a, b, c, d, e, f),
        x[i] != d[i] ==> combined(a, b, c, x, e, f) != combined(a, b, c, d, e, f),
        x[i] != e[i] ==> combined(a, b, c, d, x, f) != combined(a, b, c, d, e, f),
        x[i] != f[i] ==> combined(a, b, c, d, e, x) != combined(a, b, c, d, e, f),
{
    lemma_xor_shards(a[i], b[i], c[i], d[i], e[i], f[i], x[i]);
    let k = combined(a, b, c, d, e, f)[i];
    assert(combined(x, b, c, d, e, f)[i] == x[i] ^ b[i] ^ c[i] ^ d[i] ^ e[i] ^ f[i]);
    assert(combined(a, x, c, d, e, f)[i] == a[i] ^ x[i] ^ c[i] ^ d[i] ^ e[i] ^ f[i]);
    assert(combined(a, b, x, d, e, f)[i] == a[i] ^ b[i] ^ x[i] ^ d[i] ^ e[i] ^ f[i]);
    assert(combined(a, b, c, x, e, f)[i] == a[i] ^ b[i] ^ c[i] ^ x[i] ^ e[i] ^ f[i]);
    assert(combined(a, b, c, d, x, f)[i] == a[i] ^ b[i] ^ c[i] ^ d[i] ^ x[i] ^ f[i]);
    assert(combined(a, b, c, d, e, x)[i] == a[i] ^ b[i] ^ c[i] ^ d[i] ^ e[i] ^ x[i]);
    assert(k == a[i] ^ b[i] ^ c[i] ^ d[i] ^ e[i] ^ f[i]);
}

/// What is signed binds the opening time, the data key and the sealed payload:
/// two messages are the same only where time and key are the same and the
/// payloads have one SHA3-256 digest.
pub proof fn law_signatures_bind(
    ts: u64,
    dek: Seq<u8>,
    siv: Seq<u8>,
    other_ts: u64,
    other_dek: Seq<u8>,
    other_siv: Seq<u8>,
)
    requires
        dek.len() == 32,
        other_dek.len() == 32,
        binding(ts, dek, siv) == binding(other_ts, other_dek, other_siv),
    ensures
        ts == other_ts,
        dek == other_dek,
        primitives::sha3_256_digest(siv) == primitives::sha3_256_digest(other_siv),
{
    let m = binding(ts, dek, siv);
    let n = binding(other_ts, other_dek, other_siv);
    let a = bytes::le_bytes(ts as nat, 8);
    let b = bytes::le_bytes(other_ts as nat, 8);
    bytes::lemma_le_bytes_len(ts as nat, 8);
    bytes::lemma_le_bytes_len(other_ts as nat, 8);
    bytes::lemma_pow256_small();
    bytes::lemma_le_value_of_bytes(ts as nat, 8);
    bytes::lemma_le_value_of_bytes(other_ts as nat, 8);
    assert(m.subrange(0, 8) =~= a);
    assert(n.subrange(0, 8) =~= b);
    assert(m.subrange(8, 40) =~= dek);
    assert(n.subrange(8, 40) =~= other_dek);
    assert(m.subrange(40, m.len() as int) =~= primitives::sha3_256_digest(siv));
    assert(n.subrange(40, n.len() as int) =~= primitives::sha3_256_digest(other_siv));
}

/// What a data key must be made of: it is the sum of what the four ciphertexts
/// open to under the wrapped keys, and of the BLAKE3 and SM3 digests of the
/// Dilithium key, and it is also the one that is stored under the sixth wrapping
/// key.
pub open spec fn made_of_shards(v: VaultView, k1: Seq<u8>, dek: Seq<u8>) -> bool {
    let der = crypto::unwrapped(crypto::wrapping_key(k1, 0), v.rsa_sk_wrap);
    let seed = crypto::unwrapped(crypto::wrapping_key(k1, 1), v.ky_sk_wrap);
    let mce = crypto::unwrapped(crypto::wrapping_key(k1, 2), v.mce_sk_wrap);
    let sk = crypto::unwrapped(crypto::wrapping_key(k1, 3), v.frodo_sk_wrap);
    let rsa = primitives::rsa_oaep_opened(der->0, v.ct_rsa);
    let msg = primitives::frodo_opened(sk->0, v.ct_frodo);
    let stored = serpent_siv::siv_opened(crypto::wrapping_key(k1, 5), seq![115u8, 101, 114, 112, 101, 110, 116, 45, 100, 101, 107], v.dek_wrap);
    &&& der is Some && seed is Some && mce is Some && sk is Some && rsa is Some && msg is Some
    &&& rsa->0.len() >= 32 && seed->0.len() >= 64 && msg->0.len() >= 32
    &&& stored is Some && stored->0.len() >= 32 && stored->0.subrange(0, 32) == dek
    &&& dek.len() == 32
    &&& forall|i: int|
        0 <= i < 32 ==> #[trigger] dek[i] == (rsa->0)[i] ^ primitives::mlkem_shared(
            seed->0.subrange(0, 64),
            v.ct_ky,
        )[i] ^ primitives::mceliece_shared(mce->0, v.ct_mce.subrange(0, 194))[i] ^ (msg->0)[i]
            ^ primitives::blake3_digest(v.dilithium_vk)[i] ^ primitives::sm3_digest(
            v.dilithium_vk,
        )[i]
}

/// Whether key halves and a data key lead through every link of a vault to a
/// payload.
pub open spec fn earned(
    v: VaultView,
    open_ts: u64,
    k1: Seq<u8>,
    k2: Seq<u8>,
    dek: Seq<u8>,
    payload: Seq<u8>,
) -> bool {
    let when = bytes::le_bytes(open_ts as nat, 8);
    let msg = when + dek + primitives::sha3_256_digest(v.siv);
    let time = crypto::unwrapped(k1, v.ts);
    let white = serpent_siv::siv_opened(dek, when, v.siv);
    &&& time is Some && time->0.len() >= 8
    &&& bytes::le_value(time->0.subrange(0, 8)) == open_ts
    &&& made_of_shards(v, k1, dek)
    &&& primitives::mldsa_valid(v.dilithium_vk, msg, v.dilithium_sig)
    &&& primitives::ed448_valid(v.ed_vk, msg, v.ed_sig)
    &&& white is Some
    &&& primitives::lzma_unpacked(crypto::whitened(k1, k2, v.salt, white->0)) == Some(payload)
}

/// Whether two key halves are what the key machine makes of the vault's key
/// material with the program that a passphrase opens.
pub open spec fn rebuilt_from(
    v: VaultView,
    password: Seq<u8>,
    k1: Seq<u8>,
    k2: Seq<u8>,
) -> bool {
    let program = primitives::chacha_opened(
        primitives::sha3_256_digest(
            primitives::argon2id_tag(password, v.salt, 262144, 4, 8) + seq![98u8, 111, 111, 116, 115, 116, 114, 97, 112],
        ),
        v.vm_prog.subrange(0, 12),
        v.vm_prog.subrange(12, v.vm_prog.len() as int),
    );
    let end = rustyvm::run_result(program->0, v.km, Seq::new(64, |i: int| 0u8));
    &&& program is Some
    &&& end.ok && !end.fault
    &&& k1 == end.out.subrange(0, 32)
    &&& k2 == end.out.subrange(32, 64)
}

/// An open vault was earned, link by link. Whatever passphrase opens a vault, the
/// stored time is the opening time and its guard holds, the six shards make a
/// data key that is also the stored one, both signatures hold on opening time,
/// data key and sealed payload, the seal opens under that key and time, and
/// neither clock is before the opening time.
pub proof fn law_open_was_earned(
    v: VaultView,
    password: Seq<u8>,
    open_ts: u64,
    network_now: u64,
    local_now: u64,
)
    requires
        attempt(v, password, open_ts, network_now, local_now) is Open,
    ensures
        open_ts <= network_now,
        open_ts <= local_now,
        guard::guard_holds(v.ts_guard, open_ts),
        exists|k1: Seq<u8>, k2: Seq<u8>, dek: Seq<u8>|
            earned(
                v,
                open_ts,
                k1,
                k2,
                dek,
                attempt(v, password, open_ts, network_now, local_now)->payload,
            ) && rebuilt_from(v, password, k1, k2),
{
    reveal_strlit("serpent-dek");
    assert(text::ascii("serpent-dek"@) =~= seq![115u8, 101, 114, 112, 101, 110, 116, 45, 100, 101, 107]);
    let master = crypto::master_key(password, v.salt);
    let prog = program_of(v, master)->0;
    let keys = rebuilt_keys(prog, v.km)->0;
    let k1 = keys.subrange(0, 32);
    let k2 = keys.subrange(32, 64);
    let dek = data_key(v, k1)->0;
    let time = crypto::unwrapped(k1, v.ts)->0;
    bytes::lemma_pow256_small();
    bytes::lemma_le_value_bound(time.subrange(0, 8));
    let rsa = primitives::rsa_oaep_opened(
        crypto::unwrapped(crypto::wrapping_key(k1, 0), v.rsa_sk_wrap)->0,
        v.ct_rsa,
    )->0;
    let msg = primitives::frodo_opened(
        crypto::unwrapped(crypto::wrapping_key(k1, 3), v.frodo_sk_wrap)->0,
        v.ct_frodo,
    )->0;
    assert(rsa_shard(v, crypto::wrapping_key(k1, 0)) == Some(rsa.subrange(0, 32)));
    assert(frodo_shard(v, crypto::wrapping_key(k1, 3)) == Some(msg.subrange(0, 32)));
    assert(made_of_shards(v, k1, dek));
    reveal_strlit("bootstrap");
    assert(text::ascii("bootstrap"@) =~= seq![98u8, 111, 111, 116, 115, 116, 114, 97, 112]);
    assert(bytes::zeros(64) =~= Seq::new(64, |i: int| 0u8));
    assert(rebuilt_from(v, password, k1, k2));
    assert(earned(
        v,
        open_ts,
        k1,
        k2,
        dek,
        attempt(v, password, open_ts, network_now, local_now)->payload,
    ));
}

/// The program is intact exactly if its BLAKE3 digest is the stored one.
pub proof fn law_program_intact(v: VaultView)
    ensures
        program_intact(v) == (primitives::blake3_digest(v.vm_prog) == v.vm_prog_hash),
{
}

/// Whatever is earned opens: where a passphrase opens the program, the program
/// makes key halves, every link holds under them, and both clocks say that the
/// time has come, the answer is the payload. Keys and ciphertexts are taken to
/// have the lengths of their schemes.
pub proof fn law_earned_opens(
    v: VaultView,
    password: Seq<u8>,
    open_ts: u64,
    network_now: u64,
    local_now: u64,
    k1: Seq<u8>,
    k2: Seq<u8>,
    dek: Seq<u8>,
    payload: Seq<u8>,
)
    requires
        v.vm_prog.len() >= 28,
        rebuilt_from(v, password, k1, k2),
        k1.len() == 32,
        earned(v, open_ts, k1, k2, dek, payload),
        guard::guard_holds(v.ts_guard, open_ts),
        crypto::unwrapped(crypto::wrapping_key(k1, 0), v.rsa_sk_wrap) matches Some(der)
            && primitives::rsa_balanced(der),
        crypto::unwrapped(crypto::wrapping_key(k1, 2), v.mce_sk_wrap) matches Some(sk) && sk.len()
            == 13948,
        v.ct_ky.len() == 1568,
        v.ct_mce.len() >= 194,
        v.ed_vk.len() == 57,
        v.ed_sig.len() == 114,
        open_ts <= network_now,
        open_ts <= local_now,
    ensures
        attempt(v, password, open_ts, network_now, local_now) == (OutcomeView::Open { payload }),
{
    reveal_strlit("bootstrap");
    reveal_strlit("serpent-dek");
    assert(text::ascii("bootstrap"@) =~= seq![98u8, 111, 111, 116, 115, 116, 114, 97, 112]);
    assert(text::ascii("serpent-dek"@) =~= seq![115u8, 101, 114, 112, 101, 110, 116, 45, 100, 101, 107]);
    assert(bytes::zeros(64) =~= Seq::new(64, |i: int| 0u8));
    let prog = program_of(v, crypto::master_key(password, v.salt))->0;
    let keys = rebuilt_keys(prog, v.km)->0;
    assert(keys.subrange(0, 32) == k1 && keys.subrange(32, 64) == k2);
    let rsa = primitives::rsa_oaep_opened(
        crypto::unwrapped(crypto::wrapping_key(k1, 0), v.rsa_sk_wrap)->0,
        v.ct_rsa,
    )->0;
    let msg = primitives::frodo_opened(
        crypto::unwrapped(crypto::wrapping_key(k1, 3), v.frodo_sk_wrap)->0,
        v.ct_frodo,
    )->0;
    let a = rsa_shard(v, crypto::wrapping_key(k1, 0));
    let b = kyber_shard(v, crypto::wrapping_key(k1, 1));
    let c = mceliece_shard(v, crypto::wrapping_key(k1, 2));
    let d = frodo_shard(v, crypto::wrapping_key(k1, 3));
    assert(a == Some(rsa.subrange(0, 32)) && d == Some(msg.subrange(0, 32)));
    assert(b is Some && c is Some);
    let sum = combined(
        a->0,
        b->0,
        c->0,
        d->0,
        primitives::blake3_digest(v.dilithium_vk),
        primitives::sm3_digest(v.dilithium_vk),
    );
    assert(sum =~= dek);
    assert(data_key(v, k1) == Some(dek));
    assert(sealed_time(v, k1) == Some(open_ts));
    assert(signatures_hold(v, open_ts, dek));
}

} // verus!
