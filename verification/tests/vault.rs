use hello_old::crypto::{blake3_256, derive_wrapping_keys, sha3_256, sm3_256};
use hello_old::seal::{
    draw_frodo, draw_key_halves, draw_key_material, draw_kyber, draw_mceliece_shard, draw_rsa,
    draw_signing_keys, frodo_from, material_from, rsa_from, seal_dek, seal_material,
    seal_vault_with, seed_from, sign_binding, Draws, Material,
};
use hello_old::serpent_siv::siv_decrypt;
use hello_old::vault::{
    binding_message, check_signatures, check_time, decide, open_payload, open_program_with,
    program_is_intact, rebuild_keys, recover_dek, time_gate_open, unlock_with, xor6, Outcome, Vault,
};
use ml_kem::Decapsulate;
use rsa::pkcs8::DecodePrivateKey;

/// A private key of 1024 bits.
const RSA_KEY: [&str; 16] = [
    "30820277020100300d06092a864886f70d0101010500048202613082025d02010002818100d12a9c",
    "9063ca860a36cc3f1239f43451ff19bb067bb77478f2fbff522ad3abd86b6e1e0e3296b887d321d7",
    "0c1047bc98bf59d7a0b45d193c6169a595c0bcc6dc8864c77be6c6c71ee60738dc76d4e63b362df0",
    "d44ad6429162487580c3281a877b59436398c00d1507f98b6d412a50c3616e8373b636c9a4a8b27b",
    "6e11bc634d020301000102818002d0a1fec7790848c6e804c948026359df27077f54d6e9385f7cc8",
    "b8e05eace762babea8ce417d0646ef23a7c3e8533f7303d08517285198a06efd8d80648a00938c20",
    "603bc7571e3698f96e2b005d4067eb8636a699bbd52a0c227a80fbef586cbefb2f4cde121f588bbc",
    "dedb7cfbdb326aaa6f12183e802f3b8bec20f38881024100fda2e7286e040dd4c02bc607abc004fc",
    "2592316b9be452843d4ba18afd4a7a32343541616b556485a88875fc95e49a72f48ed5a270b8ec9a",
    "cdfe526e1afa41f1024100d31d9e0b71eb1933974a50d4aaffe891bc74d0c5e84d87e1a4520236f1",
    "db356abad51480b604340c910cd3abc69a13243a6902a594a36c4c1bcc34b43ed69b1d024100ede8",
    "7ccd368cc4f077a557a6605ac8123fa7a6859a7f8b4b1137bcfa636615c2bba7ec80d5ae0e9134a9",
    "738a8e8b14b8995ed552fe4ae75cb9b6415998227ff1024100aa491377ebd5542896f9aca53da0d9",
    "78e3e7dd9624c094bfde88ff9c4e0d20d30c0c5f534a7dad760d71a932bf28fc1396c1a90ee20bc7",
    "88c44b3c9fbea7dfc90240551cdb655104f119b334476f521113eca481bcbb612abb0b820a330917",
    "19d51db8e44f0fbfe3ead26d6a284bae80d302c2420e36346de66b0b9b9f6f613dca90",
];

const OPEN: u64 = 1_755_000_000;

fn rsa_der() -> Vec<u8> {
    let hex: String = RSA_KEY.concat();
    (0..hex.len() / 2)
        .map(|i| u8::from_str_radix(&hex[2 * i..2 * i + 2], 16).unwrap())
        .collect()
}

fn oaep() -> rsa::Oaep {
    rsa::Oaep::new_with_mgf_hash::<sha2::Sha256, sha2::Sha256>()
}

fn mceliece_shared(secret: &[u8; 13948], ct: &[u8; 194]) -> [u8; 32] {
    let key = classic_mceliece_rust::SecretKey::from(Box::new(*secret));
    let ct = classic_mceliece_rust::Ciphertext::from(*ct);
    *classic_mceliece_rust::decapsulate_boxed(&ct, &key).as_array()
}

fn material() -> Material {
    let rsa_der = rsa_der();
    let key = rsa::RsaPrivateKey::from_pkcs8_der(&rsa_der).unwrap();
    let s_rsa = [0x5au8; 32];
    let ct_rsa = rsa::RsaPublicKey::from(&key)
        .encrypt(&mut rsa::rand_core::OsRng, oaep(), &s_rsa)
        .unwrap();
    let (ky_seed, ct_ky, s_ky) = draw_kyber();
    let mce_sk = [3u8; 13948];
    let ct_mce = [1u8; 194];
    let s_mce = mceliece_shared(&mce_sk, &ct_mce);
    let (frodo_sk, ct_frodo, s_frodo) = draw_frodo().unwrap();
    let (dilithium_vk, dilithium_sk, ed_secret) = draw_signing_keys();
    let (k1, k2) = draw_key_halves(11, 22);
    Material {
        salt: [4; 32],
        k1,
        k2,
        km: draw_key_material(33),
        guard_seed: 44,
        vm_seed: 55,
        rsa_der,
        ct_rsa,
        s_rsa,
        ky_seed,
        ct_ky,
        s_ky,
        mce_sk: mce_sk.to_vec(),
        ct_mce,
        s_mce,
        frodo_sk,
        ct_frodo,
        s_frodo,
        dilithium_vk,
        dilithium_sk,
        ed_secret,
    }
}

const TEXT: &[u8] = b"a text for later, a text for later, a text for later";

fn sealed() -> (Material, Vault) {
    let m = material();
    let sig = sign_binding(&m, OPEN, TEXT).unwrap();
    let mut master = [6u8; 32];
    let v = seal_vault_with(&m, &mut master, OPEN, TEXT, &sig);
    assert_eq!(master, [0; 32]);
    (m, v)
}

fn keys_of(m: &Material) -> [u8; 64] {
    let mut keys = [0u8; 64];
    keys[..32].copy_from_slice(&m.k1);
    keys[32..].copy_from_slice(&m.k2);
    keys
}

fn is_tampered(v: &Vault) -> bool {
    matches!(unlock_with(v, &mut [6u8; 32], OPEN, OPEN, OPEN), Outcome::Tampered)
}

#[test]
fn a_sealed_text_comes_out_again() {
    let (_, v) = sealed();
    assert!(program_is_intact(&v));
    let mut master = [6u8; 32];
    match unlock_with(&v, &mut master, OPEN, OPEN, OPEN + 5) {
        Outcome::Open { payload } => assert_eq!(payload, TEXT),
        _ => panic!("the vault stays shut"),
    }
    assert_eq!(master, [0; 32]);
    assert_eq!(v.plain_len as usize, TEXT.len());
}

#[test]
fn a_wrong_master_key_opens_nothing() {
    let (_, v) = sealed();
    assert!(matches!(
        unlock_with(&v, &mut [7u8; 32], OPEN, OPEN, OPEN),
        Outcome::WrongPassphrase
    ));
}

#[test]
fn the_door_is_locked_before_its_time() {
    let (_, v) = sealed();
    assert!(matches!(
        unlock_with(&v, &mut [6u8; 32], OPEN, OPEN - 10, OPEN),
        Outcome::Locked { left: 10 }
    ));
    assert!(matches!(
        unlock_with(&v, &mut [6u8; 32], OPEN, OPEN, OPEN - 3),
        Outcome::Locked { left: 3 }
    ));
}

#[test]
fn another_opening_time_is_tampering() {
    let (m, v) = sealed();
    assert!(check_time(&v, &m.k1, OPEN));
    assert!(!check_time(&v, &m.k1, OPEN - 1));
    assert!(open_payload(&v, &keys_of(&m), OPEN - 1).is_none());
    let mut bad = v;
    bad.ts_guard[0] ^= 1;
    assert!(is_tampered(&bad));
}

#[test]
fn tampering_shows_before_the_time_too() {
    let (_, mut v) = sealed();
    v.siv[20] ^= 1;
    assert!(is_tampered(&v));
    assert!(matches!(
        unlock_with(&v, &mut [6u8; 32], OPEN, 0, 0),
        Outcome::Tampered
    ));
}

#[test]
fn changed_ciphertexts_are_tampering() {
    let (_, mut v) = sealed();
    v.ct_rsa[5] ^= 1;
    assert!(is_tampered(&v));
    v.ct_rsa[5] ^= 1;
    v.ct_ky[5] ^= 1;
    assert!(is_tampered(&v));
    v.ct_ky[5] ^= 1;
    v.ct_mce[5] ^= 1;
    assert!(is_tampered(&v));
    v.ct_mce[5] ^= 1;
    v.ct_frodo.pop();
    assert!(is_tampered(&v));
}

#[test]
fn changed_keys_and_signatures_are_tampering() {
    let (m, mut v) = sealed();
    v.dek_wrap[20] ^= 1;
    assert!(recover_dek(&v, &m.k1).is_none());
    v.dek_wrap[20] ^= 1;
    v.dilithium_sig[7] ^= 1;
    assert!(is_tampered(&v));
    v.dilithium_sig[7] ^= 1;
    v.ed_sig[7] ^= 1;
    assert!(is_tampered(&v));
    v.ed_sig[7] ^= 1;
    v.km[0] ^= 1;
    assert!(is_tampered(&v));
}

#[test]
fn the_program_rebuilds_the_key_halves() {
    let (m, v) = sealed();
    let mut prog = open_program_with(&v, &mut [6u8; 32]).unwrap();
    assert_eq!(rebuild_keys(&mut prog, &v.km).unwrap(), keys_of(&m));
    assert!(prog.iter().all(|b| *b == 0));
    assert!(open_program_with(&v, &mut [5u8; 32]).is_none());
    assert!(rebuild_keys(&mut vec![0x07], &v.km).is_none());
}

#[test]
fn a_changed_program_is_noticed() {
    let (_, mut v) = sealed();
    v.vm_prog[30] ^= 1;
    assert!(!program_is_intact(&v));
}

#[test]
fn the_data_key_is_the_sum_of_six_shards() {
    let (m, v) = sealed();
    let dek = seal_dek(&m);
    let e = blake3_256(&m.dilithium_vk);
    let f = sm3_256(&m.dilithium_vk);
    for i in 0..32 {
        assert_eq!(
            dek[i],
            m.s_rsa[i] ^ m.s_ky[i] ^ m.s_mce[i] ^ m.s_frodo[i] ^ e[i] ^ f[i]
        );
    }
    assert_eq!(xor6(&m.s_rsa, &m.s_ky, &m.s_mce, &m.s_frodo, &e, &f), dek);
    assert_eq!(recover_dek(&v, &m.k1), Some(dek));
}

#[test]
fn an_rsa_key_with_uneven_factors_opens_nothing() {
    let mut m = material();
    let key = rsa::RsaPrivateKey::from_pkcs8_der(&m.rsa_der).unwrap();
    let p = rsa::BigUint::from(3u8);
    let q = rsa::traits::PrivateKeyParts::primes(&key)[0].clone();
    let e = rsa::BigUint::from(65537u32);
    let uneven = rsa::RsaPrivateKey::from_p_q(p, q, e).unwrap();
    m.rsa_der = rsa::pkcs8::EncodePrivateKey::to_pkcs8_der(&uneven).unwrap().as_bytes().to_vec();
    m.ct_rsa = vec![1; 65];
    let sig = sign_binding(&m, OPEN, TEXT).unwrap();
    let v = seal_vault_with(&m, &mut [6u8; 32], OPEN, TEXT, &sig);
    assert!(recover_dek(&v, &m.k1).is_none());
    assert!(is_tampered(&v));
}

#[test]
fn the_data_key_is_stored_under_its_own_seal() {
    let (m, v) = sealed();
    let keys = derive_wrapping_keys(&m.k1);
    assert_eq!(v.dek_wrap.len(), 48);
    assert_eq!(siv_decrypt(&keys[5], b"serpent-dek", &v.dek_wrap), Some(seal_dek(&m).to_vec()));
    assert_eq!(siv_decrypt(&keys[4], b"serpent-dek", &v.dek_wrap), None);
}

#[test]
fn both_signatures_bind_time_key_and_text() {
    let (m, v) = sealed();
    let dek = seal_dek(&m);
    assert!(check_signatures(&v, OPEN, &dek));
    assert!(!check_signatures(&v, OPEN + 1, &dek));
    assert!(!check_signatures(&v, OPEN, &[0; 32]));
    let msg = binding_message(OPEN, &dek, &v.siv);
    assert_eq!(&msg[..8], &OPEN.to_le_bytes());
    assert_eq!(&msg[8..40], &dek);
    assert_eq!(&msg[40..], &sha3_256(&v.siv));
}

#[test]
fn a_short_key_signs_nothing() {
    let mut m = material();
    m.dilithium_sk.pop();
    assert!(sign_binding(&m, OPEN, TEXT).is_none());
}

#[test]
fn drawn_rsa_shards_open() {
    let (der, ct, shard) = draw_rsa(1024).unwrap();
    let key = rsa::RsaPrivateKey::from_pkcs8_der(&der).unwrap();
    assert_eq!(key.decrypt(oaep(), &ct).unwrap(), shard);
}

#[test]
fn drawn_kyber_shards_open() {
    let (seed, ct, shard) = draw_kyber();
    let key = ml_kem::DecapsulationKey::<ml_kem::MlKem1024>::from_seed(ml_kem::Seed::from(seed));
    let ct = ml_kem::Ciphertext::<ml_kem::MlKem1024>::from(ct);
    let got: [u8; 32] = key.decapsulate(&ct).into();
    assert_eq!(got, shard);
    assert_ne!(draw_kyber().2, shard);
}

#[test]
fn drawn_frodo_shards_open() {
    let (secret, ct, shard) = draw_frodo().unwrap();
    let alg = frodo_kem::Algorithm::FrodoKem1344Aes;
    let key = frodo_kem::DecryptionKey::from_bytes(alg, &secret).unwrap();
    let ct = frodo_kem::Ciphertext::from_bytes(alg, &ct).unwrap();
    assert_eq!(alg.decapsulate(&key, &ct).unwrap().1, shard);
}

#[test]
fn a_seed_is_the_first_eight_bytes() {
    let mut raw = [0xffu8; 32];
    raw[..8].copy_from_slice(&[1, 2, 0, 0, 0, 0, 0, 3]);
    assert_eq!(seed_from(Some(raw)), Some(0x0300_0000_0000_0201));
    assert_eq!(seed_from(None), None);
}

#[test]
fn an_rsa_shard_needs_key_shard_and_room() {
    let shard = [9u8; 32];
    let (der, ct, s) = rsa_from(Some(rsa_der()), Some(shard)).unwrap();
    assert_eq!(der, rsa_der());
    assert_eq!(s, shard);
    let key = rsa::RsaPrivateKey::from_pkcs8_der(&der).unwrap();
    assert_eq!(key.decrypt(oaep(), &ct).unwrap(), shard);
    assert!(rsa_from(None, Some(shard)).is_none());
    assert!(rsa_from(Some(rsa_der()), None).is_none());
    assert!(rsa_from(Some(vec![1, 2, 3]), Some(shard)).is_none());
    assert!(draw_rsa(776).is_none());
    assert!(draw_rsa(777).is_some());
}

#[test]
fn a_frodo_shard_needs_key_shard_and_salt() {
    let alg = frodo_kem::Algorithm::FrodoKem1344Aes;
    let mut rng = rand_core::UnwrapErr(rand::rngs::SysRng);
    let (pk, sk) = alg.generate_keypair(&mut rng);
    let public = pk.value().to_vec();
    let secret = sk.value().to_vec();
    let (shard, salt) = ([7u8; 32], [8u8; 64]);
    let (kept, ct, s) = frodo_from(&public, secret.clone(), Some(shard), Some(salt)).unwrap();
    assert_eq!(kept, secret);
    assert_eq!(s, shard);
    assert_eq!(ct, alg.encapsulate(&pk, shard, salt).unwrap().0.value().to_vec());
    assert!(frodo_from(&public, secret.clone(), None, Some(salt)).is_none());
    assert!(frodo_from(&public, secret.clone(), Some(shard), None).is_none());
    assert!(frodo_from(&public[1..], secret, Some(shard), Some(salt)).is_none());
}

fn draws() -> Draws {
    Draws {
        salt: Some([1; 32]),
        k1_seed: Some(2),
        k2_seed: Some(3),
        guard_seed: Some(4),
        km_seed: Some(5),
        vm_seed: Some(6),
        rsa: Some((vec![7], vec![8], [9; 32])),
        kyber: ([10; 64], [11; 1568], [12; 32]),
        mce_sk: vec![13; 13948],
        mceliece: Some(([14; 194], [15; 32])),
        frodo: Some((vec![16], vec![17], [18; 32])),
        signing: (vec![19], vec![20], [21; 57]),
    }
}

#[test]
fn material_holds_what_was_drawn() {
    let m = material_from(draws()).unwrap();
    assert_eq!(m.salt, [1; 32]);
    assert_eq!((m.k1, m.k2), draw_key_halves(2, 3));
    assert_eq!(m.guard_seed, 4);
    assert_eq!(m.km, draw_key_material(5));
    assert_eq!(m.vm_seed, 6 ^ 0xDEAD);
    assert_eq!((m.rsa_der, m.ct_rsa, m.s_rsa), (vec![7], vec![8], [9; 32]));
    assert_eq!((m.ky_seed, m.ct_ky, m.s_ky), ([10; 64], [11; 1568], [12; 32]));
    assert_eq!(m.mce_sk, vec![13; 13948]);
    assert_eq!((m.ct_mce, m.s_mce), ([14; 194], [15; 32]));
    assert_eq!((m.frodo_sk, m.ct_frodo, m.s_frodo), (vec![16], vec![17], [18; 32]));
    assert_eq!((m.dilithium_vk, m.dilithium_sk, m.ed_secret), (vec![19], vec![20], [21; 57]));
}

#[test]
fn material_needs_every_draw() {
    assert!(material_from(Draws { salt: None, ..draws() }).is_none());
    assert!(material_from(Draws { k1_seed: None, ..draws() }).is_none());
    assert!(material_from(Draws { k2_seed: None, ..draws() }).is_none());
    assert!(material_from(Draws { guard_seed: None, ..draws() }).is_none());
    assert!(material_from(Draws { km_seed: None, ..draws() }).is_none());
    assert!(material_from(Draws { vm_seed: None, ..draws() }).is_none());
    assert!(material_from(Draws { rsa: None, ..draws() }).is_none());
    assert!(material_from(Draws { mce_sk: vec![13; 9], ..draws() }).is_none());
    assert!(material_from(Draws { mceliece: None, ..draws() }).is_none());
    assert!(material_from(Draws { frodo: None, ..draws() }).is_none());
}

#[test]
fn nothing_is_sealed_without_material() {
    assert!(seal_material(None, b"word", OPEN, TEXT).is_none());
    let mut m = material();
    m.dilithium_sk.pop();
    assert!(seal_material(Some(m), b"word", OPEN, TEXT).is_none());
}

#[test]
fn mceliece_shards_need_a_whole_key() {
    assert!(draw_mceliece_shard(&[0; 100]).is_none());
    let public = vec![0u8; 1047319];
    let (ct, shard) = draw_mceliece_shard(&public).unwrap();
    assert_ne!(shard, [0; 32]);
    assert_eq!(ct.len(), 194);
}

#[test]
fn the_gate_opens_on_the_second() {
    assert!(!time_gate_open(OPEN - 1, OPEN));
    assert!(time_gate_open(OPEN, OPEN));
    assert!(time_gate_open(u64::MAX, 0));
    assert!(!time_gate_open(0, u64::MAX));
}

#[test]
fn the_verdict_on_a_chain() {
    assert!(matches!(decide(None, 5, 9, 9), Outcome::Tampered));
    assert!(matches!(decide(None, 5, 0, 0), Outcome::Tampered));
    assert!(matches!(decide(Some(vec![1]), 5, 4, 9), Outcome::Locked { left: 1 }));
    assert!(matches!(decide(Some(vec![1]), 5, 9, 2), Outcome::Locked { left: 3 }));
    assert!(matches!(decide(Some(vec![1]), 5, 5, 5), Outcome::Open { .. }));
}
