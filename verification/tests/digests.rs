use chacha20poly1305::aead::{Aead, KeyInit};
use hello_old::crypto::{
    blake3_256, blake3_keystream, counter_block, ct_eq, decrypt, derive_wrapping_keys,
    hkdf_sha256, sha3_256, sm3_256, stretch, wrap_key, zeroize, ARGON2_ITERATIONS,
    ARGON2_MEMORY_KIB, ARGON2_PARALLELISM,
};
use hello_old::selfsig::hex;

fn bytes_of(s: &str) -> Vec<u8> {
    (0..s.len() / 2)
        .map(|i| u8::from_str_radix(&s[2 * i..2 * i + 2], 16).unwrap())
        .collect()
}

#[test]
fn sha3_of_abc() {
    assert_eq!(
        hex(&sha3_256(b"abc")),
        "3a985da74fe225b2045c172d6bd390bd855f086e3e9d525b46bfe24511431532"
    );
}

#[test]
fn sm3_of_abc() {
    assert_eq!(
        hex(&sm3_256(b"abc")),
        "66c7f0f462eeedd9d1f2d46bdc10e4e24167c4875cf2f7a2297da02b8f4ba8e0"
    );
}

#[test]
fn blake3_of_nothing() {
    assert_eq!(
        hex(&blake3_256(b"")),
        "af1349b9f5f9a1a6a0404dea36dcc9499bcb25c9adc112b7cc9a93cae41f3262"
    );
}

#[test]
fn hkdf_first_published_case() {
    let ikm = [0x0bu8; 22];
    let salt = bytes_of("000102030405060708090a0b0c");
    let info = bytes_of("f0f1f2f3f4f5f6f7f8f9");
    assert_eq!(
        hex(&hkdf_sha256(&ikm, &salt, &info, 42)),
        "3cb25f25faacd57a90434f64d0362f2a2d2d0a90cf1a5a4c5db02d56ecc4c5bf34007208d5b887185865"
    );
    assert!(hkdf_sha256(&ikm, &salt, &info, 0).is_empty());
}

#[test]
fn wrapping_keys_have_their_labels() {
    let master = [7u8; 32];
    let keys = derive_wrapping_keys(&master);
    let labels: [&[u8]; 6] = [
        b"wrap-rsa",
        b"wrap-kyber",
        b"wrap-mceliece",
        b"wrap-frodokem",
        b"wrap-dilithium",
        b"wrap-serpent-dek",
    ];
    for i in 0..6 {
        assert_eq!(keys[i].to_vec(), hkdf_sha256(&master, b"hello-old-v1", labels[i], 32));
        for j in 0..i {
            assert_ne!(keys[i], keys[j]);
        }
    }
}

#[test]
fn argon2_published_vectors() {
    assert_eq!(
        hex(&stretch(b"password", b"somesalt", 256, 2, 1)),
        "9dfeb910e80bad0311fee20f9c0e2b12c17987b4cac90c2ef54d5b3021c68bfe"
    );
    assert_eq!(
        hex(&stretch(b"password", b"somesalt", 256, 2, 2)),
        "6d093c501fd5999645e0ea3bf620d7b8be7fd2db59c20d9fff9539da2bf57037"
    );
}

#[test]
fn argon2_costs_what_it_should() {
    assert_eq!(ARGON2_MEMORY_KIB, 256 * 1024);
    assert_eq!(ARGON2_ITERATIONS, 4);
    assert_eq!(ARGON2_PARALLELISM, 8);
}

#[test]
fn constant_time_comparison() {
    assert!(ct_eq(b"abc", b"abc"));
    assert!(!ct_eq(b"abc", b"abd"));
    assert!(!ct_eq(b"abc", b"ab"));
    assert!(ct_eq(b"", b""));
}

#[test]
fn zeroize_clears_everything() {
    let mut b = [1u8, 2, 3, 255];
    zeroize(&mut b);
    assert_eq!(b, [0; 4]);
}

#[test]
fn wrapped_key_opens_again() {
    let key = [9u8; 32];
    let blob = wrap_key(&key, b"label", b"the secret");
    assert_eq!(&blob[..12], &sha3_256(&[&key[..], b"label"].concat())[..12]);
    assert_eq!(blob.len(), 12 + 10 + 16);
    assert_eq!(decrypt(&key, &blob), Some(b"the secret".to_vec()));
}

#[test]
fn wrapped_key_refuses_changes() {
    let key = [9u8; 32];
    let blob = wrap_key(&key, b"label", b"the secret");
    for i in 0..blob.len() {
        let mut bad = blob.clone();
        bad[i] ^= 1;
        assert_eq!(decrypt(&key, &bad), None);
    }
    assert_eq!(decrypt(&[8u8; 32], &blob), None);
    assert_eq!(decrypt(&key, &blob[..11]), None);
    assert_eq!(decrypt(&key, b""), None);
}

#[test]
fn chacha_published_vector() {
    let key: [u8; 32] =
        bytes_of("808182838485868788898a8b8c8d8e8f909192939495969798999a9b9c9d9e9f")
            .try_into()
            .unwrap();
    let nonce = bytes_of("070000004041424344454647");
    let sealed = chacha20poly1305::ChaCha20Poly1305::new((&key).into())
        .encrypt(nonce.as_slice().into(), b"Ladies and Gentlemen".as_slice())
        .unwrap();
    let mut blob = nonce.clone();
    blob.extend_from_slice(&sealed);
    assert_eq!(&hex(&sealed)[..8], "d31a8d34");
    assert_eq!(decrypt(&key, &blob), Some(b"Ladies and Gentlemen".to_vec()));
}

#[test]
fn whitening_twice_gives_the_text_back() {
    let (k1, k2) = ([1u8; 32], [2u8; 32]);
    let text = b"a text that is longer than one block of the stream, by some bytes".to_vec();
    let mut buf = text.clone();
    blake3_keystream(&k1, &k2, b"salt", &mut buf);
    assert_ne!(buf, text);
    blake3_keystream(&k1, &k2, b"salt", &mut buf);
    assert_eq!(buf, text);
}

#[test]
fn whitening_is_a_counter_stream() {
    let (k1, k2) = ([1u8; 32], [2u8; 32]);
    let seed = *blake3::hash(&[&k1[..], &k2[..], b"salt"].concat()).as_bytes();
    let mut buf = vec![0u8; 70];
    blake3_keystream(&k1, &k2, b"salt", &mut buf);
    assert_eq!(&buf[..32], &counter_block(&seed, 0)[..]);
    assert_eq!(&buf[32..64], &counter_block(&seed, 1)[..]);
    assert_eq!(&buf[64..], &counter_block(&seed, 2)[..6]);
    let first = blake3::hash(&[&seed[..], &0u64.to_le_bytes()].concat());
    assert_eq!(counter_block(&seed, 0), *first.as_bytes());
}
