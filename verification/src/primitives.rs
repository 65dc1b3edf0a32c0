//! The cryptographic primitives, as the outside crates provide them.
//!
//! Every function here hands its arguments to one outside function. What an
//! algorithm computes is not spelled out: its result has a name, and the
//! contracts of this library speak of that name. The functions that draw keys
//! and ciphertexts take random bytes from the system and stop the program
//! where the system has none to give.
use vstd::prelude::*;

use chacha20poly1305::aead::Aead;
use cipher::BlockCipherEncrypt;
use cmac::Mac as CmacMac;
use ed448_goldilocks::elliptic_curve::Generate as EdGenerate;
use ml_kem::{Decapsulate, Encapsulate, KeyExport};
use rsa::pkcs8::{DecodePrivateKey, EncodePrivateKey};
use rsa::traits::PrivateKeyParts;
use sha2::Digest;
use subtle::ConstantTimeEq;
use zeroize::Zeroize;

verus! {

/// Length of a Classic McEliece 6960119f secret key.
pub const MCELIECE_SECRET_LEN: usize = 13948;

/// Length of a Classic McEliece 6960119f public key.
pub const MCELIECE_PUBLIC_LEN: usize = 1047319;

/// Length of a Classic McEliece 6960119f ciphertext.
pub const MCELIECE_CT_LEN: usize = 194;

/// Length of an ML-KEM-1024 ciphertext.
pub const MLKEM_CT_LEN: usize = 1568;

/// Length of a FrodoKEM-1344 encryption key.
pub const FRODO_PUBLIC_LEN: usize = 21520;

/// Length of an ML-DSA-87 secret key.
pub const MLDSA_SECRET_LEN: usize = 4896;

/// Length of the salt of a FrodoKEM-1344 encapsulation.
pub const FRODO_SALT_LEN: usize = 64;

/// Least number of bytes that OAEP over SHA-256 adds to a message.
pub const OAEP_PADDING_LEN: usize = 66;

/// Most bytes that one ChaCha20-Poly1305 message can hold.
pub const CHACHA_MAX: u64 = 274_877_906_816;

/// Most bytes that the LZMA coder is given at once: it writes up to nine bytes
/// for each, and its count of pending output bytes is a 32-bit number.
pub const LZMA_MAX: usize = 0x1C00_0000;

/// How many bits the second factor of an RSA key may be longer than the first:
/// decryption adds up the first until it reaches the second.
pub const FACTOR_SLACK: usize = 16;

/// The bytes behind an optional vector.
pub open spec fn opt_bytes(r: Option<Vec<u8>>) -> Option<Seq<u8>> {
    match r {
        Some(v) => Some(v@),
        None => None,
    }
}

/// The Argon2id version 1.3 tag of 32 bytes.
pub uninterp spec fn argon2id_tag(
    password: Seq<u8>,
    salt: Seq<u8>,
    memory_kib: u32,
    iterations: u32,
    lanes: u32,
) -> Seq<u8>;

/// Calls `argon2::Argon2::hash_password_into` with Argon2id, version 1.3 and
/// a 32-byte output. Claims that the output is the Argon2id tag of the
/// arguments. The bounds keep to the parameters that the crate accepts and to
/// a table that every machine can address.
#[verifier::external_body]
pub(crate) fn argon2id(
    password: &[u8],
    salt: &[u8],
    memory_kib: u32,
    iterations: u32,
    lanes: u32,
) -> (tag: [u8; 32])
    requires
        password@.len() <= u32::MAX,
        8 <= salt@.len() <= u32::MAX,
        1 <= iterations,
        1 <= lanes <= 0xff_ffff,
        8 * lanes <= memory_kib <= 0x20_0000,
    ensures
        tag@ == argon2id_tag(password@, salt@, memory_kib, iterations, lanes),
{
    let params = argon2::Params::new(memory_kib, iterations, lanes, Some(32)).expect("params");
    let kdf = argon2::Argon2::new(argon2::Algorithm::Argon2id, argon2::Version::V0x13, params);
    let mut tag = [0u8; 32];
    kdf.hash_password_into(password, salt, &mut tag).expect("argon2id");
    tag
}

/// The HMAC-SHA-256 tag of `data` under `key`.
pub uninterp spec fn hmac_sha256_tag(key: Seq<u8>, data: Seq<u8>) -> Seq<u8>;

/// Calls `hmac::Hmac<Sha256>`. Claims that the output is the HMAC-SHA-256 tag.
#[verifier::external_body]
pub(crate) fn hmac_sha256(key: &[u8], data: &[u8]) -> (tag: [u8; 32])
    ensures
        tag@ == hmac_sha256_tag(key@, data@),
{
    let mut mac = <hmac::Hmac<sha2::Sha256> as hmac::Mac>::new_from_slice(key).expect("any length");
    hmac::Mac::update(&mut mac, data);
    hmac::Mac::finalize(mac).into_bytes().into()
}

/// The SHA3-256 digest.
pub uninterp spec fn sha3_256_digest(data: Seq<u8>) -> Seq<u8>;

/// Calls `sha3::Sha3_256::digest`. Claims that the output is the SHA3-256
/// digest.
#[verifier::external_body]
pub(crate) fn sha3(data: &[u8]) -> (d: [u8; 32])
    ensures
        d@ == sha3_256_digest(data@),
{
    sha3::Sha3_256::digest(data).into()
}

/// The SM3 digest.
pub uninterp spec fn sm3_digest(data: Seq<u8>) -> Seq<u8>;

/// Calls `sm3::Sm3::digest`. Claims that the output is the SM3 digest.
#[verifier::external_body]
pub(crate) fn sm3(data: &[u8]) -> (d: [u8; 32])
    ensures
        d@ == sm3_digest(data@),
{
    sm3::Sm3::digest(data).into()
}

/// The BLAKE3 digest of 32 bytes.
pub uninterp spec fn blake3_digest(data: Seq<u8>) -> Seq<u8>;

/// Calls `blake3::hash`. Claims that the output is the BLAKE3 digest.
#[verifier::external_body]
pub(crate) fn blake3(data: &[u8]) -> (d: [u8; 32])
    ensures
        d@ == blake3_digest(data@),
{
    *::blake3::hash(data).as_bytes()
}

/// Calls `subtle::ConstantTimeEq::ct_eq` on the two slices. Claims that it
/// tells whether they hold the same bytes; how long it takes is not stated.
#[verifier::external_body]
pub(crate) fn constant_time_eq(a: &[u8], b: &[u8]) -> (r: bool)
    ensures
        r == (a@ == b@),
{
    a.ct_eq(b).into()
}

/// Calls `zeroize::Zeroize::zeroize` on the slice. Claims that every byte is
/// zero afterwards; that the writes cannot be optimised away is not stated.
#[verifier::external_body]
pub(crate) fn volatile_zero(buf: &mut [u8])
    ensures
        final(buf)@ == crate::bytes::zeros(old(buf)@.len()),
{
    buf.zeroize();
}

/// Calls `getrandom::getrandom`. Returns whether the system gave out random
/// bytes; of the bytes nothing is claimed but their number.
#[verifier::external_body]
pub(crate) fn system_random(buf: &mut [u8]) -> (ok: bool)
    ensures
        final(buf)@.len() == old(buf)@.len(),
{
    getrandom::getrandom(buf).is_ok()
}

/// The ChaCha20-Poly1305 ciphertext with its tag.
pub uninterp spec fn chacha_sealed(key: Seq<u8>, nonce: Seq<u8>, plain: Seq<u8>) -> Seq<u8>;

/// What a ChaCha20-Poly1305 ciphertext opens to, if its tag is right.
pub uninterp spec fn chacha_opened(key: Seq<u8>, nonce: Seq<u8>, ct: Seq<u8>) -> Option<Seq<u8>>;

/// Calls `ChaCha20Poly1305::encrypt`. Claims that the output is the
/// ciphertext with its 16-byte tag, and that it opens to the message again.
#[verifier::external_body]
pub(crate) fn chacha_seal(key: &[u8; 32], nonce: &[u8; 12], plain: &[u8]) -> (ct: Vec<u8>)
    requires
        plain@.len() <= CHACHA_MAX,
    ensures
        ct@ == chacha_sealed(key@, nonce@, plain@),
        ct@.len() == plain@.len() + 16,
        chacha_opened(key@, nonce@, ct@) == Some(plain@),
{
    let key = chacha20poly1305::Key::from_slice(key);
    let cipher = <chacha20poly1305::ChaCha20Poly1305 as chacha20poly1305::KeyInit>::new(key);
    cipher.encrypt(chacha20poly1305::Nonce::from_slice(nonce), plain).expect("length")
}

/// Calls `ChaCha20Poly1305::decrypt`. Claims that the output is what the
/// ciphertext opens to, 16 bytes shorter, or nothing, and that only a sealed
/// message opens.
#[verifier::external_body]
pub(crate) fn chacha_open(key: &[u8; 32], nonce: &[u8; 12], ct: &[u8]) -> (plain: Option<Vec<u8>>)
    ensures
        opt_bytes(plain) == chacha_opened(key@, nonce@, ct@),
        plain matches Some(p) ==> p@.len() + 16 == ct@.len(),
        plain matches Some(p) ==> chacha_sealed(key@, nonce@, p@) == ct@,
{
    let key = chacha20poly1305::Key::from_slice(key);
    let cipher = <chacha20poly1305::ChaCha20Poly1305 as chacha20poly1305::KeyInit>::new(key);
    cipher.decrypt(chacha20poly1305::Nonce::from_slice(nonce), ct).ok()
}

/// One block under the Serpent block cipher.
pub uninterp spec fn serpent_encrypted(key: Seq<u8>, block: Seq<u8>) -> Seq<u8>;

/// Calls `serpent::Serpent::encrypt_block`. Claims that the output is the
/// block under the cipher.
#[verifier::external_body]
pub(crate) fn serpent_block(key: &[u8], block: &[u8; 16]) -> (out: [u8; 16])
    requires
        16 <= key@.len() <= 32,
    ensures
        out@ == serpent_encrypted(key@, block@),
{
    let cipher = <serpent::Serpent as cipher::KeyInit>::new_from_slice(key).expect("key length");
    let mut blk = cipher::Block::<serpent::Serpent>::from(*block);
    cipher.encrypt_block(&mut blk);
    blk.into()
}

/// The CMAC tag with Serpent as the block cipher.
pub uninterp spec fn cmac_serpent_tag(key: Seq<u8>, data: Seq<u8>) -> Seq<u8>;

/// Calls `cmac::Cmac<Serpent>`. Claims that the output is the CMAC tag.
#[verifier::external_body]
pub(crate) fn cmac_serpent(key: &[u8], data: &[u8]) -> (tag: [u8; 16])
    requires
        key@.len() == 16,
    ensures
        tag@ == cmac_serpent_tag(key@, data@),
{
    let mut mac = <cmac::Cmac<serpent::Serpent> as cmac::KeyInit>::new_from_slice(key).expect("key");
    mac.update(data);
    mac.finalize().into_bytes().into()
}

/// The LZMA stream of a byte string.
pub uninterp spec fn lzma_packed(data: Seq<u8>) -> Seq<u8>;

/// What an LZMA stream inflates to, if it is one.
pub uninterp spec fn lzma_unpacked(data: Seq<u8>) -> Option<Seq<u8>>;

/// Calls `lzma_rs::lzma_compress`. Claims that the output is the LZMA stream
/// of the input, and that it inflates to the input again.
#[verifier::external_body]
pub(crate) fn lzma_pack(data: &[u8]) -> (packed: Vec<u8>)
    requires
        data@.len() <= LZMA_MAX,
    ensures
        packed@ == lzma_packed(data@),
        lzma_unpacked(packed@) == Some(data@),
{
    let mut packed = Vec::new();
    let mut input = data;
    lzma_rs::lzma_compress(&mut input, &mut packed).expect("memory to memory");
    packed
}

/// Calls `lzma_rs::lzma_decompress`. Claims that the output is what the
/// stream inflates to, or nothing where it is no LZMA stream.
#[verifier::external_body]
pub(crate) fn lzma_unpack(packed: &[u8]) -> (data: Option<Vec<u8>>)
    ensures
        opt_bytes(data) == lzma_unpacked(packed@),
{
    let mut data = Vec::new();
    let mut input = packed;
    lzma_rs::lzma_decompress(&mut input, &mut data).ok().map(|_| data)
}

/// What an RSA-OAEP ciphertext (SHA-256 for both hashes) opens to under a
/// PKCS#8 private key, if it does.
pub uninterp spec fn rsa_oaep_opened(der: Seq<u8>, ct: Seq<u8>) -> Option<Seq<u8>>;

/// The lengths in bits of the two factors in a PKCS#8 private key, if it is
/// accepted as one.
pub uninterp spec fn rsa_factor_bits(der: Seq<u8>) -> Option<(usize, usize)>;

/// Whether `der` is accepted as a PKCS#8 private key whose second factor is not
/// much longer than the first.
pub open spec fn rsa_balanced(der: Seq<u8>) -> bool {
    match rsa_factor_bits(der) {
        Some((p, q)) => q <= p + FACTOR_SLACK,
        None => false,
    }
}

/// Calls `rsa::RsaPrivateKey::from_pkcs8_der` and takes the length of the two
/// `primes`. Claims that the output is these lengths, or nothing where the key
/// is refused.
#[verifier::external_body]
pub(crate) fn rsa_factors(der: &[u8]) -> (r: Option<(usize, usize)>)
    ensures
        r == rsa_factor_bits(der@),
{
    let key = rsa::RsaPrivateKey::from_pkcs8_der(der).ok()?;
    Some((key.primes()[0].bits(), key.primes()[1].bits()))
}

/// Calls `rsa::RsaPrivateKey::from_pkcs8_der` and `decrypt` with OAEP over
/// SHA-256. Claims that the output is what the ciphertext opens to, or nothing
/// where the ciphertext is refused. With a second factor much longer than the
/// first the call would not come to an end.
#[verifier::external_body]
pub(crate) fn rsa_oaep_open(der: &[u8], ct: &[u8]) -> (plain: Option<Vec<u8>>)
    requires
        rsa_balanced(der@),
    ensures
        opt_bytes(plain) == rsa_oaep_opened(der@, ct@),
{
    let key = rsa::RsaPrivateKey::from_pkcs8_der(der).ok()?;
    key.decrypt(rsa::Oaep::new_with_mgf_hash::<sha2::Sha256, sha2::Sha256>(), ct).ok()
}

/// Whether `der` is a PKCS#8 private key of `bits` bits that RSA key
/// generation can give.
pub uninterp spec fn rsa_key(bits: usize, der: Seq<u8>) -> bool;

/// Calls `rsa::RsaPrivateKey::new` with system randomness, and gives the key
/// in PKCS#8 form. Claims no more of the random key than that it is one, and
/// that its factors are balanced: each has half of the bits, up to one bit.
#[verifier::external_body]
pub(crate) fn rsa_generate(bits: usize) -> (der: Option<Vec<u8>>)
    requires
        512 <= bits <= 4096,
    ensures
        der matches Some(d) ==> rsa_key(bits, d@),
        der matches Some(d) ==> rsa_balanced(d@),
{
    let key = rsa::RsaPrivateKey::new(&mut rsa::rand_core::OsRng, bits).ok()?;
    key.to_pkcs8_der().ok().map(|d| d.as_bytes().to_vec())
}

/// Whether `ct` is a ciphertext that RSA-OAEP (SHA-256 for both hashes) can
/// give for a message under the public part of a PKCS#8 private key.
pub uninterp spec fn rsa_oaep_ciphertext(der: Seq<u8>, plain: Seq<u8>, ct: Seq<u8>) -> bool;

/// Calls `rsa::RsaPublicKey::encrypt` with OAEP over SHA-256 and system
/// randomness. Claims no more of the random ciphertext than that it is one of
/// the message under the key; that it opens again is not stated. Under a
/// generated key there is one exactly if the message and the padding of 66
/// bytes fit into the modulus.
#[verifier::external_body]
pub(crate) fn rsa_oaep_seal(der: &[u8], plain: &[u8]) -> (ct: Option<Vec<u8>>)
    ensures
        forall|bits: usize| #[trigger]
            rsa_key(bits, der@) ==> (ct is Some <==> plain@.len() + OAEP_PADDING_LEN <= (bits + 7)
                / 8),
        ct matches Some(c) ==> rsa_oaep_ciphertext(der@, plain@, c@),
{
    let key = rsa::RsaPublicKey::from(&rsa::RsaPrivateKey::from_pkcs8_der(der).ok()?);
    let oaep = rsa::Oaep::new_with_mgf_hash::<sha2::Sha256, sha2::Sha256>();
    key.encrypt(&mut rsa::rand_core::OsRng, oaep, plain).ok()
}

/// The key that an ML-KEM-1024 ciphertext decapsulates to under the
/// decapsulation key that grows from a 64-byte seed.
pub uninterp spec fn mlkem_shared(seed: Seq<u8>, ct: Seq<u8>) -> Seq<u8>;

/// Calls `ml_kem::DecapsulationKey::<MlKem1024>::from_seed` and `decapsulate`.
/// Claims that the output is the decapsulated key.
#[verifier::external_body]
pub(crate) fn mlkem_open(seed: &[u8; 64], ct: &[u8; MLKEM_CT_LEN]) -> (shared: [u8; 32])
    ensures
        shared@ == mlkem_shared(seed@, ct@),
{
    let key = ml_kem::DecapsulationKey::<ml_kem::MlKem1024>::from_seed(ml_kem::Seed::from(*seed));
    let ct = ml_kem::Ciphertext::<ml_kem::MlKem1024>::from(*ct);
    key.decapsulate(&ct).into()
}

/// Whether a ciphertext and a shared key are a pair that ML-KEM-1024 can give
/// for the key that grows from a seed.
pub uninterp spec fn mlkem_encapsulated(seed: Seq<u8>, ct: Seq<u8>, shared: Seq<u8>) -> bool;

/// Calls `encapsulate` of `ml_kem` for the key that grows from `seed`. Claims
/// no more of the random pair than that it is one for the key; that the
/// ciphertext decapsulates to the shared key, which fails with negligible
/// chance, is not stated.
#[verifier::external_body]
pub(crate) fn mlkem_seal(seed: &[u8; 64]) -> (r: ([u8; MLKEM_CT_LEN], [u8; 32]))
    ensures
        mlkem_encapsulated(seed@, r.0@, r.1@),
{
    let key = ml_kem::DecapsulationKey::<ml_kem::MlKem1024>::from_seed(ml_kem::Seed::from(*seed));
    let (ct, shared) = key.encapsulation_key().encapsulate();
    (ct.into(), shared.into())
}

/// Calls `ml_kem::DecapsulationKey::<MlKem1024>::generate` and exports the
/// seed. Of the seed, which is random, nothing is claimed.
#[verifier::external_body]
pub(crate) fn mlkem_generate() -> (seed: [u8; 64]) {
    let key = <ml_kem::DecapsulationKey<ml_kem::MlKem1024> as ml_kem::Generate>::generate();
    key.to_bytes().into()
}

/// The key that a Classic McEliece 6960119f ciphertext decapsulates to.
pub uninterp spec fn mceliece_shared(secret: Seq<u8>, ct: Seq<u8>) -> Seq<u8>;

/// Calls `classic_mceliece_rust::decapsulate_boxed`. Claims that the output is
/// the decapsulated key.
#[verifier::external_body]
pub(crate) fn mceliece_open(
    secret: &[u8; MCELIECE_SECRET_LEN],
    ct: &[u8; MCELIECE_CT_LEN],
) -> (shared: [u8; 32])
    ensures
        shared@ == mceliece_shared(secret@, ct@),
{
    let key = classic_mceliece_rust::SecretKey::from(Box::new(*secret));
    let ct = classic_mceliece_rust::Ciphertext::from(*ct);
    *classic_mceliece_rust::decapsulate_boxed(&ct, &key).as_array()
}

/// Whether two byte strings are a Classic McEliece 6960119f key pair.
pub uninterp spec fn mceliece_pair(public: Seq<u8>, secret: Seq<u8>) -> bool;

/// Calls `classic_mceliece_rust::keypair_boxed` with system randomness. Gives
/// the public and the secret key. Claims that they are a key pair, and the
/// length of both.
#[verifier::external_body]
pub(crate) fn mceliece_generate() -> (r: (Vec<u8>, Vec<u8>))
    ensures
        mceliece_pair(r.0@, r.1@),
        r.0@.len() == MCELIECE_PUBLIC_LEN,
        r.1@.len() == MCELIECE_SECRET_LEN,
{
    let (pk, sk) = classic_mceliece_rust::keypair_boxed(&mut rsa::rand_core::OsRng);
    (pk.as_array().to_vec(), sk.as_array().to_vec())
}

/// Whether a ciphertext and a shared key are a pair that Classic McEliece
/// 6960119f can give for a public key.
pub uninterp spec fn mceliece_encapsulated(public: Seq<u8>, ct: Seq<u8>, shared: Seq<u8>) -> bool;

/// Calls `classic_mceliece_rust::encapsulate_boxed` with system randomness,
/// or gives nothing where the public key has the wrong length. Claims no more
/// of the random pair than that it is one for the key.
#[verifier::external_body]
pub(crate) fn mceliece_seal(public: &[u8]) -> (r: Option<([u8; MCELIECE_CT_LEN], [u8; 32])>)
    ensures
        r is Some <==> public@.len() == MCELIECE_PUBLIC_LEN,
        r matches Some(p) ==> mceliece_encapsulated(public@, p.0@, p.1@),
{
    let boxed = Box::try_from(public.to_vec().into_boxed_slice()).ok()?;
    let key = classic_mceliece_rust::PublicKey::from(boxed);
    let (ct, shared) =
        classic_mceliece_rust::encapsulate_boxed(&key, &mut rsa::rand_core::OsRng);
    Some((*ct.as_array(), *shared.as_array()))
}

/// The message that a FrodoKEM-1344-AES ciphertext carries under a decryption
/// key, if both have the right length.
pub uninterp spec fn frodo_opened(secret: Seq<u8>, ct: Seq<u8>) -> Option<Seq<u8>>;

/// Calls `frodo_kem::Algorithm::FrodoKem1344Aes.decapsulate`. Claims that the
/// output is the message that comes with the shared key, or nothing where the
/// key or the ciphertext is refused.
#[verifier::external_body]
pub(crate) fn frodo_open(secret: &[u8], ct: &[u8]) -> (msg: Option<Vec<u8>>)
    ensures
        opt_bytes(msg) == frodo_opened(secret@, ct@),
{
    let alg = frodo_kem::Algorithm::FrodoKem1344Aes;
    let key = frodo_kem::DecryptionKey::from_bytes(alg, secret).ok()?;
    let ct = frodo_kem::Ciphertext::from_bytes(alg, ct).ok()?;
    alg.decapsulate(&key, &ct).ok().map(|r| r.1)
}

/// The FrodoKEM-1344-AES ciphertext of a message under an encryption key and
/// a salt, if the key has the right length.
pub uninterp spec fn frodo_sealed(public: Seq<u8>, msg: Seq<u8>, salt: Seq<u8>) -> Option<Seq<u8>>;

/// Calls `frodo_kem::Algorithm::FrodoKem1344Aes.encapsulate`. Claims that the
/// output is the ciphertext of the message, or nothing where the key has the
/// wrong length.
#[verifier::external_body]
pub(crate) fn frodo_seal(public: &[u8], msg: &[u8; 32], salt: &[u8; FRODO_SALT_LEN]) -> (ct: Option<
    Vec<u8>,
>)
    ensures
        opt_bytes(ct) == frodo_sealed(public@, msg@, salt@),
        ct is Some <==> public@.len() == FRODO_PUBLIC_LEN,
{
    let alg = frodo_kem::Algorithm::FrodoKem1344Aes;
    let key = frodo_kem::EncryptionKey::from_bytes(alg, public).ok()?;
    alg.encapsulate(&key, msg, salt).ok().map(|r| r.0.value().to_vec())
}

/// Whether two byte strings are a FrodoKEM-1344-AES key pair.
pub uninterp spec fn frodo_pair(public: Seq<u8>, secret: Seq<u8>) -> bool;

/// Calls `frodo_kem::Algorithm::FrodoKem1344Aes.generate_keypair` with system
/// randomness. Gives the encryption and the decryption key. Claims that they
/// are a key pair, and the length of the encryption key.
#[verifier::external_body]
pub(crate) fn frodo_generate() -> (r: (Vec<u8>, Vec<u8>))
    ensures
        frodo_pair(r.0@, r.1@),
        r.0@.len() == FRODO_PUBLIC_LEN,
{
    let mut rng = rand_core::UnwrapErr(rand::rngs::SysRng);
    let (pk, sk) = frodo_kem::Algorithm::FrodoKem1344Aes.generate_keypair(&mut rng);
    (pk.value().to_vec(), sk.value().to_vec())
}

/// Whether an ML-DSA-87 signature on a message holds under a public key.
pub uninterp spec fn mldsa_valid(public: Seq<u8>, msg: Seq<u8>, sig: Seq<u8>) -> bool;

/// Calls `crystals_dilithium::ml_dsa_87::PublicKey::verify` without a context.
/// Claims that the output tells whether the signature holds; a public key of
/// the wrong length holds for nothing.
#[verifier::external_body]
pub(crate) fn mldsa_verify(public: &[u8], msg: &[u8], sig: &[u8]) -> (ok: bool)
    ensures
        ok == mldsa_valid(public@, msg@, sig@),
{
    match crystals_dilithium::ml_dsa_87::PublicKey::from_bytes(public) {
        Ok(key) => key.verify(msg, sig, None),
        Err(_) => false,
    }
}

/// Whether two byte strings are an ML-DSA-87 key pair.
pub uninterp spec fn mldsa_pair(public: Seq<u8>, secret: Seq<u8>) -> bool;

/// Calls `crystals_dilithium::ml_dsa_87::Keypair::generate` with system
/// randomness. Gives the public and the secret key. Claims that they are a key
/// pair, and the length of the secret key.
#[verifier::external_body]
pub(crate) fn mldsa_generate() -> (r: (Vec<u8>, Vec<u8>))
    ensures
        mldsa_pair(r.0@, r.1@),
        r.1@.len() == MLDSA_SECRET_LEN,
{
    let pair = crystals_dilithium::ml_dsa_87::Keypair::generate(None).expect("no seed given");
    (pair.public.to_bytes().to_vec(), pair.secret.to_bytes().to_vec())
}

/// Whether `sig` is a signature that ML-DSA-87 can give for a message under a
/// secret key.
pub uninterp spec fn mldsa_signature(secret: Seq<u8>, msg: Seq<u8>, sig: Seq<u8>) -> bool;

/// Calls `crystals_dilithium::ml_dsa_87::SecretKey::sign` in hedged mode
/// without a context. Claims no more of the random signature than that it is
/// one of the message under the key, and holds under the public key of the
/// pair; there is none where the key has the wrong length.
#[verifier::external_body]
pub(crate) fn mldsa_sign(secret: &[u8], msg: &[u8]) -> (sig: Option<Vec<u8>>)
    ensures
        sig is Some <==> secret@.len() == MLDSA_SECRET_LEN,
        sig matches Some(s) ==> mldsa_signature(secret@, msg@, s@),
        sig matches Some(s) ==> forall|public: Seq<u8>| #[trigger]
            mldsa_pair(public, secret@) ==> mldsa_valid(public, msg@, s@),
{
    let key = crystals_dilithium::ml_dsa_87::SecretKey::from_bytes(secret).ok()?;
    key.sign(msg, None, crystals_dilithium::RandomMode::Hedged).map(|s| s.to_vec())
}

/// Whether an Ed448 signature on a message holds under a public key.
pub uninterp spec fn ed448_valid(public: Seq<u8>, msg: Seq<u8>, sig: Seq<u8>) -> bool;

/// Calls `ed448_goldilocks::VerifyingKey::from_bytes` and `verify_raw`. Claims
/// that the output tells whether the signature holds; bytes that are no public
/// key hold for nothing.
#[verifier::external_body]
pub(crate) fn ed448_verify(public: &[u8; 57], msg: &[u8], sig: &[u8; 114]) -> (ok: bool)
    ensures
        ok == ed448_valid(public@, msg@, sig@),
{
    let sig = ed448_goldilocks::Signature::from_bytes(sig);
    match ed448_goldilocks::VerifyingKey::from_bytes(public) {
        Ok(key) => key.verify_raw(&sig, msg).is_ok(),
        Err(_) => false,
    }
}

/// The Ed448 public key of a secret key.
pub uninterp spec fn ed448_public_key(secret: Seq<u8>) -> Seq<u8>;

/// Calls `ed448_goldilocks::SigningKey::verifying_key`. Claims that the output
/// is the public key.
#[verifier::external_body]
pub(crate) fn ed448_public(secret: &[u8; 57]) -> (public: [u8; 57])
    ensures
        public@ == ed448_public_key(secret@),
{
    let key = ed448_goldilocks::SigningKey::try_from(secret.as_slice()).expect("57 bytes");
    key.verifying_key().to_bytes()
}

/// The Ed448 signature of a message.
pub uninterp spec fn ed448_signature(secret: Seq<u8>, msg: Seq<u8>) -> Seq<u8>;

/// The neutral point of the curve of Ed448, as it is written.
pub open spec fn ed448_neutral() -> Seq<u8> {
    seq![1u8] + crate::bytes::zeros(56)
}

/// Whether neither the public key nor the point in a signature is neutral, and
/// the number in the signature is not zero. Verification refuses all three,
/// though signing could give them, with negligible chance.
pub open spec fn ed448_regular(public: Seq<u8>, sig: Seq<u8>) -> bool {
    &&& public != ed448_neutral()
    &&& sig.subrange(0, 57) != ed448_neutral()
    &&& sig.subrange(57, 114) != crate::bytes::zeros(57)
}

/// Calls `ed448_goldilocks::SigningKey::sign_raw`. Claims that the output is
/// the signature, which no chance enters, and that it holds where it is
/// regular.
#[verifier::external_body]
pub(crate) fn ed448_sign(secret: &[u8; 57], msg: &[u8]) -> (sig: [u8; 114])
    ensures
        sig@ == ed448_signature(secret@, msg@),
        ed448_regular(ed448_public_key(secret@), sig@) ==> ed448_valid(
            ed448_public_key(secret@),
            msg@,
            sig@,
        ),
{
    let key = ed448_goldilocks::SigningKey::try_from(secret.as_slice()).expect("57 bytes");
    key.sign_raw(msg).to_bytes()
}

/// Calls `ed448_goldilocks::SigningKey::generate`. Of the secret key, which is
/// random, nothing is claimed. It stops the program should all 57 random bytes
/// be zero.
#[verifier::external_body]
pub(crate) fn ed448_generate() -> (secret: [u8; 57]) {
    ed448_goldilocks::SigningKey::generate().to_bytes().into()
}

} // verus!
