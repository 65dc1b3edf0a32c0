use cipher::{BlockCipherEncrypt, KeyInit};
use cmac::Mac;
use hello_old::serpent_siv::{s2v, siv_decrypt, siv_encrypt};

fn block(key: &[u8], input: [u8; 16]) -> [u8; 16] {
    let cipher = <serpent::Serpent as KeyInit>::new_from_slice(key).unwrap();
    let mut b = cipher::Block::<serpent::Serpent>::from(input);
    cipher.encrypt_block(&mut b);
    b.into()
}

fn tag(key: &[u8], data: &[u8]) -> [u8; 16] {
    let mut mac = <cmac::Cmac<serpent::Serpent> as cmac::KeyInit>::new_from_slice(key).unwrap();
    mac.update(data);
    mac.finalize().into_bytes().into()
}

fn double(x: [u8; 16]) -> [u8; 16] {
    let v = u128::from_le_bytes(x);
    let d = (v << 1) ^ (if v >> 127 == 1 { 0x87 } else { 0 });
    d.to_le_bytes()
}

/// The tag of a zero block, doubled, and the tag of the associated data.
fn chained(key: &[u8], ad: &[u8]) -> [u8; 16] {
    let twice = u128::from_le_bytes(double(tag(key, &[0; 16])));
    (twice ^ u128::from_le_bytes(tag(key, ad))).to_le_bytes()
}

fn key() -> Vec<u8> {
    (0..32u8).collect()
}

#[test]
fn short_text_is_padded_into_the_tag() {
    let k = key();
    let d = double(chained(&k[..16], b"ad"));
    let mut last = [0u8; 16];
    last[..5].copy_from_slice(b"hello");
    last[5] = 0x80;
    for i in 0..16 {
        last[i] ^= d[i];
    }
    let v = tag(&k[..16], &last);
    let sealed = siv_encrypt(&k, b"ad", b"hello");
    assert_eq!(&sealed[..16], &v);
    let mut q = v;
    q[3] &= 0x7f;
    q[7] &= 0x7f;
    let stream = block(&k[16..], q);
    for i in 0..5 {
        assert_eq!(sealed[16 + i], b"hello"[i] ^ stream[i]);
    }
    assert_eq!(sealed.len(), 21);
}

#[test]
fn long_text_takes_the_tag_at_its_end() {
    let k = key();
    let text: Vec<u8> = (0..40u8).collect();
    let d = chained(&k[..16], b"ad");
    let mut t = text.clone();
    for i in 0..16 {
        t[24 + i] ^= d[i];
    }
    let v = tag(&k[..16], &t);
    let sealed = siv_encrypt(&k, b"ad", &text);
    assert_eq!(&sealed[..16], &v);
    let mut q = v;
    q[3] &= 0x7f;
    q[7] &= 0x7f;
    let third = (u128::from_le_bytes(q).wrapping_add(2)).to_le_bytes();
    let stream = block(&k[16..], third);
    for i in 0..8 {
        assert_eq!(sealed[16 + 32 + i], text[32 + i] ^ stream[i]);
    }
}

#[test]
fn what_is_sealed_opens() {
    let k = key();
    for n in [0usize, 1, 15, 16, 17, 31, 32, 100] {
        let text: Vec<u8> = (0..n).map(|i| (7 * i) as u8).collect();
        let sealed = siv_encrypt(&k, b"context", &text);
        assert_eq!(sealed.len(), 16 + n);
        assert_eq!(siv_decrypt(&k, b"context", &sealed), Some(text));
    }
}

#[test]
fn any_change_is_refused() {
    let k = key();
    let sealed = siv_encrypt(&k, b"context", b"a sealed text of some length");
    for i in 0..sealed.len() {
        let mut bad = sealed.clone();
        bad[i] ^= 0x10;
        assert_eq!(siv_decrypt(&k, b"context", &bad), None);
    }
    assert_eq!(siv_decrypt(&k, b"other", &sealed), None);
    assert_eq!(siv_decrypt(&k, b"context", &sealed[..15]), None);
    let mut other = key();
    other[0] ^= 1;
    assert_eq!(siv_decrypt(&other, b"context", &sealed), None);
}

#[test]
fn any_number_of_strings_goes_into_the_tag() {
    let k = &key()[..16];
    let text = [7u8; 16];
    let mix = |d: [u8; 16]| {
        (u128::from_le_bytes(d) ^ u128::from_le_bytes(text)).to_le_bytes()
    };
    assert_eq!(s2v(k, &[], &text), tag(k, &mix(tag(k, &[0; 16]))));
    assert_eq!(s2v(k, &[b"ad"], &text), tag(k, &mix(chained(k, b"ad"))));
    let twice = u128::from_le_bytes(double(chained(k, b"ad")));
    let d = (twice ^ u128::from_le_bytes(tag(k, b"more"))).to_le_bytes();
    assert_eq!(s2v(k, &[b"ad", b"more"], &text), tag(k, &mix(d)));
}
