//! The program's signature on itself: a block behind the program file that
//! holds a marker, the length that is covered, the public key and an Ed448
//! signature. Only the key that the program was built with is trusted.
use vstd::prelude::*;

use crate::bytes;
use crate::crypto;
use crate::primitives;
use crate::text;

verus! {

/// Bytes in a signature block.
pub const BLOCK_LEN: usize = 187;

/// Why a written secret is refused.
#[derive(Clone, Copy, PartialEq, Eq, Structural, Debug)]
pub enum HexError {
    /// It has another length than 64.
    Length { got: usize },
    /// It holds a byte that is no hexadecimal digit.
    Digit { byte: u8 },
}

/// The value of a hexadecimal digit, if it is one.
pub open spec fn nibble(b: u8) -> Option<u8> {
    if 48 <= b <= 57 {
        Some((b - 48) as u8)
    } else if 97 <= b <= 102 {
        Some((b - 87) as u8)
    } else if 65 <= b <= 70 {
        Some((b - 55) as u8)
    } else {
        None
    }
}

/// Reads a hexadecimal digit.
pub fn hex_nibble(b: u8) -> (r: Result<u8, HexError>)
    ensures
        match r {
            Ok(v) => nibble(b) == Some(v) && v < 16,
            Err(e) => nibble(b) is None && e == (HexError::Digit { byte: b }),
        },
{
    if 48 <= b && b <= 57 {
        Ok(b - 48)
    } else if 97 <= b && b <= 102 {
        Ok(b - 87)
    } else if 65 <= b && b <= 70 {
        Ok(b - 55)
    } else {
        Err(HexError::Digit { byte: b })
    }
}

/// Whether every byte is a hexadecimal digit.
pub open spec fn all_hex(s: Seq<u8>) -> bool {
    forall|i: int| 0 <= i < s.len() ==> nibble(#[trigger] s[i]) is Some
}

/// The bytes that pairs of hexadecimal digits spell.
pub open spec fn hex_bytes(s: Seq<u8>) -> Seq<u8> {
    Seq::new(
        s.len() / 2,
        |i: int| (16 * nibble(s[2 * i]).unwrap() + nibble(s[2 * i + 1]).unwrap()) as u8,
    )
}

/// Whether `b` is the first byte that is no hexadecimal digit.
pub open spec fn first_bad(s: Seq<u8>, b: u8) -> bool {
    exists|i: int|
        0 <= i < s.len() && #[trigger] s[i] == b && nibble(b) is None && all_hex(s.subrange(0, i))
}

/// Reads 32 bytes in hexadecimal.
pub fn decode_hex32(s: &str) -> (r: Result<[u8; 32], HexError>)
    ensures
        ({
            let b = vstd::utf8::encode_utf8(s@);
            match r {
                Ok(out) => b.len() == 64 && all_hex(b) && out@ == hex_bytes(b),
                Err(HexError::Length { got }) => b.len() != 64 && got == b.len(),
                Err(HexError::Digit { byte }) => b.len() == 64 && first_bad(b, byte),
            }
        }),
{
    let b: &[u8] = s.as_bytes();
    if b.len() != 64 {
        return Err(HexError::Length { got: b.len() });
    }
    let mut out: [u8; 32] = [0; 32];
    let mut i: usize = 0;
    while i < 32
        invariant
            i <= 32,
            b@.len() == 64,
            b@ == vstd::utf8::encode_utf8(s@),
            all_hex(b@.subrange(0, 2 * i)),
            forall|j: int| 0 <= j < i ==> out@[j] == hex_bytes(b@)[j],
        decreases 32 - i,
    {
        let hi: u8 = match hex_nibble(b[2 * i]) {
            Ok(v) => v,
            Err(e) => {
                proof {
                    assert(b@[2 * i] == b@[2 * i]);
                }
                return Err(e);
            },
        };
        let lo: u8 = match hex_nibble(b[2 * i + 1]) {
            Ok(v) => v,
            Err(e) => {
                proof {
                    lemma_hex_grows(b@, 2 * i);
                    assert(b@[2 * i + 1] == b@[2 * i + 1]);
                }
                return Err(e);
            },
        };
        out[i] = 16 * hi + lo;
        proof {
            lemma_hex_grows(b@, 2 * i);
            lemma_hex_grows(b@, 2 * i + 1);
        }
        i = i + 1;
    }
    proof {
        assert(b@.subrange(0, 64) =~= b@);
        assert(out@ =~= hex_bytes(b@));
    }
    Ok(out)
}

proof fn lemma_hex_grows(s: Seq<u8>, n: int)
    requires
        0 <= n < s.len(),
        all_hex(s.subrange(0, n)),
        nibble(s[n]) is Some,
    ensures
        all_hex(s.subrange(0, n + 1)),
{
    assert forall|i: int| 0 <= i < n + 1 implies nibble(#[trigger] s.subrange(0, n + 1)[i]) is Some by {
        if i < n {
            assert(s.subrange(0, n)[i] == s[i]);
        }
    }
}

/// The Ed448 secret of a 32-byte seed: its counter-mode stream.
pub open spec fn secret_of(seed: Seq<u8>) -> Seq<u8> {
    crypto::counter_stream(seed, 57)
}

/// Expands a 32-byte seed to an Ed448 secret.
pub fn expand_secret(seed: &[u8; 32]) -> (out: [u8; 57])
    ensures
        out@ == secret_of(seed@),
{
    let first: [u8; 32] = crypto::counter_block(seed, 0);
    let second: [u8; 32] = crypto::counter_block(seed, 1);
    let mut out: [u8; 57] = [0; 57];
    let mut i: usize = 0;
    while i < 57
        invariant
            i <= 57,
            first@ == primitives::blake3_digest(seed@ + bytes::le_bytes(0, 8)),
            second@ == primitives::blake3_digest(seed@ + bytes::le_bytes(1, 8)),
            forall|j: int| 0 <= j < i ==> out@[j] == secret_of(seed@)[j],
        decreases 57 - i,
    {
        out[i] = if i < 32 { first[i] } else { second[i - 32] };
        i = i + 1;
    }
    proof {
        assert(out@ =~= secret_of(seed@));
    }
    out
}

/// The Ed448 secret of a seed written in hexadecimal, white space around it
/// left aside.
pub fn self_sign_secret(hex: &str) -> (r: Result<[u8; 57], HexError>)
    ensures
        ({
            let b = vstd::utf8::encode_utf8(text::trimmed(hex@));
            match r {
                Ok(out) => b.len() == 64 && all_hex(b) && out@ == secret_of(hex_bytes(b)),
                Err(HexError::Length { got }) => b.len() != 64 && got == b.len(),
                Err(HexError::Digit { byte }) => b.len() == 64 && first_bad(b, byte),
            }
        }),
{
    let chars: Vec<char> = text::chars_of(hex);
    let kept: String = text::string_of(text::trim(chars.as_slice()));
    match decode_hex32(kept.as_str()) {
        Ok(mut seed) => {
            let out: [u8; 57] = expand_secret(&seed);
            crypto::zeroize(&mut seed);
            Ok(out)
        },
        Err(e) => Err(e),
    }
}

/// How a character looks in a message: in quotes, escaped where needed.
pub uninterp spec fn quoted_char(c: char) -> Seq<char>;

/// Calls `std`'s `Debug` formatting of a character. Claims that the output is
/// the character in quotes.
#[verifier::external_body]
fn quote_char(c: char) -> (s: String)
    ensures
        s@ == quoted_char(c),
{
    format!("{:?}", c)
}

/// What is said of a refused secret.
pub fn hex_error_text(e: HexError) -> (s: String)
    ensures
        s@ == match e {
            HexError::Length { got } => "expected 64 hex chars, got "@ + text::decimal(got as nat),
            HexError::Digit { byte } => "non-hex byte "@ + quoted_char(byte as char),
        },
{
    match e {
        HexError::Length { got } => {
            let mut s: String = "expected 64 hex chars, got ".to_owned();
            text::push_decimal(&mut s, got as u64);
            s
        },
        HexError::Digit { byte } => {
            let s: String = "non-hex byte ".to_owned();
            let q: String = quote_char(byte as char);
            s.concat(q.as_str())
        },
    }
}

/// The marker of a signature block.
pub open spec fn magic() -> Seq<u8> {
    text::ascii("HLDLSIG1"@)
}

/// The signature block of a program.
pub open spec fn signature_block(data: Seq<u8>, secret: Seq<u8>) -> Seq<u8> {
    magic() + bytes::le_bytes(data.len(), 8) + primitives::ed448_public_key(secret)
        + primitives::ed448_signature(secret, data)
}

/// Whether a program file carries a signature of all that comes before the
/// block, made with the trusted key.
pub open spec fn self_signed(file: Seq<u8>, trusted: Seq<u8>) -> bool {
    let n = file.len() - BLOCK_LEN;
    &&& 0 <= n
    &&& file.subrange(n, n + 8) == magic()
    &&& bytes::le_value(file.subrange(n + 8, n + 16)) == n
    &&& file.subrange(n + 16, n + 73) == trusted
    &&& primitives::ed448_valid(trusted, file.subrange(0, n), file.subrange(n + 73, n + 187))
}

/// Signs a program: the file with its signature block. Under the key that goes
/// with the secret it counts as signed, but for irregular signatures, which
/// come with negligible chance; under any other key it does not.
pub fn sign_program(data: &[u8], secret: &[u8; 57]) -> (out: Vec<u8>)
    ensures
        out@ == data@ + signature_block(data@, secret@),
        self_signed(out@, primitives::ed448_public_key(secret@)) == primitives::ed448_valid(
            primitives::ed448_public_key(secret@),
            data@,
            primitives::ed448_signature(secret@, data@),
        ),
        primitives::ed448_regular(
            primitives::ed448_public_key(secret@),
            primitives::ed448_signature(secret@, data@),
        ) ==> self_signed(out@, primitives::ed448_public_key(secret@)),
        forall|other: Seq<u8>|
            other != primitives::ed448_public_key(secret@) ==> !#[trigger] self_signed(
                out@,
                other,
            ),
{
    let public: [u8; 57] = primitives::ed448_public(secret);
    let sig: [u8; 114] = primitives::ed448_sign(secret, data);
    let marker: Vec<u8> = text::ascii_bytes("HLDLSIG1");
    let len: [u8; 8] = bytes::u64_to_le(data.len() as u64);
    let mut out: Vec<u8> = bytes::concat(data, marker.as_slice());
    out.extend_from_slice(&len);
    out.extend_from_slice(&public);
    out.extend_from_slice(&sig);
    proof {
        reveal_strlit("HLDLSIG1");
        let n = data@.len() as int;
        assert(out@ =~= data@ + signature_block(data@, secret@));
        assert(out@.len() == n + BLOCK_LEN);
        assert(out@.subrange(0, n) =~= data@);
        assert(out@.subrange(n, n + 8) =~= magic());
        assert(out@.subrange(n + 8, n + 16) =~= len@);
        assert(out@.subrange(n + 16, n + 73) =~= public@);
        assert(out@.subrange(n + 73, n + 187) =~= sig@);
        bytes::lemma_pow256_small();
        bytes::lemma_le_value_of_bytes(data@.len(), 8);
    }
    out
}

/// Whether a program file carries a signature made with the trusted key.
pub fn verify_self_signature(file: &[u8], trusted: &[u8; 57]) -> (r: bool)
    ensures
        r == self_signed(file@, trusted@),
{
    if file.len() < BLOCK_LEN {
        return false;
    }
    let n: usize = file.len() - BLOCK_LEN;
    let (data, block) = file.split_at(n);
    let marker: Vec<u8> = text::ascii_bytes("HLDLSIG1");
    let tag: &[u8] = vstd::slice::slice_subrange(block, 0, 8);
    let covered: u64 = bytes::read_le(block, 8, 8);
    let key: &[u8] = vstd::slice::slice_subrange(block, 16, 73);
    let sig: [u8; 114] = bytes::to_array(vstd::slice::slice_subrange(block, 73, 187));
    proof {
        assert(tag@ =~= file@.subrange(n as int, n + 8));
        assert(block@.subrange(8, 16) =~= file@.subrange(n + 8, n + 16));
        assert(key@ =~= file@.subrange(n + 16, n + 73));
        assert(sig@ =~= file@.subrange(n + 73, n + 187));
    }
    if !crypto::ct_eq(tag, marker.as_slice()) {
        return false;
    }
    if covered != n as u64 {
        return false;
    }
    if !crypto::ct_eq(key, trusted) {
        return false;
    }
    primitives::ed448_verify(trusted, data, &sig)
}

/// Bytes in lower-case hexadecimal.
pub open spec fn hex_text(b: Seq<u8>) -> Seq<char> {
    Seq::new(
        2 * b.len(),
        |i: int| if i % 2 == 0 { hex_char(b[i / 2] / 16) } else { hex_char(b[i / 2] % 16) },
    )
}

/// The lower-case hexadecimal digit of a number below 16.
pub open spec fn hex_char(n: u8) -> char {
    if n < 10 {
        (48 + n) as char
    } else {
        (87 + n) as char
    }
}

fn hex_char_of(n: u8) -> (c: char)
    requires
        n < 16,
    ensures
        c == hex_char(n),
{
    if n < 10 {
        (48 + n) as char
    } else {
        (87 + n) as char
    }
}

/// Writes bytes in hexadecimal.
pub fn hex(b: &[u8]) -> (s: String)
    ensures
        s@ == hex_text(b@),
{
    let mut s = String::new();
    let mut i: usize = 0;
    while i < b.len()
        invariant
            i <= b@.len(),
            s@ =~= hex_text(b@.subrange(0, i as int)),
        decreases b@.len() - i,
    {
        let ghost before = s@;
        s.push(hex_char_of(b[i] / 16));
        s.push(hex_char_of(b[i] % 16));
        proof {
            let part = b@.subrange(0, i + 1);
            let want = hex_text(part);
            assert forall|k: int| 0 <= k < s@.len() implies s@[k] == want[k] by {
                if k < 2 * i {
                    assert(before[k] == hex_text(b@.subrange(0, i as int))[k]);
                }
            }
            assert(s@ =~= want);
        }
        i = i + 1;
    }
    proof {
        assert(b@.subrange(0, b@.len() as int) =~= b@);
    }
    s
}

/// A program counts as signed exactly if it ends in a block of 187 bytes that
/// holds the marker `HLDLSIG1`, the length of all that comes before the block,
/// the trusted key, and a signature that holds under that key on all that comes
/// before the block.
pub proof fn law_signed_program(data: Seq<u8>, block: Seq<u8>, trusted: Seq<u8>)
    requires
        block.len() == 187,
    ensures
        self_signed(data + block, trusted) <==> {
            &&& block.subrange(0, 8) == seq![72u8, 76, 68, 76, 83, 73, 71, 49]
            &&& bytes::le_value(block.subrange(8, 16)) == data.len()
            &&& block.subrange(16, 73) == trusted
            &&& primitives::ed448_valid(trusted, data, block.subrange(73, 187))
        },
{
    reveal_strlit("HLDLSIG1");
    assert(magic() =~= seq![72u8, 76, 68, 76, 83, 73, 71, 49]);
    let file = data + block;
    let n = data.len() as int;
    assert(file.subrange(0, n) =~= data);
    assert(file.subrange(n, n + 8) =~= block.subrange(0, 8));
    assert(file.subrange(n + 8, n + 16) =~= block.subrange(8, 16));
    assert(file.subrange(n + 16, n + 73) =~= block.subrange(16, 73));
    assert(file.subrange(n + 73, n + 187) =~= block.subrange(73, 187));
}

/// A file too short for a block is not signed.
pub proof fn law_short_file_is_not_signed(file: Seq<u8>, trusted: Seq<u8>)
    requires
        file.len() < 187,
    ensures
        !self_signed(file, trusted),
{
}

/// One block signs one program only, as far as the signature scheme does: the
/// same block behind two programs counts for both only where the signature
/// holds on both, and both have the same length.
pub proof fn law_block_covers_the_program(
    data: Seq<u8>,
    other: Seq<u8>,
    block: Seq<u8>,
    trusted: Seq<u8>,
)
    requires
        block.len() == 187,
        self_signed(data + block, trusted),
        self_signed(other + block, trusted),
    ensures
        data.len() == other.len(),
        primitives::ed448_valid(trusted, data, block.subrange(73, 187)),
        primitives::ed448_valid(trusted, other, block.subrange(73, 187)),
{
    law_signed_program(data, block, trusted);
    law_signed_program(other, block, trusted);
}

/// The values of hexadecimal digits, and that nothing else is one.
pub proof fn law_nibbles(b: u8)
    ensures
        nibble(b) is Some <==> (0x30 <= b <= 0x39 || 0x61 <= b <= 0x66 || 0x41 <= b <= 0x46),
        0x30 <= b <= 0x39 ==> nibble(b) == Some((b - 0x30) as u8),
        0x61 <= b <= 0x66 ==> nibble(b) == Some((b - 0x61 + 10) as u8),
        0x41 <= b <= 0x46 ==> nibble(b) == Some((b - 0x41 + 10) as u8),
{
}

/// Bytes that are written in hexadecimal are read back.
pub proof fn law_hex_round_trip(b: Seq<u8>)
    ensures
        hex_text(b).len() == 2 * b.len(),
        all_hex(text::ascii(hex_text(b))),
        hex_bytes(text::ascii(hex_text(b))) == b,
{
    let t = text::ascii(hex_text(b));
    assert forall|i: int| 0 <= i < t.len() implies nibble(#[trigger] t[i]) == Some(
        (if i % 2 == 0 {
            b[i / 2] / 16
        } else {
            b[i / 2] % 16
        }) as u8,
    ) by {
        let n: u8 = if i % 2 == 0 {
            (b[i / 2] / 16) as u8
        } else {
            (b[i / 2] % 16) as u8
        };
        assert(n < 16);
        assert(hex_text(b)[i] == hex_char(n));
    }
    assert forall|i: int| 0 <= i < b.len() implies hex_bytes(t)[i] == b[i] by {
        assert((2 * i) / 2 == i && (2 * i) % 2 == 0 && (2 * i + 1) / 2 == i && (2 * i + 1) % 2
            == 1);
        assert(nibble(t[2 * i]) == Some((b[i] / 16) as u8));
        assert(nibble(t[2 * i + 1]) == Some((b[i] % 16) as u8));
    }
    assert(hex_bytes(t) =~= b);
}

/// The secret that grows from a seed: the first 57 bytes of the BLAKE3 digests
/// of the seed with the numbers zero and one behind it.
pub proof fn law_secret_of_a_seed(seed: Seq<u8>, i: int)
    requires
        0 <= i < 57,
    ensures
        secret_of(seed).len() == 57,
        i < 32 ==> secret_of(seed)[i] == primitives::blake3_digest(
            seed + seq![0u8, 0, 0, 0, 0, 0, 0, 0],
        )[i],
        i >= 32 ==> secret_of(seed)[i] == primitives::blake3_digest(
            seed + seq![1u8, 0, 0, 0, 0, 0, 0, 0],
        )[i - 32],
{
    reveal_with_fuel(bytes::le_bytes, 9);
    assert(bytes::le_bytes(0, 8) =~= seq![0u8, 0, 0, 0, 0, 0, 0, 0]);
    assert(bytes::le_bytes(1, 8) =~= seq![1u8, 0, 0, 0, 0, 0, 0, 0]);
}

} // verus!
