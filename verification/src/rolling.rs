//! The rolling cipher: while the opened text waits in memory, it lies there
//! masked, and the mask is replaced again and again.
use vstd::prelude::*;

use crate::bytes;
use crate::crypto;
use crate::primitives;
use crate::xorshift;

verus! {

/// Bytes in a mask.
pub const MASK_LEN: usize = 256;

/// Where the substitute mask starts when the system gives no random bytes.
pub const FALLBACK_SEED: u64 = 0x9e37_79b9_7f4a_7c15;

/// `data` under a mask that is repeated as often as needed.
pub open spec fn masked(data: Seq<u8>, mask: Seq<u8>) -> Seq<u8> {
    Seq::new(data.len(), |i: int| data[i] ^ mask[i % 256])
}

/// The substitute mask.
pub open spec fn fallback_mask() -> Seq<u8> {
    Seq::new(
        256,
        |i: int| (xorshift::shifted_by(FALLBACK_SEED, (i + 1) as nat) % 256) as u8,
    )
}

/// The state of the cipher: whether a buffer is masked, its length, and the
/// mask.
pub struct Rolling {
    pub armed: bool,
    pub len: usize,
    pub mask: [u8; MASK_LEN],
}

impl Rolling {
    /// What a buffer holds under its mask.
    pub open spec fn plain(&self, buf: Seq<u8>) -> Seq<u8> {
        if self.armed {
            masked(buf, self.mask@)
        } else {
            buf
        }
    }

    /// A cipher that masks nothing yet.
    pub fn new() -> (r: Rolling)
        ensures
            !r.armed,
            r.len == 0,
            r.mask@ == bytes::zeros(256),
    {
        let r = Rolling { armed: false, len: 0, mask: [0; MASK_LEN] };
        proof {
            assert(r.mask@ =~= bytes::zeros(256));
        }
        r
    }
}

/// Masks a buffer with a given mask. An empty buffer is left alone.
pub fn arm_with(r: &mut Rolling, buf: &mut [u8], mask: &[u8; MASK_LEN])
    ensures
        old(buf)@.len() == 0 ==> *final(r) == *old(r) && final(buf)@ == old(buf)@,
        old(buf)@.len() > 0 ==> final(r).armed && final(r).len == old(buf)@.len()
            && final(r).mask@ == mask@ && final(buf)@ == masked(old(buf)@, mask@),
        !old(r).armed ==> final(r).plain(final(buf)@) == old(buf)@,
{
    if buf.len() == 0 {
        return;
    }
    let ghost before = buf@;
    r.mask = *mask;
    apply_mask(buf, mask);
    r.len = buf.len();
    r.armed = true;
    proof {
        lemma_masked_twice(before, mask@);
    }
}

/// Replaces the mask by a given one. The buffer stays masked all along.
pub fn rotate_with(r: &mut Rolling, buf: &mut [u8], mask: &[u8; MASK_LEN])
    requires
        old(r).armed ==> old(buf)@.len() == old(r).len,
    ensures
        !old(r).armed ==> *final(r) == *old(r) && final(buf)@ == old(buf)@,
        old(r).armed ==> final(r).armed && final(r).mask@ == mask@ && final(buf)@
            == masked(old(r).plain(old(buf)@), mask@),
        final(r).len == old(r).len,
        final(r).plain(final(buf)@) == old(r).plain(old(buf)@),
{
    if !r.armed {
        return;
    }
    let ghost before = buf@;
    let mut delta: [u8; MASK_LEN] = bytes::xor_arrays(&r.mask, mask);
    apply_mask(buf, &delta);
    proof {
        assert forall|i: int| 0 <= i < before.len() implies buf@[i] == masked(
            masked(before, r.mask@),
            mask@,
        )[i] by {
            lemma_xor_assoc(before[i], r.mask@[i % 256], mask@[i % 256]);
        }
        assert(buf@ =~= masked(masked(before, r.mask@), mask@));
        lemma_masked_twice(masked(before, r.mask@), mask@);
    }
    r.mask = *mask;
    crypto::zeroize(&mut delta);
}

/// Unmasks the buffer and wipes the mask.
pub fn disarm(r: &mut Rolling, buf: &mut [u8])
    requires
        old(r).armed ==> old(buf)@.len() == old(r).len,
    ensures
        !final(r).armed,
        final(r).len == old(r).len,
        final(buf)@ == old(r).plain(old(buf)@),
        old(r).armed ==> final(r).mask@ == bytes::zeros(256),
        !old(r).armed ==> *final(r) == *old(r),
{
    if !r.armed {
        return;
    }
    let mask: [u8; MASK_LEN] = r.mask;
    apply_mask(buf, &mask);
    crypto::zeroize(&mut r.mask);
    r.armed = false;
}

/// Masks a buffer with a fresh mask. An empty buffer is left alone.
pub fn arm(r: &mut Rolling, buf: &mut [u8])
    ensures
        old(buf)@.len() == 0 ==> *final(r) == *old(r) && final(buf)@ == old(buf)@,
        old(buf)@.len() > 0 ==> final(r).armed && final(r).len == old(buf)@.len() && final(buf)@
            == masked(old(buf)@, final(r).mask@),
        !old(r).armed ==> final(r).plain(final(buf)@) == old(buf)@,
{
    let mut mask: [u8; MASK_LEN] = fill_mask();
    arm_with(r, buf, &mask);
    crypto::zeroize(&mut mask);
}

/// Replaces the mask by a fresh one. The buffer stays masked all along, and
/// nothing changes where it is not masked. A fresh mask is whatever the system
/// gives, so it is not stated to differ from the one before.
pub fn rotate(r: &mut Rolling, buf: &mut [u8])
    requires
        old(r).armed ==> old(buf)@.len() == old(r).len,
    ensures
        !old(r).armed ==> *final(r) == *old(r) && final(buf)@ == old(buf)@,
        old(r).armed ==> final(r).armed && final(buf)@ == masked(
            old(r).plain(old(buf)@),
            final(r).mask@,
        ),
        final(r).len == old(r).len,
        final(r).plain(final(buf)@) == old(r).plain(old(buf)@),
{
    let mut mask: [u8; MASK_LEN] = fill_mask();
    rotate_with(r, buf, &mask);
    crypto::zeroize(&mut mask);
}

proof fn lemma_xor_assoc(a: u8, b: u8, c: u8)
    by (bit_vector)
    ensures
        a ^ (b ^ c) == (a ^ b) ^ c,
{
}

/// A mask laid on twice is gone.
pub proof fn lemma_masked_twice(data: Seq<u8>, mask: Seq<u8>)
    ensures
        masked(masked(data, mask), mask) == data,
{
    assert forall|i: int| 0 <= i < data.len() implies masked(masked(data, mask), mask)[i]
        == data[i] by {
        bytes::lemma_xor_u8(data[i], mask[i % 256]);
    }
    assert(masked(masked(data, mask), mask) =~= data);
}

/// Lays a mask on a buffer.
fn apply_mask(buf: &mut [u8], mask: &[u8; MASK_LEN])
    ensures
        final(buf)@ == masked(old(buf)@, mask@),
{
    let ghost before = buf@;
    let mut i: usize = 0;
    while i < buf.len()
        invariant
            i <= buf@.len(),
            buf@.len() == before.len(),
            forall|j: int| 0 <= j < i ==> buf@[j] == before[j] ^ mask@[j % 256],
            forall|j: int| i <= j < buf@.len() ==> buf@[j] == before[j],
        decreases buf@.len() - i,
    {
        buf[i] = buf[i] ^ mask[i % MASK_LEN];
        i = i + 1;
    }
    proof {
        assert(buf@ =~= masked(before, mask@));
    }
}

/// The mask to use: the random one, or the substitute where there is none.
pub fn mask_from(random: Option<[u8; MASK_LEN]>) -> (mask: [u8; MASK_LEN])
    ensures
        mask@ == match random {
            Some(m) => m@,
            None => fallback_mask(),
        },
{
    match random {
        Some(m) => m,
        None => {
            let mut mask: [u8; MASK_LEN] = [0; MASK_LEN];
            let mut x: u64 = FALLBACK_SEED;
            let mut i: usize = 0;
            while i < MASK_LEN
                invariant
                    i <= MASK_LEN,
                    x == xorshift::shifted_by(FALLBACK_SEED, i as nat),
                    forall|j: int| 0 <= j < i ==> mask@[j] == fallback_mask()[j],
                decreases MASK_LEN - i,
            {
                x = xorshift::xorshift(x);
                mask[i] = (x % 256) as u8;
                i = i + 1;
            }
            proof {
                assert(mask@ =~= fallback_mask());
            }
            mask
        },
    }
}

/// A mask of random bytes, or the substitute where the system gives none. The
/// system decides which, so nothing is stated of the mask; `mask_from` says what
/// it is for either.
fn fill_mask() -> (mask: [u8; MASK_LEN]) {
    let mut m: [u8; MASK_LEN] = [0; MASK_LEN];
    if primitives::system_random(&mut m) {
        mask_from(Some(m))
    } else {
        mask_from(None)
    }
}

/// A mask is laid on byte by byte and repeated every 256 bytes; it keeps the
/// length, hides no difference, and is gone once it is laid on again.
pub proof fn law_masking(data: Seq<u8>, mask: Seq<u8>, i: int)
    requires
        0 <= i < data.len(),
    ensures
        masked(data, mask).len() == data.len(),
        masked(data, mask)[i] == data[i] ^ mask[i % 256],
        masked(masked(data, mask), mask) == data,
{
    lemma_masked_twice(data, mask);
}

/// While a buffer is masked, what lies in it differs from the plain text in
/// every byte whose mask is not zero.
pub proof fn law_masked_text_is_hidden(r: Rolling, buf: Seq<u8>, i: int)
    requires
        r.armed,
        0 <= i < buf.len(),
        r.mask@[i % 256] != 0,
    ensures
        r.plain(buf)[i] != buf[i],
{
    lemma_mask_shows(buf[i], r.mask@[i % 256]);
}

proof fn lemma_mask_shows(a: u8, b: u8)
    by (bit_vector)
    ensures
        b != 0 ==> a ^ b != a,
{
}

/// The substitute mask, where the system gives no random bytes: the low bytes of
/// the states that follow a fixed one.
pub proof fn law_substitute_mask(i: int)
    requires
        0 <= i < 256,
    ensures
        fallback_mask().len() == 256,
        fallback_mask()[i] == (xorshift::shifted_by(0x9e37_79b9_7f4a_7c15, (i + 1) as nat) % 256),
{
}

} // verus!
