//! The passphrase prompt: what a row of key presses comes to.
use vstd::prelude::*;

use crate::bytes;
use crate::crypto;
use crate::text;

verus! {

/// Most characters that a typed passphrase can have.
pub const MAX_PASS_LEN: usize = 127;

/// What the prompt shows for a key press.
#[derive(Clone, Copy, PartialEq, Eq, Structural, Debug)]
pub enum Echo {
    /// The passphrase is complete.
    Done,
    /// The last star is taken back.
    Erase,
    /// One more star.
    Star,
    /// Nothing.
    Nothing,
}

pub open spec fn is_enter(b: u8) -> bool {
    b == 0x0a || b == 0x0d
}

pub open spec fn is_backspace(b: u8) -> bool {
    b == 0x7f || b == 0x08
}

pub open spec fn is_printable(b: u8) -> bool {
    0x20 <= b <= 0x7e
}

/// What was typed, after one more key.
pub open spec fn typed_key(s: Seq<u8>, b: u8) -> Seq<u8> {
    if is_enter(b) {
        s
    } else if is_backspace(b) {
        if s.len() > 0 {
            s.drop_last()
        } else {
            s
        }
    } else if is_printable(b) && s.len() < MAX_PASS_LEN {
        s.push(b)
    } else {
        s
    }
}

/// What the prompt shows for one more key.
pub open spec fn echo_of(s: Seq<u8>, b: u8) -> Echo {
    if is_enter(b) {
        Echo::Done
    } else if is_backspace(b) {
        if s.len() > 0 {
            Echo::Erase
        } else {
            Echo::Nothing
        }
    } else if is_printable(b) && s.len() < MAX_PASS_LEN {
        Echo::Star
    } else {
        Echo::Nothing
    }
}

/// What a row of keys comes to: everything up to the first Enter counts.
pub open spec fn typed(s: Seq<u8>, keys: Seq<u8>) -> Seq<u8>
    decreases keys.len(),
{
    if keys.len() == 0 || is_enter(keys[0]) {
        s
    } else {
        typed(typed_key(s, keys[0]), keys.drop_first())
    }
}

/// Whatever is typed, a passphrase is never too long and holds printable
/// characters only.
pub proof fn law_typed_is_clean(s: Seq<u8>, keys: Seq<u8>)
    requires
        s.len() <= MAX_PASS_LEN,
        forall|i: int| 0 <= i < s.len() ==> is_printable(#[trigger] s[i]),
    ensures
        typed(s, keys).len() <= MAX_PASS_LEN,
        forall|i: int| 0 <= i < typed(s, keys).len() ==> is_printable(#[trigger] typed(s, keys)[i]),
    decreases keys.len(),
{
    if keys.len() > 0 && !is_enter(keys[0]) {
        law_typed_is_clean(typed_key(s, keys[0]), keys.drop_first());
    }
}

/// A fixed buffer that a passphrase is typed into. Bytes behind the typed ones
/// are zero.
pub struct PassBuf {
    buf: [u8; MAX_PASS_LEN],
    len: usize,
}

impl View for PassBuf {
    type V = Seq<u8>;

    closed spec fn view(&self) -> Seq<u8> {
        self.buf@.subrange(0, self.len as int)
    }
}

impl PassBuf {
    pub closed spec fn wf(&self) -> bool {
        self.len <= MAX_PASS_LEN && forall|i: int|
            self.len <= i < MAX_PASS_LEN ==> self.buf@[i] == 0
    }

    /// An empty buffer.
    pub fn new() -> (p: PassBuf)
        ensures
            p.wf(),
            p@ == Seq::<u8>::empty(),
    {
        let p = PassBuf { buf: [0; MAX_PASS_LEN], len: 0 };
        proof {
            assert(p@ =~= Seq::<u8>::empty());
        }
        p
    }

    /// Takes in one key.
    pub fn key(&mut self, b: u8) -> (echo: Echo)
        requires
            old(self).wf(),
        ensures
            final(self).wf(),
            final(self)@ == typed_key(old(self)@, b),
            echo == echo_of(old(self)@, b),
    {
        let ghost before = self@;
        if b == 0x0a || b == 0x0d {
            return Echo::Done;
        }
        if b == 0x7f || b == 0x08 {
            if self.len > 0 {
                self.len = self.len - 1;
                let at: usize = self.len;
                self.buf[at] = 0;
                proof {
                    assert(self@ =~= before.drop_last());
                }
                return Echo::Erase;
            }
            return Echo::Nothing;
        }
        if b >= 0x20 && b <= 0x7e && self.len < MAX_PASS_LEN {
            let at: usize = self.len;
            self.buf[at] = b;
            self.len = self.len + 1;
            proof {
                assert(self@ =~= before.push(b));
            }
            return Echo::Star;
        }
        Echo::Nothing
    }

    /// Hands the passphrase out and wipes the buffer.
    pub fn take(&mut self) -> (out: Vec<u8>)
        requires
            old(self).wf(),
        ensures
            final(self).wf(),
            final(self)@ == Seq::<u8>::empty(),
            out@ == old(self)@,
    {
        let len: usize = self.len;
        let out: Vec<u8> = bytes::to_vec(
            vstd::slice::slice_subrange(self.buf.as_slice(), 0, len),
        );
        crypto::zeroize(&mut self.buf);
        self.len = 0;
        proof {
            assert(self@ =~= Seq::<u8>::empty());
        }
        out
    }
}

/// The passphrase that a row of keys comes to. Keys behind the first Enter do
/// not count.
pub fn read_password(keys: &[u8]) -> (out: Vec<u8>)
    ensures
        out@ == typed(Seq::empty(), keys@),
{
    let mut p = PassBuf::new();
    let mut i: usize = 0;
    proof {
        assert(keys@.subrange(0, keys@.len() as int) =~= keys@);
    }
    while i < keys.len()
        invariant
            i <= keys@.len(),
            p.wf(),
            typed(Seq::empty(), keys@) == typed(
                p@,
                keys@.subrange(i as int, keys@.len() as int),
            ),
        decreases keys@.len() - i,
    {
        let ghost rest = keys@.subrange(i as int, keys@.len() as int);
        proof {
            assert(rest.drop_first() =~= keys@.subrange(i + 1, keys@.len() as int));
        }
        if p.key(keys[i]) == Echo::Done {
            return p.take();
        }
        i = i + 1;
    }
    p.take()
}

/// A text without the line ends behind it.
pub open spec fn without_line_ends(s: Seq<char>) -> Seq<char>
    decreases s.len(),
{
    if s.len() > 0 && (s.last() == '\r' || s.last() == '\n') {
        without_line_ends(s.drop_last())
    } else {
        s
    }
}

/// The passphrase in a line that did not come from a terminal: the line
/// without its end, as UTF-8.
pub fn piped_password(line: &str) -> (out: Vec<u8>)
    ensures
        out@ == vstd::utf8::encode_utf8(without_line_ends(line@)),
{
    let chars: Vec<char> = text::chars_of(line);
    let mut n: usize = chars.len();
    proof {
        assert(chars@.subrange(0, n as int) =~= chars@);
    }
    while n > 0 && (chars[n - 1] == '\r' || chars[n - 1] == '\n')
        invariant
            n <= chars@.len(),
            without_line_ends(line@) == without_line_ends(chars@.subrange(0, n as int)),
        decreases n,
    {
        proof {
            assert(chars@.subrange(0, n as int).drop_last() =~= chars@.subrange(0, n - 1));
        }
        n = n - 1;
    }
    let kept: String = text::string_of(vstd::slice::slice_subrange(chars.as_slice(), 0, n));
    bytes::to_vec(kept.as_str().as_bytes())
}

/// Keys typed in one go and keys typed one after the other come to the same.
proof fn lemma_typed_on(s: Seq<u8>, keys: Seq<u8>, b: u8)
    requires
        forall|i: int| 0 <= i < keys.len() ==> #[trigger] keys[i] != 0x0a && keys[i] != 0x0d,
    ensures
        typed(s, keys.push(b)) == (if is_enter(b) {
            typed(s, keys)
        } else {
            typed_key(typed(s, keys), b)
        }),
    decreases keys.len(),
{
    let all = keys.push(b);
    if keys.len() == 0 {
        assert(all.drop_first() =~= Seq::<u8>::empty());
        assert(typed(typed_key(s, b), Seq::empty()) == typed_key(s, b));
        assert(all[0] == b);
    } else {
        assert(all[0] == keys[0]);
        assert(all.drop_first() =~= keys.drop_first().push(b));
        let rest = keys.drop_first();
        assert forall|i: int| 0 <= i < rest.len() implies #[trigger] rest[i] != 0x0a && rest[i]
            != 0x0d by {
            assert(rest[i] == keys[i + 1]);
        }
        lemma_typed_on(typed_key(s, keys[0]), rest, b);
    }
}

/// What is typed is kept: a row of at most 127 keys from blank (0x20) to tilde
/// (0x7e) is the passphrase, as it stands.
pub proof fn law_typed_is_kept(keys: Seq<u8>)
    requires
        keys.len() <= 127,
        forall|i: int| 0 <= i < keys.len() ==> 0x20 <= #[trigger] keys[i] <= 0x7e,
    ensures
        typed(Seq::empty(), keys) == keys,
    decreases keys.len(),
{
    if keys.len() == 0 {
        assert(keys =~= Seq::empty());
    } else {
        let front = keys.drop_last();
        assert forall|i: int| 0 <= i < front.len() implies 0x20 <= #[trigger] front[i] <= 0x7e by {
            assert(front[i] == keys[i]);
        }
        law_typed_is_kept(front);
        lemma_typed_on(Seq::empty(), front, keys.last());
        assert(front.push(keys.last()) =~= keys);
    }
}

/// Nothing counts behind Enter, whether it comes as a line feed or as a carriage
/// return.
pub proof fn law_enter_ends_typing(s: Seq<u8>, keys: Seq<u8>, enter: u8, more: Seq<u8>)
    requires
        enter == 0x0a || enter == 0x0d,
    ensures
        typed(s, keys + seq![enter] + more) == typed(s, keys),
    decreases keys.len(),
{
    let all = keys + seq![enter] + more;
    if keys.len() == 0 {
        assert(all[0] == enter);
    } else {
        assert(all[0] == keys[0]);
        if !is_enter(keys[0]) {
            assert(all.drop_first() =~= keys.drop_first() + seq![enter] + more);
            law_enter_ends_typing(typed_key(s, keys[0]), keys.drop_first(), enter, more);
        }
    }
}

/// What each further key does to what was typed: a key from blank to tilde is
/// added, as long as there are fewer than 127; backspace (0x7f or 0x08) takes
/// the last one back; any other key changes nothing.
pub proof fn law_one_more_key(keys: Seq<u8>, b: u8)
    requires
        forall|i: int| 0 <= i < keys.len() ==> #[trigger] keys[i] != 0x0a && keys[i] != 0x0d,
    ensures
        ({
            let before = typed(Seq::empty(), keys);
            let after = typed(Seq::empty(), keys.push(b));
            &&& 0x20 <= b <= 0x7e && before.len() < 127 ==> after == before.push(b)
            &&& (b == 0x7f || b == 0x08) && before.len() > 0 ==> after == before.drop_last()
            &&& (b == 0x7f || b == 0x08) && before.len() == 0 ==> after == before
            &&& 0x20 <= b <= 0x7e && before.len() >= 127 ==> after == before
            &&& b > 0x7f || (b < 0x20 && b != 0x08) ==> after == before
        }),
{
    lemma_typed_on(Seq::empty(), keys, b);
}

/// The prompt shows as many stars as there are characters: a star for each key
/// that is added, one star less for each that is taken back, and nothing for a
/// key that changes nothing; Enter alone ends it.
pub proof fn law_stars_count_characters(s: Seq<u8>, b: u8)
    ensures
        echo_of(s, b) == Echo::Done <==> b == 0x0a || b == 0x0d,
        typed_key(s, b).len() == s.len() + (match echo_of(s, b) {
            Echo::Star => 1int,
            Echo::Erase => -1int,
            _ => 0int,
        }),
        echo_of(s, b) == Echo::Nothing ==> typed_key(s, b) == s,
{
}

/// A line that did not come from a terminal loses its line ends and nothing
/// else.
pub proof fn law_piped_line(s: Seq<char>)
    ensures
        s.len() == 0 || (s.last() != '\r' && s.last() != '\n') ==> without_line_ends(s) == s,
        without_line_ends(s.push('\n')) == without_line_ends(s),
        without_line_ends(s.push('\r')) == without_line_ends(s),
{
    assert(s.push('\n').drop_last() =~= s);
    assert(s.push('\r').drop_last() =~= s);
}

} // verus!
