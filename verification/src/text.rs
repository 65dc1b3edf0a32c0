//! Text as sequences of characters.
use vstd::prelude::*;

verus! {

/// `std`'s `String::push`: the character is appended.
pub assume_specification[ String::push ](s: &mut String, c: char)
    ensures
        final(s)@ == old(s)@.push(c),
;

/// The bytes of an ASCII text.
pub open spec fn ascii(s: Seq<char>) -> Seq<u8> {
    Seq::new(s.len(), |i: int| s[i] as u8)
}

/// The bytes of an ASCII text.
pub fn ascii_bytes(s: &str) -> (r: Vec<u8>)
    ensures
        r@ == ascii(s@),
{
    let mut r: Vec<u8> = Vec::new();
    for c in it: s.chars()
        invariant
            it.seq() == s@,
            r@ == ascii(s@.subrange(0, it.index() as int)),
    {
        let b: u8 = c as u8;
        r.push(b);
        proof {
            assert(r@ =~= ascii(s@.subrange(0, it.index() + 1)));
        }
    }
    proof {
        assert(s@.subrange(0, s@.len() as int) =~= s@);
    }
    r
}

/// The decimal digit of a number below ten.
pub open spec fn digit(d: nat) -> char {
    (48 + d) as char
}

/// A number in decimal, without leading zeros.
pub open spec fn decimal(n: nat) -> Seq<char>
    decreases n,
{
    if n < 10 {
        seq![digit(n)]
    } else {
        decimal(n / 10).push(digit(n % 10))
    }
}

/// `n` times the same character.
pub open spec fn repeated(c: char, n: nat) -> Seq<char> {
    Seq::new(n, |i: int| c)
}

/// `s`, filled up on the left with `c` to at least `width` characters.
pub open spec fn left_filled(s: Seq<char>, c: char, width: nat) -> Seq<char> {
    if s.len() < width {
        repeated(c, (width - s.len()) as nat) + s
    } else {
        s
    }
}

/// A number in decimal, with leading zeros up to `width` digits.
pub open spec fn zero_filled(n: nat, width: nat) -> Seq<char> {
    left_filled(decimal(n), '0', width)
}

fn digit_char(d: u64) -> (c: char)
    requires
        d < 10,
    ensures
        c == digit(d as nat),
{
    let code: u8 = 48 + (d as u8);
    code as char
}

/// Appends a number in decimal.
pub fn push_decimal(out: &mut String, n: u64)
    ensures
        final(out)@ == old(out)@ + decimal(n as nat),
    decreases n,
{
    let ghost before = out@;
    if n >= 10 {
        push_decimal(out, n / 10);
    }
    out.push(digit_char(n % 10));
    proof {
        assert(out@ =~= before + decimal(n as nat));
    }
}

/// Appends a number in decimal, with leading zeros up to `width` digits.
pub fn push_zero_filled(out: &mut String, n: u64, width: usize)
    ensures
        final(out)@ == old(out)@ + zero_filled(n as nat, width as nat),
{
    let mut digits = String::new();
    push_decimal(&mut digits, n);
    proof {
        assert(digits@ =~= decimal(n as nat));
    }
    push_left_filled(out, digits.as_str(), '0', width);
}

/// Appends `s`, filled up on the left with `c` to `width` characters.
pub fn push_left_filled(out: &mut String, s: &str, c: char, width: usize)
    ensures
        final(out)@ == old(out)@ + left_filled(s@, c, width as nat),
{
    let ghost before = out@;
    let len: usize = s.unicode_len();
    if len < width {
        push_repeated(out, c, width - len);
    }
    out.append(s);
    proof {
        assert(out@ =~= before + left_filled(s@, c, width as nat));
    }
}

/// Appends `n` times the same character.
pub fn push_repeated(out: &mut String, c: char, n: usize)
    ensures
        final(out)@ == old(out)@ + repeated(c, n as nat),
{
    let ghost before = out@;
    let mut i: usize = 0;
    while i < n
        invariant
            i <= n,
            out@ =~= before + repeated(c, i as nat),
        decreases n - i,
    {
        out.push(c);
        i = i + 1;
    }
}

/// A number in decimal.
pub fn decimal_string(n: u64) -> (s: String)
    ensures
        s@ == decimal(n as nat),
{
    let mut s = String::new();
    push_decimal(&mut s, n);
    proof {
        assert(s@ =~= decimal(n as nat));
    }
    s
}

/// Texts as character sequences.
pub open spec fn views(v: Seq<String>) -> Seq<Seq<char>> {
    v.map_values(|s: String| s@)
}

/// The text of a byte string; bytes that are not UTF-8 are replaced.
pub uninterp spec fn utf8_text(bytes: Seq<u8>) -> Seq<char>;

/// Calls `std`'s `String::from_utf8_lossy`. Claims that valid UTF-8 is decoded
/// as it stands; what is put in place of invalid bytes has only a name.
#[verifier::external_body]
pub(crate) fn utf8_lossy(bytes: &[u8]) -> (s: String)
    ensures
        s@ == utf8_text(bytes@),
        vstd::utf8::valid_utf8(bytes@) ==> s@ == vstd::utf8::decode_utf8(bytes@),
{
    String::from_utf8_lossy(bytes).into_owned()
}

/// The characters of a text.
pub fn chars_of(s: &str) -> (r: Vec<char>)
    ensures
        r@ == s@,
{
    let mut r: Vec<char> = Vec::new();
    for c in it: s.chars()
        invariant
            it.seq() == s@,
            r@ == s@.subrange(0, it.index() as int),
    {
        r.push(c);
        proof {
            assert(r@ =~= s@.subrange(0, it.index() + 1));
        }
    }
    proof {
        assert(s@.subrange(0, s@.len() as int) =~= s@);
    }
    r
}

/// Appends characters to a text.
pub fn push_chars(out: &mut String, v: &[char])
    ensures
        final(out)@ == old(out)@ + v@,
{
    let ghost before = out@;
    let mut i: usize = 0;
    while i < v.len()
        invariant
            i <= v@.len(),
            out@ =~= before + v@.subrange(0, i as int),
        decreases v@.len() - i,
    {
        out.push(v[i]);
        i = i + 1;
    }
    proof {
        assert(v@.subrange(0, v@.len() as int) =~= v@);
    }
}

/// The text of a sequence of characters.
pub fn string_of(v: &[char]) -> (s: String)
    ensures
        s@ == v@,
{
    let mut s = String::new();
    push_chars(&mut s, v);
    proof {
        assert(s@ =~= v@);
    }
    s
}

/// Unicode white space.
pub open spec fn is_space(c: char) -> bool {
    let u = c as u32;
    0x09 <= u <= 0x0d || u == 0x20 || u == 0x85 || u == 0xa0 || u == 0x1680 || 0x2000 <= u <= 0x200a
        || u == 0x2028 || u == 0x2029 || u == 0x202f || u == 0x205f || u == 0x3000
}

/// What is cut off the ends of a text.
#[derive(Clone, Copy, PartialEq, Eq, Structural, Debug)]
pub enum Cut {
    /// White space.
    Space,
    /// One character.
    Only(char),
}

pub open spec fn is_cut(c: char, what: Cut) -> bool {
    match what {
        Cut::Space => is_space(c),
        Cut::Only(x) => c == x,
    }
}

/// A text without the cut characters at its start.
pub open spec fn cut_start(s: Seq<char>, what: Cut) -> Seq<char>
    decreases s.len(),
{
    if s.len() > 0 && is_cut(s[0], what) {
        cut_start(s.drop_first(), what)
    } else {
        s
    }
}

/// A text without the cut characters at its end.
pub open spec fn cut_end(s: Seq<char>, what: Cut) -> Seq<char>
    decreases s.len(),
{
    if s.len() > 0 && is_cut(s.last(), what) {
        cut_end(s.drop_last(), what)
    } else {
        s
    }
}

/// A text without white space at its ends.
pub open spec fn trimmed(s: Seq<char>) -> Seq<char> {
    cut_end(cut_start(s, Cut::Space), Cut::Space)
}

fn in_cut(c: char, what: Cut) -> (r: bool)
    ensures
        r == is_cut(c, what),
{
    match what {
        Cut::Space => {
            let u: u32 = c as u32;
            (0x09 <= u && u <= 0x0d) || u == 0x20 || u == 0x85 || u == 0xa0 || u == 0x1680 || (
            0x2000 <= u && u <= 0x200a) || u == 0x2028 || u == 0x2029 || u == 0x202f || u == 0x205f
                || u == 0x3000
        },
        Cut::Only(x) => c == x,
    }
}

/// Cuts characters off the start.
pub fn trim_start(s: &[char], what: Cut) -> (r: &[char])
    ensures
        r@ == cut_start(s@, what),
{
    let mut i: usize = 0;
    proof {
        assert(s@.subrange(0, s@.len() as int) =~= s@);
    }
    while i < s.len() && in_cut(s[i], what)
        invariant
            i <= s@.len(),
            cut_start(s@, what) == cut_start(s@.subrange(i as int, s@.len() as int), what),
        decreases s@.len() - i,
    {
        proof {
            let rest = s@.subrange(i as int, s@.len() as int);
            assert(rest.drop_first() =~= s@.subrange(i + 1, s@.len() as int));
        }
        i = i + 1;
    }
    vstd::slice::slice_subrange(s, i, s.len())
}

/// Cuts characters off the end.
pub fn trim_end(s: &[char], what: Cut) -> (r: &[char])
    ensures
        r@ == cut_end(s@, what),
{
    let mut n: usize = s.len();
    proof {
        assert(s@.subrange(0, s@.len() as int) =~= s@);
    }
    while n > 0 && in_cut(s[n - 1], what)
        invariant
            n <= s@.len(),
            cut_end(s@, what) == cut_end(s@.subrange(0, n as int), what),
        decreases n,
    {
        proof {
            let rest = s@.subrange(0, n as int);
            assert(rest.drop_last() =~= s@.subrange(0, n - 1));
        }
        n = n - 1;
    }
    vstd::slice::slice_subrange(s, 0, n)
}

/// Cuts white space off both ends.
pub fn trim(s: &[char]) -> (r: &[char])
    ensures
        r@ == trimmed(s@),
{
    trim_end(trim_start(s, Cut::Space), Cut::Space)
}

/// The pieces of a text between separators.
pub open spec fn pieces(s: Seq<char>, sep: Cut) -> Seq<Seq<char>>
    decreases s.len(),
{
    if s.len() == 0 {
        seq![Seq::empty()]
    } else {
        let p = pieces(s.drop_last(), sep);
        if is_cut(s.last(), sep) {
            p.push(Seq::empty())
        } else {
            p.update(p.len() - 1, p.last().push(s.last()))
        }
    }
}

pub proof fn lemma_pieces_nonempty(s: Seq<char>, sep: Cut)
    ensures
        pieces(s, sep).len() >= 1,
    decreases s.len(),
{
    if s.len() > 0 {
        lemma_pieces_nonempty(s.drop_last(), sep);
    }
}

/// Character vectors as sequences.
pub open spec fn char_views(v: Seq<Vec<char>>) -> Seq<Seq<char>> {
    v.map_values(|s: Vec<char>| s@)
}

/// Splits a text at every separator.
pub fn split(s: &[char], sep: Cut) -> (r: Vec<Vec<char>>)
    ensures
        char_views(r@) == pieces(s@, sep),
        r@.len() >= 1,
{
    let mut done: Vec<Vec<char>> = Vec::new();
    let mut last: Vec<char> = Vec::new();
    let mut i: usize = 0;
    proof {
        assert(s@.subrange(0, 0) =~= Seq::<char>::empty());
        assert(char_views(done@).push(last@) =~= pieces(s@.subrange(0, 0), sep));
    }
    while i < s.len()
        invariant
            i <= s@.len(),
            char_views(done@).push(last@) == pieces(s@.subrange(0, i as int), sep),
        decreases s@.len() - i,
    {
        let ghost p = char_views(done@).push(last@);
        proof {
            assert(s@.subrange(0, i + 1).drop_last() =~= s@.subrange(0, i as int));
        }
        if in_cut(s[i], sep) {
            done.push(last);
            last = Vec::new();
            proof {
                assert(char_views(done@).push(last@) =~= p.push(Seq::empty()));
            }
        } else {
            let ghost before = last@;
            last.push(s[i]);
            proof {
                assert(char_views(done@).push(last@) =~= p.update(
                    p.len() - 1,
                    before.push(s@[i as int]),
                ));
            }
        }
        i = i + 1;
    }
    proof {
        assert(s@.subrange(0, s@.len() as int) =~= s@);
    }
    let ghost p = char_views(done@).push(last@);
    done.push(last);
    proof {
        assert(char_views(done@) =~= p);
    }
    done
}

/// One line without the carriage return at its end.
pub open spec fn without_return(s: Seq<char>) -> Seq<char> {
    if s.len() > 0 && s.last() == '\r' {
        s.drop_last()
    } else {
        s
    }
}

/// The lines of a text: a line ends with a line feed or with a carriage return
/// and a line feed; what follows the last line feed is a line if it is not
/// empty.
pub open spec fn text_lines(s: Seq<char>) -> Seq<Seq<char>> {
    let p = pieces(s, Cut::Only('\n'));
    let ended = Seq::new((p.len() - 1) as nat, |i: int| without_return(p[i]));
    if p.last().len() == 0 {
        ended
    } else {
        ended.push(p.last())
    }
}

/// Splits a text into lines.
pub fn lines(s: &str) -> (r: Vec<String>)
    ensures
        views(r@) == text_lines(s@),
{
    let chars: Vec<char> = chars_of(s);
    let p: Vec<Vec<char>> = split(chars.as_slice(), Cut::Only('\n'));
    let n: usize = p.len();
    let mut r: Vec<String> = Vec::new();
    let mut i: usize = 0;
    let ghost pv = pieces(s@, Cut::Only('\n'));
    while i < n - 1
        invariant
            n == p@.len(),
            n >= 1,
            i <= n - 1,
            pv == char_views(p@),
            views(r@) == Seq::new(i as nat, |k: int| without_return(pv[k])),
        decreases n - i,
    {
        let ghost before = views(r@);
        let line: &Vec<char> = &p[i];
        let len: usize = line.len();
        proof {
            assert(pv[i as int] == line@);
        }
        let text: String = if len > 0 && line[len - 1] == '\r' {
            string_of(vstd::slice::slice_subrange(line.as_slice(), 0, len - 1))
        } else {
            string_of(line.as_slice())
        };
        proof {
            assert(text@ =~= without_return(pv[i as int]));
        }
        r.push(text);
        proof {
            assert(views(r@) =~= before.push(text@));
            assert(views(r@) =~= Seq::new((i + 1) as nat, |k: int| without_return(pv[k])));
        }
        i = i + 1;
    }
    let rest: &Vec<char> = &p[n - 1];
    proof {
        assert(pv.last() == rest@);
    }
    if rest.len() > 0 {
        let ghost before = views(r@);
        let text: String = string_of(rest.as_slice());
        r.push(text);
        proof {
            assert(views(r@) =~= before.push(rest@));
        }
    }
    proof {
        assert(views(r@) =~= text_lines(s@));
    }
    r
}

/// What follows a prefix, if the text starts with it.
pub open spec fn after_prefix(s: Seq<char>, prefix: Seq<char>) -> Option<Seq<char>> {
    if prefix.is_prefix_of(s) {
        Some(s.subrange(prefix.len() as int, s.len() as int))
    } else {
        None
    }
}

/// What follows a prefix, if the text starts with it.
pub fn strip_prefix<'a>(s: &'a [char], prefix: &str) -> (r: Option<&'a [char]>)
    ensures
        match r {
            Some(rest) => after_prefix(s@, prefix@) == Some(rest@),
            None => after_prefix(s@, prefix@) is None,
        },
{
    let p: Vec<char> = chars_of(prefix);
    if s.len() < p.len() {
        return None;
    }
    let mut i: usize = 0;
    while i < p.len()
        invariant
            i <= p@.len() <= s@.len(),
            p@ == prefix@,
            forall|j: int| 0 <= j < i ==> s@[j] == p@[j],
        decreases p@.len() - i,
    {
        if s[i] != p[i] {
            proof {
                assert(s@.subrange(0, prefix@.len() as int)[i as int] == s@[i as int]);
            }
            return None;
        }
        i = i + 1;
    }
    proof {
        assert(s@.subrange(0, prefix@.len() as int) =~= prefix@);
    }
    Some(vstd::slice::slice_subrange(s, p.len(), s.len()))
}

pub open spec fn is_digit(c: char) -> bool {
    48 <= c as u32 <= 57
}

/// The number that a row of decimal digits spells.
pub open spec fn digits_value(s: Seq<char>) -> nat
    decreases s.len(),
{
    if s.len() == 0 {
        0
    } else {
        10 * digits_value(s.drop_last()) + (s.last() as u32 - 48) as nat
    }
}

/// The digits of a written number: what follows an optional plus sign.
pub open spec fn unsigned_digits(s: Seq<char>) -> Seq<char> {
    if s.len() > 0 && s[0] == '+' {
        s.drop_first()
    } else {
        s
    }
}

/// A written 64-bit number: an optional plus sign and at least one digit.
pub open spec fn parsed_u64(s: Seq<char>) -> Option<u64> {
    let d = unsigned_digits(s);
    if d.len() > 0 && (forall|i: int| 0 <= i < d.len() ==> is_digit(#[trigger] d[i]))
        && digits_value(d) <= u64::MAX {
        Some(digits_value(d) as u64)
    } else {
        None
    }
}

proof fn lemma_digits_value_grows(s: Seq<char>, n: int)
    requires
        0 <= n <= s.len(),
    ensures
        digits_value(s.subrange(0, n)) <= digits_value(s),
    decreases s.len(),
{
    if n == s.len() {
        assert(s.subrange(0, n) =~= s);
    } else {
        lemma_digits_value_grows(s.drop_last(), n);
        assert(s.drop_last().subrange(0, n) =~= s.subrange(0, n));
    }
}

/// Reads a written 64-bit number.
pub fn parse_u64(s: &[char]) -> (r: Option<u64>)
    ensures
        r == parsed_u64(s@),
{
    let start: usize = if s.len() > 0 && s[0] == '+' { 1 } else { 0 };
    let ghost d = unsigned_digits(s@);
    proof {
        assert(d =~= s@.subrange(start as int, s@.len() as int));
    }
    if s.len() == start {
        return None;
    }
    let mut v: u64 = 0;
    let mut i: usize = start;
    proof {
        assert(d.subrange(0, 0) =~= Seq::<char>::empty());
    }
    while i < s.len()
        invariant
            start <= i <= s@.len(),
            d == unsigned_digits(s@),
            d =~= s@.subrange(start as int, s@.len() as int),
            v == digits_value(d.subrange(0, i - start)),
            forall|j: int| 0 <= j < i - start ==> is_digit(#[trigger] d[j]),
        decreases s@.len() - i,
    {
        let u: u32 = s[i] as u32;
        proof {
            assert(d[i - start] == s@[i as int]);
        }
        if u < 48 || u > 57 {
            return None;
        }
        let k: u64 = (u - 48) as u64;
        proof {
            let head = d.subrange(0, i - start + 1);
            assert(head.drop_last() =~= d.subrange(0, i - start));
            assert(head.last() == s@[i as int]);
            assert(digits_value(head) == 10 * v + k);
            lemma_digits_value_grows(d, i - start + 1);
        }
        if v > (0xffff_ffff_ffff_ffff - k) / 10 {
            return None;
        }
        v = v * 10 + k;
        i = i + 1;
    }
    proof {
        assert(d.subrange(0, d.len() as int) =~= d);
    }
    Some(v)
}

/// The words of a text: the pieces between white space that are not empty.
pub open spec fn words(s: Seq<char>) -> Seq<Seq<char>> {
    pieces(s, Cut::Space).filter(|w: Seq<char>| w.len() > 0)
}

/// Splits a text into words.
pub fn split_words(s: &[char]) -> (r: Vec<Vec<char>>)
    ensures
        char_views(r@) == words(s@),
{
    let p: Vec<Vec<char>> = split(s, Cut::Space);
    let ghost pv = char_views(p@);
    let ghost filled = |w: Seq<char>| w.len() > 0;
    let mut r: Vec<Vec<char>> = Vec::new();
    let mut i: usize = 0;
    proof {
        reveal(Seq::filter);
        assert(char_views(r@) =~= pv.subrange(0, 0).filter(filled));
    }
    while i < p.len()
        invariant
            i <= p@.len(),
            pv == char_views(p@),
            filled == (|w: Seq<char>| w.len() > 0),
            char_views(r@) == pv.subrange(0, i as int).filter(filled),
        decreases p@.len() - i,
    {
        let ghost before = char_views(r@);
        proof {
            reveal(Seq::filter);
            assert(pv.subrange(0, i + 1).drop_last() =~= pv.subrange(0, i as int));
            assert(pv.subrange(0, i + 1).last() == p@[i as int]@);
        }
        if p[i].len() > 0 {
            let mut w: Vec<char> = Vec::new();
            w.extend_from_slice(p[i].as_slice());
            proof {
                assert(w@ =~= p@[i as int]@);
            }
            r.push(w);
            proof {
                assert(char_views(r@) =~= before.push(p@[i as int]@));
            }
        }
        i = i + 1;
    }
    proof {
        assert(pv.subrange(0, p@.len() as int) =~= pv);
    }
    r
}

/// Whether `part` stands at place `i` of a text.
pub open spec fn stands_at(s: Seq<char>, part: Seq<char>, i: int) -> bool {
    0 <= i <= s.len() - part.len() && s.subrange(i, i + part.len()) == part
}

/// Whether `part` stands anywhere in a text.
pub open spec fn has_part(s: Seq<char>, part: Seq<char>) -> bool {
    exists|i: int| #[trigger] stands_at(s, part, i)
}

fn part_at(s: &[char], part: &[char], i: usize) -> (r: bool)
    requires
        i + part@.len() <= s@.len(),
    ensures
        r == stands_at(s@, part@, i as int),
{
    let mut k: usize = 0;
    while k < part.len()
        invariant
            k <= part@.len(),
            i + part@.len() <= s@.len(),
            forall|j: int| 0 <= j < k ==> s@.subrange(i as int, i + part@.len())[j] == part@[j],
        decreases part@.len() - k,
    {
        proof {
            assert(i + part@.len() <= s.len());
            assert(s@.subrange(i as int, i + part@.len())[k as int] == s@[i + k]);
        }
        if s[i + k] != part[k] {
            return false;
        }
        k = k + 1;
    }
    proof {
        assert(s@.subrange(i as int, i + part@.len()) =~= part@);
    }
    true
}

/// Whether `part` stands anywhere in a text.
pub fn contains(s: &[char], part: &str) -> (r: bool)
    ensures
        r == has_part(s@, part@),
{
    let p: Vec<char> = chars_of(part);
    if p.len() > s.len() {
        return false;
    }
    let last: usize = s.len() - p.len();
    let mut i: usize = 0;
    while i <= last
        invariant
            i <= last + 1,
            p@ == part@,
            last + p@.len() == s@.len(),
            forall|j: int| 0 <= j < i ==> !#[trigger] stands_at(s@, part@, j),
        decreases last + 1 - i,
    {
        if part_at(s, p.as_slice(), i) {
            return true;
        }
        if i == last {
            return false;
        }
        i = i + 1;
    }
    false
}

/// Whether a character stands anywhere in a text.
pub fn contains_char(s: &[char], c: char) -> (r: bool)
    ensures
        r == s@.contains(c),
{
    let mut i: usize = 0;
    while i < s.len()
        invariant
            i <= s@.len(),
            forall|j: int| 0 <= j < i ==> s@[j] != c,
        decreases s@.len() - i,
    {
        if s[i] == c {
            return true;
        }
        i = i + 1;
    }
    false
}

/// The value of a hexadecimal digit, if it is one.
pub open spec fn hex_digit(c: char) -> Option<nat> {
    let u = c as u32;
    if 48 <= u <= 57 {
        Some((u - 48) as nat)
    } else if 97 <= u <= 102 {
        Some((u - 87) as nat)
    } else if 65 <= u <= 70 {
        Some((u - 55) as nat)
    } else {
        None
    }
}

/// The number that a row of hexadecimal digits spells.
pub open spec fn hex_value(s: Seq<char>) -> nat
    decreases s.len(),
{
    if s.len() == 0 {
        0
    } else {
        16 * hex_value(s.drop_last()) + hex_digit(s.last()).unwrap_or(0)
    }
}

/// A written 64-bit hexadecimal number: an optional plus sign and at least one
/// digit.
pub open spec fn parsed_hex(s: Seq<char>) -> Option<u64> {
    let d = unsigned_digits(s);
    if d.len() > 0 && (forall|i: int| 0 <= i < d.len() ==> hex_digit(#[trigger] d[i]) is Some)
        && hex_value(d) <= u64::MAX {
        Some(hex_value(d) as u64)
    } else {
        None
    }
}

proof fn lemma_hex_value_grows(s: Seq<char>, n: int)
    requires
        0 <= n <= s.len(),
    ensures
        hex_value(s.subrange(0, n)) <= hex_value(s),
    decreases s.len(),
{
    if n == s.len() {
        assert(s.subrange(0, n) =~= s);
    } else {
        lemma_hex_value_grows(s.drop_last(), n);
        assert(s.drop_last().subrange(0, n) =~= s.subrange(0, n));
    }
}

fn hex_digit_of(c: char) -> (r: Option<u64>)
    ensures
        match r {
            Some(v) => hex_digit(c) == Some(v as nat) && v < 16,
            None => hex_digit(c) is None,
        },
{
    let u: u32 = c as u32;
    if 48 <= u && u <= 57 {
        Some((u - 48) as u64)
    } else if 97 <= u && u <= 102 {
        Some((u - 87) as u64)
    } else if 65 <= u && u <= 70 {
        Some((u - 55) as u64)
    } else {
        None
    }
}

/// Reads a written 64-bit hexadecimal number.
pub fn parse_hex(s: &[char]) -> (r: Option<u64>)
    ensures
        r == parsed_hex(s@),
{
    let start: usize = if s.len() > 0 && s[0] == '+' { 1 } else { 0 };
    let ghost d = unsigned_digits(s@);
    proof {
        assert(d =~= s@.subrange(start as int, s@.len() as int));
    }
    if s.len() == start {
        return None;
    }
    let mut v: u64 = 0;
    let mut i: usize = start;
    proof {
        assert(d.subrange(0, 0) =~= Seq::<char>::empty());
    }
    while i < s.len()
        invariant
            start <= i <= s@.len(),
            d == unsigned_digits(s@),
            d =~= s@.subrange(start as int, s@.len() as int),
            v == hex_value(d.subrange(0, i - start)),
            forall|j: int| 0 <= j < i - start ==> hex_digit(#[trigger] d[j]) is Some,
        decreases s@.len() - i,
    {
        proof {
            assert(d[i - start] == s@[i as int]);
        }
        let k: u64 = match hex_digit_of(s[i]) {
            Some(k) => k,
            None => {
                return None;
            },
        };
        proof {
            let head = d.subrange(0, i - start + 1);
            assert(head.drop_last() =~= d.subrange(0, i - start));
            assert(head.last() == s@[i as int]);
            assert(hex_value(head) == 16 * v + k);
            lemma_hex_value_grows(d, i - start + 1);
        }
        if v > 0x0fff_ffff_ffff_ffff {
            return None;
        }
        v = v * 16 + k;
        i = i + 1;
    }
    proof {
        assert(d.subrange(0, d.len() as int) =~= d);
    }
    Some(v)
}

/// A text in lower case.
pub uninterp spec fn lower_case(s: Seq<char>) -> Seq<char>;

/// Calls `std`'s `str::to_lowercase`. Claims that the output is the text in
/// lower case, as Unicode has it.
#[verifier::external_body]
pub(crate) fn to_lower(s: &str) -> (r: String)
    ensures
        r@ == lower_case(s@),
{
    s.to_lowercase()
}

/// A text behind the last line feed of another one goes into its last piece.
proof fn lemma_pieces_behind(s: Seq<char>, l: Seq<char>)
    requires
        !l.contains('\n'),
    ensures
        pieces(s + l, Cut::Only('\n')) == pieces(s, Cut::Only('\n')).update(
            pieces(s, Cut::Only('\n')).len() - 1,
            pieces(s, Cut::Only('\n')).last() + l,
        ),
    decreases l.len(),
{
    let sep = Cut::Only('\n');
    let p = pieces(s, sep);
    lemma_pieces_nonempty(s, sep);
    if l.len() == 0 {
        assert(s + l =~= s);
        assert(p.last() + l =~= p.last());
        assert(p.update(p.len() - 1, p.last() + l) =~= p);
    } else {
        let k = l.drop_last();
        assert forall|i: int| 0 <= i < k.len() implies k[i] != '\n' by {
            assert(l[i] == k[i]);
        }
        lemma_pieces_behind(s, k);
        assert((s + l).drop_last() =~= s + k);
        assert(l.contains(l.last()));
        assert((p.last() + k).push(l.last()) =~= p.last() + l);
        assert(pieces(s + l, sep) =~= p.update(p.len() - 1, p.last() + l));
    }
}

/// A text that is empty or ends with a line feed ends in an empty piece.
proof fn lemma_last_piece_empty(s: Seq<char>)
    requires
        s.len() == 0 || s.last() == '\n',
    ensures
        pieces(s, Cut::Only('\n')).last().len() == 0,
{
    if s.len() > 0 {
        lemma_pieces_nonempty(s.drop_last(), Cut::Only('\n'));
    }
}

/// Lines are read one after the other. Behind a text that is empty or ends with
/// a line feed, a line that ends with a line feed, or with a carriage return and
/// a line feed, is one more line, without its end; and what follows the last
/// line feed is one more line as it stands, if it is not empty. An empty text
/// has no lines. This says what the lines of every text are.
pub proof fn law_lines_one_by_one(s: Seq<char>, l: Seq<char>)
    requires
        s.len() == 0 || s.last() == '\n',
        !l.contains('\n'),
    ensures
        text_lines(Seq::empty()) == Seq::<Seq<char>>::empty(),
        l.len() == 0 || l.last() != '\r' ==> text_lines(s + l + seq!['\n']) == text_lines(s).push(l),
        text_lines(s + l + seq!['\r', '\n']) == text_lines(s).push(l),
        l.len() > 0 ==> text_lines(s + l) == text_lines(s).push(l),
{
    let sep = Cut::Only('\n');
    let p = pieces(s, sep);
    lemma_pieces_nonempty(s, sep);
    lemma_last_piece_empty(s);
    lemma_pieces_behind(s, l);
    assert(text_lines(Seq::empty()) =~= Seq::<Seq<char>>::empty());
    assert(p.last() + l =~= l);
    let q = pieces(s + l, sep);
    assert(q == p.update(p.len() - 1, l));
    let a = s + l + seq!['\n'];
    assert(a.drop_last() =~= s + l);
    assert(pieces(a, sep) == q.push(Seq::empty()));
    if l.len() == 0 || l.last() != '\r' {
        assert(text_lines(a) =~= text_lines(s).push(l));
    }
    let m = l.push('\r');
    assert forall|i: int| 0 <= i < m.len() implies m[i] != '\n' by {
        if i < l.len() {
            assert(m[i] == l[i]);
        }
    }
    lemma_pieces_behind(s, m);
    assert(p.last() + m =~= m);
    let b = s + l + seq!['\r', '\n'];
    assert(b.drop_last() =~= s + m);
    assert(m.drop_last() =~= l);
    assert(pieces(b, sep) == p.update(p.len() - 1, m).push(Seq::empty()));
    assert(text_lines(b) =~= text_lines(s).push(l));
    if l.len() > 0 {
        assert(text_lines(s + l) =~= text_lines(s).push(l));
    }
}

/// Lines put together again, a line feed between every two.
pub open spec fn rejoined(lines: Seq<Seq<char>>) -> Seq<char>
    decreases lines.len(),
{
    if lines.len() == 0 {
        Seq::empty()
    } else if lines.len() == 1 {
        lines[0]
    } else {
        rejoined(lines.drop_last()).push('\n') + lines.last()
    }
}

/// Pieces put together again with the separator between them are the text.
proof fn lemma_pieces_rejoin(s: Seq<char>)
    ensures
        rejoined(pieces(s, Cut::Only('\n'))) == s,
    decreases s.len(),
{
    let sep = Cut::Only('\n');
    let p = pieces(s, sep);
    if s.len() == 0 {
        assert(s =~= Seq::empty());
    } else {
        let t = s.drop_last();
        let q = pieces(t, sep);
        lemma_pieces_rejoin(t);
        lemma_pieces_nonempty(t, sep);
        assert(s =~= t.push(s.last()));
        if s.last() == '\n' {
            assert(p.drop_last() =~= q);
            assert(rejoined(p) =~= t.push('\n'));
        } else {
            assert(p.drop_last() =~= q.drop_last());
            assert(p.last() == q.last().push(s.last()));
            assert(rejoined(p) =~= rejoined(q).push(s.last()));
        }
    }
}

/// Pieces hold no character that the text does not hold.
proof fn lemma_pieces_within(s: Seq<char>, c: char)
    requires
        !s.contains(c),
    ensures
        forall|i: int|
            0 <= i < pieces(s, Cut::Only('\n')).len() ==> !(#[trigger] pieces(
                s,
                Cut::Only('\n'),
            )[i]).contains(c),
    decreases s.len(),
{
    let sep = Cut::Only('\n');
    if s.len() > 0 {
        let t = s.drop_last();
        assert forall|i: int| 0 <= i < t.len() implies t[i] != c by {
            assert(s[i] == t[i]);
        }
        lemma_pieces_within(t, c);
        lemma_pieces_nonempty(t, sep);
        assert(s.contains(s.last()));
        let p = pieces(s, sep);
        let q = pieces(t, sep);
        assert forall|i: int| 0 <= i < p.len() implies !(#[trigger] p[i]).contains(c) by {
            if i < q.len() {
                assert(!q[i].contains(c));
                if s.last() != '\n' && i == q.len() - 1 {
                    assert forall|k: int| 0 <= k < p[i].len() implies p[i][k] != c by {
                        if k < q[i].len() {
                            assert(q[i].contains(q[i][k]));
                        }
                    }
                }
            }
        }
    }
}

/// Nothing is lost when a text is split into lines: for a text without carriage
/// returns, the lines with line feeds between them, and one more behind them
/// where the text ends with one, are the text.
pub proof fn law_lines_lose_nothing(s: Seq<char>)
    requires
        !s.contains('\r'),
        s.len() > 0,
    ensures
        s == (if s.last() == '\n' {
            rejoined(text_lines(s)).push('\n')
        } else {
            rejoined(text_lines(s))
        }),
{
    let sep = Cut::Only('\n');
    let p = pieces(s, sep);
    lemma_pieces_nonempty(s, sep);
    lemma_pieces_rejoin(s);
    lemma_pieces_within(s, '\r');
    let ended = Seq::new((p.len() - 1) as nat, |i: int| without_return(p[i]));
    assert forall|i: int| 0 <= i < ended.len() implies ended[i] == p[i] by {
        assert(!p[i].contains('\r'));
        if p[i].len() > 0 {
            assert(p[i].contains(p[i].last()));
        }
    }
    assert(ended =~= p.drop_last());
    if s.last() == '\n' {
        lemma_last_piece_empty(s);
        lemma_pieces_nonempty(s.drop_last(), sep);
        assert(text_lines(s) =~= p.drop_last());
        assert(rejoined(p) =~= rejoined(p.drop_last()).push('\n'));
    } else {
        lemma_pieces_nonempty(s.drop_last(), sep);
        assert(p.last().len() > 0);
        assert(text_lines(s) =~= p);
    }
}

/// Numbers are written in decimal: one digit below ten, and above it the digits
/// of a tenth of the number and the last digit.
pub proof fn law_decimal(n: nat, d: nat)
    requires
        d < 10,
    ensures
        decimal(d).len() == 1,
        decimal(d)[0] as u32 == 48 + d,
        n > 0 ==> decimal(10 * n + d) == decimal(n) + decimal(d),
{
    if n > 0 {
        assert((10 * n + d) / 10 == n && (10 * n + d) % 10 == d);
        assert(decimal(10 * n + d) =~= decimal(n) + decimal(d));
    }
}

proof fn lemma_decimal_digits(n: nat)
    ensures
        decimal(n).len() > 0,
        forall|i: int| 0 <= i < decimal(n).len() ==> 48 <= #[trigger] decimal(n)[i] as u32 <= 57,
        digits_value(decimal(n)) == n,
        n > 0 ==> decimal(n)[0] as u32 != 48,
    decreases n,
{
    let d = decimal(n);
    if n >= 10 {
        lemma_decimal_digits(n / 10);
        assert(d.drop_last() =~= decimal(n / 10));
        assert(d[0] == decimal(n / 10)[0]);
    } else {
        assert(d.drop_last() =~= Seq::empty());
        assert(digits_value(d.drop_last()) == 0);
    }
}

/// A number that is written is read back, with or without a plus sign in front
/// and zeros to fill it up.
pub proof fn law_numbers_read_back(n: u64, width: nat)
    ensures
        parsed_u64(decimal(n as nat)) == Some(n),
        parsed_u64(seq!['+'] + decimal(n as nat)) == Some(n),
        parsed_u64(zero_filled(n as nat, width)) == Some(n),
        zero_filled(n as nat, width).len() >= width,
{
    let d = decimal(n as nat);
    lemma_decimal_digits(n as nat);
    assert(is_digit(d[0]));
    assert(unsigned_digits(d) == d);
    let p = seq!['+'] + d;
    assert(p.drop_first() =~= d);
    assert(unsigned_digits(p) == d);
    let z = zero_filled(n as nat, width);
    if d.len() < width {
        let k = (width - d.len()) as nat;
        lemma_zeros_in_front(k, d);
        assert(z == repeated('0', k) + d);
        assert(z[0] == '0');
        assert(unsigned_digits(z) == z);
        assert forall|i: int| 0 <= i < z.len() implies is_digit(#[trigger] z[i]) by {
            if i >= k {
                assert(z[i] == d[i - k]);
            }
        }
    }
}

proof fn lemma_zeros_in_front(k: nat, d: Seq<char>)
    ensures
        digits_value(repeated('0', k) + d) == digits_value(d),
    decreases d.len(), k,
{
    let z = repeated('0', k) + d;
    if d.len() > 0 {
        lemma_zeros_in_front(k, d.drop_last());
        assert(z.drop_last() =~= repeated('0', k) + d.drop_last());
    } else if k > 0 {
        lemma_zeros_in_front((k - 1) as nat, d);
        assert(z.drop_last() =~= repeated('0', (k - 1) as nat) + d);
        assert(z.last() == '0');
    } else {
        assert(z =~= d);
    }
}

/// What is read as a number consists of digits, but for one plus sign in front;
/// each digit counts ten times less than the one before it; and what does not
/// fit into 64 bits is not read.
pub proof fn law_what_reads_as_a_number(s: Seq<char>, c: char)
    ensures
        parsed_u64(s) is Some ==> {
            let d = if s[0] == '+' {
                s.drop_first()
            } else {
                s
            };
            d.len() > 0 && forall|i: int| 0 <= i < d.len() ==> 48 <= #[trigger] d[i] as u32 <= 57
        },
        parsed_u64(Seq::empty()) is None,
        s.len() > 0 && parsed_u64(s) is Some && 48 <= c as u32 <= 57 ==> parsed_u64(s.push(c)) == ({
            let v = 10 * parsed_u64(s)->0 + (c as u32 - 48);
            if v <= 0xffff_ffff_ffff_ffff {
                Some(v as u64)
            } else {
                None
            }
        }),
        !(48 <= c as u32 <= 57) && s.len() > 0 ==> parsed_u64(s.push(c)) is None,
{
    assert(unsigned_digits(Seq::empty()) == Seq::<char>::empty());
    let t = s.push(c);
    if s.len() > 0 {
        let d = unsigned_digits(s);
        let e = unsigned_digits(t);
        assert(t[0] == s[0]);
        assert(s[0] == '+' ==> t.drop_first() =~= s.drop_first().push(c));
        assert(e == d.push(c));
        assert(e.drop_last() =~= d);
        assert(e.last() == c);
        if 48 <= c as u32 <= 57 && parsed_u64(s) is Some {
            assert forall|i: int| 0 <= i < e.len() implies is_digit(#[trigger] e[i]) by {
                if i < d.len() {
                    assert(e[i] == d[i]);
                }
            }
        } else {
            assert(e[d.len() as int] == c);
        }
    }
}

/// White space around a text is cut off, and nothing else: tabs, line ends,
/// blanks, no-break and ideographic blanks are white space, and letters, digits
/// and signs are not.
pub proof fn law_trimming(a: Seq<char>, w: Seq<char>, b: Seq<char>)
    requires
        forall|i: int| 0 <= i < a.len() ==> is_space(#[trigger] a[i]),
        forall|i: int| 0 <= i < b.len() ==> is_space(#[trigger] b[i]),
        w.len() > 0 ==> !is_space(w[0]) && !is_space(w.last()),
    ensures
        trimmed(a + w + b) == w,
        is_space(' ') && is_space('\t') && is_space('\n') && is_space('\r') && is_space('\u{a0}')
            && is_space('\u{3000}'),
        forall|c: char| 0x21 <= c as u32 <= 0x7e ==> !#[trigger] is_space(c),
{
    lemma_cut_start(a, w + b);
    assert(a + w + b =~= a + (w + b));
    if w.len() == 0 {
        assert(w + b =~= b);
        lemma_cut_start(b, Seq::empty());
        assert(b + Seq::<char>::empty() =~= b);
        assert(cut_start(Seq::<char>::empty(), Cut::Space) == Seq::<char>::empty());
        assert(cut_end(Seq::<char>::empty(), Cut::Space) =~= w);
    } else {
        assert((w + b)[0] == w[0]);
        assert(cut_start(w + b, Cut::Space) == w + b);
        lemma_cut_end(w, b);
        assert(cut_end(w, Cut::Space) == w);
    }
}

proof fn lemma_cut_start(a: Seq<char>, s: Seq<char>)
    requires
        forall|i: int| 0 <= i < a.len() ==> is_space(#[trigger] a[i]),
    ensures
        cut_start(a + s, Cut::Space) == cut_start(s, Cut::Space),
    decreases a.len(),
{
    if a.len() == 0 {
        assert(a + s =~= s);
    } else {
        assert((a + s)[0] == a[0]);
        assert((a + s).drop_first() =~= a.drop_first() + s);
        assert forall|i: int| 0 <= i < a.drop_first().len() implies is_space(
            #[trigger] a.drop_first()[i],
        ) by {
            assert(a.drop_first()[i] == a[i + 1]);
        }
        lemma_cut_start(a.drop_first(), s);
    }
}

proof fn lemma_cut_end(s: Seq<char>, b: Seq<char>)
    requires
        forall|i: int| 0 <= i < b.len() ==> is_space(#[trigger] b[i]),
    ensures
        cut_end(s + b, Cut::Space) == cut_end(s, Cut::Space),
    decreases b.len(),
{
    if b.len() == 0 {
        assert(s + b =~= s);
    } else {
        assert((s + b).last() == b.last());
        assert((s + b).drop_last() =~= s + b.drop_last());
        assert forall|i: int| 0 <= i < b.drop_last().len() implies is_space(
            #[trigger] b.drop_last()[i],
        ) by {
            assert(b.drop_last()[i] == b[i]);
        }
        assert(is_space(b[b.len() - 1]));
        lemma_cut_end(s, b.drop_last());
    }
}

/// A text holds a part exactly if the part stands between two other texts in
/// it.
pub proof fn law_parts(s: Seq<char>, part: Seq<char>, a: Seq<char>, b: Seq<char>)
    ensures
        has_part(a + part + b, part),
        has_part(s, part) ==> exists|i: int|
            0 <= i <= s.len() - part.len() && #[trigger] s.subrange(0, i) + part + s.subrange(
                i + part.len(),
                s.len() as int,
            ) == s,
{
    let t = a + part + b;
    let k = a.len() as int;
    assert(t.subrange(k, k + part.len()) =~= part);
    assert(stands_at(t, part, k));
    if has_part(s, part) {
        let i = choose|i: int| #[trigger] stands_at(s, part, i);
        assert(s.subrange(0, i) + part + s.subrange(i + part.len(), s.len() as int) =~= s);
    }
}

/// What follows a prefix is the rest, if the text starts with the prefix, and
/// nothing if it does not.
pub proof fn law_prefixes(s: Seq<char>, prefix: Seq<char>, rest: Seq<char>)
    ensures
        after_prefix(prefix + rest, prefix) == Some(rest),
        after_prefix(s, prefix) matches Some(r) ==> s == prefix + r,
{
    let t = prefix + rest;
    assert(t.subrange(prefix.len() as int, t.len() as int) =~= rest);
    assert(prefix.is_prefix_of(t));
    if prefix.is_prefix_of(s) {
        let r = s.subrange(prefix.len() as int, s.len() as int);
        assert(s =~= prefix + r);
    }
}

/// Pieces of a text with a separator in it are those of both sides.
proof fn lemma_pieces_split(a: Seq<char>, c: char, b: Seq<char>, sep: Cut)
    requires
        is_cut(c, sep),
    ensures
        pieces(a.push(c) + b, sep) == pieces(a, sep) + pieces(b, sep),
    decreases b.len(),
{
    let s = a.push(c) + b;
    if b.len() == 0 {
        assert(s =~= a.push(c));
        assert(s.drop_last() =~= a);
        assert(pieces(s, sep) =~= pieces(a, sep) + pieces(b, sep));
    } else {
        let k = b.drop_last();
        lemma_pieces_split(a, c, k, sep);
        lemma_pieces_nonempty(k, sep);
        assert(s.drop_last() =~= a.push(c) + k);
        assert(s.last() == b.last());
        assert(pieces(s, sep) =~= pieces(a, sep) + pieces(b, sep));
    }
}

/// A text without separators is one piece.
proof fn lemma_single_piece(w: Seq<char>, sep: Cut)
    requires
        forall|i: int| 0 <= i < w.len() ==> !is_cut(#[trigger] w[i], sep),
    ensures
        pieces(w, sep) == seq![w],
    decreases w.len(),
{
    if w.len() == 0 {
        assert(w =~= Seq::empty());
    } else {
        let t = w.drop_last();
        assert forall|i: int| 0 <= i < t.len() implies !is_cut(#[trigger] t[i], sep) by {
            assert(t[i] == w[i]);
        }
        lemma_single_piece(t, sep);
        assert(!is_cut(w[w.len() - 1], sep));
        assert(t.push(w.last()) =~= w);
        assert(pieces(w, sep) =~= seq![w]);
    }
}

/// Words are what stands between white space: a text without white space is one
/// word, an empty one has none, and the words of two texts with white space
/// between them are those of the first and then those of the second.
pub proof fn law_words(a: Seq<char>, c: char, b: Seq<char>, w: Seq<char>)
    requires
        is_space(c),
        w.len() > 0,
        forall|i: int| 0 <= i < w.len() ==> !is_space(#[trigger] w[i]),
    ensures
        words(Seq::empty()) == Seq::<Seq<char>>::empty(),
        words(w) == seq![w],
        words(a.push(c) + b) == words(a) + words(b),
{
    let full = |x: Seq<char>| x.len() > 0;
    lemma_pieces_split(a, c, b, Cut::Space);
    Seq::filter_distributes_over_add(pieces(a, Cut::Space), pieces(b, Cut::Space), full);
    lemma_single_piece(w, Cut::Space);
    reveal(Seq::filter);
    assert(seq![w].drop_last() =~= Seq::<Seq<char>>::empty());
    assert(seq![w].drop_last().filter(full) =~= Seq::<Seq<char>>::empty());
    assert(seq![w].filter(full) =~= seq![w]);
    let e = seq![Seq::<char>::empty()];
    assert(e.drop_last() =~= Seq::<Seq<char>>::empty());
    assert(e.drop_last().filter(full) =~= Seq::<Seq<char>>::empty());
    assert(e.filter(full) =~= Seq::<Seq<char>>::empty());
}

/// Splitting at a character loses nothing but the character: the pieces of two
/// texts with it between them are those of both.
pub proof fn law_splitting(a: Seq<char>, c: char, b: Seq<char>, w: Seq<char>)
    requires
        !w.contains(c),
    ensures
        pieces(w, Cut::Only(c)) == seq![w],
        pieces(a.push(c) + b, Cut::Only(c)) == pieces(a, Cut::Only(c)) + pieces(b, Cut::Only(c)),
{
    assert forall|i: int| 0 <= i < w.len() implies !is_cut(#[trigger] w[i], Cut::Only(c)) by {
        assert(w.contains(w[i]));
    }
    lemma_single_piece(w, Cut::Only(c));
    lemma_pieces_split(a, c, b, Cut::Only(c));
}

/// Hexadecimal digits: the digits, and the letters from a to f in either case.
/// Each digit counts sixteen times less than the one before it.
pub proof fn law_hex_digits(c: char, s: Seq<char>)
    ensures
        hex_digit(c) is Some <==> (0x30 <= c as u32 <= 0x39 || 0x61 <= c as u32 <= 0x66 || 0x41
            <= c as u32 <= 0x46),
        0x30 <= c as u32 <= 0x39 ==> hex_digit(c) == Some((c as u32 - 0x30) as nat),
        0x61 <= c as u32 <= 0x66 ==> hex_digit(c) == Some((c as u32 - 0x61 + 10) as nat),
        0x41 <= c as u32 <= 0x46 ==> hex_digit(c) == Some((c as u32 - 0x41 + 10) as nat),
        hex_digit(c) is Some ==> hex_value(s.push(c)) == 16 * hex_value(s) + hex_digit(c)->0,
        parsed_hex(Seq::empty()) is None,
        parsed_hex(s) matches Some(v) ==> v == hex_value(if s[0] == '+' { s.drop_first() } else { s }),
{
    assert(s.push(c).drop_last() =~= s);
    assert(unsigned_digits(Seq::empty()) == Seq::<char>::empty());
}

/// What counts as white space.
pub proof fn law_white_space(c: char)
    ensures
        is_space(c) <==> (0x09 <= c as u32 <= 0x0d || c as u32 == 0x20 || c as u32 == 0x85 || c as u32
            == 0xa0 || c as u32 == 0x1680 || 0x2000 <= c as u32 <= 0x200a || c as u32 == 0x2028
            || c as u32 == 0x2029 || c as u32 == 0x202f || c as u32 == 0x205f || c as u32 == 0x3000),
{
}

/// What a text holds, a longer one holds too.
pub proof fn lemma_part_of_longer(a: Seq<char>, b: Seq<char>, part: Seq<char>)
    ensures
        has_part(a, part) ==> has_part(a + b, part),
        has_part(b, part) ==> has_part(a + b, part),
        has_part(part, part),
{
    assert(part.subrange(0, part.len() as int) =~= part);
    assert(stands_at(part, part, 0));
    if has_part(a, part) {
        let i = choose|i: int| #[trigger] stands_at(a, part, i);
        assert((a + b).subrange(i, i + part.len()) =~= a.subrange(i, i + part.len()));
        assert(stands_at(a + b, part, i));
    }
    if has_part(b, part) {
        let i = choose|i: int| #[trigger] stands_at(b, part, i);
        let k = a.len() + i;
        assert((a + b).subrange(k, k + part.len()) =~= b.subrange(i, i + part.len()));
        assert(stands_at(a + b, part, k));
    }
}

/// A text that is filled up keeps its end, has only the filler in front of it,
/// and is as long as asked, or as it was if that is longer.
pub proof fn law_filling_up(s: Seq<char>, c: char, width: nat, i: int)
    ensures
        ({
            let f = left_filled(s, c, width);
            &&& f.len() == (if s.len() >= width {
                s.len()
            } else {
                width
            })
            &&& f.subrange(f.len() - s.len(), f.len() as int) == s
            &&& 0 <= i < f.len() - s.len() ==> f[i] == c
        }),
        repeated(c, width).len() == width,
        0 <= i < width ==> repeated(c, width)[i] == c,
{
    let f = left_filled(s, c, width);
    assert(f.subrange(f.len() - s.len(), f.len() as int) =~= s);
}

/// The bytes of an ASCII text are its codes.
pub proof fn law_ascii(s: Seq<char>, i: int)
    requires
        0 <= i < s.len(),
        '\0' <= s[i] <= '\x7f',
    ensures
        ascii(s).len() == s.len(),
        ascii(s)[i] as int == s[i] as int,
{
}

} // verus!
