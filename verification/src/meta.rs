//! The sealed payload: a length, a metadata record and the text; and the
//! metadata record itself.
use vstd::prelude::*;

use crate::bytes;
use crate::calendar;
use crate::text;
use crate::text::Cut;

verus! {

/// A payload: the length of the record, the record, the text.
pub open spec fn framed(meta: Seq<u8>, content: Seq<u8>) -> Seq<u8> {
    bytes::le_bytes(meta.len(), 4) + meta + content
}

/// The record length that a payload starts with.
pub open spec fn meta_len(payload: Seq<u8>) -> int {
    bytes::le_value(payload.subrange(0, 4)) as int
}

/// Whether a payload holds the whole record that it announces.
pub open spec fn has_meta(payload: Seq<u8>) -> bool {
    payload.len() >= 4 && payload.len() >= 4 + meta_len(payload)
}

/// The record of a payload, if it is all there.
pub open spec fn payload_meta(payload: Seq<u8>) -> Option<Seq<u8>> {
    if has_meta(payload) {
        Some(payload.subrange(4, 4 + meta_len(payload)))
    } else {
        None
    }
}

/// The text of a payload: what follows the record, or, where the record is
/// not all there, what follows its length; a payload too short for a length
/// is all text.
pub open spec fn payload_text(payload: Seq<u8>) -> Seq<u8> {
    if has_meta(payload) {
        payload.subrange(4 + meta_len(payload), payload.len() as int)
    } else if payload.len() >= 4 {
        payload.subrange(4, payload.len() as int)
    } else {
        payload
    }
}

/// What is put into a payload comes out again.
pub proof fn law_payload_round_trip(meta: Seq<u8>, content: Seq<u8>)
    requires
        meta.len() <= u32::MAX,
    ensures
        payload_meta(framed(meta, content)) == Some(meta),
        payload_text(framed(meta, content)) == content,
{
    let p = framed(meta, content);
    bytes::lemma_le_bytes_len(meta.len(), 4);
    bytes::lemma_pow256_small();
    bytes::lemma_le_value_of_bytes(meta.len(), 4);
    assert(p.subrange(0, 4) =~= bytes::le_bytes(meta.len(), 4));
    assert(p.subrange(4, 4 + meta.len() as int) =~= meta);
    assert(p.subrange(4 + meta.len() as int, p.len() as int) =~= content);
}

/// Puts record and text into a payload.
pub fn frame_payload(meta: &[u8], content: &[u8]) -> (payload: Vec<u8>)
    requires
        meta@.len() <= u32::MAX,
    ensures
        payload@ == framed(meta@, content@),
{
    let len: [u8; 4] = bytes::u32_to_le(meta.len() as u32);
    let mut payload: Vec<u8> = bytes::concat(&len, meta);
    payload.extend_from_slice(content);
    proof {
        assert(payload@ =~= framed(meta@, content@));
    }
    payload
}

/// Takes a payload apart into record and text.
pub fn split_payload(payload: &[u8]) -> (r: (Option<Vec<u8>>, Vec<u8>))
    ensures
        crate::primitives::opt_bytes(r.0) == payload_meta(payload@),
        r.1@ == payload_text(payload@),
{
    let n: usize = payload.len();
    if n < 4 {
        return (None, bytes::to_vec(payload));
    }
    let len: u64 = bytes::read_le(payload, 0, 4);
    if len <= (n - 4) as u64 {
        let end: usize = 4 + (len as usize);
        let meta: Vec<u8> = bytes::to_vec(vstd::slice::slice_subrange(payload, 4, end));
        let text: Vec<u8> = bytes::to_vec(vstd::slice::slice_subrange(payload, end, n));
        (Some(meta), text)
    } else {
        (None, bytes::to_vec(vstd::slice::slice_subrange(payload, 4, n)))
    }
}

/// The metadata record of a sealed text.
pub open spec fn meta_json(created: u64, modified: u64, author: Seq<char>) -> Seq<char> {
    "{\"created\":"@ + text::decimal(created as nat) + ",\"modified\":"@ + text::decimal(
        modified as nat,
    ) + ",\"author\":\""@ + author + "\"}"@
}

/// Writes the metadata record.
pub fn build_meta(created: u64, modified: u64, author: &str) -> (s: String)
    ensures
        s@ == meta_json(created, modified, author@),
{
    let mut s = String::new();
    s.append("{\"created\":");
    text::push_decimal(&mut s, created);
    s.append(",\"modified\":");
    text::push_decimal(&mut s, modified);
    s.append(",\"author\":\"");
    s.append(author);
    s.append("\"}");
    proof {
        assert(s@ =~= meta_json(created, modified, author@));
    }
    s
}

/// What a metadata record says.
#[verifier::ext_equal]
pub struct MetaView {
    pub created: Option<u64>,
    pub modified: Option<u64>,
    pub author: Seq<char>,
}

/// A record that says nothing.
pub open spec fn no_meta() -> MetaView {
    MetaView { created: None, modified: None, author: Seq::empty() }
}

/// What one field of a record adds to what was read so far. A field that is
/// not recognised adds nothing; a later field replaces an earlier one.
pub open spec fn with_field(m: MetaView, field: Seq<char>) -> MetaView {
    let f = text::trimmed(field);
    match text::after_prefix(f, "\"created\":"@) {
        Some(v) => MetaView { created: text::parsed_u64(text::trimmed(v)), ..m },
        None => match text::after_prefix(f, "\"modified\":"@) {
            Some(v) => MetaView { modified: text::parsed_u64(text::trimmed(v)), ..m },
            None => match text::after_prefix(f, "\"author\":\""@) {
                Some(v) => MetaView {
                    author: text::trimmed(text::cut_end(v, Cut::Only('"'))),
                    ..m
                },
                None => m,
            },
        },
    }
}

/// What the first `n` fields say.
pub open spec fn with_fields(fields: Seq<Seq<char>>, n: nat) -> MetaView
    decreases n,
{
    if n == 0 {
        no_meta()
    } else {
        with_field(with_fields(fields, (n - 1) as nat), fields[n - 1])
    }
}

/// A record without the braces around it.
pub open spec fn record_body(s: Seq<char>) -> Seq<char> {
    text::cut_end(text::cut_start(text::trimmed(s), Cut::Only('{')), Cut::Only('}'))
}

/// What a record says, field by field.
pub open spec fn read_record(s: Seq<char>) -> MetaView {
    let fields = text::pieces(record_body(s), Cut::Only(','));
    with_fields(fields, fields.len())
}

/// The lines that show a record.
pub open spec fn record_lines(m: MetaView) -> Seq<Seq<char>> {
    seq!["── 档案信息 · SEALED RECORD ──"@] + (match m.created {
        Some(c) => seq!["创建 / Created   "@ + calendar::unix_text(c as nat)],
        None => Seq::empty(),
    }) + (match m.modified {
        Some(c) => seq!["修改 / Modified  "@ + calendar::unix_text(c as nat)],
        None => Seq::empty(),
    }) + (if m.author.len() > 0 {
        seq!["作者 / Author    "@ + m.author]
    } else {
        Seq::empty()
    })
}

/// What a metadata record says.
pub struct Meta {
    pub created: Option<u64>,
    pub modified: Option<u64>,
    pub author: Vec<char>,
}

impl View for Meta {
    type V = MetaView;

    open spec fn view(&self) -> MetaView {
        MetaView { created: self.created, modified: self.modified, author: self.author@ }
    }
}

/// Takes in one field.
fn read_field(m: &mut Meta, field: &[char])
    ensures
        final(m)@ == with_field(old(m)@, field@),
{
    let f: &[char] = text::trim(field);
    if let Some(v) = text::strip_prefix(f, "\"created\":") {
        m.created = text::parse_u64(text::trim(v));
    } else if let Some(v) = text::strip_prefix(f, "\"modified\":") {
        m.modified = text::parse_u64(text::trim(v));
    } else if let Some(v) = text::strip_prefix(f, "\"author\":\"") {
        let name: &[char] = text::trim(text::trim_end(v, Cut::Only('"')));
        let mut author: Vec<char> = Vec::new();
        author.extend_from_slice(name);
        proof {
            assert(author@ =~= name@);
        }
        m.author = author;
    }
}

/// Reads a metadata record.
pub fn read_meta(record: &str) -> (m: Meta)
    ensures
        m@ == read_record(record@),
{
    let chars: Vec<char> = text::chars_of(record);
    let s: &[char] = text::trim(chars.as_slice());
    let body: &[char] = text::trim_end(text::trim_start(s, Cut::Only('{')), Cut::Only('}'));
    let fields: Vec<Vec<char>> = text::split(body, Cut::Only(','));
    let ghost fv = text::pieces(record_body(record@), Cut::Only(','));
    let mut m = Meta { created: None, modified: None, author: Vec::new() };
    let mut i: usize = 0;
    proof {
        assert(m@ =~= no_meta());
    }
    while i < fields.len()
        invariant
            i <= fields@.len(),
            fv == text::char_views(fields@),
            m@ == with_fields(fv, i as nat),
        decreases fields@.len() - i,
    {
        proof {
            assert(fv[i as int] == fields@[i as int]@);
        }
        read_field(&mut m, fields[i].as_slice());
        i = i + 1;
    }
    m
}

/// The lines that show what a record says.
pub fn meta_lines(m: &Meta) -> (lines: Vec<String>)
    ensures
        text::views(lines@) == record_lines(m@),
{
    let mut lines: Vec<String> = Vec::new();
    lines.push("── 档案信息 · SEALED RECORD ──".to_owned());
    if let Some(c) = m.created {
        let when: String = calendar::format_unix(c);
        let head: String = "创建 / Created   ".to_owned();
        lines.push(head.concat(when.as_str()));
    }
    if let Some(c) = m.modified {
        let when: String = calendar::format_unix(c);
        let head: String = "修改 / Modified  ".to_owned();
        lines.push(head.concat(when.as_str()));
    }
    if m.author.len() > 0 {
        let who: String = text::string_of(m.author.as_slice());
        let head: String = "作者 / Author    ".to_owned();
        lines.push(head.concat(who.as_str()));
    }
    proof {
        assert(text::views(lines@) =~= record_lines(m@));
    }
    lines
}

/// Reads a metadata record, given as bytes, into the lines that show it. Where
/// the bytes are UTF-8, the record is the text that they encode.
pub fn parse_meta(meta: &[u8]) -> (lines: Vec<String>)
    ensures
        text::views(lines@) == record_lines(read_record(text::utf8_text(meta@))),
        vstd::utf8::valid_utf8(meta@) ==> text::views(lines@) == record_lines(
            read_record(vstd::utf8::decode_utf8(meta@)),
        ),
{
    let record: String = text::utf8_lossy(meta);
    let m: Meta = read_meta(record.as_str());
    meta_lines(&m)
}

/// A text without separators is one piece.
proof fn lemma_one_piece(s: Seq<char>, sep: char)
    requires
        !s.contains(sep),
    ensures
        text::pieces(s, Cut::Only(sep)) == seq![s],
    decreases s.len(),
{
    if s.len() == 0 {
        assert(s =~= Seq::empty());
    } else {
        let t = s.drop_last();
        assert forall|i: int| 0 <= i < t.len() implies t[i] != sep by {
            assert(s[i] == t[i]);
        }
        lemma_one_piece(t, sep);
        assert(s.contains(s.last()));
        assert(t.push(s.last()) =~= s);
        assert(text::pieces(s, Cut::Only(sep)) =~= seq![s]);
    }
}

/// What follows the last separator is the last piece.
proof fn lemma_last_piece(s: Seq<char>, t: Seq<char>, sep: char)
    requires
        !t.contains(sep),
    ensures
        text::pieces(s.push(sep) + t, Cut::Only(sep)) == text::pieces(s, Cut::Only(sep)).push(t),
    decreases t.len(),
{
    let whole = s.push(sep) + t;
    if t.len() == 0 {
        assert(whole =~= s.push(sep));
        assert(whole.drop_last() =~= s);
        assert(t =~= Seq::empty());
    } else {
        let u = t.drop_last();
        assert forall|i: int| 0 <= i < u.len() implies u[i] != sep by {
            assert(t[i] == u[i]);
        }
        lemma_last_piece(s, u, sep);
        assert(whole.drop_last() =~= s.push(sep) + u);
        assert(t.contains(t.last()));
        assert(u.push(t.last()) =~= t);
        let p = text::pieces(s, Cut::Only(sep));
        assert(text::pieces(whole, Cut::Only(sep)) =~= p.push(t));
    }
}

/// A number in decimal is written in digits and reads as itself.
proof fn lemma_decimal(n: nat)
    ensures
        text::decimal(n).len() > 0,
        forall|i: int| 0 <= i < text::decimal(n).len() ==> text::is_digit(#[trigger] text::decimal(
            n,
        )[i]),
        text::digits_value(text::decimal(n)) == n,
    decreases n,
{
    let d = text::decimal(n);
    if n >= 10 {
        lemma_decimal(n / 10);
        assert(d.drop_last() =~= text::decimal(n / 10));
    } else {
        assert(d.drop_last() =~= Seq::empty());
        assert(text::digits_value(d.drop_last()) == 0);
    }
}

/// A number in decimal is read back.
proof fn lemma_decimal_read(n: u64)
    ensures
        text::parsed_u64(text::trimmed(text::decimal(n as nat))) == Some(n),
        !text::decimal(n as nat).contains(','),
        !text::is_space(text::decimal(n as nat).last()),
        text::decimal(n as nat).len() > 0,
{
    let d = text::decimal(n as nat);
    lemma_decimal(n as nat);
    assert(text::is_digit(d[0]));
    assert(text::is_digit(d[d.len() - 1]));
    assert(text::trimmed(d) == d);
    assert(text::unsigned_digits(d) == d);
}

/// What a field says, where the field is known by its prefix.
proof fn lemma_fields(c: Seq<char>, m: Seq<char>, a: Seq<char>, x: MetaView)
    requires
        c.len() > 0,
        m.len() > 0,
        !text::is_space(c.last()),
        !text::is_space(m.last()),
    ensures
        with_field(x, "\"created\":"@ + c) == (MetaView {
            created: text::parsed_u64(text::trimmed(c)),
            ..x
        }),
        with_field(x, "\"modified\":"@ + m) == (MetaView {
            modified: text::parsed_u64(text::trimmed(m)),
            ..x
        }),
        with_field(x, "\"author\":\""@ + a + "\""@) == (MetaView {
            author: text::trimmed(text::cut_end(a, Cut::Only('"'))),
            ..x
        }),
{
    reveal_strlit("\"created\":");
    reveal_strlit("\"modified\":");
    reveal_strlit("\"author\":\"");
    reveal_strlit("\"");
    let pc = "\"created\":"@;
    let pm = "\"modified\":"@;
    let pa = "\"author\":\""@;
    let fc = pc + c;
    assert(fc[0] == '"' && fc.last() == c.last());
    assert(text::trimmed(fc) == fc);
    assert(pc.is_prefix_of(fc));
    assert(fc.subrange(pc.len() as int, fc.len() as int) =~= c);
    let fm = pm + m;
    assert(fm[0] == '"' && fm.last() == m.last());
    assert(text::trimmed(fm) == fm);
    assert(fm[1] == 'm' && pc[1] == 'c');
    assert(!pc.is_prefix_of(fm)) by {
        if pc.is_prefix_of(fm) {
            assert(fm.subrange(0, pc.len() as int)[1] == fm[1]);
        }
    }
    assert(pm.is_prefix_of(fm));
    assert(fm.subrange(pm.len() as int, fm.len() as int) =~= m);
    let fa = pa + a + "\""@;
    assert(fa[0] == '"' && fa.last() == '"');
    assert(text::trimmed(fa) == fa);
    assert(fa[1] == 'a' && pm[1] == 'm');
    assert(!pc.is_prefix_of(fa)) by {
        if pc.is_prefix_of(fa) {
            assert(fa.subrange(0, pc.len() as int)[1] == fa[1]);
        }
    }
    assert(!pm.is_prefix_of(fa)) by {
        if pm.is_prefix_of(fa) {
            assert(fa.subrange(0, pm.len() as int)[1] == fa[1]);
        }
    }
    assert(pa.is_prefix_of(fa));
    let v = fa.subrange(pa.len() as int, fa.len() as int);
    assert(v =~= a.push('"'));
    assert(v.drop_last() =~= a);
}

/// A record that is written is read back: both times as they were, and the
/// author without quotes at the end and white space at the ends.
pub proof fn law_record_round_trip(created: u64, modified: u64, author: Seq<char>)
    requires
        !author.contains(','),
    ensures
        read_record(meta_json(created, modified, author)) == (MetaView {
            created: Some(created),
            modified: Some(modified),
            author: text::trimmed(text::cut_end(author, Cut::Only('"'))),
        }),
{
    reveal_strlit("{\"created\":");
    reveal_strlit(",\"modified\":");
    reveal_strlit(",\"author\":\"");
    reveal_strlit("\"}");
    reveal_strlit("\"created\":");
    reveal_strlit("\"modified\":");
    reveal_strlit("\"author\":\"");
    reveal_strlit("\"");
    let c = text::decimal(created as nat);
    let m = text::decimal(modified as nat);
    lemma_decimal_read(created);
    lemma_decimal_read(modified);
    let f1 = "\"created\":"@ + c;
    let f2 = "\"modified\":"@ + m;
    let f3 = "\"author\":\""@ + author + "\""@;
    let s = meta_json(created, modified, author);
    let body = f1.push(',') + f2.push(',') + f3;
    assert(s =~= seq!['{'] + body + seq!['}']);
    assert(s[0] == '{' && s.last() == '}');
    assert(text::trimmed(s) == s);
    assert(s.drop_first() =~= body + seq!['}']);
    let open = body + seq!['}'];
    assert(open[0] == '"');
    assert(text::cut_start(open, Cut::Only('{')) == open);
    assert(text::cut_start(s, Cut::Only('{')) == open);
    assert(open.drop_last() =~= body);
    assert(body.last() == '"');
    assert(text::cut_end(body, Cut::Only('}')) == body);
    assert(text::cut_end(open, Cut::Only('}')) == body);
    assert(record_body(s) == body);
    assert(!f1.contains(',')) by {
        assert forall|i: int| 0 <= i < f1.len() implies f1[i] != ',' by {
            let k = "\"created\":"@.len();
            if i >= k {
                assert(f1[i] == c[i - k]);
            }
        }
    }
    assert(!f2.contains(',')) by {
        assert forall|i: int| 0 <= i < f2.len() implies f2[i] != ',' by {
            let k = "\"modified\":"@.len();
            if i >= k {
                assert(f2[i] == m[i - k]);
            }
        }
    }
    assert(!f3.contains(',')) by {
        assert forall|i: int| 0 <= i < f3.len() implies f3[i] != ',' by {
            let k = "\"author\":\""@.len();
            if k <= i < k + author.len() {
                assert(f3[i] == author[i - k]);
            }
        }
    }
    lemma_one_piece(f1, ',');
    lemma_last_piece(f1, f2, ',');
    assert(body =~= (f1.push(',') + f2).push(',') + f3);
    lemma_last_piece(f1.push(',') + f2, f3, ',');
    let fields = text::pieces(body, Cut::Only(','));
    assert(fields =~= seq![f1, f2, f3]);
    let m0 = no_meta();
    lemma_fields(c, m, author, m0);
    let m1 = with_field(m0, f1);
    lemma_fields(c, m, author, m1);
    let m2 = with_field(m1, f2);
    lemma_fields(c, m, author, m2);
    assert(with_fields(fields, 0) == m0);
    assert(with_fields(fields, 1) == m1);
    assert(with_fields(fields, 2) == m2);
    assert(with_fields(fields, 3) == with_field(m2, f3));
}

/// A field of a record.
pub enum Field {
    Created,
    Modified,
    Author,
}

/// A field as it is written.
pub open spec fn field_text(f: Field, m: MetaView) -> Seq<char> {
    match f {
        Field::Created => "\"created\":"@ + text::decimal(m.created->0 as nat),
        Field::Modified => "\"modified\":"@ + text::decimal(m.modified->0 as nat),
        Field::Author => "\"author\":\""@ + m.author + "\""@,
    }
}

/// The first `n` of a choice of fields, with commas between them.
pub open spec fn joined(order: Seq<Field>, n: nat, m: MetaView) -> Seq<char>
    decreases n,
{
    if n == 0 {
        Seq::empty()
    } else if n == 1 {
        field_text(order[0], m)
    } else {
        joined(order, (n - 1) as nat, m).push(',') + field_text(order[n - 1], m)
    }
}

/// A record that says a choice of fields, in a given order.
pub open spec fn record_in(order: Seq<Field>, m: MetaView) -> Seq<char> {
    seq!['{'] + joined(order, order.len(), m) + seq!['}']
}

/// What the first `n` of a choice of fields say.
pub open spec fn said(order: Seq<Field>, n: int, m: MetaView) -> MetaView {
    MetaView {
        created: if order.subrange(0, n).contains(Field::Created) {
            m.created
        } else {
            None
        },
        modified: if order.subrange(0, n).contains(Field::Modified) {
            m.modified
        } else {
            None
        },
        author: if order.subrange(0, n).contains(Field::Author) {
            text::trimmed(text::cut_end(m.author, Cut::Only('"')))
        } else {
            Seq::empty()
        },
    }
}

/// Whether there is a time for every time that is chosen.
pub open spec fn sayable(order: Seq<Field>, m: MetaView) -> bool {
    &&& order.contains(Field::Created) ==> m.created is Some
    &&& order.contains(Field::Modified) ==> m.modified is Some
}

/// A field starts with a quote, does not end in a brace, and has no comma.
proof fn lemma_field_text(f: Field, m: MetaView)
    requires
        !m.author.contains(','),
    ensures
        field_text(f, m).len() > 0,
        field_text(f, m)[0] == '"',
        field_text(f, m).last() != '}',
        !field_text(f, m).contains(','),
{
    reveal_strlit("\"created\":");
    reveal_strlit("\"modified\":");
    reveal_strlit("\"author\":\"");
    reveal_strlit("\"");
    let s = field_text(f, m);
    match f {
        Field::Created => {
            let d = text::decimal(m.created->0 as nat);
            let k = "\"created\":"@.len();
            lemma_decimal(m.created->0 as nat);
            assert(text::is_digit(d[d.len() - 1]));
            assert forall|i: int| 0 <= i < s.len() implies s[i] != ',' by {
                if i >= k {
                    assert(s[i] == d[i - k]);
                }
            }
        },
        Field::Modified => {
            let d = text::decimal(m.modified->0 as nat);
            let k = "\"modified\":"@.len();
            lemma_decimal(m.modified->0 as nat);
            assert(text::is_digit(d[d.len() - 1]));
            assert forall|i: int| 0 <= i < s.len() implies s[i] != ',' by {
                if i >= k {
                    assert(s[i] == d[i - k]);
                }
            }
        },
        Field::Author => {
            let k = "\"author\":\""@.len();
            assert forall|i: int| 0 <= i < s.len() implies s[i] != ',' by {
                if k <= i < k + m.author.len() {
                    assert(s[i] == m.author[i - k]);
                }
            }
        },
    }
}

/// What is joined comes apart into the fields again.
proof fn lemma_joined(order: Seq<Field>, n: nat, m: MetaView)
    requires
        1 <= n <= order.len(),
        !m.author.contains(','),
    ensures
        joined(order, n, m).len() > 0,
        joined(order, n, m)[0] == '"',
        joined(order, n, m).last() != '}',
        text::pieces(joined(order, n, m), Cut::Only(',')) == Seq::new(
            n,
            |i: int| field_text(order[i], m),
        ),
    decreases n,
{
    let last = field_text(order[n - 1], m);
    lemma_field_text(order[n - 1], m);
    let want = Seq::new(n, |i: int| field_text(order[i], m));
    if n == 1 {
        lemma_one_piece(last, ',');
        assert(seq![last] =~= want);
    } else {
        let k = (n - 1) as nat;
        lemma_joined(order, k, m);
        lemma_last_piece(joined(order, k, m), last, ',');
        assert(Seq::new(k, |i: int| field_text(order[i], m)).push(last) =~= want);
    }
}

/// One more field says what it says, and leaves the rest.
proof fn lemma_said_next(order: Seq<Field>, n: int, m: MetaView)
    requires
        0 <= n < order.len(),
        sayable(order, m),
    ensures
        with_field(said(order, n, m), field_text(order[n], m)) == said(order, n + 1, m),
{
    let a = order.subrange(0, n);
    let b = order.subrange(0, n + 1);
    assert(b =~= a.push(order[n]));
    assert forall|f: Field| b.contains(f) <==> a.contains(f) || f == order[n] by {
        if a.contains(f) {
            let i = choose|i: int| 0 <= i < a.len() && a[i] == f;
            assert(b[i] == f);
        }
        if f == order[n] {
            assert(b[n] == f);
        }
    }
    assert(order.contains(order[n]));
    lemma_decimal_read(m.created->0);
    lemma_decimal_read(m.modified->0);
    lemma_fields(
        text::decimal(m.created->0 as nat),
        text::decimal(m.modified->0 as nat),
        m.author,
        said(order, n, m),
    );
}

/// A record without its braces is what stands between them.
proof fn lemma_between_braces(body: Seq<char>)
    requires
        body.len() > 0 ==> body[0] == '"' && body.last() != '}',
    ensures
        record_body(seq!['{'] + body + seq!['}']) == body,
{
    let s = seq!['{'] + body + seq!['}'];
    let open = body + seq!['}'];
    assert(s[0] == '{' && s.last() == '}');
    assert(text::trimmed(s) == s);
    assert(s.drop_first() =~= open);
    assert(open[0] != '{');
    assert(text::cut_start(open, Cut::Only('{')) == open);
    assert(text::cut_start(s, Cut::Only('{')) == open);
    assert(open.drop_last() =~= body);
    assert(text::cut_end(body, Cut::Only('}')) == body);
    assert(text::cut_end(open, Cut::Only('}')) == body);
}

/// A record reads the same whichever of its fields it holds and in whatever
/// order they stand: each field that is there is read back, and nothing is read
/// of the others.
pub proof fn law_record_any_order(order: Seq<Field>, m: MetaView)
    requires
        sayable(order, m),
        !m.author.contains(','),
    ensures
        read_record(record_in(order, m)) == (MetaView {
            created: if order.contains(Field::Created) {
                m.created
            } else {
                None
            },
            modified: if order.contains(Field::Modified) {
                m.modified
            } else {
                None
            },
            author: if order.contains(Field::Author) {
                text::trimmed(text::cut_end(m.author, Cut::Only('"')))
            } else {
                Seq::empty()
            },
        }),
{
    let n = order.len();
    let body = joined(order, n, m);
    if n > 0 {
        lemma_joined(order, n, m);
    }
    lemma_between_braces(body);
    let fields = text::pieces(body, Cut::Only(','));
    assert(order.subrange(0, n as int) =~= order);
    if n == 0 {
        reveal_strlit("\"created\":");
        reveal_strlit("\"modified\":");
        reveal_strlit("\"author\":\"");
        lemma_one_piece(body, ',');
        assert(text::trimmed(body) == body);
        assert(with_fields(fields, 0) == no_meta());
        assert(with_fields(fields, 1) == no_meta());
    } else {
        lemma_said(order, n, m);
    }
}

proof fn lemma_said(order: Seq<Field>, n: nat, m: MetaView)
    requires
        n <= order.len(),
        sayable(order, m),
    ensures
        with_fields(Seq::new(order.len(), |i: int| field_text(order[i], m)), n) == said(
            order,
            n as int,
            m,
        ),
    decreases n,
{
    if n > 0 {
        lemma_said(order, (n - 1) as nat, m);
        lemma_said_next(order, n - 1, m);
    } else {
        assert(said(order, 0, m) =~= no_meta());
    }
}

/// The lines of a record: a headline, then a line for each of the two times that
/// is known and one for the author, if there is one, in this order.
pub proof fn law_record_lines(m: MetaView)
    ensures
        ({
            let lines = record_lines(m);
            let a = if m.created is Some {
                1int
            } else {
                0
            };
            let b = if m.modified is Some {
                1int
            } else {
                0
            };
            &&& lines.len() == 1 + a + b + (if m.author.len() > 0 {
                1int
            } else {
                0
            })
            &&& lines[0] == "── 档案信息 · SEALED RECORD ──"@
            &&& m.created is Some ==> lines[1] == "创建 / Created   "@ + calendar::unix_text(
                m.created->0 as nat,
            )
            &&& m.modified is Some ==> lines[1 + a] == "修改 / Modified  "@ + calendar::unix_text(
                m.modified->0 as nat,
            )
            &&& m.author.len() > 0 ==> lines[1 + a + b] == "作者 / Author    "@ + m.author
        }),
{
}

/// How a payload is laid out: four bytes with the length of the record, least
/// significant first, the record, and the text. So it is taken apart, and where
/// less is there than announced, all behind the length is text.
pub proof fn law_payload_layout(payload: Seq<u8>)
    ensures
        ({
            let n = payload[0] + 0x100 * payload[1] + 0x1_0000 * payload[2] + 0x100_0000
                * payload[3];
            &&& payload.len() < 4 ==> payload_meta(payload) is None && payload_text(payload)
                == payload
            &&& payload.len() >= 4 && payload.len() - 4 < n ==> payload_meta(payload) is None
                && payload_text(payload) == payload.subrange(4, payload.len() as int)
            &&& payload.len() >= 4 && payload.len() - 4 >= n ==> payload_meta(payload) == Some(
                payload.subrange(4, 4 + n),
            ) && payload_text(payload) == payload.subrange(4 + n, payload.len() as int)
        }),
{
    if payload.len() >= 4 {
        let a = payload.subrange(0, 4);
        let b = a.drop_first();
        let c = b.drop_first();
        let d = c.drop_first();
        assert(d.drop_first() =~= Seq::<u8>::empty());
        assert(bytes::le_value(d.drop_first()) == 0);
        assert(bytes::le_value(d) == payload[3]);
        assert(bytes::le_value(c) == payload[2] + 256 * payload[3]);
        assert(bytes::le_value(b) == payload[1] + 256 * (payload[2] + 256 * payload[3]));
    }
}

/// A field says what it says whatever was said before: a later one replaces an
/// earlier one of its kind and leaves the others, and a field of no known kind
/// changes nothing.
pub proof fn law_later_field_wins(x: MetaView, v: Seq<char>, n: u64, name: Seq<char>, f: Seq<char>)
    requires
        v.len() > 0,
        !text::is_space(v.last()),
    ensures
        with_field(x, "\"created\":"@ + text::decimal(n as nat)) == (MetaView {
            created: Some(n),
            ..x
        }),
        with_field(x, "\"modified\":"@ + text::decimal(n as nat)) == (MetaView {
            modified: Some(n),
            ..x
        }),
        with_field(x, "\"author\":\""@ + name + "\""@) == (MetaView {
            author: text::trimmed(text::cut_end(name, Cut::Only('"'))),
            ..x
        }),
        with_field(x, "\"created\":"@ + v).created == text::parsed_u64(text::trimmed(v)),
        with_field(x, "\"modified\":"@ + v).modified == text::parsed_u64(text::trimmed(v)),
        !"\"created\":"@.is_prefix_of(text::trimmed(f)) && !"\"modified\":"@.is_prefix_of(
            text::trimmed(f),
        ) && !"\"author\":\""@.is_prefix_of(text::trimmed(f)) ==> with_field(x, f) == x,
{
    lemma_decimal_read(n);
    let d = text::decimal(n as nat);
    lemma_fields(d, d, name, x);
    lemma_fields(v, v, name, x);
}

/// Fields are read one after the other, each on top of what was read before.
pub proof fn law_fields_one_by_one(fields: Seq<Seq<char>>, f: Seq<char>)
    ensures
        with_fields(fields, 0) == no_meta(),
        with_fields(fields.push(f), fields.len() + 1) == with_field(
            with_fields(fields, fields.len()),
            f,
        ),
{
    lemma_fields_prefix(fields, f, fields.len());
}

proof fn lemma_fields_prefix(fields: Seq<Seq<char>>, f: Seq<char>, n: nat)
    requires
        n <= fields.len(),
    ensures
        with_fields(fields.push(f), n) == with_fields(fields, n),
    decreases n,
{
    if n > 0 {
        lemma_fields_prefix(fields, f, (n - 1) as nat);
        assert(fields.push(f)[n - 1] == fields[n - 1]);
    }
}

/// How a record is written: both times in decimal and the author in quotes, under
/// their names, in braces.
pub proof fn law_record_is_written(created: u64, modified: u64, author: Seq<char>)
    ensures
        meta_json(created, modified, author) == record_in(
            seq![Field::Created, Field::Modified, Field::Author],
            MetaView { created: Some(created), modified: Some(modified), author },
        ),
{
    reveal_strlit("{\"created\":");
    reveal_strlit(",\"modified\":");
    reveal_strlit(",\"author\":\"");
    reveal_strlit("\"}");
    reveal_strlit("\"created\":");
    reveal_strlit("\"modified\":");
    reveal_strlit("\"author\":\"");
    reveal_strlit("\"");
    let order = seq![Field::Created, Field::Modified, Field::Author];
    let m = MetaView { created: Some(created), modified: Some(modified), author };
    reveal_with_fuel(joined, 4);
    assert(meta_json(created, modified, author) =~= record_in(order, m));
}

} // verus!
