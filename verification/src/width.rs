//! How much room a text takes on a terminal.
use vstd::prelude::*;

use crate::text;

verus! {

/// Whether a character takes two columns: East Asian wide characters do.
pub open spec fn is_wide(c: char) -> bool {
    let u = c as u32;
    0x1100 <= u <= 0x115F || 0x2E80 <= u <= 0x303E || 0x3041 <= u <= 0x33FF || 0x3400 <= u <= 0x4DBF
        || 0x4E00 <= u <= 0x9FFF || 0xA000 <= u <= 0xA4CF || 0xAC00 <= u <= 0xD7A3 || 0xF900 <= u
        <= 0xFAFF || 0xFE30 <= u <= 0xFE4F || 0xFF00 <= u <= 0xFF60 || 0xFFE0 <= u <= 0xFFE6
        || 0x20000 <= u <= 0x2FFFD || 0x30000 <= u <= 0x3FFFD
}

/// Columns that a character takes.
pub open spec fn columns(c: char) -> nat {
    if is_wide(c) {
        2
    } else {
        1
    }
}

/// Where a text stands with respect to terminal control sequences.
#[derive(Clone, Copy, PartialEq, Eq, Structural, Debug)]
pub enum Scan {
    /// Ordinary text.
    Plain,
    /// Behind an escape character.
    Escape,
    /// Within a control sequence.
    Control,
}

/// The state behind one more character.
pub open spec fn scanned(mode: Scan, c: char) -> Scan {
    match mode {
        Scan::Plain => if c == '\x1b' {
            Scan::Escape
        } else {
            Scan::Plain
        },
        Scan::Escape => if c == '[' {
            Scan::Control
        } else {
            Scan::Plain
        },
        Scan::Control => if 0x40 <= c as u32 <= 0x7E {
            Scan::Plain
        } else {
            Scan::Control
        },
    }
}

/// Columns that one more character takes: control sequences take none.
pub open spec fn scanned_columns(mode: Scan, c: char) -> nat {
    if mode == Scan::Plain && c != '\x1b' {
        columns(c)
    } else {
        0
    }
}

/// The state behind a text.
pub open spec fn scan_of(s: Seq<char>) -> Scan
    decreases s.len(),
{
    if s.len() == 0 {
        Scan::Plain
    } else {
        scanned(scan_of(s.drop_last()), s.last())
    }
}

/// Columns that a text takes.
pub open spec fn text_columns(s: Seq<char>) -> nat
    decreases s.len(),
{
    if s.len() == 0 {
        0
    } else {
        text_columns(s.drop_last()) + scanned_columns(scan_of(s.drop_last()), s.last())
    }
}

/// Columns that a text takes, as far as they can be counted.
pub open spec fn shown(s: Seq<char>) -> usize {
    if text_columns(s) <= usize::MAX {
        text_columns(s) as usize
    } else {
        usize::MAX
    }
}

/// What is left of `a` without `b`, at least nothing.
pub open spec fn minus(a: int, b: int) -> nat {
    if a <= b {
        0
    } else {
        (a - b) as nat
    }
}

/// Columns to the left of a centred text.
pub open spec fn centred(s: Seq<char>, width: usize) -> usize {
    if shown(s) >= width {
        0
    } else {
        ((width - shown(s)) / 2) as usize
    }
}

/// Columns that a character takes.
pub fn char_width(c: char) -> (w: usize)
    ensures
        w == columns(c),
{
    let u: u32 = c as u32;
    if (0x1100 <= u && u <= 0x115F) || (0x2E80 <= u && u <= 0x303E) || (0x3041 <= u && u <= 0x33FF)
        || (0x3400 <= u && u <= 0x4DBF) || (0x4E00 <= u && u <= 0x9FFF) || (0xA000 <= u && u
        <= 0xA4CF) || (0xAC00 <= u && u <= 0xD7A3) || (0xF900 <= u && u <= 0xFAFF) || (0xFE30 <= u
        && u <= 0xFE4F) || (0xFF00 <= u && u <= 0xFF60) || (0xFFE0 <= u && u <= 0xFFE6) || (0x20000
        <= u && u <= 0x2FFFD) || (0x30000 <= u && u <= 0x3FFFD) {
        2
    } else {
        1
    }
}

fn next_scan(mode: Scan, c: char) -> (r: Scan)
    ensures
        r == scanned(mode, c),
{
    match mode {
        Scan::Plain => if c == '\x1b' {
            Scan::Escape
        } else {
            Scan::Plain
        },
        Scan::Escape => if c == '[' {
            Scan::Control
        } else {
            Scan::Plain
        },
        Scan::Control => {
            let u: u32 = c as u32;
            if 0x40 <= u && u <= 0x7E {
                Scan::Plain
            } else {
                Scan::Control
            }
        },
    }
}

/// Columns that a text takes on the terminal, control sequences left aside.
pub fn display_width(s: &str) -> (w: usize)
    ensures
        w == shown(s@),
{
    let mut w: usize = 0;
    let mut mode: Scan = Scan::Plain;
    proof {
        assert(s@.subrange(0, 0) =~= Seq::<char>::empty());
    }
    for c in it: s.chars()
        invariant
            it.seq() == s@,
            w == shown(s@.subrange(0, it.index() as int)),
            mode == scan_of(s@.subrange(0, it.index() as int)),
    {
        proof {
            assert(s@.subrange(0, it.index() + 1).drop_last() =~= s@.subrange(
                0,
                it.index() as int,
            ));
        }
        if mode == Scan::Plain && c != '\x1b' {
            w = w.saturating_add(char_width(c));
        }
        mode = next_scan(mode, c);
    }
    proof {
        assert(s@.subrange(0, s@.len() as int) =~= s@);
    }
    w
}

/// Columns to the left of a centred line.
pub fn center_pad(line: &str, width: usize) -> (pad: usize)
    ensures
        pad == centred(line@, width),
{
    let w: usize = display_width(line);
    if w >= width {
        0
    } else {
        (width - w) / 2
    }
}

/// Columns that a row of characters takes, control characters counted like any
/// other.
pub open spec fn raw_columns(s: Seq<char>) -> nat
    decreases s.len(),
{
    if s.len() == 0 {
        0
    } else {
        raw_columns(s.drop_last()) + columns(s.last())
    }
}

/// Filling rows of a given width from left to right: the rows that are full,
/// and the row that is being filled.
pub open spec fn filled(s: Seq<char>, width: nat) -> (Seq<Seq<char>>, Seq<char>)
    decreases s.len(),
{
    if s.len() == 0 {
        (Seq::empty(), Seq::empty())
    } else {
        let (done, cur) = filled(s.drop_last(), width);
        let c = s.last();
        if raw_columns(cur) + columns(c) > width && cur.len() > 0 {
            (done.push(cur), seq![c])
        } else {
            (done, cur.push(c))
        }
    }
}

/// The rows that a line is broken into.
pub open spec fn wrapped(line: Seq<char>, width: usize) -> Seq<Seq<char>> {
    if width == 0 || shown(line) <= width {
        seq![line]
    } else {
        let (done, cur) = filled(line, width as nat);
        if cur.len() > 0 {
            done.push(cur)
        } else {
            done
        }
    }
}

/// Rows put together again.
pub open spec fn joined(rows: Seq<Seq<char>>) -> Seq<char>
    decreases rows.len(),
{
    if rows.len() == 0 {
        Seq::empty()
    } else {
        joined(rows.drop_last()) + rows.last()
    }
}

/// Whether a row fits, or cannot be broken any further.
pub open spec fn fits(row: Seq<char>, width: nat) -> bool {
    row.len() > 0 && (raw_columns(row) <= width || row.len() == 1)
}

proof fn lemma_filled(s: Seq<char>, width: nat)
    ensures
        ({
            let (done, cur) = filled(s, width);
            &&& joined(done) + cur == s
            &&& s.len() > 0 ==> fits(cur, width)
            &&& forall|i: int| 0 <= i < done.len() ==> fits(#[trigger] done[i], width)
        }),
    decreases s.len(),
{
    if s.len() > 0 {
        lemma_filled(s.drop_last(), width);
        let (done, cur) = filled(s.drop_last(), width);
        let c = s.last();
        assert(s =~= s.drop_last().push(c));
        if raw_columns(cur) + columns(c) > width && cur.len() > 0 {
            assert(done.push(cur).drop_last() =~= done);
            assert(joined(done.push(cur)) == joined(done) + cur);
            assert(joined(done.push(cur)) + seq![c] =~= s);
        } else {
            assert(cur.push(c).drop_last() =~= cur);
            assert(joined(done) + cur.push(c) =~= s);
        }
    } else {
        assert(joined(Seq::<Seq<char>>::empty()) + Seq::<char>::empty() =~= s);
    }
}

/// Breaking a line loses nothing and adds nothing, and where a line is broken
/// every row fits the width or is a single character.
pub proof fn law_wrap(line: Seq<char>, width: usize)
    ensures
        joined(wrapped(line, width)) == line,
        width > 0 && shown(line) > width ==> forall|i: int|
            0 <= i < wrapped(line, width).len() ==> fits(
                #[trigger] wrapped(line, width)[i],
                width as nat,
            ),
{
    if width == 0 || shown(line) <= width {
        assert(wrapped(line, width).drop_last() =~= Seq::<Seq<char>>::empty());
        assert(joined(Seq::<Seq<char>>::empty()) + line =~= line);
    } else {
        lemma_filled(line, width as nat);
        let (done, cur) = filled(line, width as nat);
        if cur.len() > 0 {
            assert(done.push(cur).drop_last() =~= done);
        } else {
            assert(joined(done) + cur =~= joined(done));
        }
    }
}

proof fn lemma_raw_columns_add(s: Seq<char>, t: Seq<char>)
    ensures
        raw_columns(s + t) == raw_columns(s) + raw_columns(t),
    decreases t.len(),
{
    if t.len() == 0 {
        assert(s + t =~= s);
    } else {
        lemma_raw_columns_add(s, t.drop_last());
        assert((s + t).drop_last() =~= s + t.drop_last());
    }
}

/// The longer of two ends of a text is the wider one.
proof fn lemma_longer_end(s: Seq<char>, a: Seq<char>, x: Seq<char>, b: Seq<char>, y: Seq<char>)
    requires
        a + x == s,
        b + y == s,
        x.len() >= y.len(),
    ensures
        raw_columns(x) >= raw_columns(y),
{
    let k = x.len() - y.len();
    assert(s.subrange(a.len() as int, s.len() as int) =~= x);
    assert(s.subrange(b.len() as int, s.len() as int) =~= y);
    assert(x.subrange(0, k) + y =~= x);
    lemma_raw_columns_add(x.subrange(0, k), y);
}

/// Whether a text is cut into rows that fit.
pub open spec fn cut_into(s: Seq<char>, rows: Seq<Seq<char>>, width: nat) -> bool {
    joined(rows) == s && forall|i: int| 0 <= i < rows.len() ==> fits(#[trigger] rows[i], width)
}

/// However a text is cut, no fewer rows are needed than filling them from left
/// to right takes, and with as many the last one holds no less.
proof fn lemma_filled_first(s: Seq<char>, rows: Seq<Seq<char>>, width: nat)
    requires
        s.len() > 0,
        cut_into(s, rows, width),
    ensures
        rows.len() > 0,
        ({
            let (done, cur) = filled(s, width);
            rows.len() > done.len() + 1 || (rows.len() == done.len() + 1 && rows.last().len()
                >= cur.len())
        }),
    decreases s.len(),
{
    assert(rows.len() > 0);
    let front = rows.drop_last();
    let last = rows.last();
    assert(fits(last, width));
    assert(joined(rows) == joined(front) + last);
    let t = s.drop_last();
    let c = s.last();
    let (done, cur) = filled(t, width);
    if t.len() == 0 {
        assert(done.len() == 0 && cur.len() == 0);
    } else if last.len() == 1 {
        assert(joined(front) =~= t);
        assert forall|i: int| 0 <= i < front.len() implies fits(#[trigger] front[i], width) by {
            assert(front[i] == rows[i]);
        }
        lemma_filled_first(t, front, width);
    } else {
        let short = last.drop_last();
        let less = front.push(short);
        assert(less.drop_last() =~= front);
        assert(joined(less) == joined(front) + short);
        assert(joined(less) =~= t);
        assert(last =~= short + seq![c]);
        lemma_raw_columns_add(short, seq![c]);
        assert(seq![c].drop_last() =~= Seq::empty());
        assert(raw_columns(Seq::<char>::empty()) == 0);
        assert(raw_columns(seq![c]) == columns(c));
        assert forall|i: int| 0 <= i < less.len() implies fits(#[trigger] less[i], width) by {
            if i < front.len() {
                assert(less[i] == rows[i]);
            }
        }
        lemma_filled_first(t, less, width);
        if less.len() == done.len() + 1 {
            lemma_filled(t, width);
            lemma_longer_end(t, joined(front), short, joined(done), cur);
        }
    }
}

/// A line that is broken is broken into as few rows as the width allows.
pub proof fn law_wrap_takes_fewest_rows(line: Seq<char>, width: usize, rows: Seq<Seq<char>>)
    requires
        width > 0,
        shown(line) > width,
        cut_into(line, rows, width as nat),
    ensures
        wrapped(line, width).len() <= rows.len(),
{
    assert(line.len() > 0);
    lemma_filled_first(line, rows, width as nat);
}

/// Breaks a line into rows that fit the width. No character is broken.
pub fn wrap_line(line: &str, width: usize) -> (rows: Vec<String>)
    ensures
        text::views(rows@) == wrapped(line@, width),
{
    let mut rows: Vec<String> = Vec::new();
    if width == 0 || display_width(line) <= width {
        rows.push(line.to_owned());
        proof {
            assert(text::views(rows@) =~= wrapped(line@, width));
        }
        return rows;
    }
    let mut cur = String::new();
    let mut cur_w: usize = 0;
    let mut empty: bool = true;
    proof {
        assert(line@.subrange(0, 0) =~= Seq::<char>::empty());
        assert(text::views(rows@) =~= Seq::empty());
    }
    for c in it: line.chars()
        invariant
            it.seq() == line@,
            width < usize::MAX,
            (text::views(rows@), cur@) == filled(
                line@.subrange(0, it.index() as int),
                width as nat,
            ),
            empty == (cur@.len() == 0),
            cur_w == raw_columns(cur@),
            cur_w <= width || cur@.len() == 1,
            cur@.len() == 0 ==> cur_w == 0,
    {
        let ghost part = line@.subrange(0, it.index() + 1);
        let ghost done = text::views(rows@);
        let ghost before = cur@;
        proof {
            assert(part.drop_last() =~= line@.subrange(0, it.index() as int));
            assert(part.last() == c);
            if before.len() == 1 {
                assert(before.drop_last() =~= Seq::<char>::empty());
            }
        }
        let cw: usize = char_width(c);
        if cur_w.saturating_add(cw) > width && !empty {
            rows.push(cur);
            cur = String::new();
            cur_w = 0;
            proof {
                assert(text::views(rows@) =~= done.push(before));
            }
        }
        cur.push(c);
        proof {
            assert(cur@.drop_last() =~= if cur@.len() == 1 {
                Seq::empty()
            } else {
                before
            });
            assert(cur@ =~= filled(part, width as nat).1);
            assert(raw_columns(Seq::<char>::empty()) == 0);
        }
        cur_w = cur_w.saturating_add(cw);
        empty = false;
    }
    proof {
        assert(line@.subrange(0, line@.len() as int) =~= line@);
    }
    if !empty {
        let ghost done = text::views(rows@);
        let ghost last = cur@;
        rows.push(cur);
        proof {
            assert(text::views(rows@) =~= done.push(last));
        }
    }
    rows
}

/// A number, as far as it can be counted.
pub open spec fn capped(n: int) -> int {
    if n <= usize::MAX {
        n
    } else {
        usize::MAX as int
    }
}

/// Whether a text is one control sequence: the escape character, a bracket,
/// parameters, and the character that ends it.
pub open spec fn is_control(s: Seq<char>) -> bool {
    &&& s.len() >= 3
    &&& s[0] == '\x1b'
    &&& s[1] == '['
    &&& 0x40 <= s.last() as u32 <= 0x7E
    &&& forall|i: int| 2 <= i < s.len() - 1 ==> !(0x40 <= #[trigger] s[i] as u32 <= 0x7E)
}

/// Behind a text that ends in ordinary text, another one starts afresh.
proof fn lemma_starts_afresh(s: Seq<char>, t: Seq<char>)
    requires
        scan_of(s) == Scan::Plain,
    ensures
        scan_of(s + t) == scan_of(t),
        text_columns(s + t) == text_columns(s) + text_columns(t),
    decreases t.len(),
{
    if t.len() == 0 {
        assert(s + t =~= s);
    } else {
        lemma_starts_afresh(s, t.drop_last());
        assert((s + t).drop_last() =~= s + t.drop_last());
        assert((s + t).last() == t.last());
    }
}

/// Without escape characters, every character takes its columns.
proof fn lemma_plain(s: Seq<char>)
    requires
        !s.contains('\x1b'),
    ensures
        scan_of(s) == Scan::Plain,
        text_columns(s) == raw_columns(s),
    decreases s.len(),
{
    if s.len() > 0 {
        let t = s.drop_last();
        assert forall|i: int| 0 <= i < t.len() implies t[i] != '\x1b' by {
            assert(s[i] == t[i]);
        }
        lemma_plain(t);
        assert(s.contains(s.last()));
    }
}

/// Within a control sequence nothing takes a column.
proof fn lemma_within_control(esc: Seq<char>, n: int)
    requires
        is_control(esc),
        2 <= n < esc.len(),
    ensures
        scan_of(esc.subrange(0, n)) == Scan::Control,
        text_columns(esc.subrange(0, n)) == 0,
    decreases n,
{
    let head = esc.subrange(0, n);
    assert(head.drop_last() =~= esc.subrange(0, n - 1));
    if n == 2 {
        let one = esc.subrange(0, 1);
        assert(one.drop_last() =~= Seq::empty());
        assert(scan_of(one.drop_last()) == Scan::Plain && text_columns(one.drop_last()) == 0);
        assert(one.last() == '\x1b');
        assert(scan_of(one) == Scan::Escape && text_columns(one) == 0);
    } else {
        lemma_within_control(esc, n - 1);
        assert(head.last() == esc[n - 1]);
    }
}

proof fn lemma_control(esc: Seq<char>)
    requires
        is_control(esc),
    ensures
        scan_of(esc) == Scan::Plain,
        text_columns(esc) == 0,
{
    let n = esc.len() - 1;
    lemma_within_control(esc, n);
    assert(esc.drop_last() =~= esc.subrange(0, n));
}

/// Widths add up, and a control sequence takes no columns: a text without
/// escape characters is as wide as its characters together, two such texts in a
/// row are as wide as both, and a control sequence between them changes
/// nothing. All of this as far as columns can be counted.
pub proof fn law_widths_add_up(s: Seq<char>, esc: Seq<char>, t: Seq<char>)
    requires
        !s.contains('\x1b'),
        !t.contains('\x1b'),
        is_control(esc),
    ensures
        shown(s) == capped(raw_columns(s) as int),
        shown(s + t) == capped(shown(s) + shown(t)),
        shown(s + esc + t) == shown(s + t),
{
    lemma_plain(s);
    lemma_plain(t);
    lemma_control(esc);
    lemma_starts_afresh(s, t);
    lemma_starts_afresh(s, esc);
    lemma_starts_afresh(s + esc, t);
}

/// Which characters take two columns: those of the East Asian blocks. Every
/// other character takes one.
pub proof fn law_wide_characters(c: char)
    ensures
        columns(c) == (if 0x1100 <= c as u32 <= 0x115F || 0x2E80 <= c as u32 <= 0x303E || 0x3041 <= c as u32 <= 0x33FF || 0x3400 <= c as u32 <= 0x4DBF || 0x4E00 <= c as u32 <= 0x9FFF || 0xA000 <= c as u32 <= 0xA4CF || 0xAC00 <= c as u32 <= 0xD7A3 || 0xF900 <= c as u32 <= 0xFAFF || 0xFE30 <= c as u32 <= 0xFE4F || 0xFF00 <= c as u32 <= 0xFF60 || 0xFFE0 <= c as u32 <= 0xFFE6 || 0x20000 <= c as u32 <= 0x2FFFD || 0x30000 <= c as u32 <= 0x3FFFD {
            2nat
        } else {
            1nat
        }),
{
}

/// A centred line has as much room to its left as to its right, or one column
/// less.
pub proof fn law_centred(s: Seq<char>, width: usize)
    ensures
        shown(s) <= width ==> {
            let right = width - shown(s) - centred(s, width);
            right == centred(s, width) || right == centred(s, width) + 1
        },
        shown(s) >= width ==> centred(s, width) == 0,
{
}

} // verus!
