//! What is written to the terminal: rows, bars and banners as text with control
//! sequences. Rows and columns count from one.
use vstd::prelude::*;

use crate::glyph;
use crate::glyph::Rng;
use crate::text;
use crate::width;
use crate::width::{center_pad, char_width, display_width};
use crate::xorshift;

verus! {

pub const C_RESET: &'static str = "\x1b[0m";

pub const C_DIM: &'static str = "\x1b[2m";

pub const C_GREEN: &'static str = "\x1b[32m";

pub const C_YELLOW: &'static str = "\x1b[33m";

pub const C_BRIGHT_WHITE: &'static str = "\x1b[97m";

pub const C_CYAN: &'static str = "\x1b[36m";

pub const C_RED: &'static str = "\x1b[31m";

pub const C_BG_DARK: &'static str = "\x1b[48;5;234m";

pub const C_BG_BLACK: &'static str = "\x1b[40m";

/// Clears the screen and goes to its first row.
pub const CLEAR: &'static str = "\x1b[2J\x1b[H";

/// Hides the cursor.
pub const HIDE_CURSOR: &'static str = "\x1b[?25l";

/// Shows the cursor.
pub const SHOW_CURSOR: &'static str = "\x1b[?25h";

/// Columns of a terminal whose size is not known.
pub const DEFAULT_WIDTH: usize = 80;

/// Rows of a terminal whose size is not known.
pub const DEFAULT_HEIGHT: usize = 24;

/// The width to draw for: what the terminal says, if it says one.
pub fn term_width(columns: Option<usize>) -> (w: usize)
    ensures
        w == match columns {
            Some(n) => if n > 0 {
                n
            } else {
                80usize
            },
            None => 80,
        },
        w > 0,
{
    match columns {
        Some(n) => if n > 0 {
            n
        } else {
            DEFAULT_WIDTH
        },
        None => DEFAULT_WIDTH,
    }
}

/// The height to draw for: what the terminal says, if it says one.
pub fn term_height(rows: Option<usize>) -> (h: usize)
    ensures
        h == match rows {
            Some(n) => if n > 0 {
                n
            } else {
                24usize
            },
            None => 24,
        },
        h > 0,
{
    match rows {
        Some(n) => if n > 0 {
            n
        } else {
            DEFAULT_HEIGHT
        },
        None => DEFAULT_HEIGHT,
    }
}

/// How many cells a window covers from its first to its last, where the last
/// comes behind the first.
pub fn window_span(first: i16, last: i16) -> (n: Option<usize>)
    ensures
        n == if last > first {
            Some((last - first + 1) as usize)
        } else {
            None
        },
{
    if last > first {
        Some((last as i32 - first as i32 + 1) as usize)
    } else {
        None
    }
}

/// The sequence that moves the cursor.
pub open spec fn at(row: nat, col: nat) -> Seq<char> {
    "\x1b["@ + text::decimal(row) + ";"@ + text::decimal(col) + "H"@
}

/// Blanks.
pub open spec fn spaces(n: nat) -> Seq<char> {
    text::repeated(' ', n)
}

/// Moves the cursor.
pub fn cursor(row: usize, col: usize) -> (s: String)
    ensures
        s@ == at(row as nat, col as nat),
{
    let mut s = "\x1b[".to_owned();
    text::push_decimal(&mut s, row as u64);
    s.append(";");
    text::push_decimal(&mut s, col as u64);
    s.append("H");
    s
}

/// Columns to the right of what is shown.
fn left_over(width: usize, pad: usize, shown: usize) -> (n: usize)
    ensures
        n == width::minus(width as int, pad + shown),
{
    width.saturating_sub(pad.saturating_add(shown))
}

/// Blank rows, from `row` on.
pub open spec fn blank_rows(row: nat, n: nat, width: nat) -> Seq<char>
    decreases n,
{
    if n == 0 {
        Seq::empty()
    } else {
        blank_rows(row, (n - 1) as nat, width) + at((row + n - 1) as nat, 1) + spaces(width)
    }
}

/// The whole screen in the background colour.
pub fn fill_background(width: usize, height: usize) -> (s: String)
    ensures
        s@ == C_BG_DARK@ + blank_rows(1, height as nat, width as nat),
{
    let mut s = C_BG_DARK.to_owned();
    let mut r: usize = 0;
    proof {
        assert(s@ =~= C_BG_DARK@ + blank_rows(1, 0, width as nat));
    }
    while r < height
        invariant
            r <= height,
            s@ == C_BG_DARK@ + blank_rows(1, r as nat, width as nat),
        decreases height - r,
    {
        let ghost before = blank_rows(1, r as nat, width as nat);
        r += 1;
        s.append(cursor(r, 1).as_str());
        text::push_repeated(&mut s, ' ', width);
        proof {
            assert(s@ =~= C_BG_DARK@ + (before + at(r as nat, 1) + spaces(width as nat)));
        }
    }
    s
}

/// A row of noise.
pub open spec fn noise_row_text(
    state: u64,
    row: nat,
    width: nat,
    ground: Seq<char>,
    color: Seq<char>,
) -> Seq<char> {
    at(row, 1) + ground + color + glyph::noise(state, width) + C_RESET@
}

/// A row of noise.
pub fn noise_row(rng: &mut Rng, row: usize, width: usize, ground: &str, color: &str) -> (s: String)
    ensures
        s@ == noise_row_text(old(rng).state(), row as nat, width as nat, ground@, color@),
        final(rng).state() == xorshift::shifted_by(old(rng).state(), width as nat),
{
    let g = rng.fill_line(width);
    let mut s = cursor(row, 1);
    s.append(ground);
    s.append(color);
    s.append(g.as_str());
    s.append(C_RESET);
    s
}

/// The first `n` rows full of noise.
pub open spec fn noise_rows(
    state: u64,
    n: nat,
    width: nat,
    ground: Seq<char>,
    color: Seq<char>,
) -> Seq<char>
    decreases n,
{
    if n == 0 {
        Seq::empty()
    } else {
        noise_rows(state, (n - 1) as nat, width, ground, color) + noise_row_text(
            xorshift::shifted_by(state, ((n - 1) * width) as nat),
            n,
            width,
            ground,
            color,
        )
    }
}

/// The whole screen full of noise.
pub fn noise_screen(rng: &mut Rng, width: usize, height: usize, ground: &str, color: &str) -> (s:
    String)
    ensures
        s@ == noise_rows(old(rng).state(), height as nat, width as nat, ground@, color@),
        final(rng).state() == xorshift::shifted_by(old(rng).state(), (height * width) as nat),
{
    let mut s = String::new();
    let ghost from = rng.state();
    let mut r: usize = 0;
    proof {
        assert(s@ =~= noise_rows(from, 0, width as nat, ground@, color@));
        assert(0 * width == 0) by (nonlinear_arith);
    }
    while r < height
        invariant
            r <= height,
            s@ == noise_rows(from, r as nat, width as nat, ground@, color@),
            rng.state() == xorshift::shifted_by(from, (r * width) as nat),
        decreases height - r,
    {
        proof {
            let q = (r * width) as nat;
            xorshift::lemma_shifted_adds(from, q, width as nat);
            assert((r + 1) * width == q + width) by (nonlinear_arith)
                requires
                    q == r * width,
            ;
        }
        r += 1;
        let line = noise_row(rng, r, width, ground, color);
        s.append(line.as_str());
    }
    s
}

/// A line in the middle of a row that stays as it is.
pub open spec fn settled_row_text(
    row: nat,
    line: Seq<char>,
    width: usize,
    color: Seq<char>,
) -> Seq<char> {
    let pad = width::centred(line, width);
    at(row, 1) + C_BG_DARK@ + C_DIM@ + spaces(pad as nat) + color + line + C_BG_DARK@ + spaces(
        width::minus(width as int, pad + width::shown(line)),
    )
}

/// A line in the middle of a row that stays as it is.
pub fn settled_row(row: usize, line: &str, width: usize, color: &str) -> (s: String)
    ensures
        s@ == settled_row_text(row as nat, line@, width, color@),
{
    let pad: usize = center_pad(line, width);
    let mut s = cursor(row, 1);
    s.append(C_BG_DARK);
    s.append(C_DIM);
    text::push_repeated(&mut s, ' ', pad);
    s.append(color);
    s.append(line);
    s.append(C_BG_DARK);
    text::push_repeated(&mut s, ' ', left_over(width, pad, display_width(line)));
    s
}

/// A line of which the first `n` characters show, with noise behind them.
pub open spec fn reveal_frame_text(
    state: u64,
    row: nat,
    line: Seq<char>,
    n: nat,
    width: usize,
) -> Seq<char> {
    let pad = width::centred(line, width);
    let part = line.subrange(0, n as int);
    at(row, 1) + C_BG_DARK@ + C_DIM@ + spaces(pad as nat) + C_GREEN@ + part + C_BRIGHT_WHITE@
        + glyph::noise(state, reveal_noise(line, n, width)) + C_RESET@
}

/// How much noise stands behind the first `n` characters of a line.
pub open spec fn reveal_noise(line: Seq<char>, n: nat, width: usize) -> nat {
    width::minus(
        width as int,
        width::centred(line, width) + width::raw_columns(line.subrange(0, n as int)),
    )
}

/// A line of which the first `n` characters show, with noise behind them.
pub fn reveal_frame(rng: &mut Rng, row: usize, line: &str, n: usize, width: usize) -> (s: String)
    requires
        n <= line@.len(),
    ensures
        s@ == reveal_frame_text(old(rng).state(), row as nat, line@, n as nat, width),
        final(rng).state() == xorshift::shifted_by(
            old(rng).state(),
            reveal_noise(line@, n as nat, width),
        ),
{
    let pad: usize = center_pad(line, width);
    let chars = text::chars_of(line);
    let mut part = String::new();
    let mut shown: usize = 0;
    let mut i: usize = 0;
    proof {
        assert(part@ =~= line@.subrange(0, 0));
    }
    while i < n
        invariant
            i <= n <= line@.len(),
            chars@ == line@,
            part@ == line@.subrange(0, i as int),
            width::raw_columns(part@) <= usize::MAX ==> shown == width::raw_columns(part@),
            width::raw_columns(part@) > usize::MAX ==> shown == usize::MAX,
        decreases n - i,
    {
        let c = chars[i];
        let ghost before = part@;
        part.push(c);
        shown = shown.saturating_add(char_width(c));
        i += 1;
        proof {
            assert(part@ =~= line@.subrange(0, i as int));
            assert(part@.drop_last() =~= before);
        }
    }
    let g = rng.fill_line(left_over(width, pad, shown));
    let mut s = cursor(row, 1);
    s.append(C_BG_DARK);
    s.append(C_DIM);
    text::push_repeated(&mut s, ' ', pad);
    s.append(C_GREEN);
    s.append(part.as_str());
    s.append(C_BRIGHT_WHITE);
    s.append(g.as_str());
    s.append(C_RESET);
    s
}

/// A line across the screen.
pub fn hline(row: usize, width: usize, color: &str) -> (s: String)
    ensures
        s@ == at(row as nat, 1) + C_BG_DARK@ + color@ + text::repeated('═', width as nat)
            + C_RESET@,
{
    let mut s = cursor(row, 1);
    s.append(C_BG_DARK);
    s.append(color);
    text::push_repeated(&mut s, '═', width);
    s.append(C_RESET);
    s
}

/// What the status bar says.
pub open spec fn status_text(unlock_time: Seq<char>) -> Seq<char> {
    " UNLOCK: "@ + unlock_time + "  "@
}

/// The status bar in the last row. It is filled up by the bytes of its text.
pub open spec fn status_bar_text(width: nat, height: nat, unlock_time: Seq<char>) -> Seq<char> {
    let status = status_text(unlock_time);
    at(height, 1) + C_BG_BLACK@ + C_YELLOW@ + status + spaces(
        width::minus(width as int, vstd::utf8::encode_utf8(status).len() as int),
    ) + C_RESET@
}

/// The status bar in the last row.
pub fn status_bar(width: usize, height: usize, unlock_time: &str) -> (s: String)
    ensures
        s@ == status_bar_text(width as nat, height as nat, unlock_time@),
{
    let mut status = " UNLOCK: ".to_owned();
    status.append(unlock_time);
    status.append("  ");
    let used: usize = status.as_str().as_bytes().len();
    let mut s = cursor(height, 1);
    s.append(C_BG_BLACK);
    s.append(C_YELLOW);
    s.append(status.as_str());
    text::push_repeated(&mut s, ' ', width.saturating_sub(used));
    s.append(C_RESET);
    s
}

/// The cursor is moved by a control sequence with row and column, in this
/// order.
pub proof fn law_cursor(row: nat, col: nat)
    ensures
        at(row, col) == seq!['\x1b', '['] + text::decimal(row) + seq![';'] + text::decimal(col)
            + seq!['H'],
{
    reveal_strlit("\x1b[");
    reveal_strlit(";");
    reveal_strlit("H");
    assert("\x1b["@ =~= seq!['\x1b', '[']);
    assert(";"@ =~= seq![';']);
    assert("H"@ =~= seq!['H']);
}

/// A settled line stands in the middle of its row: the row is filled up on both
/// sides, so that the line and the blanks take exactly the width.
pub proof fn law_settled_row(row: nat, line: Seq<char>, width: usize, color: Seq<char>)
    requires
        width::shown(line) <= width,
    ensures
        ({
            let left = (width - width::shown(line)) / 2;
            let right = width - width::shown(line) - left;
            settled_row_text(row, line, width, color) == at(row, 1) + C_BG_DARK@ + C_DIM@
                + text::repeated(' ', left as nat) + color + line + C_BG_DARK@ + text::repeated(
                ' ',
                right as nat,
            )
        }),
{
}

/// A blank screen blanks every row from the first on, over its whole width.
pub proof fn law_blank_rows(row: nat, n: nat, width: nat, k: nat)
    requires
        k < n,
    ensures
        text::has_part(blank_rows(row, n, width), at(row + k, 1) + text::repeated(' ', width)),
    decreases n,
{
    let part = at(row + k, 1) + text::repeated(' ', width);
    let front = blank_rows(row, (n - 1) as nat, width);
    let whole = blank_rows(row, n, width);
    if k == n - 1 {
        assert(whole =~= front + part);
        let j = front.len() as int;
        assert(whole.subrange(j, j + part.len()) =~= part);
        assert(text::stands_at(whole, part, j));
    } else {
        law_blank_rows(row, (n - 1) as nat, width, k);
        let j = choose|j: int| #[trigger] text::stands_at(front, part, j);
        assert(whole.subrange(j, j + part.len()) =~= front.subrange(j, j + part.len()));
        assert(text::stands_at(whole, part, j));
    }
}

/// The status bar stands in the last row and says when the door opens.
pub proof fn law_status_bar(width: nat, height: nat, unlock_time: Seq<char>)
    ensures
        text::has_part(
            status_bar_text(width, height, unlock_time),
            at(height, 1) + C_BG_BLACK@ + C_YELLOW@ + " UNLOCK: "@ + unlock_time,
        ),
{
    let part = at(height, 1) + C_BG_BLACK@ + C_YELLOW@ + " UNLOCK: "@ + unlock_time;
    let whole = status_bar_text(width, height, unlock_time);
    assert(whole.subrange(0, part.len() as int) =~= part);
    assert(text::stands_at(whole, part, 0));
}

/// The control sequences for colours, for clearing the screen and for the
/// cursor.
pub proof fn law_control_sequences()
    ensures
        C_RESET@ == "\x1b[0m"@,
        C_DIM@ == "\x1b[2m"@,
        C_GREEN@ == "\x1b[32m"@,
        C_YELLOW@ == "\x1b[33m"@,
        C_BRIGHT_WHITE@ == "\x1b[97m"@,
        C_CYAN@ == "\x1b[36m"@,
        C_RED@ == "\x1b[31m"@,
        C_BG_DARK@ == "\x1b[48;5;234m"@,
        C_BG_BLACK@ == "\x1b[40m"@,
        CLEAR@ == "\x1b[2J\x1b[H"@,
        HIDE_CURSOR@ == "\x1b[?25l"@,
        SHOW_CURSOR@ == "\x1b[?25h"@,
{
}

} // verus!
