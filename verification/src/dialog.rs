//! The question whether to burn.
use vstd::prelude::*;

use crate::screen;
use crate::screen::{
    cursor, fill_background, C_BG_DARK, C_BRIGHT_WHITE, C_DIM, C_GREEN, C_RED, C_RESET,
};
use crate::script;
use crate::script::{put, Step, StepView};
use crate::text;
use crate::width;
use crate::width::display_width;

verus! {

pub const ASK_TITLE: &'static str = " ⚠ 烧毁警告 ";

pub const ASK_BODY: &'static str = " 密钥与档案即将永久销毁 ";

pub const ASK_BEFORE: &'static str = " 请输入字母  ";

pub const ASK_BEHIND: &'static str = "  以确认烧毁，";

pub const ASK_ELSE: &'static str = " 按其他任意键返回阅读。";

/// Whether a character is a small letter from a to z.
pub open spec fn is_small(c: char) -> bool {
    'a' <= c <= 'z'
}

/// The capital of a letter from a to z; other characters are their own.
pub open spec fn capital(c: char) -> char {
    if is_small(c) {
        ((c as u8 - 32) as u8) as char
    } else {
        c
    }
}

/// The letter that a drawn number asks for.
pub open spec fn letter_of(x: u64) -> char {
    ((0x41 + x % 26) as u8) as char
}

/// The capital of a letter from a to z; other characters are their own.
pub fn to_capital(c: char) -> (r: char)
    ensures
        r == capital(c),
{
    if 'a' <= c && c <= 'z' {
        let code: u8 = c as u8 - 32;
        code as char
    } else {
        c
    }
}

/// The letter that a drawn number asks for.
pub fn ask_letter(x: u64) -> (c: char)
    ensures
        c == letter_of(x),
        'A' <= c <= 'Z',
{
    let code: u8 = 0x41 + (x % 26) as u8;
    code as char
}

/// Whether the answer is yes. Where nobody sits at the keyboard it is; else it
/// is where the key is the letter asked for, in either case.
pub fn confirm_dialog(at_keyboard: bool, key: Option<u8>, target: char) -> (yes: bool)
    ensures
        yes == (!at_keyboard || match key {
            Some(b) => capital(b as char) == capital(target),
            None => false,
        }),
{
    if !at_keyboard {
        return true;
    }
    match key {
        Some(b) => to_capital(b as char) == to_capital(target),
        None => false,
    }
}

/// The line that asks for the letter.
pub open spec fn ask_line(letter: char) -> Seq<char> {
    ASK_BEFORE@ + seq![letter] + ASK_BEHIND@
}

/// The larger of two numbers.
pub open spec fn larger(a: int, b: int) -> int {
    if a >= b {
        a
    } else {
        b
    }
}

/// Columns inside the box: room for every line and a column on each side.
pub open spec fn inner_columns(letter: char) -> int {
    larger(
        larger(
            larger(larger(6, width::shown(ASK_TITLE@) + 2), width::shown(ASK_BODY@) + 2),
            width::shown(ask_line(letter)) + 2,
        ),
        width::shown(ASK_ELSE@) + 2,
    )
}

/// The first row of the box, which has six.
pub open spec fn box_top(height: usize) -> nat {
    width::minus(height as int, 6) / 2 + 1
}

/// The first column of the box.
pub open spec fn box_left(inner: int, width: usize) -> nat {
    width::minus(width as int, inner + 2) / 2 + 1
}

/// The upper or lower edge of the box.
pub open spec fn edge_text(
    row: nat,
    left: nat,
    inner: nat,
    from: Seq<char>,
    to: Seq<char>,
) -> Seq<char> {
    screen::at(row, left) + C_BG_DARK@ + C_RED@ + (from + text::repeated('═', inner) + to)
        + C_RESET@
}

/// Columns to the left of a line inside the box.
pub open spec fn inset(line: Seq<char>, inner: int) -> nat {
    ((inner - width::shown(line)) / 2) as nat
}

/// Columns to the right of a line inside the box.
pub open spec fn outset(line: Seq<char>, inner: int) -> nat {
    (inner - width::shown(line) - inset(line, inner)) as nat
}

/// A line inside the box.
pub open spec fn box_row_text(
    row: nat,
    left: nat,
    line: Seq<char>,
    inner: int,
    color: Seq<char>,
) -> Seq<char> {
    screen::at(row, left) + C_BG_DARK@ + color + "║"@ + screen::spaces(inset(line, inner)) + line
        + screen::spaces(outset(line, inner)) + "║"@ + C_RESET@ + C_BG_DARK@
}

/// Where a character stands first.
pub open spec fn first_at(line: Seq<char>, c: char, i: int) -> bool {
    &&& 0 <= i < line.len()
    &&& line[i] == c
    &&& forall|j: int| 0 <= j < i ==> line[j] != c
}

/// The line that asks for the letter, with the letter in another colour.
pub open spec fn ask_row_text(row: nat, left: nat, letter: char, inner: int) -> Seq<char> {
    let line = ask_line(letter);
    let k = choose|k: int| first_at(line, letter, k);
    screen::at(row, left) + C_BG_DARK@ + C_DIM@ + "║"@ + screen::spaces(inset(line, inner))
        + line.subrange(0, k) + C_GREEN@ + seq![letter] + C_BRIGHT_WHITE@ + line.subrange(
        k + 1,
        line.len() as int,
    ) + screen::spaces(outset(line, inner)) + "║"@ + C_RESET@
}

/// The box in the middle of a screen that shows nothing else.
pub open spec fn dialog_text(width: usize, height: usize, target: char) -> Seq<char> {
    let letter = capital(target);
    let inner = inner_columns(letter);
    let top = box_top(height);
    let left = box_left(inner, width);
    C_BG_DARK@ + screen::blank_rows(1, height as nat, width as nat) + edge_text(
        top,
        left,
        inner as nat,
        "╔"@,
        "╗"@,
    ) + box_row_text(top + 1, left, ASK_TITLE@, inner, C_RED@) + box_row_text(top + 2, left, ASK_BODY@, inner, C_DIM@) + ask_row_text(
        top + 3,
        left,
        letter,
        inner,
    ) + box_row_text(top + 4, left, ASK_ELSE@, inner, C_DIM@) + edge_text(
        top + 5,
        left,
        inner as nat,
        "╚"@,
        "╝"@,
    )
}

/// A text takes at most two columns for each character.
proof fn lemma_shown_bound(s: Seq<char>)
    ensures
        width::text_columns(s) <= 2 * s.len(),
    decreases s.len(),
{
    if s.len() > 0 {
        lemma_shown_bound(s.drop_last());
    }
}

/// Every line fits into the box, and the box is narrow.
proof fn lemma_inner(letter: char)
    ensures
        inner_columns(letter) <= 100,
        width::shown(ASK_TITLE@) + 2 <= inner_columns(letter),
        width::shown(ASK_BODY@) + 2 <= inner_columns(letter),
        width::shown(ask_line(letter)) + 2 <= inner_columns(letter),
        width::shown(ASK_ELSE@) + 2 <= inner_columns(letter),
{
    reveal_strlit(" ⚠ 烧毁警告 ");
    reveal_strlit(" 密钥与档案即将永久销毁 ");
    reveal_strlit(" 请输入字母  ");
    reveal_strlit("  以确认烧毁，");
    reveal_strlit(" 按其他任意键返回阅读。");
    lemma_shown_bound(ASK_TITLE@);
    lemma_shown_bound(ASK_BODY@);
    lemma_shown_bound(ask_line(letter));
    lemma_shown_bound(ASK_ELSE@);
}

fn max(a: usize, b: usize) -> (r: usize)
    ensures
        r == larger(a as int, b as int),
{
    if a >= b {
        a
    } else {
        b
    }
}

fn edge(row: usize, left: usize, inner: usize, from: &str, to: &str) -> (s: String)
    ensures
        s@ == edge_text(row as nat, left as nat, inner as nat, from@, to@),
{
    let mut line = from.to_owned();
    text::push_repeated(&mut line, '═', inner);
    line.append(to);
    let mut s = cursor(row, left);
    s.append(C_BG_DARK);
    s.append(C_RED);
    s.append(line.as_str());
    s.append(C_RESET);
    s
}

fn box_row(row: usize, left: usize, line: &str, inner: usize, color: &str) -> (s: String)
    requires
        width::shown(line@) <= inner,
    ensures
        s@ == box_row_text(row as nat, left as nat, line@, inner as int, color@),
{
    let shown: usize = display_width(line);
    let before: usize = (inner - shown) / 2;
    let behind: usize = inner - shown - before;
    let mut s = cursor(row, left);
    s.append(C_BG_DARK);
    s.append(color);
    s.append("║");
    text::push_repeated(&mut s, ' ', before);
    s.append(line);
    text::push_repeated(&mut s, ' ', behind);
    s.append("║");
    s.append(C_RESET);
    s.append(C_BG_DARK);
    s
}

fn find_char(line: &[char], c: char) -> (k: usize)
    requires
        line@.contains(c),
    ensures
        first_at(line@, c, k as int),
{
    let mut k: usize = 0;
    while line[k] != c
        invariant
            line@.contains(c),
            k < line@.len(),
            forall|j: int| 0 <= j < k ==> line@[j] != c,
        decreases line@.len() - k,
    {
        k += 1;
        proof {
            if k == line@.len() {
                let j = choose|j: int| 0 <= j < line@.len() && line@[j] == c;
                assert(line@[j] != c);
            }
        }
    }
    k
}

proof fn lemma_first_at_unique(line: Seq<char>, c: char, i: int, k: int)
    requires
        first_at(line, c, i),
        first_at(line, c, k),
    ensures
        i == k,
{
    if i < k {
        assert(line[i] != c);
    } else if k < i {
        assert(line[k] != c);
    }
}

fn ask_row(row: usize, left: usize, letter: char, inner: usize) -> (s: String)
    requires
        width::shown(ask_line(letter)) <= inner,
    ensures
        s@ == ask_row_text(row as nat, left as nat, letter, inner as int),
{
    let mut line = ASK_BEFORE.to_owned();
    line.push(letter);
    line.append(ASK_BEHIND);
    proof {
        assert(line@ =~= ask_line(letter));
        assert(ask_line(letter)[ASK_BEFORE@.len() as int] == letter);
    }
    let chars = text::chars_of(line.as_str());
    let k: usize = find_char(chars.as_slice(), letter);
    let len: usize = chars.len();
    proof {
        let chosen = choose|j: int| first_at(ask_line(letter), letter, j);
        lemma_first_at_unique(ask_line(letter), letter, k as int, chosen);
    }
    let a = text::string_of(vstd::slice::slice_subrange(chars.as_slice(), 0, k));
    let b = text::string_of(vstd::slice::slice_subrange(chars.as_slice(), k + 1, len));
    let shown: usize = display_width(line.as_str());
    let before: usize = (inner - shown) / 2;
    let behind: usize = inner - shown - before;
    let mut lit = String::new();
    lit.push(letter);
    proof {
        assert(lit@ =~= seq![letter]);
    }
    let mut s = cursor(row, left);
    s.append(C_BG_DARK);
    s.append(C_DIM);
    s.append("║");
    text::push_repeated(&mut s, ' ', before);
    s.append(a.as_str());
    s.append(C_GREEN);
    s.append(lit.as_str());
    s.append(C_BRIGHT_WHITE);
    s.append(b.as_str());
    text::push_repeated(&mut s, ' ', behind);
    s.append("║");
    s.append(C_RESET);
    s
}

fn inner_width(letter: char) -> (n: usize)
    ensures
        n == inner_columns(letter),
{
    let mut line = ASK_BEFORE.to_owned();
    line.push(letter);
    line.append(ASK_BEHIND);
    proof {
        assert(line@ =~= ask_line(letter));
        lemma_inner(letter);
    }
    let a: usize = max(6, display_width(ASK_TITLE) + 2);
    let b: usize = max(a, display_width(ASK_BODY) + 2);
    let c: usize = max(b, display_width(line.as_str()) + 2);
    max(c, display_width(ASK_ELSE) + 2)
}

/// The box that asks for a letter, in the middle of the screen, and a sign of
/// life.
pub fn show_dialog(width: usize, height: usize, target: char) -> (r: Vec<Step>)
    requires
        (target as u32) < 0x80,
    ensures
        script::steps(r@) == seq![
            StepView::Print(dialog_text(width, height, target)),
            StepView::Feed,
        ],
{
    let letter = to_capital(target);
    let inner: usize = inner_width(letter);
    proof {
        lemma_inner(letter);
    }
    let left: usize = width.saturating_sub(inner + 2) / 2 + 1;
    let top: usize = height.saturating_sub(6) / 2 + 1;
    let mut s = fill_background(width, height);
    s.append(edge(top, left, inner, "╔", "╗").as_str());
    s.append(box_row(top + 1, left, ASK_TITLE, inner, C_RED).as_str());
    s.append(box_row(top + 2, left, ASK_BODY, inner, C_DIM).as_str());
    s.append(ask_row(top + 3, left, letter, inner).as_str());
    s.append(box_row(top + 4, left, ASK_ELSE, inner, C_DIM).as_str());
    s.append(edge(top + 5, left, inner, "╚", "╝").as_str());
    let ghost view = s@;
    let mut out: Vec<Step> = Vec::new();
    put(&mut out, Step::Print(s));
    put(&mut out, Step::Feed);
    proof {
        assert(script::steps(out@) =~= seq![StepView::Print(view), StepView::Feed]);
    }
    out
}

/// The capital of a small letter is 32 codes below it; every other character is
/// its own capital.
pub proof fn law_capitals(c: char)
    ensures
        0x61 <= c as u32 <= 0x7a ==> capital(c) as u32 == c as u32 - 32,
        !(0x61 <= c as u32 <= 0x7a) ==> capital(c) == c,
{
}

/// Every letter from A to Z can be asked for, and nothing else.
pub proof fn law_letters_asked_for(x: u64, k: u64)
    requires
        k < 26,
    ensures
        0x41 <= letter_of(x) as u32 <= 0x5a,
        letter_of(k) as u32 == 0x41 + k,
        letter_of(x) == letter_of((x % 26) as u64),
{
}

/// The box stands in the middle of a screen that is blank otherwise, and asks
/// for the letter, which stands out by its colour.
pub proof fn law_dialog_asks(width: usize, height: usize, target: char)
    ensures
        text::has_part(
            dialog_text(width, height, target),
            C_GREEN@ + seq![capital(target)] + C_BRIGHT_WHITE@,
        ),
        ({
            let ground = C_BG_DARK@ + screen::blank_rows(1, height as nat, width as nat);
            ground.is_prefix_of(dialog_text(width, height, target))
        }),
        height >= 6 ==> box_top(height) - 1 <= height - 6 - (box_top(height) - 1) <= box_top(height),
{
    let letter = capital(target);
    let inner = inner_columns(letter);
    let top = box_top(height);
    let left = box_left(inner, width);
    let part = C_GREEN@ + seq![letter] + C_BRIGHT_WHITE@;
    let ground = C_BG_DARK@ + screen::blank_rows(1, height as nat, width as nat);
    let t1 = edge_text(top, left, inner as nat, "╔"@, "╗"@);
    let t2 = box_row_text(top + 1, left, ASK_TITLE@, inner, C_RED@);
    let t3 = box_row_text(top + 2, left, ASK_BODY@, inner, C_DIM@);
    let ask = ask_row_text(top + 3, left, letter, inner);
    let t5 = box_row_text(top + 4, left, ASK_ELSE@, inner, C_DIM@);
    let t6 = edge_text(top + 5, left, inner as nat, "╚"@, "╝"@);
    lemma_ask_row_asks(top + 3, left, letter, inner);
    let front = ground + t1 + t2 + t3;
    text::lemma_part_of_longer(front, ask, part);
    text::lemma_part_of_longer(front + ask, t5, part);
    text::lemma_part_of_longer(front + ask + t5, t6, part);
    lemma_prefix_stays(ground, t1, ground);
    lemma_prefix_stays(ground + t1, t2, ground);
    lemma_prefix_stays(ground + t1 + t2, t3, ground);
    lemma_prefix_stays(front, ask, ground);
    lemma_prefix_stays(front + ask, t5, ground);
    lemma_prefix_stays(front + ask + t5, t6, ground);
}

proof fn lemma_prefix_stays(a: Seq<char>, b: Seq<char>, p: Seq<char>)
    ensures
        p.is_prefix_of(p),
        p.is_prefix_of(a) ==> p.is_prefix_of(a + b),
{
    assert(p.subrange(0, p.len() as int) =~= p);
    if p.is_prefix_of(a) {
        assert((a + b).subrange(0, p.len() as int) =~= a.subrange(0, p.len() as int));
    }
}

proof fn lemma_ask_row_asks(row: nat, left: nat, letter: char, inner: int)
    ensures
        text::has_part(
            ask_row_text(row, left, letter, inner),
            C_GREEN@ + seq![letter] + C_BRIGHT_WHITE@,
        ),
{
    let part = C_GREEN@ + seq![letter] + C_BRIGHT_WHITE@;
    let line = ask_line(letter);
    let k = choose|k: int| first_at(line, letter, k);
    let ahead = screen::at(row, left) + C_BG_DARK@ + C_DIM@ + "║"@ + screen::spaces(
        inset(line, inner),
    ) + line.subrange(0, k);
    let rest = line.subrange(k + 1, line.len() as int);
    let gap = screen::spaces(outset(line, inner));
    assert(ahead + C_GREEN@ + seq![letter] + C_BRIGHT_WHITE@ =~= ahead + part);
    text::lemma_part_of_longer(ahead, part, part);
    text::lemma_part_of_longer(ahead + part, rest, part);
    text::lemma_part_of_longer(ahead + part + rest, gap, part);
    text::lemma_part_of_longer(ahead + part + rest + gap, "║"@, part);
    text::lemma_part_of_longer(ahead + part + rest + gap + "║"@, C_RESET@, part);
}

} // verus!
