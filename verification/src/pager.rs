//! Reading a text page by page.
use vstd::prelude::*;

use crate::screen;
use crate::screen::{cursor, C_BG_DARK, C_DIM, C_GREEN, C_RESET, C_YELLOW};
use crate::text;
use crate::width;
use crate::width::{center_pad, display_width, wrap_line};

verus! {

/// The first row of a page.
pub const BODY_TOP: usize = 4;

/// The last row of a page.
pub open spec fn body_bottom(height: usize) -> nat {
    width::minus(height as int, 3)
}

/// Rows of a page.
pub open spec fn rows_per_page(height: usize) -> nat {
    width::minus(body_bottom(height) as int, 4) + 1
}

/// All lines, broken to the width of the screen.
pub open spec fn broken(lines: Seq<Seq<char>>, width: usize) -> Seq<Seq<char>>
    decreases lines.len(),
{
    if lines.len() == 0 {
        Seq::empty()
    } else {
        broken(lines.drop_last(), width) + width::wrapped(lines.last(), width)
    }
}

/// Breaks all lines to the width of the screen.
pub fn break_lines(lines: &[String], width: usize) -> (rows: Vec<String>)
    ensures
        text::views(rows@) == broken(text::views(lines@), width),
{
    let mut rows: Vec<String> = Vec::new();
    let ghost all = text::views(lines@);
    let mut i: usize = 0;
    proof {
        assert(all.subrange(0, 0) =~= Seq::empty());
        assert(text::views(rows@) =~= Seq::empty());
    }
    while i < lines.len()
        invariant
            i <= lines@.len(),
            all == text::views(lines@),
            text::views(rows@) == broken(all.subrange(0, i as int), width),
        decreases lines@.len() - i,
    {
        let ghost before = text::views(rows@);
        let mut chunk = wrap_line(lines[i].as_str(), width);
        let ghost chunk_view = text::views(chunk@);
        rows.append(&mut chunk);
        i += 1;
        proof {
            assert(text::views(rows@) =~= before + chunk_view);
            assert(all.subrange(0, i as int).drop_last() =~= all.subrange(0, i - 1));
            assert(all.subrange(0, i as int).last() == lines@[i - 1]@);
        }
    }
    proof {
        assert(all.subrange(0, lines@.len() as int) =~= all);
    }
    rows
}

/// How many pages `rows` rows make: at least one, which may be empty.
pub open spec fn page_count(rows: nat, per_page: nat) -> nat {
    if rows == 0 {
        1
    } else {
        ((rows + per_page - 1) / per_page as int) as nat
    }
}

/// Where a reader stands.
pub struct Pager {
    rows: usize,
    per_page: usize,
    page: usize,
    asking: bool,
}

/// A key that a reader presses.
#[derive(Clone, Copy, PartialEq, Eq, Structural, Debug)]
pub enum Nav {
    Next,
    Prev,
    Burn,
}

/// What follows from a key.
#[derive(Clone, Copy, PartialEq, Eq, Structural, Debug)]
pub enum Turn {
    /// Another page is to be drawn.
    Redraw,
    /// Nothing changes.
    Stay,
    /// The reader leaves; nothing is burnt.
    Leave,
    /// The reader is asked whether to burn.
    Ask,
}

/// What the reader is told.
#[derive(Clone, Copy, PartialEq, Eq, Structural, Debug)]
pub enum ReaderEvent {
    /// Nobody sits at a keyboard.
    NoTerminal,
    /// A key was pressed.
    Key(Nav),
    /// The question was answered.
    Answer(bool),
}

/// What the reader does next.
#[derive(Clone, Copy, PartialEq, Eq, Structural, Debug)]
pub enum ReaderAction {
    /// The page is drawn, and a key awaited.
    Redraw,
    /// A key is awaited.
    Stay,
    /// Whether to burn is asked.
    Ask,
    /// Reading ends; nothing is burnt.
    Leave,
    /// Reading ends, and everything is burnt.
    Burn,
}

/// Where reading stands: the page, and whether an answer is awaited.
pub struct ReaderView {
    pub page: int,
    pub asking: bool,
}

impl Pager {
    pub closed spec fn rows(self) -> nat {
        self.rows as nat
    }

    pub closed spec fn per_page(self) -> nat {
        self.per_page as nat
    }

    pub closed spec fn page(self) -> nat {
        self.page as nat
    }

    /// Whether an answer is awaited.
    pub closed spec fn asking(self) -> bool {
        self.asking
    }

    /// Where reading stands.
    pub open spec fn reader(self) -> ReaderView {
        ReaderView { page: self.page() as int, asking: self.asking() }
    }

    /// How many pages there are.
    pub open spec fn pages(self) -> nat {
        page_count(self.rows(), self.per_page())
    }

    /// The reader stands on a page that exists.
    pub open spec fn wf(self) -> bool {
        &&& self.per_page() > 0
        &&& self.page() < self.pages()
        &&& self.pages() <= usize::MAX
    }

    /// The first row of the page.
    pub open spec fn first(self) -> int {
        (self.page() * self.per_page()) as int
    }

    /// The row behind the last one of the page.
    pub open spec fn end(self) -> int {
        let full = self.first() + self.per_page();
        if full <= self.rows() {
            full
        } else {
            self.rows() as int
        }
    }

    /// The first page of a text of so many rows.
    pub fn new(rows: usize, height: usize) -> (p: Pager)
        ensures
            p.wf(),
            p.rows() == rows,
            p.per_page() == rows_per_page(height),
            p.page() == 0,
            !p.asking(),
    {
        let bottom: usize = height.saturating_sub(3);
        let per_page: usize = bottom.saturating_sub(BODY_TOP) + 1;
        let p = Pager { rows, per_page, page: 0, asking: false };
        proof {
            lemma_page_count(rows as nat, per_page as nat);
        }
        p
    }

    /// How many pages there are.
    pub fn count(&self) -> (n: usize)
        requires
            self.wf(),
        ensures
            n == self.pages(),
    {
        if self.rows == 0 {
            1
        } else {
            proof {
                lemma_page_count(self.rows as nat, self.per_page as nat);
                lemma_round_up(self.rows as int, self.per_page as int);
            }
            (self.rows - 1) / self.per_page + 1
        }
    }

    /// The rows of the page: the first one, and the one behind the last.
    pub fn span(&self) -> (r: (usize, usize))
        requires
            self.wf(),
        ensures
            r.0 == self.first(),
            r.1 == self.end(),
            r.0 <= r.1 <= self.rows(),
    {
        proof {
            lemma_page_start(self.rows as nat, self.per_page as nat, self.page as nat);
        }
        let first: usize = self.page * self.per_page;
        let end: usize = if self.rows - first < self.per_page {
            self.rows
        } else {
            first + self.per_page
        };
        (first, end)
    }

    /// What a key does.
    pub fn turn(&mut self, key: Nav, allow_burn: bool) -> (t: Turn)
        requires
            old(self).wf(),
        ensures
            final(self).wf(),
            final(self).rows() == old(self).rows(),
            final(self).per_page() == old(self).per_page(),
            (final(self).page() as int, t) == turned(*old(self), key, allow_burn),
            final(self).asking() == old(self).asking(),
    {
        match key {
            Nav::Next => {
                if self.page < self.count() - 1 {
                    self.page = self.page + 1;
                    Turn::Redraw
                } else {
                    Turn::Stay
                }
            },
            Nav::Prev => {
                if self.page > 0 {
                    self.page = self.page - 1;
                    Turn::Redraw
                } else {
                    Turn::Stay
                }
            },
            Nav::Burn => if allow_burn {
                Turn::Ask
            } else {
                Turn::Leave
            },
        }
    }
}

/// The page that a key leads to, and what follows: on the last page there is no
/// next one, on the first no previous one, and the burn key burns nothing where
/// burning is not allowed.
pub open spec fn turned(p: Pager, key: Nav, allow_burn: bool) -> (int, Turn) {
    turned_at(p.page() as int, p.pages(), key, allow_burn)
}

/// The page that a key leads to from a page, and what follows.
pub open spec fn turned_at(page: int, pages: nat, key: Nav, allow_burn: bool) -> (int, Turn) {
    match key {
        Nav::Next => if page + 1 < pages {
            (page + 1, Turn::Redraw)
        } else {
            (page, Turn::Stay)
        },
        Nav::Prev => if page > 0 {
            (page - 1, Turn::Redraw)
        } else {
            (page, Turn::Stay)
        },
        Nav::Burn => (
            page,
            if allow_burn {
                Turn::Ask
            } else {
                Turn::Leave
            },
        ),
    }
}

/// Where an event leads in a text of so many pages, and what the reader does.
/// Without a terminal, reading ends at once. A yes to the question burns; a no
/// draws the page again. An answer that nobody asked for changes nothing.
pub open spec fn read_on(pages: nat, s: ReaderView, e: ReaderEvent, allow_burn: bool) -> (
    ReaderView,
    ReaderAction,
) {
    match e {
        ReaderEvent::NoTerminal => (ReaderView { asking: false, ..s }, ReaderAction::Leave),
        ReaderEvent::Key(key) => {
            let (page, t) = turned_at(s.page, pages, key, allow_burn);
            (
                ReaderView { page, asking: t == Turn::Ask },
                match t {
                    Turn::Redraw => ReaderAction::Redraw,
                    Turn::Stay => ReaderAction::Stay,
                    Turn::Leave => ReaderAction::Leave,
                    Turn::Ask => ReaderAction::Ask,
                },
            )
        },
        ReaderEvent::Answer(yes) => (
            ReaderView { asking: false, ..s },
            if !s.asking || !allow_burn {
                ReaderAction::Stay
            } else if yes {
                ReaderAction::Burn
            } else {
                ReaderAction::Redraw
            },
        ),
    }
}

/// One step of reading.
pub fn reader_step(p: &mut Pager, e: ReaderEvent, allow_burn: bool) -> (a: ReaderAction)
    requires
        old(p).wf(),
    ensures
        final(p).wf(),
        final(p).rows() == old(p).rows(),
        final(p).per_page() == old(p).per_page(),
        (final(p).reader(), a) == read_on(old(p).pages(), old(p).reader(), e, allow_burn),
{
    match e {
        ReaderEvent::NoTerminal => {
            p.asking = false;
            ReaderAction::Leave
        },
        ReaderEvent::Key(key) => {
            let t: Turn = p.turn(key, allow_burn);
            p.asking = t == Turn::Ask;
            match t {
                Turn::Redraw => ReaderAction::Redraw,
                Turn::Stay => ReaderAction::Stay,
                Turn::Leave => ReaderAction::Leave,
                Turn::Ask => ReaderAction::Ask,
            }
        },
        ReaderEvent::Answer(yes) => {
            let asked: bool = p.asking;
            p.asking = false;
            if !asked || !allow_burn {
                ReaderAction::Stay
            } else if yes {
                ReaderAction::Burn
            } else {
                ReaderAction::Redraw
            }
        },
    }
}

/// What reading comes to over a row of events: whether to burn, once it has
/// ended.
pub open spec fn reading_ends(
    pages: nat,
    s: ReaderView,
    events: Seq<ReaderEvent>,
    allow_burn: bool,
) -> Option<bool>
    decreases events.len(),
{
    if events.len() == 0 {
        None
    } else {
        let (next, a) = read_on(pages, s, events[0], allow_burn);
        match a {
            ReaderAction::Leave => Some(false),
            ReaderAction::Burn => Some(true),
            _ => reading_ends(pages, next, events.drop_first(), allow_burn),
        }
    }
}

/// Whether event number `i` is the burn key, and the next one a yes.
pub open spec fn confirmed_at(events: Seq<ReaderEvent>, i: int) -> bool {
    0 <= i && i + 1 < events.len() && events[i] == ReaderEvent::Key(Nav::Burn) && events[i + 1]
        == ReaderEvent::Answer(true)
}

/// Whether the burn key is followed by a yes somewhere in a row of events.
pub open spec fn confirmed(events: Seq<ReaderEvent>) -> bool {
    exists|i: int| confirmed_at(events, i)
}

proof fn lemma_burn_is_confirmed(
    pages: nat,
    s: ReaderView,
    events: Seq<ReaderEvent>,
    allow_burn: bool,
)
    ensures
        reading_ends(pages, s, events, allow_burn) == Some(true) ==> allow_burn && (confirmed(
            events,
        ) || (s.asking && events[0] == ReaderEvent::Answer(true))),
    decreases events.len(),
{
    if events.len() > 0 {
        let (next, a) = read_on(pages, s, events[0], allow_burn);
        let rest = events.drop_first();
        lemma_burn_is_confirmed(pages, next, rest, allow_burn);
        if reading_ends(pages, s, events, allow_burn) == Some(true) && a != ReaderAction::Burn {
            if confirmed(rest) {
                let i = choose|i: int| confirmed_at(rest, i);
                assert(confirmed_at(events, i + 1));
            } else {
                assert(rest.len() > 0);
                assert(confirmed_at(events, 0));
            }
        }
    }
}

/// Whatever happens while a text is read, it is burnt only where that is
/// allowed, and only after the burn key was pressed and the question that
/// followed was answered with yes.
pub proof fn law_burn_only_on_a_yes(
    pages: nat,
    s: ReaderView,
    events: Seq<ReaderEvent>,
    allow_burn: bool,
)
    requires
        !s.asking,
    ensures
        reading_ends(pages, s, events, allow_burn) == Some(true) ==> allow_burn && confirmed(
            events,
        ),
{
    lemma_burn_is_confirmed(pages, s, events, allow_burn);
}

/// Without a terminal nothing is burnt, and no key is read.
pub proof fn law_no_burn_without_terminal(
    pages: nat,
    s: ReaderView,
    events: Seq<ReaderEvent>,
    allow_burn: bool,
)
    requires
        events.len() > 0,
        events[0] == ReaderEvent::NoTerminal,
    ensures
        reading_ends(pages, s, events, allow_burn) == Some(false),
{
}

/// Whoever presses the burn key and then says no reads on at the same page.
pub proof fn law_no_keeps_the_page(pages: nat, s: ReaderView)
    ensures
        read_on(
            pages,
            read_on(pages, s, ReaderEvent::Key(Nav::Burn), true).0,
            ReaderEvent::Answer(false),
            true,
        ) == (ReaderView { page: s.page, asking: false }, ReaderAction::Redraw),
{
}

proof fn lemma_round_up(rows: int, per_page: int)
    by (nonlinear_arith)
    requires
        rows > 0,
        per_page > 0,
    ensures
        (rows + per_page - 1) / per_page == (rows - 1) / per_page + 1,
{
}

proof fn lemma_page_count(rows: nat, per_page: nat)
    requires
        per_page > 0,
    ensures
        1 <= page_count(rows, per_page),
        rows > 0 ==> page_count(rows, per_page) <= rows,
        rows > 0 ==> (page_count(rows, per_page) - 1) * per_page < rows,
        rows <= page_count(rows, per_page) * per_page,
{
    if rows > 0 {
        let r = rows as int;
        let p = per_page as int;
        lemma_round_up(r, p);
        let q = (r - 1) / p;
        assert(0 <= q <= r - 1 && q * p <= r - 1 && r - 1 < (q + 1) * p) by (nonlinear_arith)
            requires
                r > 0,
                p > 0,
                q == (r - 1) / p,
        ;
    } else {
        assert(rows <= 1 * per_page);
    }
}

proof fn lemma_page_start(rows: nat, per_page: nat, page: nat)
    requires
        per_page > 0,
        page < page_count(rows, per_page),
    ensures
        page * per_page <= rows,
{
    lemma_page_count(rows, per_page);
    let last = (page_count(rows, per_page) - 1) as nat;
    assert(page * per_page <= last * per_page) by (nonlinear_arith)
        requires
            page <= last,
    ;
    if rows == 0 {
        assert(page * per_page == 0) by (nonlinear_arith)
            requires
                page == 0,
        ;
    }
}

/// Every row of a text stands on one page and on no other.
pub proof fn law_pages_partition(p: Pager, row: int)
    requires
        p.wf(),
        0 <= row < p.rows(),
    ensures
        0 <= row / (p.per_page() as int) < p.pages(),
        (p.first() <= row < p.end()) <==> p.page() == row / (p.per_page() as int),
{
    let per = p.per_page() as int;
    let q = row / per;
    let page = p.page() as int;
    let rows = p.rows() as int;
    lemma_page_count(p.rows(), p.per_page());
    assert(0 <= q && q * per <= row < q * per + per) by (nonlinear_arith)
        requires
            q == row / per,
            per > 0,
            row >= 0,
    ;
    let n = p.pages() as int;
    assert(q < n) by (nonlinear_arith)
        requires
            q * per <= row,
            row < rows,
            rows <= n * per,
            per > 0,
    ;
    if page < q {
        assert(page * per + per <= q * per) by (nonlinear_arith)
            requires
                page + 1 <= q,
                per > 0,
        ;
    } else if page > q {
        assert(q * per + per <= page * per) by (nonlinear_arith)
            requires
                q + 1 <= page,
                per > 0,
        ;
    }
}

/// Where there is a next page, the previous page of it is the one before.
pub proof fn law_next_then_prev(p: Pager, q: Pager, allow_burn: bool)
    requires
        p.wf(),
        q.wf(),
        q.rows() == p.rows(),
        q.per_page() == p.per_page(),
        turned(p, Nav::Next, allow_burn) == (q.page() as int, Turn::Redraw),
    ensures
        turned(q, Nav::Prev, allow_burn) == (p.page() as int, Turn::Redraw),
{
}

/// Where burning is not allowed, no key leads to the question.
pub proof fn law_no_burn_before_time(p: Pager, key: Nav)
    ensures
        turned(p, key, false).1 != Turn::Ask,
{
}

/// A row of a page.
pub open spec fn page_row_text(row: nat, line: Seq<char>, width: usize) -> Seq<char> {
    let pad = width::centred(line, width);
    screen::at(row, 1) + C_BG_DARK@ + C_DIM@ + screen::spaces(pad as nat) + C_GREEN@ + line
        + C_RESET@ + C_BG_DARK@ + screen::spaces(
        width::minus(width as int, pad + width::shown(line)),
    )
}

/// The first `n` rows of a page whose first row is `first`.
pub open spec fn page_rows_text(
    content: Seq<Seq<char>>,
    first: int,
    n: nat,
    width: usize,
) -> Seq<char>
    decreases n,
{
    if n == 0 {
        Seq::empty()
    } else {
        page_rows_text(content, first, (n - 1) as nat, width) + page_row_text(
            (4 + n - 1) as nat,
            content[first + n - 1],
            width,
        )
    }
}

/// `n` empty rows, from `row` on.
pub open spec fn gap_text(row: nat, n: nat, width: usize) -> Seq<char>
    decreases n,
{
    if n == 0 {
        Seq::empty()
    } else {
        gap_text(row, (n - 1) as nat, width) + (screen::at((row + n - 1) as nat, 1) + C_BG_DARK@
            + screen::spaces(width as nat) + C_RESET@)
    }
}

/// How many rows of a page fit between its first and its last row.
pub open spec fn rows_drawn(n: int, height: usize) -> nat {
    let room = width::minus((body_bottom(height) + 1) as int, 4);
    if n <= room {
        n as nat
    } else {
        room
    }
}

/// A page: its rows, and nothing in the rows under them.
pub open spec fn page_text(content: Seq<Seq<char>>, p: Pager, width: usize, height: usize) -> Seq<
    char,
> {
    let n = rows_drawn(p.end() - p.first(), height);
    page_rows_text(content, p.first(), n, width) + gap_text(
        4 + n,
        width::minus((body_bottom(height) + 1) as int, 4 + n as int),
        width,
    )
}

fn page_row(row: usize, line: &str, width: usize) -> (s: String)
    ensures
        s@ == page_row_text(row as nat, line@, width),
{
    let pad: usize = center_pad(line, width);
    let used: usize = pad.saturating_add(display_width(line));
    let mut s = cursor(row, 1);
    s.append(C_BG_DARK);
    s.append(C_DIM);
    text::push_repeated(&mut s, ' ', pad);
    s.append(C_GREEN);
    s.append(line);
    s.append(C_RESET);
    s.append(C_BG_DARK);
    text::push_repeated(&mut s, ' ', width.saturating_sub(used));
    s
}

fn gap_row(row: usize, width: usize) -> (s: String)
    ensures
        s@ == screen::at(row as nat, 1) + C_BG_DARK@ + screen::spaces(width as nat) + C_RESET@,
{
    let mut s = cursor(row, 1);
    s.append(C_BG_DARK);
    text::push_repeated(&mut s, ' ', width);
    s.append(C_RESET);
    s
}

/// Appends `n` empty rows, from `row` on.
fn page_gap(s: &mut String, row: usize, n: usize, width: usize)
    requires
        row + n <= usize::MAX,
    ensures
        final(s)@ == old(s)@ + gap_text(row as nat, n as nat, width),
{
    let ghost before = s@;
    let mut i: usize = 0;
    proof {
        assert(s@ =~= before + gap_text(row as nat, 0, width));
    }
    while i < n
        invariant
            i <= n,
            row + n <= usize::MAX,
            s@ == before + gap_text(row as nat, i as nat, width),
        decreases n - i,
    {
        let ghost done = gap_text(row as nat, i as nat, width);
        let line = gap_row(row + i, width);
        s.append(line.as_str());
        i += 1;
        proof {
            assert(s@ =~= before + (done + line@));
        }
    }
}

/// A page: its rows, and nothing in the rows under them.
pub fn draw_page(content: &[String], pager: &Pager, width: usize, height: usize) -> (s: String)
    requires
        pager.wf(),
        pager.rows() == content@.len(),
    ensures
        s@ == page_text(text::views(content@), *pager, width, height),
{
    let (first, end) = pager.span();
    let room: usize = (height.saturating_sub(3) + 1).saturating_sub(BODY_TOP);
    let n: usize = if end - first <= room {
        end - first
    } else {
        room
    };
    let ghost views = text::views(content@);
    let mut s = String::new();
    let mut i: usize = 0;
    proof {
        assert(s@ =~= page_rows_text(views, first as int, 0, width));
    }
    while i < n
        invariant
            i <= n,
            first + n <= end <= content@.len(),
            n + 4 <= usize::MAX,
            views == text::views(content@),
            s@ == page_rows_text(views, first as int, i as nat, width),
        decreases n - i,
    {
        proof {
            assert(views[first + i] == content@[first + i]@);
        }
        s.append(page_row(BODY_TOP + i, content[first + i].as_str(), width).as_str());
        i += 1;
    }
    page_gap(&mut s, BODY_TOP + n, room - n, width);
    s
}

/// What the reader can do.
pub open spec fn hint_of(pages: nat, allow_burn: bool) -> Seq<char> {
    if !allow_burn {
        if pages <= 1 {
            "  ▸ 按 q 退出  "@
        } else {
            "  ▸ 按 空格/Enter 翻页  ·  p 返回上一页  ·  q 退出  "@
        }
    } else if pages <= 1 {
        "  ▸ 按 q 退出并烧毁  "@
    } else {
        "  ▸ 按 空格/Enter 翻页  ·  p 返回上一页  ·  q 烧毁  "@
    }
}

/// The row that says what the reader can do.
pub open spec fn hint_text(row: nat, hint: Seq<char>, width: usize) -> Seq<char> {
    let pad = width::centred(hint, width);
    screen::at(row, 1) + C_BG_DARK@ + C_DIM@ + screen::spaces(pad as nat) + C_YELLOW@ + hint
        + screen::spaces(width::minus(width as int, pad + width::shown(hint))) + C_RESET@
}

/// The row that says what the reader can do.
pub fn hint_row(pages: usize, allow_burn: bool, width: usize, height: usize) -> (s: String)
    ensures
        s@ == hint_text(body_bottom(height), hint_of(pages as nat, allow_burn), width),
{
    let hint: &str = if !allow_burn {
        if pages <= 1 {
            "  ▸ 按 q 退出  "
        } else {
            "  ▸ 按 空格/Enter 翻页  ·  p 返回上一页  ·  q 退出  "
        }
    } else if pages <= 1 {
        "  ▸ 按 q 退出并烧毁  "
    } else {
        "  ▸ 按 空格/Enter 翻页  ·  p 返回上一页  ·  q 烧毁  "
    };
    let pad: usize = center_pad(hint, width);
    let used: usize = pad.saturating_add(display_width(hint));
    let mut s = cursor(height.saturating_sub(3), 1);
    s.append(C_BG_DARK);
    s.append(C_DIM);
    text::push_repeated(&mut s, ' ', pad);
    s.append(C_YELLOW);
    s.append(hint);
    text::push_repeated(&mut s, ' ', width.saturating_sub(used));
    s.append(C_RESET);
    s
}

/// What a byte from the keyboard says.
#[derive(Clone, Copy, PartialEq, Eq, Structural, Debug)]
pub enum Key {
    /// A key that turns the page or burns.
    Is(Nav),
    /// The first byte of a longer sequence.
    Escape,
    /// Nothing.
    Other,
}

/// Reads a byte from the keyboard: blank and return lead on, `p` leads back, `q`
/// burns, and the escape byte starts a sequence.
pub fn read_key(b: u8) -> (k: Key)
    ensures
        k == (match b as char {
            ' ' | '\n' | '\r' => Key::Is(Nav::Next),
            'p' | 'P' => Key::Is(Nav::Prev),
            'q' | 'Q' => Key::Is(Nav::Burn),
            '\x1b' => Key::Escape,
            _ => Key::Other,
        }),
{
    match b as char {
        ' ' | '\n' | '\r' => Key::Is(Nav::Next),
        'p' | 'P' => Key::Is(Nav::Prev),
        'q' | 'Q' => Key::Is(Nav::Burn),
        '\x1b' => Key::Escape,
        _ => Key::Other,
    }
}

/// Reads what follows an escape byte: the left arrow leads back, anything else
/// leads on.
pub fn read_sequence(rest: &[u8]) -> (n: Nav)
    ensures
        n == if rest@ == seq![0x5bu8, 0x44u8] {
            Nav::Prev
        } else {
            Nav::Next
        },
{
    if rest.len() == 2 && rest[0] == 0x5b && rest[1] == 0x44 {
        proof {
            assert(rest@ =~= seq![0x5bu8, 0x44u8]);
        }
        Nav::Prev
    } else {
        Nav::Next
    }
}

/// Whether somebody who waits for the end stops waiting: at `q`, or where the
/// input ends.
pub fn quits(key: Option<u8>) -> (r: bool)
    ensures
        r == match key {
            Some(b) => b as char == 'q' || b as char == 'Q',
            None => true,
        },
{
    match key {
        Some(b) => {
            let c = b as char;
            c == 'q' || c == 'Q'
        },
        None => true,
    }
}

/// How many rows a page has: those from the fourth row to the third from below,
/// and at least one.
pub proof fn law_page_geometry(height: usize)
    ensures
        height >= 7 ==> rows_per_page(height) == height - 6 && body_bottom(height) == height - 3,
        height < 7 ==> rows_per_page(height) == 1,
{
}

/// A page shows every line that stands on it, each in its own row from the
/// fourth on, and unchanged.
pub proof fn law_page_shows_its_lines(
    content: Seq<Seq<char>>,
    p: Pager,
    width: usize,
    height: usize,
    i: int,
)
    requires
        p.wf(),
        p.rows() == content.len(),
        p.per_page() == rows_per_page(height),
        height >= 7,
        p.first() <= i < p.end(),
    ensures
        text::has_part(
            page_text(content, p, width, height),
            screen::at((4 + i - p.first()) as nat, 1) + C_BG_DARK@ + C_DIM@ + screen::spaces(
                width::centred(content[i], width) as nat,
            ) + C_GREEN@ + content[i] + C_RESET@,
        ),
{
    let n = rows_drawn(p.end() - p.first(), height);
    assert(n == p.end() - p.first());
    let k = i - p.first();
    lemma_row_on_page(content, p.first(), n, width, k);
    let part = screen::at((4 + k) as nat, 1) + C_BG_DARK@ + C_DIM@ + screen::spaces(
        width::centred(content[i], width) as nat,
    ) + C_GREEN@ + content[i] + C_RESET@;
    let rows = page_rows_text(content, p.first(), n, width);
    let j = choose|j: int| #[trigger] text::stands_at(rows, part, j);
    let whole = page_text(content, p, width, height);
    assert(whole.subrange(j, j + part.len()) =~= rows.subrange(j, j + part.len()));
    assert(text::stands_at(whole, part, j));
}

proof fn lemma_row_on_page(content: Seq<Seq<char>>, first: int, n: nat, width: usize, k: int)
    requires
        0 <= k < n,
    ensures
        text::has_part(
            page_rows_text(content, first, n, width),
            screen::at((4 + k) as nat, 1) + C_BG_DARK@ + C_DIM@ + screen::spaces(
                width::centred(content[first + k], width) as nat,
            ) + C_GREEN@ + content[first + k] + C_RESET@,
        ),
    decreases n,
{
    let part = screen::at((4 + k) as nat, 1) + C_BG_DARK@ + C_DIM@ + screen::spaces(
        width::centred(content[first + k], width) as nat,
    ) + C_GREEN@ + content[first + k] + C_RESET@;
    let whole = page_rows_text(content, first, n, width);
    let front = page_rows_text(content, first, (n - 1) as nat, width);
    if k == n - 1 {
        let row = page_row_text((4 + k) as nat, content[first + k], width);
        assert(whole == front + row);
        assert(row.subrange(0, part.len() as int) =~= part);
        let j = front.len() as int;
        assert(whole.subrange(j, j + part.len()) =~= part);
        assert(text::stands_at(whole, part, j));
    } else {
        lemma_row_on_page(content, first, (n - 1) as nat, width, k);
        let j = choose|j: int| #[trigger] text::stands_at(front, part, j);
        assert(whole.subrange(j, j + part.len()) =~= front.subrange(j, j + part.len()));
        assert(text::stands_at(whole, part, j));
    }
}

/// Every line is broken on its own, and the rows follow each other in the order
/// of the lines.
pub proof fn law_lines_broken_in_order(a: Seq<Seq<char>>, line: Seq<char>, width: usize)
    ensures
        broken(Seq::empty(), width) == Seq::<Seq<char>>::empty(),
        broken(a.push(line), width) == broken(a, width) + width::wrapped(line, width),
{
    assert(a.push(line).drop_last() =~= a);
}

/// How pages are turned: next leads to the next page as long as there is one,
/// previous leads to the one before as long as there is one, and otherwise
/// nothing changes; the burn key asks where burning is allowed and leaves where
/// it is not, and keeps the page.
pub proof fn law_turning(page: int, pages: nat, allow_burn: bool)
    requires
        0 <= page < pages,
    ensures
        page < pages - 1 ==> turned_at(page, pages, Nav::Next, allow_burn) == (
            page + 1,
            Turn::Redraw,
        ),
        page == pages - 1 ==> turned_at(page, pages, Nav::Next, allow_burn) == (page, Turn::Stay),
        page > 0 ==> turned_at(page, pages, Nav::Prev, allow_burn) == (page - 1, Turn::Redraw),
        page == 0 ==> turned_at(page, pages, Nav::Prev, allow_burn) == (page, Turn::Stay),
        turned_at(page, pages, Nav::Burn, true) == (page, Turn::Ask),
        turned_at(page, pages, Nav::Burn, false) == (page, Turn::Leave),
{
}

/// There are as many pages as the rows need and no more, and at least one.
pub proof fn law_page_count(rows: nat, per_page: nat)
    requires
        per_page > 0,
    ensures
        page_count(rows, per_page) >= 1,
        rows <= page_count(rows, per_page) * per_page,
        rows > 0 ==> (page_count(rows, per_page) - 1) * per_page < rows,
        rows == 0 ==> page_count(rows, per_page) == 1,
{
    lemma_page_count(rows, per_page);
}

/// A page starts behind all rows of the pages before it, and ends where it is
/// full or the text is over.
pub proof fn law_page_span(p: Pager)
    requires
        p.wf(),
    ensures
        p.first() == p.page() * p.per_page(),
        p.end() <= p.rows(),
        p.end() <= p.first() + p.per_page(),
        p.end() == p.rows() || p.end() == p.first() + p.per_page(),
{
}

/// What the reader is told: how to turn pages where there is more than one, and
/// that `q` burns only where it does.
pub proof fn law_hints(pages: nat)
    ensures
        pages > 1 ==> hint_of(pages, true)
            == "  ▸ 按 空格/Enter 翻页  ·  p 返回上一页  ·  q 烧毁  "@,
        pages > 1 ==> hint_of(pages, false)
            == "  ▸ 按 空格/Enter 翻页  ·  p 返回上一页  ·  q 退出  "@,
        pages <= 1 ==> hint_of(pages, true) == "  ▸ 按 q 退出并烧毁  "@,
        pages <= 1 ==> hint_of(pages, false) == "  ▸ 按 q 退出  "@,
{
}

/// Under the lines of a page every row down to the last one is blank.
pub proof fn law_rest_of_page_is_blank(
    content: Seq<Seq<char>>,
    p: Pager,
    width: usize,
    height: usize,
    row: nat,
)
    requires
        p.wf(),
        p.per_page() == rows_per_page(height),
        height >= 7,
        4 + (p.end() - p.first()) <= row <= height - 3,
    ensures
        text::has_part(
            page_text(content, p, width, height),
            screen::at(row, 1) + C_BG_DARK@ + text::repeated(' ', width as nat) + C_RESET@,
        ),
{
    let n = rows_drawn(p.end() - p.first(), height);
    lemma_page_start(p.rows(), p.per_page(), p.page());
    assert(n == p.end() - p.first());
    let room = width::minus((body_bottom(height) + 1) as int, 4 + n as int);
    assert(room == height - 2 - (4 + n));
    lemma_gap_row(4 + n, room, width, (row - 4 - n) as nat);
    text::lemma_part_of_longer(
        page_rows_text(content, p.first(), n, width),
        gap_text(4 + n, room, width),
        screen::at(row, 1) + C_BG_DARK@ + text::repeated(' ', width as nat) + C_RESET@,
    );
}

proof fn lemma_gap_row(row: nat, n: nat, width: usize, k: nat)
    requires
        k < n,
    ensures
        text::has_part(
            gap_text(row, n, width),
            screen::at(row + k, 1) + C_BG_DARK@ + text::repeated(' ', width as nat) + C_RESET@,
        ),
    decreases n,
{
    let part = screen::at(row + k, 1) + C_BG_DARK@ + text::repeated(' ', width as nat) + C_RESET@;
    let front = gap_text(row, (n - 1) as nat, width);
    let last = screen::at((row + n - 1) as nat, 1) + C_BG_DARK@ + screen::spaces(width as nat)
        + C_RESET@;
    if k < n - 1 {
        lemma_gap_row(row, (n - 1) as nat, width, k);
    }
    text::lemma_part_of_longer(front, last, part);
}

/// Whoever presses the burn key where burning is allowed is asked, and a yes
/// burns.
pub proof fn law_a_yes_burns(pages: nat, s: ReaderView)
    ensures
        read_on(pages, s, ReaderEvent::Key(Nav::Burn), true) == (
            ReaderView { page: s.page, asking: true },
            ReaderAction::Ask,
        ),
        read_on(
            pages,
            ReaderView { page: s.page, asking: true },
            ReaderEvent::Answer(true),
            true,
        ).1 == ReaderAction::Burn,
        read_on(pages, s, ReaderEvent::Key(Nav::Burn), false).1 == ReaderAction::Leave,
        0 <= s.page < pages - 1 ==> read_on(pages, s, ReaderEvent::Key(Nav::Next), true) == (
            ReaderView { page: s.page + 1, asking: false },
            ReaderAction::Redraw,
        ),
        0 < s.page < pages ==> read_on(pages, s, ReaderEvent::Key(Nav::Prev), true) == (
            ReaderView { page: s.page - 1, asking: false },
            ReaderAction::Redraw,
        ),
{
}

} // verus!
