//! Panels that show how far a sequence of stages has come.
use vstd::prelude::*;

use crate::glyph;
use crate::glyph::Rng;
use crate::screen;
use crate::screen::{
    cursor, hline, noise_row, status_bar, C_BG_DARK, C_CYAN, C_DIM, C_GREEN, C_RESET, C_YELLOW,
};
use crate::script;
use crate::script::{put, Step, StepView};
use crate::text;
use crate::width;
use crate::width::{center_pad, display_width};
use crate::xorshift;

verus! {

/// Labels as character sequences.
pub open spec fn labels_of(v: Seq<&str>) -> Seq<Seq<char>> {
    v.map_values(|s: &str| s@)
}

/// How far the active bar is filled: in cells, and in tenths of a percent.
#[derive(Clone, Copy, PartialEq, Eq, Structural, Debug)]
pub struct Fill {
    pub cells: usize,
    pub tenths: u64,
}

/// Cells of the bar beside a label. The label counts by its bytes.
pub open spec fn bar_cells(label: Seq<char>, width: usize) -> usize {
    width::minus(width as int, (vstd::utf8::encode_utf8(label).len() + 13) as int) as usize
}

/// Cells of the bar beside a label.
pub fn bar_width(label: &str, width: usize) -> (n: usize)
    ensures
        n == bar_cells(label@, width),
{
    let used: usize = label.as_bytes().len();
    width.saturating_sub(used.saturating_add(13))
}

/// How far a bar is filled: those before the active one are full, those behind
/// it are empty.
pub open spec fn fill_of(i: int, current: int, active: Fill, cells: usize) -> Fill {
    if i < current {
        Fill { cells, tenths: 1000 }
    } else if i == current {
        active
    } else {
        Fill { cells: 0, tenths: 0 }
    }
}

/// The colour of a bar.
pub open spec fn bar_color(i: int, current: int) -> Seq<char> {
    if i < current {
        C_GREEN@
    } else if i == current {
        C_YELLOW@
    } else {
        C_DIM@
    }
}

/// A percentage with one decimal.
pub open spec fn percent_text(tenths: nat) -> Seq<char> {
    text::decimal(tenths / 10) + "."@ + text::decimal(tenths % 10)
}

/// One bar with its number, its label and its percentage.
pub open spec fn bar_text(
    row: nat,
    number: nat,
    label: Seq<char>,
    width: usize,
    fill: Fill,
    color: Seq<char>,
) -> Seq<char> {
    let cells = bar_cells(label, width);
    screen::at(row, 1) + C_BG_DARK@ + C_CYAN@ + text::left_filled(text::decimal(number), ' ', 2)
        + " "@ + label + C_RESET@ + " ["@ + color + text::repeated('█', fill.cells as nat)
        + text::repeated('░', width::minus(cells as int, fill.cells as int)) + "] "@
        + text::left_filled(percent_text(fill.tenths as nat), ' ', 5) + "%"@ + C_BG_DARK@
        + screen::spaces(width::minus(width as int, width::shown(label) + cells + 13)) + C_RESET@
}

fn bar(row: usize, number: usize, label: &str, width: usize, fill: Fill, color: &str) -> (s: String)
    ensures
        s@ == bar_text(row as nat, number as nat, label@, width, fill, color@),
{
    let cells: usize = bar_width(label, width);
    let number_text = text::decimal_string(number as u64);
    let mut percent = text::decimal_string(fill.tenths / 10);
    percent.append(".");
    text::push_decimal(&mut percent, fill.tenths % 10);
    let mut s = cursor(row, 1);
    s.append(C_BG_DARK);
    s.append(C_CYAN);
    text::push_left_filled(&mut s, number_text.as_str(), ' ', 2);
    s.append(" ");
    s.append(label);
    s.append(C_RESET);
    s.append(" [");
    s.append(color);
    text::push_repeated(&mut s, '█', fill.cells);
    text::push_repeated(&mut s, '░', cells.saturating_sub(fill.cells));
    s.append("] ");
    text::push_left_filled(&mut s, percent.as_str(), ' ', 5);
    s.append("%");
    s.append(C_BG_DARK);
    let used: usize = display_width(label).saturating_add(cells).saturating_add(13);
    text::push_repeated(&mut s, ' ', width.saturating_sub(used));
    s.append(C_RESET);
    s
}

/// The row of the first of `n` bars.
pub open spec fn bars_top(height: usize, n: nat) -> nat {
    width::minus(height as int, (n + 2) as int) / 2
}

/// The first `n` bars.
pub open spec fn bars_text(
    labels: Seq<Seq<char>>,
    n: nat,
    width: usize,
    top: nat,
    current: int,
    active: Fill,
) -> Seq<char>
    decreases n,
{
    if n == 0 {
        Seq::empty()
    } else {
        let i = n - 1;
        bars_text(labels, i as nat, width, top, current, active) + bar_text(
            (top + i) as nat,
            n,
            labels[i],
            width,
            fill_of(i, current, active, bar_cells(labels[i], width)),
            bar_color(i, current),
        )
    }
}

/// All bars, in the middle of the screen.
pub fn progress_bars(
    labels: &[&str],
    width: usize,
    height: usize,
    current: usize,
    active: Fill,
) -> (s: String)
    ensures
        s@ == bars_text(
            labels_of(labels@),
            labels@.len(),
            width,
            bars_top(height, labels@.len()),
            current as int,
            active,
        ),
{
    let n: usize = labels.len();
    let top: usize = height.saturating_sub(n.saturating_add(2)) / 2;
    let mut s = String::new();
    let mut i: usize = 0;
    proof {
        assert(s@ =~= bars_text(
            labels_of(labels@),
            0,
            width,
            top as nat,
            current as int,
            active,
        ));
    }
    while i < n
        invariant
            i <= n,
            n == labels@.len(),
            top == bars_top(height, n as nat),
            s@ == bars_text(
                labels_of(labels@),
                i as nat,
                width,
                top as nat,
                current as int,
                active,
            ),
        decreases n - i,
    {
        let label: &str = labels[i];
        proof {
            assert(labels_of(labels@)[i as int] == label@);
        }
        let fill = if i < current {
            Fill { cells: bar_width(label, width), tenths: 1000 }
        } else if i == current {
            active
        } else {
            Fill { cells: 0, tenths: 0 }
        };
        let color: &str = if i < current {
            C_GREEN
        } else if i == current {
            C_YELLOW
        } else {
            C_DIM
        };
        assert(top + i <= usize::MAX);
        s.append(bar(top + i, i + 1, label, width, fill, color).as_str());
        i += 1;
    }
    s
}

/// Cells of the bar behind the active stage.
pub const STAGE_CELLS: usize = 14;

/// The headline of the panel.
pub const PANEL_TITLE: &'static str = "█ DECRYPTION SEQUENCE █";

/// The stages of a decryption on the screen.
pub struct DecryptFx {
    pub width: usize,
    pub height: usize,
    pub stages: Vec<String>,
    pub current: usize,
}

/// A bar of fourteen cells.
pub open spec fn stage_bar(filled: nat) -> Seq<char> {
    "  ["@ + text::repeated('█', filled) + text::repeated('░', width::minus(14, filled as int))
        + "]"@
}

/// The spark that one draw in three puts behind the active stage.
pub open spec fn spark(state: u64) -> Seq<char> {
    let x = xorshift::shifted(state);
    if x % 3 == 0 {
        seq![' ', glyph::glyph_of(xorshift::shifted(x))]
    } else {
        Seq::empty()
    }
}

/// The state behind the spark.
pub open spec fn sparked(state: u64) -> u64 {
    let x = xorshift::shifted(state);
    if x % 3 == 0 {
        xorshift::shifted(x)
    } else {
        x
    }
}

/// What the row of a stage says.
pub open spec fn stage_line(
    i: int,
    current: int,
    label: Seq<char>,
    filled: nat,
    state: u64,
) -> Seq<char> {
    let head = " "@ + (if i < current {
        "✓"@
    } else if i == current {
        "▶"@
    } else {
        " "@
    }) + " ["@ + text::zero_filled((i + 1) as nat, 2) + "] "@ + label;
    if i < current {
        head + "  DONE"@
    } else if i == current {
        head + stage_bar(filled) + spark(state)
    } else {
        head
    }
}

/// The row of a stage.
pub open spec fn stage_text(row: nat, line: Seq<char>, color: Seq<char>, width: usize) -> Seq<
    char,
> {
    screen::at(row, 1) + C_BG_DARK@ + color + line + screen::spaces(
        width::minus(width as int, width::shown(line) as int),
    )
}

/// The rows of the first `n` stages.
pub open spec fn stages_text(
    labels: Seq<Seq<char>>,
    n: nat,
    current: int,
    filled: nat,
    state: u64,
    top: nat,
    width: usize,
) -> Seq<char>
    decreases n,
{
    if n == 0 {
        Seq::empty()
    } else {
        let i = n - 1;
        stages_text(labels, i as nat, current, filled, state, top, width) + stage_text(
            (top + i) as nat,
            stage_line(i, current, labels[i], filled, state),
            bar_color(i, current),
            width,
        )
    }
}

/// The row of the first of `n` stages.
pub open spec fn panel_top(height: usize, n: nat) -> nat {
    width::minus(height as int, (n + 4) as int) / 2 + 1
}

/// The headline of the panel.
pub open spec fn panel_title_text(row: nat, width: usize) -> Seq<char> {
    let pad = width::centred(PANEL_TITLE@, width);
    screen::at(row, 1) + C_BG_DARK@ + C_CYAN@ + screen::spaces(pad as nat) + PANEL_TITLE@
        + screen::spaces(width::minus(width as int, pad + width::shown(PANEL_TITLE@))) + C_RESET@
}

/// The state behind the rows of the stages.
pub open spec fn panel_sparked(fx: DecryptFx, state: u64) -> u64 {
    let s1 = xorshift::shifted_by(state, fx.width as nat);
    if fx.current < fx.stages@.len() {
        sparked(s1)
    } else {
        s1
    }
}

/// The whole panel.
pub open spec fn panel_text(fx: DecryptFx, filled: nat, state: u64) -> Seq<char> {
    let w = fx.width as nat;
    let labels = text::views(fx.stages@);
    let n = labels.len();
    let top = panel_top(fx.height, n);
    let s1 = xorshift::shifted_by(state, w);
    let s2 = panel_sparked(fx, state);
    screen::noise_row_text(state, (top - 2) as nat, w, C_BG_DARK@, C_DIM@) + panel_title_text(
        (top - 1) as nat,
        fx.width,
    ) + stages_text(labels, n, fx.current as int, filled, s1, top, fx.width) + (screen::at(
        top + n,
        1,
    ) + C_BG_DARK@ + C_CYAN@ + text::repeated('═', w) + C_RESET@) + screen::noise_row_text(
        s2,
        top + n + 1,
        w,
        C_BG_DARK@,
        C_DIM@,
    ) + screen::status_bar_text(w, fx.height as nat, "PROCESSING..."@)
}

impl DecryptFx {
    /// The stages, none of them done.
    pub fn new(width: usize, height: usize, stages: &[&str]) -> (r: DecryptFx)
        ensures
            r.width == width,
            r.height == height,
            text::views(r.stages@) == labels_of(stages@),
            r.current == 0,
    {
        let mut owned: Vec<String> = Vec::new();
        let mut i: usize = 0;
        while i < stages.len()
            invariant
                i <= stages@.len(),
                text::views(owned@) =~= labels_of(stages@).subrange(0, i as int),
            decreases stages@.len() - i,
        {
            let label: &str = stages[i];
            let ghost before = text::views(owned@);
            owned.push(label.to_owned());
            i += 1;
            proof {
                assert(text::views(owned@) =~= before.push(label@));
                assert(labels_of(stages@)[i - 1] == label@);
            }
        }
        proof {
            assert(text::views(owned@) =~= labels_of(stages@));
        }
        DecryptFx { width, height, stages: owned, current: 0 }
    }

    /// The active stage is done. Behind the last one nothing changes.
    pub fn advance(&mut self)
        ensures
            final(self).width == old(self).width,
            final(self).height == old(self).height,
            final(self).stages == old(self).stages,
            final(self).current == if old(self).current < old(self).stages@.len() {
                (old(self).current + 1) as usize
            } else {
                old(self).current
            },
    {
        if self.current < self.stages.len() {
            self.current = self.current + 1;
        }
    }

    /// The panel, with so many cells of the active stage filled.
    pub fn draw(&self, rng: &mut Rng, filled: usize) -> (s: String)
        requires
            self.height >= self.stages@.len() + 6,
        ensures
            s@ == panel_text(*self, filled as nat, old(rng).state()),
            final(rng).state() == xorshift::shifted_by(
                panel_sparked(*self, old(rng).state()),
                self.width as nat,
            ),
    {
        let n: usize = self.stages.len();
        let top: usize = self.height.saturating_sub(n + 4) / 2 + 1;
        let mut s = noise_row(rng, top - 2, self.width, C_BG_DARK, C_DIM);
        s.append(panel_title(top - 1, self.width).as_str());
        let rows = self.stage_rows(rng, filled, top);
        s.append(rows.as_str());
        s.append(hline(top + n, self.width, C_CYAN).as_str());
        s.append(noise_row(rng, top + n + 1, self.width, C_BG_DARK, C_DIM).as_str());
        s.append(status_bar(self.width, self.height, "PROCESSING...").as_str());
        s
    }

    fn stage_rows(&self, rng: &mut Rng, filled: usize, top: usize) -> (s: String)
        requires
            top + self.stages@.len() <= usize::MAX,
        ensures
            s@ == stages_text(
                text::views(self.stages@),
                self.stages@.len(),
                self.current as int,
                filled as nat,
                old(rng).state(),
                top as nat,
                self.width,
            ),
            final(rng).state() == if self.current < self.stages@.len() {
                sparked(old(rng).state())
            } else {
                old(rng).state()
            },
    {
        let n: usize = self.stages.len();
        let ghost from = rng.state();
        let ghost labels = text::views(self.stages@);
        let mut s = String::new();
        let mut i: usize = 0;
        proof {
            assert(s@ =~= stages_text(
                labels,
                0,
                self.current as int,
                filled as nat,
                from,
                top as nat,
                self.width,
            ));
        }
        while i < n
            invariant
                i <= n,
                n == self.stages@.len(),
                top + n <= usize::MAX,
                labels == text::views(self.stages@),
                s@ == stages_text(
                    labels,
                    i as nat,
                    self.current as int,
                    filled as nat,
                    from,
                    top as nat,
                    self.width,
                ),
                rng.state() == if self.current < i {
                    sparked(from)
                } else {
                    from
                },
            decreases n - i,
        {
            let label = self.stages[i].as_str();
            proof {
                assert(labels[i as int] == label@);
            }
            let ghost done = s@;
            let line = stage(rng, i, self.current, label, filled);
            let color: &str = if i < self.current {
                C_GREEN
            } else if i == self.current {
                C_YELLOW
            } else {
                C_DIM
            };
            let mut row = cursor(top + i, 1);
            row.append(C_BG_DARK);
            row.append(color);
            row.append(line.as_str());
            text::push_repeated(
                &mut row,
                ' ',
                self.width.saturating_sub(display_width(line.as_str())),
            );
            s.append(row.as_str());
            i += 1;
        }
        s
    }

    /// The panel goes away.
    pub fn finish(&self) -> (r: Vec<Step>)
        ensures
            script::steps(r@) == seq![
                StepView::Sleep(150),
                StepView::Print(screen::CLEAR@),
                StepView::Feed,
            ],
    {
        let mut out: Vec<Step> = Vec::new();
        put(&mut out, Step::Sleep(150));
        put(&mut out, Step::Print(screen::CLEAR.to_owned()));
        put(&mut out, Step::Feed);
        proof {
            assert(script::steps(out@) =~= seq![
                StepView::Sleep(150),
                StepView::Print(screen::CLEAR@),
                StepView::Feed,
            ]);
        }
        out
    }
}

fn panel_title(row: usize, width: usize) -> (s: String)
    ensures
        s@ == panel_title_text(row as nat, width),
{
    let pad: usize = center_pad(PANEL_TITLE, width);
    let used: usize = pad.saturating_add(display_width(PANEL_TITLE));
    let mut s = cursor(row, 1);
    s.append(C_BG_DARK);
    s.append(C_CYAN);
    text::push_repeated(&mut s, ' ', pad);
    s.append(PANEL_TITLE);
    text::push_repeated(&mut s, ' ', width.saturating_sub(used));
    s.append(C_RESET);
    s
}

fn stage(rng: &mut Rng, i: usize, current: usize, label: &str, filled: usize) -> (s: String)
    requires
        i < usize::MAX,
    ensures
        s@ == stage_line(i as int, current as int, label@, filled as nat, old(rng).state()),
        final(rng).state() == if i == current {
            sparked(old(rng).state())
        } else {
            old(rng).state()
        },
{
    let mut s = " ".to_owned();
    if i < current {
        s.append("✓");
    } else if i == current {
        s.append("▶");
    } else {
        s.append(" ");
    }
    s.append(" [");
    text::push_zero_filled(&mut s, (i + 1) as u64, 2);
    s.append("] ");
    s.append(label);
    if i < current {
        s.append("  DONE");
    } else if i == current {
        let ghost head = s@;
        let ghost from = rng.state();
        s.append("  [");
        text::push_repeated(&mut s, '█', filled);
        text::push_repeated(&mut s, '░', STAGE_CELLS.saturating_sub(filled));
        s.append("]");
        if rng.next_u64() % 3 == 0 {
            s.push(' ');
            s.push(rng.glyph());
        }
        proof {
            assert(s@ =~= head + stage_bar(filled as nat) + spark(from));
        }
    }
    s
}

/// Bars in front of the active one are full and those behind it empty; the
/// active one is as full as it is said to be.
pub proof fn law_bars_fill_in_order(i: int, current: int, active: Fill, cells: usize)
    ensures
        i < current ==> fill_of(i, current, active, cells) == (Fill { cells, tenths: 1000 }),
        i == current ==> fill_of(i, current, active, cells) == active,
        i > current ==> fill_of(i, current, active, cells) == (Fill { cells: 0, tenths: 0 }),
{
}

/// A percentage is written with one decimal.
pub proof fn law_percentages(whole: nat, tenth: nat)
    requires
        tenth < 10,
    ensures
        percent_text(10 * whole + tenth) == text::decimal(whole) + "."@ + text::decimal(tenth),
{
    assert((10 * whole + tenth) / 10 == whole && (10 * whole + tenth) % 10 == tenth);
}

/// Every bar stands in its own row with its number and its label, and has as
/// many full cells as it is filled.
pub proof fn law_every_bar_is_drawn(
    labels: Seq<Seq<char>>,
    n: nat,
    width: usize,
    top: nat,
    current: int,
    active: Fill,
    k: int,
)
    requires
        0 <= k < n,
    ensures
        text::has_part(
            bars_text(labels, n, width, top, current, active),
            screen::at((top + k) as nat, 1) + C_BG_DARK@ + C_CYAN@ + text::left_filled(
                text::decimal((k + 1) as nat),
                ' ',
                2,
            ) + " "@ + labels[k] + C_RESET@ + " ["@ + bar_color(k, current) + text::repeated(
                '█',
                fill_of(k, current, active, bar_cells(labels[k], width)).cells as nat,
            ),
        ),
    decreases n,
{
    let fill = fill_of(k, current, active, bar_cells(labels[k], width));
    let front = bars_text(labels, (n - 1) as nat, width, top, current, active);
    if k == n - 1 {
        lemma_bar_shows(
            (top + k) as nat,
            n,
            labels[k],
            width,
            fill,
            bar_color(k, current),
            front,
        );
    } else {
        law_every_bar_is_drawn(labels, (n - 1) as nat, width, top, current, active, k);
        let i = n - 1;
        let bar = bar_text(
            (top + i) as nat,
            n,
            labels[i],
            width,
            fill_of(i, current, active, bar_cells(labels[i], width)),
            bar_color(i, current),
        );
        text::lemma_part_of_longer(
            front,
            bar,
            bar_head((top + k) as nat, (k + 1) as nat, labels[k], fill, bar_color(k, current)),
        );
    }
}

/// A bar up to its last full cell.
pub open spec fn bar_head(
    row: nat,
    number: nat,
    label: Seq<char>,
    fill: Fill,
    color: Seq<char>,
) -> Seq<char> {
    screen::at(row, 1) + C_BG_DARK@ + C_CYAN@ + text::left_filled(text::decimal(number), ' ', 2)
        + " "@ + label + C_RESET@ + " ["@ + color + text::repeated('█', fill.cells as nat)
}

proof fn lemma_bar_shows(
    row: nat,
    number: nat,
    label: Seq<char>,
    width: usize,
    fill: Fill,
    color: Seq<char>,
    front: Seq<char>,
)
    ensures
        text::has_part(
            front + bar_text(row, number, label, width, fill, color),
            bar_head(row, number, label, fill, color),
        ),
{
    let part = bar_head(row, number, label, fill, color);
    let cells = bar_cells(label, width);
    let a = part;
    let t1 = text::repeated('░', width::minus(cells as int, fill.cells as int));
    let t3 = text::left_filled(percent_text(fill.tenths as nat), ' ', 5);
    let t6 = screen::spaces(width::minus(width as int, width::shown(label) + cells + 13));
    text::lemma_part_of_longer(a, t1, part);
    let b = a + t1;
    text::lemma_part_of_longer(b, "] "@, part);
    let c = b + "] "@;
    text::lemma_part_of_longer(c, t3, part);
    let d = c + t3;
    text::lemma_part_of_longer(d, "%"@, part);
    let e = d + "%"@;
    text::lemma_part_of_longer(e, C_BG_DARK@, part);
    let f = e + C_BG_DARK@;
    text::lemma_part_of_longer(f, t6, part);
    let g = f + t6;
    text::lemma_part_of_longer(g, C_RESET@, part);
    text::lemma_part_of_longer(front, g + C_RESET@, part);
}

/// A stage that is over is ticked off, the active one has an arrow and a bar of
/// fourteen cells, and one to come has neither; each has its number and its
/// label.
pub proof fn law_stages(i: int, current: int, label: Seq<char>, filled: nat, state: u64)
    ensures
        i < current ==> stage_line(i, current, label, filled, state) == " "@ + "✓"@ + " ["@
            + text::zero_filled((i + 1) as nat, 2) + "] "@ + label + "  DONE"@,
        i > current ==> stage_line(i, current, label, filled, state) == " "@ + " "@ + " ["@
            + text::zero_filled((i + 1) as nat, 2) + "] "@ + label,
        i == current ==> (" "@ + "▶"@ + " ["@ + text::zero_filled((i + 1) as nat, 2) + "] "@
            + label + stage_bar(filled)).is_prefix_of(
            stage_line(i, current, label, filled, state),
        ),
        filled <= 14 ==> stage_bar(filled) == "  ["@ + text::repeated('█', filled)
            + text::repeated('░', (14 - filled) as nat) + "]"@,
{
    if i == current {
        let head = " "@ + "▶"@ + " ["@ + text::zero_filled((i + 1) as nat, 2) + "] "@ + label
            + stage_bar(filled);
        let whole = stage_line(i, current, label, filled, state);
        assert(whole == head + spark(state));
        assert(whole.subrange(0, head.len() as int) =~= head);
    }
}

} // verus!
