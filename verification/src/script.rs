//! Animations as scripts: what to write, how long to wait, and when to give a
//! sign of life in between.
use vstd::prelude::*;

use crate::glyph::Rng;
use crate::screen;
use crate::screen::{
    fill_background, hline, noise_row, noise_screen, reveal_frame, settled_row, status_bar,
    C_BG_DARK, C_BRIGHT_WHITE, C_CYAN, C_DIM, C_GREEN, C_RESET,
};
use crate::text;
use crate::xorshift;

verus! {

/// One step of an animation.
#[derive(Debug)]
pub enum Step {
    /// Write a text to the terminal.
    Print(String),
    /// Wait, in milliseconds.
    Sleep(u64),
    /// Give a sign of life.
    Feed,
}

/// What a step does.
pub enum StepView {
    Print(Seq<char>),
    Sleep(u64),
    Feed,
}

impl View for Step {
    type V = StepView;

    open spec fn view(&self) -> StepView {
        match self {
            Step::Print(s) => StepView::Print(s@),
            Step::Sleep(ms) => StepView::Sleep(*ms),
            Step::Feed => StepView::Feed,
        }
    }
}

/// What a script does.
pub open spec fn steps(v: Seq<Step>) -> Seq<StepView> {
    v.map_values(|s: Step| s@)
}

/// A text, a wait and a sign of life.
pub open spec fn beat(s: Seq<char>, ms: u64) -> Seq<StepView> {
    seq![StepView::Print(s), StepView::Sleep(ms), StepView::Feed]
}

/// Appends a step.
pub(crate) fn put(out: &mut Vec<Step>, step: Step)
    ensures
        steps(final(out)@) == steps(old(out)@).push(step@),
{
    let ghost before = steps(out@);
    let ghost view = step@;
    out.push(step);
    proof {
        assert(steps(out@) =~= before.push(view));
    }
}

/// Appends one text to write.
pub(crate) fn put_print(out: &mut Vec<Step>, s: String)
    ensures
        steps(final(out)@) == steps(old(out)@) + seq![StepView::Print(s@)],
{
    let ghost before = steps(out@);
    let ghost view = s@;
    put(out, Step::Print(s));
    proof {
        assert(steps(out@) =~= before + seq![StepView::Print(view)]);
    }
}

/// Appends a text, a wait and a sign of life.
pub(crate) fn put_beat(out: &mut Vec<Step>, s: String, ms: u64)
    ensures
        steps(final(out)@) == steps(old(out)@) + beat(s@, ms),
{
    let ghost before = steps(out@);
    let ghost view = s@;
    put(out, Step::Print(s));
    put(out, Step::Sleep(ms));
    put(out, Step::Feed);
    proof {
        assert(steps(out@) =~= before + beat(view, ms));
    }
}

/// `n` screens full of noise.
pub open spec fn flicker(
    state: u64,
    n: nat,
    width: nat,
    height: nat,
    ground: Seq<char>,
    color: Seq<char>,
    ms: u64,
) -> Seq<StepView>
    decreases n,
{
    if n == 0 {
        Seq::empty()
    } else {
        flicker(state, (n - 1) as nat, width, height, ground, color, ms) + beat(
            screen::noise_rows(
                xorshift::shifted_by(state, ((n - 1) * (height * width)) as nat),
                height,
                width,
                ground,
                color,
            ),
            ms,
        )
    }
}

/// Appends `n` screens full of noise.
pub(crate) fn put_flicker(
    out: &mut Vec<Step>,
    rng: &mut Rng,
    n: usize,
    width: usize,
    height: usize,
    ground: &str,
    color: &str,
    ms: u64,
)
    ensures
        steps(final(out)@) == steps(old(out)@) + flicker(
            old(rng).state(),
            n as nat,
            width as nat,
            height as nat,
            ground@,
            color@,
            ms,
        ),
        final(rng).state() == xorshift::shifted_by(
            old(rng).state(),
            (n * (height * width)) as nat,
        ),
{
    let ghost before = steps(out@);
    let ghost from = rng.state();
    let ghost area = (height * width) as nat;
    let mut i: usize = 0;
    proof {
        assert(0 * area == 0) by (nonlinear_arith);
        assert(height * width >= 0) by (nonlinear_arith);
        assert(steps(out@) =~= before + flicker(
            from,
            0,
            width as nat,
            height as nat,
            ground@,
            color@,
            ms,
        ));
    }
    while i < n
        invariant
            i <= n,
            area == height * width,
            steps(out@) == before + flicker(
                from,
                i as nat,
                width as nat,
                height as nat,
                ground@,
                color@,
                ms,
            ),
            rng.state() == xorshift::shifted_by(from, (i * area) as nat),
        decreases n - i,
    {
        proof {
            let q = (i * area) as nat;
            assert(i * area >= 0) by (nonlinear_arith);
            xorshift::lemma_shifted_adds(from, q, area);
            assert((i + 1) * area == q + area) by (nonlinear_arith)
                requires
                    q == i * area,
            ;
        }
        let ghost done = flicker(from, i as nat, width as nat, height as nat, ground@, color@, ms);
        let frame = noise_screen(rng, width, height, ground, color);
        let ghost view = frame@;
        put_beat(out, frame, ms);
        i += 1;
        proof {
            assert(steps(out@) =~= before + (done + beat(view, ms)));
        }
    }
}

/// Noise that runs down the screen, row by row.
pub open spec fn sweep_down(state: u64, n: nat, width: nat) -> Seq<StepView>
    decreases n,
{
    if n == 0 {
        Seq::empty()
    } else {
        sweep_down(state, (n - 1) as nat, width) + beat(
            screen::noise_row_text(
                xorshift::shifted_by(state, ((n - 1) * width) as nat),
                n,
                width,
                C_BG_DARK@,
                C_GREEN@,
            ),
            12,
        )
    }
}

/// Noise that runs up the screen, row by row.
pub open spec fn sweep_up(state: u64, n: nat, width: nat, height: nat) -> Seq<StepView>
    decreases n,
{
    if n == 0 {
        Seq::empty()
    } else {
        sweep_up(state, (n - 1) as nat, width, height) + beat(
            screen::noise_row_text(
                xorshift::shifted_by(state, ((n - 1) * width) as nat),
                (height - n + 1) as nat,
                width,
                C_BG_DARK@,
                C_DIM@,
            ),
            8,
        )
    }
}

fn put_sweep_down(out: &mut Vec<Step>, rng: &mut Rng, width: usize, height: usize)
    ensures
        steps(final(out)@) == steps(old(out)@) + sweep_down(
            old(rng).state(),
            height as nat,
            width as nat,
        ),
        final(rng).state() == xorshift::shifted_by(old(rng).state(), (height * width) as nat),
{
    let ghost before = steps(out@);
    let ghost from = rng.state();
    let mut i: usize = 0;
    proof {
        assert(0 * width == 0) by (nonlinear_arith);
        assert(steps(out@) =~= before + sweep_down(from, 0, width as nat));
    }
    while i < height
        invariant
            i <= height,
            steps(out@) == before + sweep_down(from, i as nat, width as nat),
            rng.state() == xorshift::shifted_by(from, (i * width) as nat),
        decreases height - i,
    {
        proof {
            let q = (i * width) as nat;
            assert(i * width >= 0) by (nonlinear_arith);
            xorshift::lemma_shifted_adds(from, q, width as nat);
            assert((i + 1) * width == q + width) by (nonlinear_arith)
                requires
                    q == i * width,
            ;
        }
        let ghost done = sweep_down(from, i as nat, width as nat);
        i += 1;
        let frame = noise_row(rng, i, width, C_BG_DARK, C_GREEN);
        let ghost view = frame@;
        put_beat(out, frame, 12);
        proof {
            assert(steps(out@) =~= before + (done + beat(view, 12)));
        }
    }
}

fn put_sweep_up(out: &mut Vec<Step>, rng: &mut Rng, width: usize, height: usize)
    ensures
        steps(final(out)@) == steps(old(out)@) + sweep_up(
            old(rng).state(),
            height as nat,
            width as nat,
            height as nat,
        ),
        final(rng).state() == xorshift::shifted_by(old(rng).state(), (height * width) as nat),
{
    let ghost before = steps(out@);
    let ghost from = rng.state();
    let mut i: usize = 0;
    proof {
        assert(0 * width == 0) by (nonlinear_arith);
        assert(steps(out@) =~= before + sweep_up(from, 0, width as nat, height as nat));
    }
    while i < height
        invariant
            i <= height,
            steps(out@) == before + sweep_up(from, i as nat, width as nat, height as nat),
            rng.state() == xorshift::shifted_by(from, (i * width) as nat),
        decreases height - i,
    {
        proof {
            let q = (i * width) as nat;
            assert(i * width >= 0) by (nonlinear_arith);
            xorshift::lemma_shifted_adds(from, q, width as nat);
            assert((i + 1) * width == q + width) by (nonlinear_arith)
                requires
                    q == i * width,
            ;
        }
        let ghost done = sweep_up(from, i as nat, width as nat, height as nat);
        let frame = noise_row(rng, height - i, width, C_BG_DARK, C_DIM);
        let ghost view = frame@;
        put_beat(out, frame, 8);
        i += 1;
        proof {
            assert(steps(out@) =~= before + (done + beat(view, 8)));
        }
    }
}

/// How much noise the first `n` frames of a line that is revealed draw.
pub open spec fn noise_drawn(line: Seq<char>, n: nat, width: usize) -> nat
    decreases n,
{
    if n == 0 {
        0
    } else {
        noise_drawn(line, (n - 1) as nat, width) + screen::reveal_noise(line, n, width)
    }
}

/// A line of which one more character shows in each of the first `n` frames.
pub open spec fn revealing(
    state: u64,
    row: nat,
    line: Seq<char>,
    n: nat,
    width: usize,
    height: nat,
    status: Seq<char>,
) -> Seq<StepView>
    decreases n,
{
    if n == 0 {
        Seq::empty()
    } else {
        revealing(state, row, line, (n - 1) as nat, width, height, status) + seq![
            StepView::Print(
                screen::reveal_frame_text(
                    xorshift::shifted_by(state, noise_drawn(line, (n - 1) as nat, width)),
                    row,
                    line,
                    n,
                    width,
                ) + screen::status_bar_text(width as nat, height, status),
            ),
            StepView::Sleep(10),
        ] + if (n - 1) % 3 == 0 {
            seq![StepView::Feed]
        } else {
            seq![]
        }
    }
}

/// A line that has been revealed flashes up once.
pub open spec fn settling(
    row: nat,
    line: Seq<char>,
    width: usize,
    height: nat,
    status: Seq<char>,
) -> Seq<StepView> {
    let calm = screen::settled_row_text(row, line, width, C_GREEN@);
    seq![
        StepView::Print(calm + screen::status_bar_text(width as nat, height, status)),
        StepView::Print(screen::settled_row_text(row, line, width, C_BRIGHT_WHITE@)),
        StepView::Sleep(35),
        StepView::Print(calm),
        StepView::Sleep(18),
        StepView::Feed,
    ]
}

fn put_revealing(
    out: &mut Vec<Step>,
    rng: &mut Rng,
    row: usize,
    line: &str,
    width: usize,
    height: usize,
    status: &str,
)
    ensures
        steps(final(out)@) == steps(old(out)@) + revealing(
            old(rng).state(),
            row as nat,
            line@,
            line@.len(),
            width,
            height as nat,
            status@,
        ),
        final(rng).state() == xorshift::shifted_by(
            old(rng).state(),
            noise_drawn(line@, line@.len(), width),
        ),
{
    let ghost before = steps(out@);
    let ghost from = rng.state();
    let len: usize = line.unicode_len();
    let mut i: usize = 0;
    proof {
        assert(steps(out@) =~= before + revealing(
            from,
            row as nat,
            line@,
            0,
            width,
            height as nat,
            status@,
        ));
    }
    while i < len
        invariant
            i <= len,
            len == line@.len(),
            steps(out@) == before + revealing(
                from,
                row as nat,
                line@,
                i as nat,
                width,
                height as nat,
                status@,
            ),
            rng.state() == xorshift::shifted_by(from, noise_drawn(line@, i as nat, width)),
        decreases len - i,
    {
        let ghost done = revealing(
            from,
            row as nat,
            line@,
            i as nat,
            width,
            height as nat,
            status@,
        );
        proof {
            xorshift::lemma_shifted_adds(
                from,
                noise_drawn(line@, i as nat, width),
                screen::reveal_noise(line@, (i + 1) as nat, width),
            );
        }
        let mut frame = reveal_frame(rng, row, line, i + 1, width);
        frame.append(status_bar(width, height, status).as_str());
        let ghost view = frame@;
        put(out, Step::Print(frame));
        put(out, Step::Sleep(10));
        if i % 3 == 0 {
            put(out, Step::Feed);
        }
        proof {
            assert(steps(out@) =~= before + (done + seq![
                StepView::Print(view),
                StepView::Sleep(10),
            ] + if i % 3 == 0 {
                seq![StepView::Feed]
            } else {
                seq![]
            }));
        }
        i += 1;
    }
}

fn put_settling(
    out: &mut Vec<Step>,
    row: usize,
    line: &str,
    width: usize,
    height: usize,
    status: &str,
)
    ensures
        steps(final(out)@) == steps(old(out)@) + settling(
            row as nat,
            line@,
            width,
            height as nat,
            status@,
        ),
{
    let ghost before = steps(out@);
    let mut first = settled_row(row, line, width, C_GREEN);
    first.append(status_bar(width, height, status).as_str());
    put(out, Step::Print(first));
    put(out, Step::Print(settled_row(row, line, width, C_BRIGHT_WHITE)));
    put(out, Step::Sleep(35));
    put(out, Step::Print(settled_row(row, line, width, C_GREEN)));
    put(out, Step::Sleep(18));
    put(out, Step::Feed);
    proof {
        assert(steps(out@) =~= before + settling(
            row as nat,
            line@,
            width,
            height as nat,
            status@,
        ));
    }
}

/// A line that comes out of the noise, character by character.
pub open spec fn reveal_row(
    state: u64,
    row: nat,
    line: Seq<char>,
    width: usize,
    height: nat,
    status: Seq<char>,
) -> Seq<StepView> {
    revealing(state, row, line, line.len(), width, height, status) + settling(
        row,
        line,
        width,
        height,
        status,
    )
}

fn put_reveal_row(
    out: &mut Vec<Step>,
    rng: &mut Rng,
    row: usize,
    line: &str,
    width: usize,
    height: usize,
    status: &str,
)
    ensures
        steps(final(out)@) == steps(old(out)@) + reveal_row(
            old(rng).state(),
            row as nat,
            line@,
            width,
            height as nat,
            status@,
        ),
        final(rng).state() == xorshift::shifted_by(
            old(rng).state(),
            noise_drawn(line@, line@.len(), width),
        ),
{
    let ghost before = steps(out@);
    let ghost from = rng.state();
    put_revealing(out, rng, row, line, width, height, status);
    put_settling(out, row, line, width, height, status);
    proof {
        assert(steps(out@) =~= before + reveal_row(
            from,
            row as nat,
            line@,
            width,
            height as nat,
            status@,
        ));
    }
}

/// The headline.
pub const TITLE: &'static str = "█ TIME GATE █  OPENING THE DOOR  █ TIME GATE █";

/// What stands under the headline.
pub const RULE: &'static str = "──";

/// The headline as it stands once it has been revealed, with the status bar.
pub open spec fn headline_text(width: usize, height: nat, status: Seq<char>) -> Seq<char> {
    screen::status_bar_text(width as nat, height, status) + screen::settled_row_text(
        1,
        TITLE@,
        width,
        C_GREEN@,
    ) + screen::settled_row_text(2, RULE@, width, C_GREEN@) + (screen::at(3, 1) + C_BG_DARK@
        + C_CYAN@ + text::repeated('═', width as nat) + C_RESET@)
}

/// The headline and the status bar, to be drawn again once something has
/// covered them.
pub fn headline(width: usize, height: usize, unlock_time: &str) -> (s: String)
    ensures
        s@ == headline_text(width, height as nat, unlock_time@),
{
    let mut s = status_bar(width, height, unlock_time);
    s.append(settled_row(1, TITLE, width, C_GREEN).as_str());
    s.append(settled_row(2, RULE, width, C_GREEN).as_str());
    s.append(hline(3, width, C_CYAN).as_str());
    s
}

/// The state behind the opening.
pub open spec fn opened_state(state: u64, width: usize, height: usize) -> u64 {
    let area = (height as nat) * (width as nat);
    let s1 = xorshift::shifted_by(state, 20 * area);
    let s2 = xorshift::shifted_by(s1, area);
    let s3 = xorshift::shifted_by(s2, area);
    let s4 = xorshift::shifted_by(s3, noise_drawn(TITLE@, TITLE@.len(), width));
    xorshift::shifted_by(s4, noise_drawn(RULE@, RULE@.len(), width))
}

/// The opening: a storm of noise, then the headline.
pub open spec fn opening(state: u64, width: usize, height: usize, status: Seq<char>) -> Seq<
    StepView,
> {
    let w = width as nat;
    let h = height as nat;
    let area = h * w;
    let s1 = xorshift::shifted_by(state, 20 * area);
    let s2 = xorshift::shifted_by(s1, area);
    let s3 = xorshift::shifted_by(s2, area);
    let s4 = xorshift::shifted_by(s3, noise_drawn(TITLE@, TITLE@.len(), width));
    let blank = C_BG_DARK@ + screen::blank_rows(1, h, w);
    seq![StepView::Print(blank)] + flicker(state, 20, w, h, C_BG_DARK@, C_BRIGHT_WHITE@, 100) + sweep_down(
        s1,
        h,
        w,
    ) + sweep_up(s2, h, w, h) + seq![
        StepView::Print(blank + screen::status_bar_text(w, h, status)),
    ] + reveal_row(s3, 1, TITLE@, width, h, status) + reveal_row(s4, 2, RULE@, width, h, status)
        + seq![
        StepView::Print(
            screen::at(3, 1) + C_BG_DARK@ + C_CYAN@ + text::repeated('═', w) + C_RESET@,
        ),
    ]
}

/// The opening: a storm of noise, then the headline.
pub fn opening_script(rng: &mut Rng, width: usize, height: usize, unlock_time: &str) -> (r: Vec<
    Step,
>)
    ensures
        steps(r@) == opening(old(rng).state(), width, height, unlock_time@),
        final(rng).state() == opened_state(old(rng).state(), width, height),
{
    let mut out: Vec<Step> = Vec::new();
    proof {
        assert(steps(out@) =~= Seq::empty());
        assert(height * width >= 0) by (nonlinear_arith);
        assert((height as nat) * (width as nat) == height * width);
    }
    put(&mut out, Step::Print(fill_background(width, height)));
    proof {
        assert(steps(out@) =~= seq![
            StepView::Print(C_BG_DARK@ + screen::blank_rows(1, height as nat, width as nat)),
        ]);
    }
    put_flicker(&mut out, rng, 20, width, height, C_BG_DARK, C_BRIGHT_WHITE, 100);
    put_sweep_down(&mut out, rng, width, height);
    put_sweep_up(&mut out, rng, width, height);
    let mut blank = fill_background(width, height);
    blank.append(status_bar(width, height, unlock_time).as_str());
    put_print(&mut out, blank);
    put_reveal_row(&mut out, rng, 1, TITLE, width, height, unlock_time);
    put_reveal_row(&mut out, rng, 2, RULE, width, height, unlock_time);
    put_print(&mut out, hline(3, width, C_CYAN));
    out
}

/// A revealed line ends up in its row, in green, and at rest.
pub proof fn law_line_settles(
    row: nat,
    line: Seq<char>,
    width: usize,
    height: nat,
    status: Seq<char>,
)
    ensures
        ({
            let s = settling(row, line, width, height, status);
            let calm = screen::settled_row_text(row, line, width, C_GREEN@);
            &&& s[3] == StepView::Print(calm)
            &&& forall|i: int| 4 <= i < s.len() ==> !(#[trigger] s[i] is Print)
            &&& s.last() == StepView::Feed
        }),
{
}

/// The opening ends with the line under the headline, in the third row.
pub proof fn law_opening_ends(state: u64, width: usize, height: usize, status: Seq<char>)
    ensures
        opening(state, width, height, status).last() == StepView::Print(
            screen::at(3, 1) + C_BG_DARK@ + C_CYAN@ + text::repeated('═', width as nat) + C_RESET@,
        ),
        opening(state, width, height, status)[0] == StepView::Print(
            C_BG_DARK@ + screen::blank_rows(1, height as nat, width as nat),
        ),
{
}

} // verus!
