//! The end: a warning, then one bar after the other runs empty.
use vstd::prelude::*;

use crate::glyph;
use crate::glyph::Rng;
use crate::progress;
use crate::progress::{progress_bars, Fill};
use crate::screen;
use crate::screen::{
    cursor, fill_background, settled_row, status_bar, C_BG_DARK, C_DIM, C_RED, C_RESET, C_YELLOW,
};
use crate::script;
use crate::script::{put, put_beat, put_flicker, put_print, Step, StepView};
use crate::text;
use crate::width;
use crate::width::{center_pad, display_width};
use crate::xorshift;

verus! {

/// The warning.
pub const WARNING: &'static str = "INITIATING SELF-DESTRUCT SEQUENCE";

/// What the status bar says meanwhile.
pub const BURNING: &'static str = "BURNING...";

/// How many frames the bars take to run empty.
pub const BURN_FRAMES: usize = 42;

/// How many things are undone.
pub const BURN_COUNT: usize = 7;

/// What is undone.
pub const BURN_STAGES: [&'static str; BURN_COUNT] = [
    "Wiping key memory",
    "Zeroing payload buffer",
    "Releasing guard pages",
    "Stopping watchdog",
    "Removing seccomp filter",
    "Deleting binary",
    "Clean exit",
];

/// Columns to the right of a centred line.
pub open spec fn behind(msg: Seq<char>, width: usize) -> nat {
    width::minus(width as int, width::centred(msg, width) + width::shown(msg))
}

/// A line of which the first `n` characters stand, in the middle of noise.
pub open spec fn typed_text(state: u64, row: nat, msg: Seq<char>, n: nat, width: usize) -> Seq<
    char,
> {
    let pad = width::centred(msg, width) as nat;
    let rest = behind(msg, width);
    let s1 = xorshift::shifted_by(state, pad);
    let s2 = xorshift::shifted_by(s1, rest);
    screen::at(row, 1) + C_BG_DARK@ + C_DIM@ + glyph::noise(state, pad) + C_RED@ + (msg.subrange(
        0,
        n as int,
    ) + glyph::noise(s2, (msg.len() - n) as nat)) + C_BG_DARK@ + C_DIM@ + glyph::noise(s1, rest)
}

/// How much noise such a line draws.
pub open spec fn typed_noise(msg: Seq<char>, n: nat, width: usize) -> nat {
    width::centred(msg, width) as nat + behind(msg, width) + (msg.len() - n) as nat
}

/// A line of which the first `n` characters stand, in the middle of noise.
pub fn typed_row(rng: &mut Rng, row: usize, msg: &str, n: usize, width: usize) -> (s: String)
    requires
        n <= msg@.len(),
    ensures
        s@ == typed_text(old(rng).state(), row as nat, msg@, n as nat, width),
        final(rng).state() == xorshift::shifted_by(
            old(rng).state(),
            typed_noise(msg@, n as nat, width),
        ),
{
    let pad: usize = center_pad(msg, width);
    let rest: usize = width.saturating_sub(pad.saturating_add(display_width(msg)));
    let chars = text::chars_of(msg);
    let len: usize = chars.len();
    proof {
        xorshift::lemma_shifted_adds(rng.state(), pad as nat, rest as nat);
        xorshift::lemma_shifted_adds(rng.state(), (pad + rest) as nat, (len - n) as nat);
    }
    let left = rng.fill_line(pad);
    let right = rng.fill_line(rest);
    let mut line = text::string_of(vstd::slice::slice_subrange(chars.as_slice(), 0, n));
    line.append(rng.fill(len - n).as_str());
    let mut s = cursor(row, 1);
    s.append(C_BG_DARK);
    s.append(C_DIM);
    s.append(left.as_str());
    s.append(C_RED);
    s.append(line.as_str());
    s.append(C_BG_DARK);
    s.append(C_DIM);
    s.append(right.as_str());
    s
}

/// How much noise is drawn while the first `n` characters are typed, two frames
/// for each.
pub open spec fn typing_noise(msg: Seq<char>, n: nat, width: usize) -> nat
    decreases n,
{
    if n == 0 {
        0
    } else {
        typing_noise(msg, (n - 1) as nat, width) + typed_noise(msg, (n - 1) as nat, width)
            + typed_noise(msg, (n - 1) as nat, width)
    }
}

/// The first `n` characters are typed, two frames for each.
pub open spec fn typing(state: u64, row: nat, msg: Seq<char>, n: nat, width: usize) -> Seq<StepView>
    decreases n,
{
    if n == 0 {
        Seq::empty()
    } else {
        let k = (n - 1) as nat;
        let s1 = xorshift::shifted_by(state, typing_noise(msg, k, width));
        let s2 = xorshift::shifted_by(s1, typed_noise(msg, k, width));
        typing(state, row, msg, k, width) + script::beat(typed_text(s1, row, msg, k, width), 30)
            + script::beat(typed_text(s2, row, msg, k, width), 30)
    }
}

fn put_typing(out: &mut Vec<Step>, rng: &mut Rng, row: usize, msg: &str, width: usize)
    ensures
        script::steps(final(out)@) == script::steps(old(out)@) + typing(
            old(rng).state(),
            row as nat,
            msg@,
            msg@.len(),
            width,
        ),
        final(rng).state() == xorshift::shifted_by(
            old(rng).state(),
            typing_noise(msg@, msg@.len(), width),
        ),
{
    let ghost before = script::steps(out@);
    let ghost from = rng.state();
    let len: usize = msg.unicode_len();
    let mut i: usize = 0;
    proof {
        assert(script::steps(out@) =~= before + typing(from, row as nat, msg@, 0, width));
    }
    while i < len
        invariant
            i <= len,
            len == msg@.len(),
            script::steps(out@) == before + typing(from, row as nat, msg@, i as nat, width),
            rng.state() == xorshift::shifted_by(from, typing_noise(msg@, i as nat, width)),
        decreases len - i,
    {
        let ghost done = typing(from, row as nat, msg@, i as nat, width);
        proof {
            let drawn = typing_noise(msg@, i as nat, width);
            let more = typed_noise(msg@, i as nat, width);
            xorshift::lemma_shifted_adds(from, drawn, more);
            xorshift::lemma_shifted_adds(from, drawn + more, more);
        }
        let one = typed_row(rng, row, msg, i, width);
        let two = typed_row(rng, row, msg, i, width);
        let ghost one_view = one@;
        let ghost two_view = two@;
        put_beat(out, one, 30);
        put_beat(out, two, 30);
        i += 1;
        proof {
            assert(script::steps(out@) =~= before + (done + script::beat(one_view, 30)
                + script::beat(two_view, 30)));
        }
    }
}

/// A block in the middle of a row, or the gap that it leaves.
pub open spec fn block_text(row: nat, width: usize, on: bool) -> Seq<char> {
    let pad = width::centred("█"@, width);
    screen::at(row, 1) + C_BG_DARK@ + C_DIM@ + screen::spaces(pad as nat) + (if on {
        C_YELLOW@ + "█"@ + C_BG_DARK@
    } else {
        " "@
    }) + screen::spaces(width::minus(width as int, pad + 1))
}

/// A block in the middle of a row, or the gap that it leaves.
pub fn block(row: usize, width: usize, on: bool) -> (s: String)
    ensures
        s@ == block_text(row as nat, width, on),
{
    let pad: usize = center_pad("█", width);
    let mut s = cursor(row, 1);
    s.append(C_BG_DARK);
    s.append(C_DIM);
    text::push_repeated(&mut s, ' ', pad);
    if on {
        let mut cell = C_YELLOW.to_owned();
        cell.append("█");
        cell.append(C_BG_DARK);
        s.append(cell.as_str());
    } else {
        s.append(" ");
    }
    text::push_repeated(&mut s, ' ', width.saturating_sub(pad.saturating_add(1)));
    s
}

/// A block that blinks `n` times.
pub open spec fn blinking_block(row: nat, n: nat, width: usize) -> Seq<StepView>
    decreases n,
{
    if n == 0 {
        Seq::empty()
    } else {
        blinking_block(row, (n - 1) as nat, width) + seq![
            StepView::Print(block_text(row, width, true)),
            StepView::Sleep(110),
            StepView::Print(block_text(row, width, false)),
            StepView::Sleep(90),
            StepView::Feed,
        ]
    }
}

fn put_blinking_block(out: &mut Vec<Step>, row: usize, n: usize, width: usize)
    ensures
        script::steps(final(out)@) == script::steps(old(out)@) + blinking_block(
            row as nat,
            n as nat,
            width,
        ),
{
    let ghost before = script::steps(out@);
    let mut i: usize = 0;
    proof {
        assert(script::steps(out@) =~= before + blinking_block(row as nat, 0, width));
    }
    while i < n
        invariant
            i <= n,
            script::steps(out@) == before + blinking_block(row as nat, i as nat, width),
        decreases n - i,
    {
        put(out, Step::Print(block(row, width, true)));
        put(out, Step::Sleep(110));
        put(out, Step::Print(block(row, width, false)));
        put(out, Step::Sleep(90));
        put(out, Step::Feed);
        i += 1;
        proof {
            assert(script::steps(out@) =~= before + blinking_block(row as nat, i as nat, width));
        }
    }
}

/// The empty screen with the status bar.
pub open spec fn burning_screen(width: usize, height: usize) -> Seq<char> {
    C_BG_DARK@ + screen::blank_rows(1, height as nat, width as nat) + screen::status_bar_text(
        width as nat,
        height as nat,
        BURNING@,
    )
}

fn empty_screen(width: usize, height: usize) -> (s: String)
    ensures
        s@ == burning_screen(width, height),
{
    let mut s = fill_background(width, height);
    s.append(status_bar(width, height, BURNING).as_str());
    s
}

/// The warning is typed, a block blinks under it, and the screen is emptied.
pub open spec fn warned(state: u64, width: usize, height: usize) -> Seq<StepView> {
    let row = (height / 2) as nat;
    seq![StepView::Print(burning_screen(width, height))] + typing(
        state,
        row,
        WARNING@,
        WARNING@.len(),
        width,
    ) + seq![
        StepView::Print(screen::settled_row_text(row, WARNING@, width, C_RED@) + C_RESET@),
    ] + blinking_block(row + 2, 10, width) + seq![StepView::Print(burning_screen(width, height))]
}

/// The warning is typed, a block blinks under it, and the screen is emptied for
/// the bars.
pub fn burn_warning(rng: &mut Rng, width: usize, height: usize) -> (r: Vec<Step>)
    ensures
        script::steps(r@) == warned(old(rng).state(), width, height),
        final(rng).state() == xorshift::shifted_by(
            old(rng).state(),
            typing_noise(WARNING@, WARNING@.len(), width),
        ),
{
    let mut out: Vec<Step> = Vec::new();
    let row: usize = height / 2;
    put_print(&mut out, empty_screen(width, height));
    proof {
        assert(script::steps(out@) =~= seq![StepView::Print(burning_screen(width, height))]);
    }
    put_typing(&mut out, rng, row, WARNING, width);
    let mut line = settled_row(row, WARNING, width, C_RED);
    line.append(C_RESET);
    put_print(&mut out, line);
    put_blinking_block(&mut out, row + 2, 10, width);
    put_print(&mut out, empty_screen(width, height));
    out
}

/// The bars run empty from the last to the first, each in five steps.
pub open spec fn schedule() -> Seq<(usize, u32)> {
    Seq::new(42, |k: int| ((6 - k / 6) as usize, (k % 6) as u32))
}

/// The order in which the bars run empty: which bar, and how many fifths of it
/// are gone.
pub fn burn_schedule() -> (r: Vec<(usize, u32)>)
    ensures
        r@ == schedule(),
{
    let mut r: Vec<(usize, u32)> = Vec::new();
    let mut k: usize = 0;
    while k < 42
        invariant
            k <= 42,
            r@ =~= schedule().subrange(0, k as int),
        decreases 42 - k,
    {
        r.push((6 - k / 6, (k % 6) as u32));
        k += 1;
    }
    proof {
        assert(r@ =~= schedule());
    }
    r
}

/// The bars while the one at `current` runs empty.
pub fn burn_frame(width: usize, height: usize, current: usize, active: Fill) -> (s: String)
    ensures
        s@ == frame_text(width, height, current as int, active),
{
    progress_bars(&BURN_STAGES, width, height, current, active)
}

/// The screen flickers in red and goes blank.
pub open spec fn burnt(state: u64, width: usize, height: usize) -> Seq<StepView> {
    script::flicker(state, 3, width as nat, height as nat, C_BG_DARK@, C_RED@, 45) + seq![
        StepView::Print(screen::CLEAR@ + screen::SHOW_CURSOR@),
    ]
}

/// The screen flickers in red and goes blank.
pub fn burn_end(rng: &mut Rng, width: usize, height: usize) -> (r: Vec<Step>)
    ensures
        script::steps(r@) == burnt(old(rng).state(), width, height),
        final(rng).state() == xorshift::shifted_by(
            old(rng).state(),
            3 * ((height as nat) * (width as nat)),
        ),
{
    let mut out: Vec<Step> = Vec::new();
    proof {
        assert(height * width >= 0) by (nonlinear_arith);
        assert((height as nat) * (width as nat) == height * width);
        assert(script::steps(out@) =~= Seq::empty());
    }
    let ghost from = rng.state();
    put_flicker(&mut out, rng, 3, width, height, C_BG_DARK, C_RED, 45);
    let mut last = screen::CLEAR.to_owned();
    last.append(screen::SHOW_CURSOR);
    put_print(&mut out, last);
    proof {
        assert(script::steps(out@) =~= burnt(from, width, height));
    }
    out
}

/// What a frame of the bars shows while the one at `current` runs empty.
pub open spec fn frame_text(width: usize, height: usize, current: int, active: Fill) -> Seq<char> {
    progress::bars_text(
        progress::labels_of(BURN_STAGES@),
        7,
        width,
        progress::bars_top(height, 7),
        current,
        active,
    )
}

/// A frame of the bars, a sign of life and a wait.
pub open spec fn frame(s: Seq<char>, ms: u64) -> Seq<StepView> {
    seq![StepView::Print(s), StepView::Feed, StepView::Sleep(ms)]
}

/// The first `n` frames of the bars that run empty.
pub open spec fn frames(fills: Seq<Fill>, n: nat, width: usize, height: usize) -> Seq<StepView>
    decreases n,
{
    if n == 0 {
        Seq::empty()
    } else {
        let k = n - 1;
        frames(fills, k as nat, width, height) + frame(
            frame_text(width, height, schedule()[k].0 as int, fills[k]),
            10,
        )
    }
}

/// The last frame: every bar is empty.
pub open spec fn closing(width: usize, height: usize) -> Seq<StepView> {
    frame(frame_text(width, height, 0, Fill { cells: 0, tenths: 0 }), 300)
}

/// The whole end: the warning, the bars, and the flicker.
pub open spec fn burning(state: u64, width: usize, height: usize, fills: Seq<Fill>) -> Seq<
    StepView,
> {
    let after = xorshift::shifted_by(state, typing_noise(WARNING@, WARNING@.len(), width));
    warned(state, width, height) + frames(fills, 42, width, height) + closing(width, height)
        + burnt(after, width, height)
}

fn put_frame(out: &mut Vec<Step>, s: String, ms: u64)
    ensures
        script::steps(final(out)@) == script::steps(old(out)@) + frame(s@, ms),
{
    let ghost before = script::steps(out@);
    let ghost view = s@;
    put(out, Step::Print(s));
    put(out, Step::Feed);
    put(out, Step::Sleep(ms));
    proof {
        assert(script::steps(out@) =~= before + frame(view, ms));
    }
}

/// The whole end as one script. `fills` says how far the bar that runs empty is
/// filled in each frame, in the order of `burn_schedule`.
pub fn burn_script(
    rng: &mut Rng,
    width: usize,
    height: usize,
    fills: &[Fill; BURN_FRAMES],
) -> (r: Vec<Step>)
    ensures
        script::steps(r@) == burning(old(rng).state(), width, height, fills@),
        final(rng).state() == xorshift::shifted_by(
            xorshift::shifted_by(old(rng).state(), typing_noise(WARNING@, WARNING@.len(), width)),
            3 * ((height as nat) * (width as nat)),
        ),
{
    let ghost from = rng.state();
    let mut out: Vec<Step> = burn_warning(rng, width, height);
    let ghost start = script::steps(out@);
    let order: Vec<(usize, u32)> = burn_schedule();
    let mut k: usize = 0;
    proof {
        assert(script::steps(out@) =~= start + frames(fills@, 0, width, height));
    }
    while k < BURN_FRAMES
        invariant
            k <= BURN_FRAMES,
            order@ == schedule(),
            script::steps(out@) == start + frames(fills@, k as nat, width, height),
        decreases BURN_FRAMES - k,
    {
        let ghost done = frames(fills@, k as nat, width, height);
        let s: String = burn_frame(width, height, order[k].0, fills[k]);
        let ghost view = s@;
        put_frame(&mut out, s, 10);
        k += 1;
        proof {
            assert(script::steps(out@) =~= start + (done + frame(view, 10)));
        }
    }
    let last: String = burn_frame(width, height, 0, Fill { cells: 0, tenths: 0 });
    put_frame(&mut out, last, 300);
    let mut end: Vec<Step> = burn_end(rng, width, height);
    let ghost before = script::steps(out@);
    let ghost end_view = script::steps(end@);
    out.append(&mut end);
    proof {
        assert(script::steps(out@) =~= before + end_view);
    }
    out
}

/// How many signs of life a script gives.
pub open spec fn signs_of_life(s: Seq<StepView>) -> nat
    decreases s.len(),
{
    if s.len() == 0 {
        0
    } else {
        signs_of_life(s.drop_last()) + (if s.last() is Feed {
            1nat
        } else {
            0nat
        })
    }
}

proof fn lemma_signs_add(a: Seq<StepView>, b: Seq<StepView>)
    ensures
        signs_of_life(a + b) == signs_of_life(a) + signs_of_life(b),
    decreases b.len(),
{
    if b.len() == 0 {
        assert(a + b =~= a);
    } else {
        lemma_signs_add(a, b.drop_last());
        assert((a + b).drop_last() =~= a + b.drop_last());
        assert((a + b).last() == b.last());
    }
}

proof fn lemma_signs_one(s: StepView)
    ensures
        signs_of_life(seq![s]) == (if s is Feed {
            1nat
        } else {
            0nat
        }),
{
    assert(seq![s].drop_last() =~= Seq::empty());
    assert(signs_of_life(Seq::empty()) == 0);
}

proof fn lemma_signs_frame(s: Seq<char>, ms: u64)
    ensures
        signs_of_life(frame(s, ms)) == 1,
        signs_of_life(script::beat(s, ms)) == 1,
{
    let p = StepView::Print(s);
    let z = StepView::Sleep(ms);
    lemma_signs_one(p);
    lemma_signs_one(z);
    lemma_signs_one(StepView::Feed);
    assert(frame(s, ms) =~= seq![p] + seq![StepView::Feed] + seq![z]);
    lemma_signs_add(seq![p], seq![StepView::Feed]);
    lemma_signs_add(seq![p] + seq![StepView::Feed], seq![z]);
    assert(script::beat(s, ms) =~= seq![p] + seq![z] + seq![StepView::Feed]);
    lemma_signs_add(seq![p], seq![z]);
    lemma_signs_add(seq![p] + seq![z], seq![StepView::Feed]);
}

proof fn lemma_signs_typing(state: u64, row: nat, msg: Seq<char>, n: nat, width: usize)
    ensures
        signs_of_life(typing(state, row, msg, n, width)) == 2 * n,
    decreases n,
{
    if n > 0 {
        let k = (n - 1) as nat;
        lemma_signs_typing(state, row, msg, k, width);
        let s1 = xorshift::shifted_by(state, typing_noise(msg, k, width));
        let s2 = xorshift::shifted_by(s1, typed_noise(msg, k, width));
        let one = script::beat(typed_text(s1, row, msg, k, width), 30);
        let two = script::beat(typed_text(s2, row, msg, k, width), 30);
        lemma_signs_frame(typed_text(s1, row, msg, k, width), 30);
        lemma_signs_frame(typed_text(s2, row, msg, k, width), 30);
        lemma_signs_add(typing(state, row, msg, k, width), one);
        lemma_signs_add(typing(state, row, msg, k, width) + one, two);
    }
}

proof fn lemma_signs_blinking(row: nat, n: nat, width: usize)
    ensures
        signs_of_life(blinking_block(row, n, width)) == n,
    decreases n,
{
    if n > 0 {
        let k = (n - 1) as nat;
        lemma_signs_blinking(row, k, width);
        let on = StepView::Print(block_text(row, width, true));
        let off = block_text(row, width, false);
        let blink = seq![
            on,
            StepView::Sleep(110),
            StepView::Print(off),
            StepView::Sleep(90),
            StepView::Feed,
        ];
        assert(blink =~= seq![on] + seq![StepView::Sleep(110)] + script::beat(off, 90));
        lemma_signs_one(on);
        lemma_signs_one(StepView::Sleep(110));
        lemma_signs_frame(off, 90);
        lemma_signs_add(seq![on], seq![StepView::Sleep(110)]);
        lemma_signs_add(seq![on] + seq![StepView::Sleep(110)], script::beat(off, 90));
        lemma_signs_add(blinking_block(row, k, width), blink);
    }
}

proof fn lemma_signs_flicker(state: u64, n: nat, width: nat, height: nat)
    ensures
        signs_of_life(script::flicker(state, n, width, height, C_BG_DARK@, C_RED@, 45)) == n,
    decreases n,
{
    if n > 0 {
        let k = (n - 1) as nat;
        lemma_signs_flicker(state, k, width, height);
        let rows = screen::noise_rows(
            xorshift::shifted_by(state, ((n - 1) * (height * width)) as nat),
            height,
            width,
            C_BG_DARK@,
            C_RED@,
        );
        lemma_signs_frame(rows, 45);
        lemma_signs_add(
            script::flicker(state, k, width, height, C_BG_DARK@, C_RED@, 45),
            script::beat(rows, 45),
        );
    }
}

proof fn lemma_signs_frames(fills: Seq<Fill>, n: nat, width: usize, height: usize)
    ensures
        signs_of_life(frames(fills, n, width, height)) == n,
    decreases n,
{
    if n > 0 {
        let k = n - 1;
        lemma_signs_frames(fills, k as nat, width, height);
        let shown = frame_text(width, height, schedule()[k].0 as int, fills[k]);
        lemma_signs_frame(shown, 10);
        lemma_signs_add(frames(fills, k as nat, width, height), frame(shown, 10));
    }
}

proof fn lemma_signs_warned(state: u64, width: usize, height: usize)
    ensures
        signs_of_life(warned(state, width, height)) == 76,
{
    reveal_strlit("INITIATING SELF-DESTRUCT SEQUENCE");
    assert(WARNING@.len() == 33);
    let row = (height / 2) as nat;
    let screen = StepView::Print(burning_screen(width, height));
    let line = StepView::Print(screen::settled_row_text(row, WARNING@, width, C_RED@) + C_RESET@);
    let typed = typing(state, row, WARNING@, WARNING@.len(), width);
    let blinks = blinking_block(row + 2, 10, width);
    lemma_signs_one(screen);
    lemma_signs_one(line);
    lemma_signs_typing(state, row, WARNING@, WARNING@.len(), width);
    lemma_signs_blinking(row + 2, 10, width);
    lemma_signs_add(seq![screen], typed);
    lemma_signs_add(seq![screen] + typed, seq![line]);
    lemma_signs_add(seq![screen] + typed + seq![line], blinks);
    lemma_signs_add(seq![screen] + typed + seq![line] + blinks, seq![screen]);
}

/// Whatever the size of the screen, the end gives 122 signs of life: two for
/// each of the 33 characters of the warning, ten for the block, 43 for the
/// bars and three for the flicker. At the end the screen is blank and the
/// cursor shows.
pub proof fn law_burning_stays_alive(state: u64, width: usize, height: usize, fills: Seq<Fill>)
    ensures
        signs_of_life(burning(state, width, height, fills)) == 122,
        burning(state, width, height, fills).last() == StepView::Print(
            screen::CLEAR@ + screen::SHOW_CURSOR@,
        ),
{
    let after = xorshift::shifted_by(state, typing_noise(WARNING@, WARNING@.len(), width));
    let a = warned(state, width, height);
    let b = frames(fills, 42, width, height);
    let c = closing(width, height);
    let d = burnt(after, width, height);
    let blank = StepView::Print(screen::CLEAR@ + screen::SHOW_CURSOR@);
    let f = script::flicker(after, 3, width as nat, height as nat, C_BG_DARK@, C_RED@, 45);
    lemma_signs_warned(state, width, height);
    lemma_signs_frames(fills, 42, width, height);
    lemma_signs_frame(frame_text(width, height, 0, Fill { cells: 0, tenths: 0 }), 300);
    lemma_signs_flicker(after, 3, width as nat, height as nat);
    lemma_signs_one(blank);
    lemma_signs_add(f, seq![blank]);
    lemma_signs_add(a, b);
    lemma_signs_add(a + b, c);
    lemma_signs_add(a + b + c, d);
    assert(d.last() == blank);
}

/// The bars run empty from the last of seven to the first, each in six frames
/// from full to empty.
pub proof fn law_schedule(bar: int, step: int)
    requires
        0 <= bar < 7,
        0 <= step < 6,
    ensures
        schedule().len() == 42,
        schedule()[6 * (6 - bar) + step] == (bar as usize, step as u32),
{
    let k = 6 * (6 - bar) + step;
    assert(k / 6 == 6 - bar && k % 6 == step);
}

/// What is undone, in the order of the bars, and what the warning says.
pub proof fn law_what_is_undone()
    ensures
        BURN_STAGES@.len() == 7,
        BURN_STAGES@[0]@ == "Wiping key memory"@,
        BURN_STAGES@[1]@ == "Zeroing payload buffer"@,
        BURN_STAGES@[2]@ == "Releasing guard pages"@,
        BURN_STAGES@[3]@ == "Stopping watchdog"@,
        BURN_STAGES@[4]@ == "Removing seccomp filter"@,
        BURN_STAGES@[5]@ == "Deleting binary"@,
        BURN_STAGES@[6]@ == "Clean exit"@,
        WARNING@ == "INITIATING SELF-DESTRUCT SEQUENCE"@,
        BURNING@ == "BURNING..."@,
{
}

} // verus!
