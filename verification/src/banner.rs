//! Messages in the middle of the screen that come out of the noise.
use vstd::prelude::*;

use crate::glyph;
use crate::glyph::Rng;
use crate::screen;
use crate::screen::{
    cursor, fill_background, status_bar, C_BG_DARK, C_BRIGHT_WHITE, C_CYAN, C_DIM, C_GREEN, C_RED,
    C_RESET,
};
use crate::script;
use crate::script::{put, put_beat, put_flicker, put_print, Step, StepView};
use crate::text;
use crate::width;
use crate::width::display_width;
use crate::xorshift;

verus! {

/// Columns to the left of a message with a margin of two columns on each side.
pub open spec fn margin(msg: Seq<char>, width: usize) -> nat {
    width::minus(width as int, width::shown(msg) + 4) / 2
}

/// Columns to the right of it.
pub open spec fn far_margin(msg: Seq<char>, width: usize) -> nat {
    width::minus(width as int, margin(msg, width) + width::shown(msg) + 4)
}

/// A message with noise on both sides.
pub open spec fn noisy_banner_text(
    state: u64,
    row: nat,
    msg: Seq<char>,
    color: Seq<char>,
    width: usize,
) -> Seq<char> {
    let left = margin(msg, width);
    screen::at(row, 1) + C_BG_DARK@ + C_DIM@ + glyph::noise(state, left) + color + "  "@ + msg
        + "  "@ + C_RESET@ + C_BG_DARK@ + C_DIM@ + glyph::noise(
        xorshift::shifted_by(state, left),
        far_margin(msg, width),
    )
}

/// A message with nothing on either side.
pub open spec fn banner_text(
    row: nat,
    msg: Seq<char>,
    side: Seq<char>,
    color: Seq<char>,
    width: usize,
) -> Seq<char> {
    screen::at(row, 1) + C_BG_DARK@ + side + screen::spaces(margin(msg, width)) + color + "  "@
        + msg + "  "@ + C_BG_DARK@ + screen::spaces(far_margin(msg, width)) + C_RESET@
}

fn margins(msg: &str, width: usize) -> (r: (usize, usize))
    ensures
        r.0 == margin(msg@, width),
        r.1 == far_margin(msg@, width),
{
    let w: usize = display_width(msg);
    let used: usize = w.saturating_add(4);
    let left: usize = width.saturating_sub(used) / 2;
    (left, width.saturating_sub(left.saturating_add(used)))
}

/// A message with noise on both sides.
pub fn noisy_banner(rng: &mut Rng, row: usize, msg: &str, color: &str, width: usize) -> (s: String)
    ensures
        s@ == noisy_banner_text(old(rng).state(), row as nat, msg@, color@, width),
        final(rng).state() == xorshift::shifted_by(
            old(rng).state(),
            noise_per_frame(msg@, width),
        ),
{
    let (left, right) = margins(msg, width);
    proof {
        xorshift::lemma_shifted_adds(rng.state(), left as nat, right as nat);
    }
    let left_noise = rng.fill_line(left);
    let right_noise = rng.fill_line(right);
    let mut s = cursor(row, 1);
    s.append(C_BG_DARK);
    s.append(C_DIM);
    s.append(left_noise.as_str());
    s.append(color);
    s.append("  ");
    s.append(msg);
    s.append("  ");
    s.append(C_RESET);
    s.append(C_BG_DARK);
    s.append(C_DIM);
    s.append(right_noise.as_str());
    s
}

/// A message with nothing on either side.
pub fn banner(row: usize, msg: &str, side: &str, color: &str, width: usize) -> (s: String)
    ensures
        s@ == banner_text(row as nat, msg@, side@, color@, width),
{
    let (left, right) = margins(msg, width);
    let mut s = cursor(row, 1);
    s.append(C_BG_DARK);
    s.append(side);
    text::push_repeated(&mut s, ' ', left);
    s.append(color);
    s.append("  ");
    s.append(msg);
    s.append("  ");
    s.append(C_BG_DARK);
    text::push_repeated(&mut s, ' ', right);
    s.append(C_RESET);
    s
}

/// How much noise one frame of a message draws.
pub open spec fn noise_per_frame(msg: Seq<char>, width: usize) -> nat {
    margin(msg, width) + far_margin(msg, width)
}

/// `n` frames of a message with noise on both sides.
pub open spec fn emerging(
    state: u64,
    n: nat,
    row: nat,
    msg: Seq<char>,
    color: Seq<char>,
    width: usize,
    ms: u64,
) -> Seq<StepView>
    decreases n,
{
    if n == 0 {
        Seq::empty()
    } else {
        let drawn = noise_per_frame(msg, width);
        emerging(state, (n - 1) as nat, row, msg, color, width, ms) + script::beat(
            noisy_banner_text(
                xorshift::shifted_by(state, ((n - 1) * drawn) as nat),
                row,
                msg,
                color,
                width,
            ),
            ms,
        )
    }
}

fn put_emerging(
    out: &mut Vec<Step>,
    rng: &mut Rng,
    n: usize,
    row: usize,
    msg: &str,
    color: &str,
    width: usize,
    ms: u64,
)
    ensures
        script::steps(final(out)@) == script::steps(old(out)@) + emerging(
            old(rng).state(),
            n as nat,
            row as nat,
            msg@,
            color@,
            width,
            ms,
        ),
        final(rng).state() == xorshift::shifted_by(
            old(rng).state(),
            (n * noise_per_frame(msg@, width)) as nat,
        ),
{
    let ghost before = script::steps(out@);
    let ghost from = rng.state();
    let ghost drawn = noise_per_frame(msg@, width);
    let mut i: usize = 0;
    proof {
        assert(0 * drawn == 0) by (nonlinear_arith);
        assert(script::steps(out@) =~= before + emerging(
            from,
            0,
            row as nat,
            msg@,
            color@,
            width,
            ms,
        ));
    }
    while i < n
        invariant
            i <= n,
            drawn == noise_per_frame(msg@, width),
            script::steps(out@) == before + emerging(
                from,
                i as nat,
                row as nat,
                msg@,
                color@,
                width,
                ms,
            ),
            rng.state() == xorshift::shifted_by(from, (i * drawn) as nat),
        decreases n - i,
    {
        let ghost done = emerging(from, i as nat, row as nat, msg@, color@, width, ms);
        proof {
            let q = (i * drawn) as nat;
            assert(i * drawn >= 0) by (nonlinear_arith);
            xorshift::lemma_shifted_adds(from, q, drawn);
            assert((i + 1) * drawn == q + drawn) by (nonlinear_arith)
                requires
                    q == i * drawn,
            ;
        }
        let frame = noisy_banner(rng, row, msg, color, width);
        let ghost view = frame@;
        put_beat(out, frame, ms);
        i += 1;
        proof {
            assert(script::steps(out@) =~= before + (done + script::beat(view, ms)));
        }
    }
}

/// The screen is cleared, a message comes out of the noise and stays.
pub open spec fn announced(
    state: u64,
    width: usize,
    height: usize,
    msg: Seq<char>,
    color: Seq<char>,
    status: Seq<char>,
    n: nat,
    ms: u64,
) -> Seq<StepView> {
    let row = (height / 2) as nat;
    let bar = screen::status_bar_text(width as nat, height as nat, status);
    seq![
        StepView::Print(
            C_BG_DARK@ + screen::blank_rows(1, height as nat, width as nat) + bar,
        ),
    ] + emerging(state, n, row, msg, color, width, ms) + seq![
        StepView::Print(banner_text(row, msg, C_DIM@, color, width) + bar),
    ]
}

fn announce(
    rng: &mut Rng,
    width: usize,
    height: usize,
    msg: &str,
    color: &str,
    status: &str,
    n: usize,
    ms: u64,
) -> (r: Vec<Step>)
    ensures
        script::steps(r@) == announced(
            old(rng).state(),
            width,
            height,
            msg@,
            color@,
            status@,
            n as nat,
            ms,
        ),
        final(rng).state() == xorshift::shifted_by(
            old(rng).state(),
            (n * noise_per_frame(msg@, width)) as nat,
        ),
{
    let mut out: Vec<Step> = Vec::new();
    let mut first = fill_background(width, height);
    first.append(status_bar(width, height, status).as_str());
    let ghost view = first@;
    put_print(&mut out, first);
    proof {
        assert(script::steps(out@) =~= seq![StepView::Print(view)]);
    }
    put_emerging(&mut out, rng, n, height / 2, msg, color, width, ms);
    let mut last = banner(height / 2, msg, C_DIM, color, width);
    last.append(status_bar(width, height, status).as_str());
    put_print(&mut out, last);
    out
}

/// Asks for the password.
pub fn dynamic_center_prompt(rng: &mut Rng, width: usize, height: usize, prompt: &str) -> (r: Vec<
    Step,
>)
    ensures
        script::steps(r@) == announced(
            old(rng).state(),
            width,
            height,
            prompt@,
            C_CYAN@,
            "AWAITING PASSWORD"@,
            10,
            45,
        ),
        final(rng).state() == xorshift::shifted_by(
            old(rng).state(),
            10 * noise_per_frame(prompt@, width),
        ),
{
    announce(rng, width, height, prompt, C_CYAN, "AWAITING PASSWORD", 10, 45)
}

/// Says what is going on.
pub fn dynamic_center_message(
    rng: &mut Rng,
    width: usize,
    height: usize,
    msg: &str,
    color: &str,
) -> (r: Vec<Step>)
    ensures
        script::steps(r@) == announced(
            old(rng).state(),
            width,
            height,
            msg@,
            color@,
            "PROCESSING..."@,
            6,
            35,
        ),
        final(rng).state() == xorshift::shifted_by(
            old(rng).state(),
            6 * noise_per_frame(msg@, width),
        ),
{
    announce(rng, width, height, msg, color, "PROCESSING...", 6, 35)
}

/// The row that an error stands in.
pub open spec fn error_row(height: usize) -> nat {
    (height / 2 + 2) as nat
}

/// `n` times a message in two brightnesses.
pub open spec fn blinking(n: nat, row: nat, msg: Seq<char>, width: usize) -> Seq<StepView>
    decreases n,
{
    if n == 0 {
        Seq::empty()
    } else {
        blinking((n - 1) as nat, row, msg, width) + seq![
            StepView::Print(banner_text(row, msg, C_DIM@, C_RED@, width)),
            StepView::Sleep(200),
            StepView::Print(banner_text(row, msg, C_BRIGHT_WHITE@, C_RED@, width)),
            StepView::Sleep(200),
            StepView::Feed,
        ]
    }
}

fn put_blinking(out: &mut Vec<Step>, n: usize, row: usize, msg: &str, width: usize)
    ensures
        script::steps(final(out)@) == script::steps(old(out)@) + blinking(
            n as nat,
            row as nat,
            msg@,
            width,
        ),
{
    let ghost before = script::steps(out@);
    let mut i: usize = 0;
    proof {
        assert(script::steps(out@) =~= before + blinking(0, row as nat, msg@, width));
    }
    while i < n
        invariant
            i <= n,
            script::steps(out@) == before + blinking(i as nat, row as nat, msg@, width),
        decreases n - i,
    {
        put(out, Step::Print(banner(row, msg, C_DIM, C_RED, width)));
        put(out, Step::Sleep(200));
        put(out, Step::Print(banner(row, msg, C_BRIGHT_WHITE, C_RED, width)));
        put(out, Step::Sleep(200));
        put(out, Step::Feed);
        i += 1;
        proof {
            assert(script::steps(out@) =~= before + blinking(i as nat, row as nat, msg@, width));
        }
    }
}

/// An error comes out of the noise, blinks and stays.
pub open spec fn alarmed(state: u64, width: usize, height: usize, msg: Seq<char>) -> Seq<StepView> {
    let row = error_row(height);
    emerging(state, 7, row, msg, C_RED@, width, 40) + blinking(4, row, msg, width) + seq![
        StepView::Print(banner_text(row, msg, C_DIM@, C_RED@, width)),
    ] + seq![StepView::Sleep(300)]
}

/// Says what went wrong.
pub fn dynamic_center_error(rng: &mut Rng, width: usize, height: usize, msg: &str) -> (r: Vec<Step>)
    ensures
        script::steps(r@) == alarmed(old(rng).state(), width, height, msg@),
        final(rng).state() == xorshift::shifted_by(
            old(rng).state(),
            7 * noise_per_frame(msg@, width),
        ),
{
    let mut out: Vec<Step> = Vec::new();
    let row: usize = height / 2 + 2;
    let ghost from = rng.state();
    put_emerging(&mut out, rng, 7, row, msg, C_RED, width, 40);
    put_blinking(&mut out, 4, row, msg, width);
    put_print(&mut out, banner(row, msg, C_DIM, C_RED, width));
    put(&mut out, Step::Sleep(300));
    proof {
        assert(script::steps(out@) =~= alarmed(from, width, height, msg@));
    }
    out
}

/// What is said once the door is open.
pub const GRANTED: [&'static str; 3] = [
    "█ ACCESS GRANTED █",
    "█ DECRYPTION SUCCESSFUL █",
    "█ PAYLOAD READY █",
];

/// The state behind the first `n` messages.
pub open spec fn granted_state(state: u64, n: nat, width: usize) -> u64
    decreases n,
{
    if n == 0 {
        state
    } else {
        xorshift::shifted_by(
            granted_state(state, (n - 1) as nat, width),
            6 * noise_per_frame(GRANTED@[n - 1]@, width),
        )
    }
}

/// The first `n` messages, one after the other.
pub open spec fn granting(state: u64, n: nat, width: usize, height: usize) -> Seq<StepView>
    decreases n,
{
    if n == 0 {
        seq![StepView::Print(screen::CLEAR@)]
    } else {
        granting(state, (n - 1) as nat, width, height) + announced(
            granted_state(state, (n - 1) as nat, width),
            width,
            height,
            GRANTED@[n - 1]@,
            C_GREEN@,
            "PROCESSING..."@,
            6,
            35,
        ) + seq![StepView::Sleep(50)]
    }
}

/// The messages, then a storm of noise.
pub open spec fn succeeded(state: u64, width: usize, height: usize) -> Seq<StepView> {
    granting(state, 3, width, height) + seq![StepView::Print(screen::CLEAR@)] + script::flicker(
        granted_state(state, 3, width),
        12,
        width as nat,
        height as nat,
        ""@,
        C_GREEN@,
        50,
    ) + seq![StepView::Print(screen::CLEAR@)]
}

/// Says that the door is open.
pub fn success_script(rng: &mut Rng, width: usize, height: usize) -> (r: Vec<Step>)
    ensures
        script::steps(r@) == succeeded(old(rng).state(), width, height),
        final(rng).state() == xorshift::shifted_by(
            granted_state(old(rng).state(), 3, width),
            12 * ((height as nat) * (width as nat)),
        ),
{
    let mut out: Vec<Step> = Vec::new();
    let ghost from = rng.state();
    put_print(&mut out, screen::CLEAR.to_owned());
    proof {
        assert(script::steps(out@) =~= granting(from, 0, width, height));
        assert(height * width >= 0) by (nonlinear_arith);
        assert((height as nat) * (width as nat) == height * width);
    }
    let mut i: usize = 0;
    while i < 3
        invariant
            i <= 3,
            script::steps(out@) == granting(from, i as nat, width, height),
            rng.state() == granted_state(from, i as nat, width),
        decreases 3 - i,
    {
        let ghost before = script::steps(out@);
        let mut part = dynamic_center_message(rng, width, height, GRANTED[i], C_GREEN);
        let ghost part_view = script::steps(part@);
        out.append(&mut part);
        proof {
            assert(script::steps(out@) =~= before + part_view);
        }
        put(&mut out, Step::Sleep(50));
        proof {
            assert(script::steps(out@) =~= before + part_view + seq![StepView::Sleep(50)]);
        }
        i += 1;
    }
    put_print(&mut out, screen::CLEAR.to_owned());
    put_flicker(&mut out, rng, 12, width, height, "", C_GREEN, 50);
    put_print(&mut out, screen::CLEAR.to_owned());
    out
}

/// A message stands in its row, with two blanks on each side.
pub proof fn law_message_is_shown(
    row: nat,
    msg: Seq<char>,
    side: Seq<char>,
    color: Seq<char>,
    width: usize,
    state: u64,
)
    ensures
        text::has_part(banner_text(row, msg, side, color, width), color + "  "@ + msg + "  "@),
        text::has_part(
            noisy_banner_text(state, row, msg, color, width),
            color + "  "@ + msg + "  "@,
        ),
{
    let part = color + "  "@ + msg + "  "@;
    let front = screen::at(row, 1) + C_BG_DARK@ + side + screen::spaces(margin(msg, width));
    let whole = banner_text(row, msg, side, color, width);
    let j = front.len() as int;
    assert(whole.subrange(j, j + part.len()) =~= part);
    assert(text::stands_at(whole, part, j));
    let noisy = noisy_banner_text(state, row, msg, color, width);
    let ahead = screen::at(row, 1) + C_BG_DARK@ + C_DIM@ + glyph::noise(state, margin(msg, width));
    let k = ahead.len() as int;
    assert(noisy.subrange(k, k + part.len()) =~= part);
    assert(text::stands_at(noisy, part, k));
}

/// A message that fits has the same room on both sides, up to one column.
pub proof fn law_message_is_centred(msg: Seq<char>, width: usize)
    requires
        width::shown(msg) + 4 <= width,
    ensures
        margin(msg, width) + width::shown(msg) + 4 + far_margin(msg, width) == width,
        far_margin(msg, width) == margin(msg, width) || far_margin(msg, width) == margin(msg, width)
            + 1,
{
}

/// An announcement begins with a blank screen and ends with the message in the
/// middle row, at rest, above the status bar.
pub proof fn law_announcement(
    state: u64,
    width: usize,
    height: usize,
    msg: Seq<char>,
    color: Seq<char>,
    status: Seq<char>,
    n: nat,
    ms: u64,
)
    ensures
        ({
            let a = announced(state, width, height, msg, color, status, n, ms);
            let bar = screen::status_bar_text(width as nat, height as nat, status);
            &&& a.len() == 3 * n + 2
            &&& a[0] == StepView::Print(
                C_BG_DARK@ + screen::blank_rows(1, height as nat, width as nat) + bar,
            )
            &&& a.last() == StepView::Print(
                banner_text((height / 2) as nat, msg, C_DIM@, color, width) + bar,
            )
        }),
{
    lemma_emerging_len(state, n, (height / 2) as nat, msg, color, width, ms);
}

proof fn lemma_emerging_len(
    state: u64,
    n: nat,
    row: nat,
    msg: Seq<char>,
    color: Seq<char>,
    width: usize,
    ms: u64,
)
    ensures
        emerging(state, n, row, msg, color, width, ms).len() == 3 * n,
    decreases n,
{
    if n > 0 {
        lemma_emerging_len(state, (n - 1) as nat, row, msg, color, width, ms);
    }
}

/// Each frame of an announcement shows the message, waits as long as it is said,
/// and gives a sign of life.
pub proof fn law_frames_of_an_announcement(
    state: u64,
    n: nat,
    row: nat,
    msg: Seq<char>,
    color: Seq<char>,
    width: usize,
    ms: u64,
    k: nat,
)
    requires
        k < n,
    ensures
        ({
            let e = emerging(state, n, row, msg, color, width, ms);
            &&& e.len() == 3 * n
            &&& e[3 * k as int] matches StepView::Print(s) && text::has_part(
                s,
                color + "  "@ + msg + "  "@,
            )
            &&& e[3 * k as int + 1] == StepView::Sleep(ms)
            &&& e[3 * k as int + 2] == StepView::Feed
        }),
    decreases n,
{
    lemma_emerging_len(state, n, row, msg, color, width, ms);
    lemma_emerging_len(state, (n - 1) as nat, row, msg, color, width, ms);
    let t = xorshift::shifted_by(state, ((n - 1) * noise_per_frame(msg, width)) as nat);
    law_message_is_shown(row, msg, C_DIM@, color, width, t);
    if k < n - 1 {
        law_frames_of_an_announcement(state, (n - 1) as nat, row, msg, color, width, ms, k);
    }
}

/// What is said once the door is open.
pub proof fn law_what_is_granted()
    ensures
        GRANTED@[0]@ == "█ ACCESS GRANTED █"@,
        GRANTED@[1]@ == "█ DECRYPTION SUCCESSFUL █"@,
        GRANTED@[2]@ == "█ PAYLOAD READY █"@,
{
}

} // verus!
