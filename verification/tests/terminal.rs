use hello_old::banner::{
    banner, dynamic_center_error, dynamic_center_message, dynamic_center_prompt, noisy_banner,
    success_script,
};
use hello_old::burn::{
    block, burn_end, burn_frame, burn_schedule, burn_script, burn_warning, typed_row, BURN_STAGES,
    WARNING,
};
use hello_old::dialog::{ask_letter, confirm_dialog, show_dialog, to_capital};
use hello_old::glyph::Rng;
use hello_old::pager::{
    break_lines, draw_page, hint_row, quits, read_key, read_sequence, reader_step, Key, Nav, Pager,
    ReaderAction, ReaderEvent, Turn,
};
use hello_old::progress::{bar_width, progress_bars, DecryptFx, Fill};
use hello_old::screen::{
    cursor, fill_background, hline, noise_row, noise_screen, reveal_frame, settled_row, status_bar,
    term_height, term_width, window_span, C_BG_DARK, C_DIM, C_GREEN, C_RED, C_RESET,
};
use hello_old::script::{headline, opening_script, Step};
use hello_old::width::{center_pad, char_width, display_width, wrap_line};

/// Noise drawn the plain way.
fn noise(state: &mut u64, n: usize) -> String {
    let glyphs = b"ABCDEFGHJKLMNPQRSTUVWXYZabcdefghjkmnpqrstuvwxyz0123456789#@%&*+=!?$<>/\\|;:~^";
    (0..n)
        .map(|_| {
            *state ^= *state << 13;
            *state ^= *state >> 7;
            *state ^= *state << 17;
            glyphs[(*state % 76) as usize] as char
        })
        .collect()
}

fn prints(script: &[Step]) -> Vec<&str> {
    script
        .iter()
        .filter_map(|s| match s {
            Step::Print(t) => Some(t.as_str()),
            _ => None,
        })
        .collect()
}

fn sleeps(script: &[Step]) -> u64 {
    script
        .iter()
        .map(|s| match s {
            Step::Sleep(ms) => *ms,
            _ => 0,
        })
        .sum()
}

#[test]
fn noise_is_drawn_from_a_clock_and_an_address() {
    let mut state = 5u64 ^ 0x9E3779B97F4A7C15 ^ 9;
    let mut r = Rng::new(5, 9);
    assert_eq!(r.fill(30), noise(&mut state, 30));
    assert_eq!(r.fill_line(3), noise(&mut state, 3));
    assert_eq!(r.glyph().to_string(), noise(&mut state, 1));
    noise(&mut state, 1);
    assert_eq!(r.next_u64(), state);
    assert_eq!(r.fill(0), "");
}

#[test]
fn a_terminal_without_a_size() {
    assert_eq!(term_width(None), 80);
    assert_eq!(term_width(Some(0)), 80);
    assert_eq!(term_width(Some(132)), 132);
    assert_eq!(term_height(None), 24);
    assert_eq!(term_height(Some(50)), 50);
    assert_eq!(window_span(0, 79), Some(80));
    assert_eq!(window_span(5, 5), None);
    assert_eq!(window_span(i16::MIN, i16::MAX), Some(65536));
}

#[test]
fn wide_characters_take_two_columns() {
    assert_eq!(char_width('a'), 1);
    assert_eq!(char_width('门'), 2);
    assert_eq!(char_width('，'), 2);
    assert_eq!(char_width('█'), 1);
    assert_eq!(display_width("门ab"), 4);
}

#[test]
fn control_sequences_take_no_columns() {
    assert_eq!(display_width("\x1b[48;5;234mab\x1b[0m"), 2);
    assert_eq!(display_width("\x1bcab"), 2);
    assert_eq!(display_width("ab\x1b"), 2);
    assert_eq!(display_width("a\x1b[12"), 1);
    assert_eq!(display_width(""), 0);
}

#[test]
fn lines_are_centred() {
    assert_eq!(center_pad("abcd", 10), 3);
    assert_eq!(center_pad("abc", 10), 3);
    assert_eq!(center_pad("abcd", 4), 0);
    assert_eq!(center_pad("abcd", 0), 0);
    assert_eq!(center_pad("门", 10), 4);
}

#[test]
fn long_lines_are_broken() {
    assert_eq!(wrap_line("abcdef", 4), vec!["abcd", "ef"]);
    assert_eq!(wrap_line("abcd", 4), vec!["abcd"]);
    assert_eq!(wrap_line("abcdef", 0), vec!["abcdef"]);
    assert_eq!(wrap_line("", 4), vec![""]);
    assert_eq!(wrap_line("门门门", 5), vec!["门门", "门"]);
    assert_eq!(wrap_line("门门", 1), vec!["门", "门"]);
    assert_eq!(wrap_line("a门b", 2), vec!["a", "门", "b"]);
}

#[test]
fn the_cursor_moves() {
    assert_eq!(cursor(12, 3), "\x1b[12;3H");
    assert_eq!(cursor(0, 1), "\x1b[0;1H");
}

#[test]
fn an_empty_screen() {
    assert_eq!(
        fill_background(2, 2),
        format!("{C_BG_DARK}\x1b[1;1H  \x1b[2;1H  ")
    );
    assert_eq!(fill_background(5, 0), C_BG_DARK);
}

#[test]
fn rows_of_noise() {
    let mut state = 77u64 ^ 0x9E3779B97F4A7C15;
    let mut r = Rng::new(77, 0);
    let want = format!("\x1b[3;1H{C_BG_DARK}{C_RED}{}{C_RESET}", noise(&mut state, 5));
    assert_eq!(noise_row(&mut r, 3, 5, C_BG_DARK, C_RED), want);
    let one = noise(&mut state, 4);
    let two = noise(&mut state, 4);
    assert_eq!(
        noise_screen(&mut r, 4, 2, "", C_GREEN),
        format!("\x1b[1;1H{C_GREEN}{one}{C_RESET}\x1b[2;1H{C_GREEN}{two}{C_RESET}")
    );
}

#[test]
fn a_row_that_stays() {
    assert_eq!(
        settled_row(2, "ab", 6, C_GREEN),
        format!("\x1b[2;1H{C_BG_DARK}{C_DIM}  {C_GREEN}ab{C_BG_DARK}  ")
    );
}

#[test]
fn a_row_that_is_revealed() {
    let mut state = 1u64 ^ 0x9E3779B97F4A7C15;
    let mut r = Rng::new(1, 0);
    let g = noise(&mut state, 3);
    assert_eq!(
        reveal_frame(&mut r, 1, "abc", 1, 5),
        format!("\x1b[1;1H{C_BG_DARK}{C_DIM} {C_GREEN}a\x1b[97m{g}{C_RESET}")
    );
}

#[test]
fn lines_and_bars() {
    assert_eq!(hline(3, 4, C_RED), format!("\x1b[3;1H{C_BG_DARK}{C_RED}════{C_RESET}"));
    assert_eq!(
        status_bar(20, 9, "X"),
        format!("\x1b[9;1H\x1b[40m\x1b[33m UNLOCK: X          {C_RESET}")
    );
    assert_eq!(
        status_bar(5, 9, "X"),
        format!("\x1b[9;1H\x1b[40m\x1b[33m UNLOCK: X  {C_RESET}")
    );
}

#[test]
fn the_opening_is_a_storm_and_a_headline() {
    let mut r = Rng::new(1, 2);
    let script = opening_script(&mut r, 80, 24, "now");
    let p = prints(&script);
    assert_eq!(p[0], fill_background(80, 24));
    assert!(p.last().unwrap().contains("════"));
    assert!(p.iter().any(|s| s.contains("OPENING THE DOOR")));
    assert_eq!(p.len(), 1 + 20 + 24 + 24 + 1 + (46 + 3) + (2 + 3) + 1);
    let waits = 20 * 100 + 24 * 12 + 24 * 8 + 46 * 10 + 53 + 2 * 10 + 53;
    assert_eq!(sleeps(&script), waits);
}

#[test]
fn banners_stand_in_the_middle() {
    assert_eq!(
        banner(4, "hi", C_DIM, C_RED, 10),
        format!("\x1b[4;1H{C_BG_DARK}{C_DIM}  {C_RED}  hi  {C_BG_DARK}  {C_RESET}")
    );
    let mut state = 3u64 ^ 0x9E3779B97F4A7C15;
    let mut r = Rng::new(3, 0);
    let left = noise(&mut state, 2);
    let right = noise(&mut state, 2);
    assert_eq!(
        noisy_banner(&mut r, 4, "hi", C_RED, 10),
        format!(
            "\x1b[4;1H{C_BG_DARK}{C_DIM}{left}{C_RED}  hi  {C_RESET}{C_BG_DARK}{C_DIM}{right}"
        )
    );
}

#[test]
fn messages_come_out_of_the_noise() {
    let mut r = Rng::new(3, 0);
    let s = dynamic_center_prompt(&mut r, 40, 10, "who?");
    assert_eq!(prints(&s).len(), 12);
    assert_eq!(sleeps(&s), 450);
    assert!(prints(&s)[0].contains("UNLOCK: AWAITING PASSWORD"));
    assert!(prints(&s)[11].starts_with("\x1b[5;1H"));
    let s = dynamic_center_message(&mut r, 40, 10, "so", C_GREEN);
    assert_eq!(prints(&s).len(), 8);
    assert_eq!(sleeps(&s), 6 * 35);
    assert!(prints(&s)[7].contains("UNLOCK: PROCESSING..."));
    let s = dynamic_center_error(&mut r, 40, 10, "no");
    assert_eq!(prints(&s).len(), 7 + 8 + 1);
    assert_eq!(sleeps(&s), 7 * 40 + 4 * 400 + 300);
    assert_eq!(prints(&s)[15], banner(7, "no", C_DIM, C_RED, 40));
}

#[test]
fn success_is_announced() {
    let mut r = Rng::new(3, 0);
    let s = success_script(&mut r, 30, 4);
    let p = prints(&s);
    assert_eq!(p.len(), 1 + 3 * 8 + 1 + 12 + 1);
    assert_eq!(p[0], "\x1b[2J\x1b[H");
    assert!(p[8].contains("ACCESS GRANTED"));
    assert!(p[24].contains("PAYLOAD READY"));
    assert_eq!(sleeps(&s), 3 * (6 * 35 + 50) + 12 * 50);
}

#[test]
fn bars_show_how_far_it_is() {
    let fill = Fill { cells: 2, tenths: 400 };
    let s = progress_bars(&["ab", "cd", "ef"], 20, 11, 1, fill);
    let row = |n: usize, i: usize, label: &str, color: &str, bar: &str, pct: &str| {
        format!(
            "\x1b[{n};1H{C_BG_DARK}\x1b[36m {i} {label}{C_RESET} [{color}{bar}] {pct}%{C_BG_DARK}{C_RESET}"
        )
    };
    let want = row(3, 1, "ab", C_GREEN, "█████", "100.0")
        + &row(4, 2, "cd", "\x1b[33m", "██░░░", " 40.0")
        + &row(5, 3, "ef", C_DIM, "░░░░░", "  0.0");
    assert_eq!(s, want);
    assert_eq!(bar_width("ab", 20), 5);
    assert_eq!(bar_width("a long label", 20), 0);
}

#[test]
fn stages_advance_to_the_end() {
    let mut fx = DecryptFx::new(60, 20, &["one", "two"]);
    assert_eq!(fx.current, 0);
    fx.advance();
    fx.advance();
    fx.advance();
    assert_eq!(fx.current, 2);
    assert_eq!(fx.stages, vec!["one", "two"]);
}

#[test]
fn the_panel_of_stages() {
    let mut fx = DecryptFx::new(40, 12, &["one", "two", "three"]);
    fx.advance();
    let mut r = Rng::new(8, 0);
    let s = fx.draw(&mut r, 5);
    let mut state = 8u64 ^ 0x9E3779B97F4A7C15;
    let first = noise(&mut state, 40);
    assert!(s.starts_with(&format!("\x1b[1;1H{C_BG_DARK}{C_DIM}{first}{C_RESET}\x1b[2;1H")));
    assert!(s.contains(&format!("\x1b[3;1H{C_BG_DARK}{C_GREEN} ✓ [01] one  DONE")));
    assert!(s.contains("\x1b[4;1H"));
    assert!(s.contains(" ▶ [02] two  [█████░░░░░░░░░]"));
    assert!(s.contains(&format!("\x1b[5;1H{C_BG_DARK}{C_DIM}   [03] three ")));
    assert!(s.contains(&format!("\x1b[6;1H{C_BG_DARK}\x1b[36m{}", "═".repeat(40))));
    assert!(s.ends_with(&status_bar(40, 12, "PROCESSING...")));
    assert!(matches!(fx.finish()[0], Step::Sleep(150)));
    assert_eq!(prints(&fx.finish()), vec!["\x1b[2J\x1b[H"]);
}

#[test]
fn the_warning_is_typed() {
    let mut state = 4u64 ^ 0x9E3779B97F4A7C15;
    let mut r = Rng::new(4, 0);
    let left = noise(&mut state, 1);
    let right = noise(&mut state, 2);
    let tail = noise(&mut state, 2);
    assert_eq!(
        typed_row(&mut r, 3, "abc", 1, 6),
        format!("\x1b[3;1H{C_BG_DARK}{C_DIM}{left}{C_RED}a{tail}{C_BG_DARK}{C_DIM}{right}")
    );
    let s = burn_warning(&mut r, 80, 24);
    assert_eq!(prints(&s).len(), 1 + 2 * WARNING.len() + 1 + 20 + 1);
    assert_eq!(sleeps(&s), 2 * 33 * 30 + 10 * 200);
}

#[test]
fn a_block_blinks() {
    assert_eq!(
        block(2, 5, true),
        format!("\x1b[2;1H{C_BG_DARK}{C_DIM}  \x1b[33m█{C_BG_DARK}  ")
    );
    assert_eq!(block(2, 5, false), format!("\x1b[2;1H{C_BG_DARK}{C_DIM}     "));
}

#[test]
fn bars_run_empty_from_the_last() {
    let s = burn_schedule();
    assert_eq!(s.len(), 42);
    assert_eq!(s[0], (6, 0));
    assert_eq!(s[5], (6, 5));
    assert_eq!(s[6], (5, 0));
    assert_eq!(s[41], (0, 5));
    let f = burn_frame(80, 24, 0, Fill { cells: 0, tenths: 0 });
    assert_eq!(f, progress_bars(&BURN_STAGES, 80, 24, 0, Fill { cells: 0, tenths: 0 }));
    assert!(f.contains("Wiping key memory") && f.contains("Clean exit"));
}

#[test]
fn the_end_is_red_and_blank() {
    let mut r = Rng::new(4, 0);
    let s = burn_end(&mut r, 10, 3);
    assert_eq!(prints(&s).len(), 4);
    assert_eq!(prints(&s)[3], "\x1b[2J\x1b[H\x1b[?25h");
    assert_eq!(sleeps(&s), 135);
}

#[test]
fn pages_hold_every_row_once() {
    let mut seen = 0;
    let mut p = Pager::new(45, 24);
    assert_eq!(p.count(), 3);
    loop {
        let (first, end) = p.span();
        assert_eq!(first, seen);
        seen = end;
        if p.turn(Nav::Next, true) == Turn::Stay {
            break;
        }
    }
    assert_eq!(seen, 45);
    assert_eq!(p.span(), (36, 45));
}

#[test]
fn pages_turn_both_ways() {
    let mut p = Pager::new(45, 24);
    assert_eq!(p.turn(Nav::Prev, true), Turn::Stay);
    assert_eq!(p.turn(Nav::Next, true), Turn::Redraw);
    assert_eq!(p.span(), (18, 36));
    assert_eq!(p.turn(Nav::Prev, true), Turn::Redraw);
    assert_eq!(p.span(), (0, 18));
    assert_eq!(p.turn(Nav::Burn, true), Turn::Ask);
    assert_eq!(p.turn(Nav::Burn, false), Turn::Leave);
}

#[test]
fn empty_texts_have_one_page() {
    let p = Pager::new(0, 24);
    assert_eq!(p.count(), 1);
    assert_eq!(p.span(), (0, 0));
    assert_eq!(Pager::new(5, 0).count(), 5);
}

#[test]
fn a_page_is_drawn() {
    let lines = vec!["ab".to_string(), "cdefgh".to_string()];
    let rows = break_lines(&lines, 4);
    assert_eq!(rows, vec!["ab", "cdef", "gh"]);
    let p = Pager::new(rows.len(), 10);
    let row = |n: usize, pad: &str, t: &str, rest: &str| {
        format!(
            "\x1b[{n};1H{C_BG_DARK}{C_DIM}{pad}{C_GREEN}{t}{C_RESET}{C_BG_DARK}{rest}"
        )
    };
    let want = row(4, " ", "ab", " ")
        + &row(5, "", "cdef", "")
        + &row(6, " ", "gh", " ")
        + &format!("\x1b[7;1H{C_BG_DARK}    {C_RESET}");
    assert_eq!(draw_page(&rows, &p, 4, 10), want);
    let low = Pager::new(rows.len(), 3);
    assert_eq!(draw_page(&rows, &low, 4, 3), "");
}

#[test]
fn hints_for_the_reader() {
    assert!(hint_row(1, false, 80, 24).contains("  ▸ 按 q 退出  "));
    assert!(hint_row(2, false, 80, 24).contains("p 返回上一页  ·  q 退出  "));
    assert!(hint_row(1, true, 80, 24).contains("  ▸ 按 q 退出并烧毁  "));
    assert!(hint_row(2, true, 80, 24).contains("p 返回上一页  ·  q 烧毁  "));
    assert!(hint_row(2, true, 80, 24).starts_with("\x1b[21;1H"));
}

#[test]
fn keys_of_the_reader() {
    assert_eq!(read_key(b' '), Key::Is(Nav::Next));
    assert_eq!(read_key(b'\r'), Key::Is(Nav::Next));
    assert_eq!(read_key(b'P'), Key::Is(Nav::Prev));
    assert_eq!(read_key(b'q'), Key::Is(Nav::Burn));
    assert_eq!(read_key(0x1b), Key::Escape);
    assert_eq!(read_key(b'x'), Key::Other);
    assert_eq!(read_sequence(b"[D"), Nav::Prev);
    assert_eq!(read_sequence(b"[C"), Nav::Next);
    assert_eq!(read_sequence(b"["), Nav::Next);
    assert_eq!(read_sequence(b""), Nav::Next);
    assert!(quits(Some(b'Q')) && quits(None) && !quits(Some(b'x')));
}

#[test]
fn burning_wants_the_right_letter() {
    assert!(confirm_dialog(true, Some(b'k'), 'K'));
    assert!(confirm_dialog(true, Some(b'K'), 'k'));
    assert!(!confirm_dialog(true, Some(b'j'), 'K'));
    assert!(!confirm_dialog(true, None, 'K'));
    assert!(confirm_dialog(false, None, 'K'));
    assert_eq!(ask_letter(0), 'A');
    assert_eq!(ask_letter(25), 'Z');
    assert_eq!(ask_letter(26), 'A');
    assert_eq!(to_capital('k'), 'K');
    assert_eq!(to_capital('é'), 'é');
}

#[test]
fn the_question_stands_in_a_box() {
    let steps = show_dialog(80, 24, 'k');
    assert_eq!(steps.len(), 2);
    assert!(matches!(steps[1], Step::Feed));
    let s = prints(&steps)[0];
    let ground = fill_background(80, 24);
    assert!(s.starts_with(&ground));
    for row in 1..=24 {
        assert!(ground.contains(&format!("\x1b[{row};1H{}", " ".repeat(80))));
    }
    assert!(s[ground.len()..].starts_with("\x1b[10;"));
    let inner = display_width(" 请输入字母  K  以确认烧毁，") + 2;
    let left = (80 - (inner + 2)) / 2 + 1;
    assert!(s.contains(&format!(
        "\x1b[10;{left}H{C_BG_DARK}{C_RED}╔{}╗{C_RESET}",
        "═".repeat(inner)
    )));
    assert!(s.contains(&format!(
        " 请输入字母  {C_GREEN}K\x1b[97m  以确认烧毁， ║{C_RESET}"
    )));
    assert!(s.contains(&format!("\x1b[15;{left}H{C_BG_DARK}{C_RED}╚")));
    assert!(s.contains(" 密钥与档案即将永久销毁 "));
    assert!(s.contains(" 按其他任意键返回阅读。"));
}

#[test]
fn the_whole_end_stays_alive() {
    let mut fills = [Fill { cells: 0, tenths: 0 }; 42];
    for (k, f) in fills.iter_mut().enumerate() {
        *f = Fill { cells: k % 7, tenths: k as u64 };
    }
    let mut r = Rng::new(5, 6);
    let s = burn_script(&mut r, 60, 20, &fills);
    assert_eq!(s.iter().filter(|x| matches!(x, Step::Feed)).count(), 122);
    let mut r2 = Rng::new(5, 6);
    let warned = burn_warning(&mut r2, 60, 20);
    let n = warned.len();
    assert_eq!(prints(&s[..n]), prints(&warned));
    for (k, (current, _)) in burn_schedule().into_iter().enumerate() {
        let at = n + 3 * k;
        assert_eq!(prints(&s[at..at + 1]), [burn_frame(60, 20, current, fills[k])]);
        assert!(matches!(s[at + 1], Step::Feed));
        assert!(matches!(s[at + 2], Step::Sleep(10)));
    }
    let at = n + 126;
    assert_eq!(prints(&s[at..at + 1]), [burn_frame(60, 20, 0, Fill { cells: 0, tenths: 0 })]);
    assert!(matches!(s[at + 1], Step::Feed));
    assert!(matches!(s[at + 2], Step::Sleep(300)));
    assert_eq!(prints(&s[at + 3..]), prints(&burn_end(&mut r2, 60, 20)));
    assert_eq!(r.next_u64(), r2.next_u64());
}

#[test]
fn only_a_yes_burns() {
    let mut p = Pager::new(100, 24);
    let key = ReaderEvent::Key;
    assert_eq!(reader_step(&mut p, key(Nav::Next), true), ReaderAction::Redraw);
    assert_eq!(reader_step(&mut p, ReaderEvent::Answer(true), true), ReaderAction::Stay);
    let page = p.span();
    assert_eq!(reader_step(&mut p, key(Nav::Burn), true), ReaderAction::Ask);
    assert_eq!(reader_step(&mut p, ReaderEvent::Answer(false), true), ReaderAction::Redraw);
    assert_eq!(p.span(), page);
    assert_eq!(reader_step(&mut p, key(Nav::Burn), true), ReaderAction::Ask);
    assert_eq!(reader_step(&mut p, key(Nav::Prev), true), ReaderAction::Redraw);
    assert_eq!(reader_step(&mut p, key(Nav::Prev), true), ReaderAction::Stay);
    assert_eq!(reader_step(&mut p, ReaderEvent::Answer(true), true), ReaderAction::Stay);
    assert_eq!(reader_step(&mut p, key(Nav::Burn), true), ReaderAction::Ask);
    assert_eq!(reader_step(&mut p, ReaderEvent::Answer(true), true), ReaderAction::Burn);
    assert_eq!(reader_step(&mut p, key(Nav::Burn), false), ReaderAction::Leave);
    assert_eq!(reader_step(&mut p, ReaderEvent::Answer(true), false), ReaderAction::Stay);
}

#[test]
fn nobody_reads_without_a_terminal() {
    let mut p = Pager::new(100, 24);
    let page = p.span();
    assert_eq!(reader_step(&mut p, ReaderEvent::NoTerminal, true), ReaderAction::Leave);
    assert_eq!(p.span(), page);
}

#[test]
fn the_headline_is_drawn_again() {
    let s = headline(60, 20, "soon");
    assert!(s.starts_with(&status_bar(60, 20, "soon")));
    let title = "█ TIME GATE █  OPENING THE DOOR  █ TIME GATE █";
    assert!(s.contains(&settled_row(1, title, 60, C_GREEN)));
    assert!(s.contains(&settled_row(2, "──", 60, C_GREEN)));
    assert!(s.ends_with(&hline(3, 60, "\x1b[36m")));
}

#[test]
fn widths_add_up() {
    assert_eq!(display_width("门ab"), 4);
    assert_eq!(display_width("门\x1b[38;5;9mab"), 4);
    assert_eq!(display_width("门") + display_width("ab"), 4);
    assert_eq!(display_width("\x1b[m"), 0);
}
