use hello_old::meta::{build_meta, frame_payload};
use hello_old::ntp::{Reading, Sample};
use hello_old::report::{
    build_report, clock_plausible, custom_event, door_label, hacker_ntp_report, milli, push_locked,
    push_revealed, refusal, tenth,
};
use hello_old::session::{Action, Event, Phase, Reason, Session};

const S: i128 = 1_000_000_000;

fn sample(host: &str, drift: i128) -> Sample {
    Sample { host: host.to_string(), reading: Reading { now: 0, drift } }
}

#[test]
fn a_run_in_which_all_goes_well() {
    let mut s = Session::new(true);
    for _ in 0..12 {
        assert_eq!(s.step(Event::Pass), Action::Check);
    }
    assert_eq!(s.phase, Phase::Door);
    assert_eq!(s.step(Event::Pass), Action::Reveal);
    assert_eq!(s.step(Event::Burn), Action::Burn);
    assert_eq!(s.phase, Phase::Over);
    assert_eq!(s.step(Event::Pass), Action::Exit(0));
}

/// A run that has come to a phase.
fn at(phase: Phase, at_keyboard: bool) -> Session {
    Session { phase, at_keyboard }
}

#[test]
fn each_failure_has_its_answer() {
    let fail = |p: Phase| at(p, true).step(Event::Fail);
    assert_eq!(fail(Phase::Debugger), Action::Exit(137));
    assert_eq!(fail(Phase::Signature), Action::Exit(138));
    assert_eq!(fail(Phase::Injection), Action::Refuse(Reason::Injection));
    assert_eq!(fail(Phase::Memory), Action::Refuse(Reason::Memory));
    assert_eq!(fail(Phase::Program), Action::Refuse(Reason::Program));
    assert_eq!(fail(Phase::Keys), Action::Destroy);
    assert_eq!(fail(Phase::Clock), Action::Refuse(Reason::ClockJump));
    assert_eq!(fail(Phase::Filter), Action::Refuse(Reason::Filter));
    assert_eq!(fail(Phase::Year), Action::Refuse(Reason::LocalClock));
    assert_eq!(fail(Phase::Custom), Action::Refuse(Reason::ServerFailed));
    assert_eq!(fail(Phase::ClockAgain), Action::Refuse(Reason::ClockJump));
    assert_eq!(fail(Phase::Door), Action::Destroy);
    assert_eq!(fail(Phase::Reading), Action::Exit(0));
}

#[test]
fn a_wrong_passphrase_is_asked_for_again() {
    let mut s = at(Phase::Password, true);
    for _ in 0..100 {
        assert_eq!(s.step(Event::Fail), Action::AskAgain);
    }
    assert_eq!(s.phase, Phase::Password);
    assert_eq!(at(Phase::Password, false).step(Event::Fail), Action::Exit(1));
}

#[test]
fn the_user_can_name_a_server() {
    let mut s = at(Phase::Servers, true);
    assert_eq!(s.step(Event::Fail), Action::Check);
    assert_eq!(s.phase, Phase::Custom);
    assert_eq!(s.step(Event::Pass), Action::Check);
    assert_eq!(s.phase, Phase::ClockAgain);
    assert_eq!(
        at(Phase::Custom, true).step(Event::Drifted),
        Action::Refuse(Reason::ServerDrift)
    );
    let near = Reading { now: 0, drift: 5 };
    let far = Reading { now: 0, drift: 10 * S };
    assert_eq!(custom_event(Some(near)), Event::Pass);
    assert_eq!(custom_event(Some(far)), Event::Drifted);
    assert_eq!(custom_event(None), Event::Fail);
}

#[test]
fn a_locked_door_destroys_nothing() {
    assert_eq!(
        at(Phase::Door, true).step(Event::Locked),
        Action::Refuse(Reason::Locked)
    );
}

#[test]
fn drifts_as_text() {
    assert_eq!(milli(1_234_567_890, false), "1.235");
    assert_eq!(milli(1_234_567_890, true), "+1.235");
    assert_eq!(milli(-1_234_400_000, true), "-1.234");
    assert_eq!(milli(0, true), "+0.000");
    assert_eq!(milli(-1, false), "-0.000");
    assert_eq!(milli(999_999_999, false), "1.000");
    assert_eq!(tenth(12_340_000_000), "12.3");
    assert_eq!(tenth(-12_360_000_000), "-12.4");
    assert_eq!(tenth(i128::MIN), "-170141183460469231731687303715.9");
}

#[test]
fn the_servers_are_reported() {
    let lines = hacker_ntp_report(&[sample("a.b", 5_000_000), sample("c", -10 * S)], 3);
    assert_eq!(
        lines,
        vec![
            "═══".to_string(),
            "  █ NTP CONSENSUS SCAN █".to_string(),
            "═══".to_string(),
            "".to_string(),
            format!(
                "  [a.b{}] \x1b[32m\x1b[97m✓ VALID\x1b[0m  drift +0.005s",
                " ".repeat(21)
            ),
            format!(
                "  [c{}] \x1b[31m\x1b[97m✗ REJECTED\x1b[0m  drift -10.000s",
                " ".repeat(23)
            ),
            "".to_string(),
        ]
    );
}

#[test]
fn the_report_comes_first() {
    let agreed = Reading { now: 1_755_000_000 * S + 5, drift: -250_000_000 };
    let lines = build_report(1_755_000_001, agreed, &[], 22, 2);
    assert_eq!(lines[0], "Local time    2025-08-12 12:00:01 UTC");
    assert_eq!(lines[1], "NTP time     2025-08-12 12:00:00 UTC");
    assert_eq!(lines[2], "Clock drift  -0.250s");
    assert_eq!(
        lines[3],
        "Hardening    seccomp 22 rules · injection check · guard pages · anti-debug"
    );
    assert_eq!(lines.len(), 4 + 5 + 1);
    assert_eq!(lines[9], "");
}

#[test]
fn a_locked_door_says_when_it_opens() {
    let mut lines = vec!["x".to_string()];
    push_locked(&mut lines, 1_755_000_000, 10);
    assert_eq!(
        lines,
        vec![
            "x",
            "DOOR IS LOCKED",
            "Opens at     2025-08-12 12:00:00 UTC",
            "Time left    10 seconds",
            "Time has not yet arrived",
        ]
    );
}

#[test]
fn an_opened_payload_is_shown() {
    let payload = frame_payload(build_meta(0, 0, "me").as_bytes(), "第一行\r\nsecond\n".as_bytes());
    let mut lines = vec![];
    push_revealed(&mut lines, &payload);
    assert_eq!(lines.len(), 6);
    assert_eq!(lines[3], "作者 / Author    me");
    assert_eq!(lines[4], "第一行");
    assert_eq!(lines[5], "second");
    let mut plain = vec![];
    push_revealed(&mut plain, b"abc");
    assert_eq!(plain, vec!["abc"]);
}

#[test]
fn plausible_years() {
    assert!(!clock_plausible(1_577_836_799));
    assert!(clock_plausible(1_577_836_800));
    assert!(clock_plausible(4_133_980_799));
    assert!(!clock_plausible(4_133_980_800));
    assert!(!clock_plausible(0));
    assert!(!clock_plausible(u64::MAX));
}

#[test]
fn the_label_of_the_door() {
    assert_eq!(door_label(1_755_000_000), "Door opens on 2025-08-12");
}

#[test]
fn refusals_say_why() {
    let said = |r: Reason| refusal(r, 12_340_000_000)[0].clone();
    assert_eq!(said(Reason::Injection), "INJECTION DETECTED");
    assert_eq!(said(Reason::Memory), "Memory lock failed");
    assert_eq!(said(Reason::ClockJump), "Clock jump detected");
    assert_eq!(said(Reason::Filter), "seccomp install failed");
    assert_eq!(said(Reason::LocalClock), "Local clock suspicious");
    assert_eq!(said(Reason::ServerDrift), "Custom NTP drift 12.3s");
    assert_eq!(said(Reason::ServerFailed), "Custom NTP verification failed");
    assert_eq!(refusal(Reason::Memory, 0)[1], "Access denied");
}
