//! What the reader is told besides the text: times, drifts and refusals.
use vstd::prelude::*;

use crate::calendar;
use crate::calendar::{civil_from_days, date_string, format_unix};
use crate::meta;
use crate::ntp;
use crate::ntp::{drift_ok, whole_seconds, Reading, Sample};
use crate::screen::{C_BRIGHT_WHITE, C_GREEN, C_RED, C_RESET};
use crate::session::{Event, Reason};
use crate::text;

verus! {

/// Appends a number in decimal.
fn push_wide(out: &mut String, n: u128)
    ensures
        final(out)@ == old(out)@ + text::decimal(n as nat),
    decreases n,
{
    let ghost before = out@;
    if n >= 10 {
        push_wide(out, n / 10);
    }
    text::push_decimal(out, (n % 10) as u64);
    proof {
        assert(text::decimal(n as nat % 10) =~= seq![text::digit(n as nat % 10)]);
        assert(out@ =~= before + text::decimal(n as nat));
    }
}

/// A span in seconds with `places` decimals, each of them a tenth of the one
/// before, the last of them worth `unit` nanoseconds; rounded to the nearest.
pub open spec fn fixed(ns: int, unit: int, scale: int, places: nat) -> Seq<char> {
    let q = (ntp::magnitude(ns) + unit / 2) / unit;
    text::decimal((q / scale) as nat) + "."@ + text::zero_filled((q % scale) as nat, places)
}

/// The sign of a span.
pub open spec fn sign(ns: int, plus: bool) -> Seq<char> {
    if ns < 0 {
        "-"@
    } else if plus {
        "+"@
    } else {
        ""@
    }
}

/// A drift in seconds with three decimals.
pub open spec fn milli_text(ns: int, plus: bool) -> Seq<char> {
    sign(ns, plus) + fixed(ns, 1_000_000, 1000, 3)
}

/// A drift in seconds with one decimal.
pub open spec fn tenth_text(ns: int) -> Seq<char> {
    sign(ns, false) + fixed(ns, 100_000_000, 10, 1)
}

fn size(ns: i128) -> (m: u128)
    ensures
        m == ntp::magnitude(ns as int),
{
    if ns < 0 {
        (-(ns + 1)) as u128 + 1
    } else {
        ns as u128
    }
}

fn push_fixed(out: &mut String, ns: i128, unit: u128, scale: u128, places: usize)
    requires
        0 < unit <= 1_000_000_000,
        0 < scale <= 1000,
    ensures
        final(out)@ == old(out)@ + fixed(ns as int, unit as int, scale as int, places as nat),
{
    let ghost before = out@;
    let q: u128 = (size(ns) + unit / 2) / unit;
    push_wide(out, q / scale);
    out.append(".");
    text::push_zero_filled(out, (q % scale) as u64, places);
    proof {
        assert(out@ =~= before + fixed(ns as int, unit as int, scale as int, places as nat));
    }
}

fn sign_of(ns: i128, plus: bool) -> (s: &'static str)
    ensures
        s@ == sign(ns as int, plus),
{
    if ns < 0 {
        "-"
    } else if plus {
        "+"
    } else {
        ""
    }
}

/// A drift in seconds with three decimals.
pub fn milli(ns: i128, plus: bool) -> (s: String)
    ensures
        s@ == milli_text(ns as int, plus),
{
    let mut s = sign_of(ns, plus).to_owned();
    push_fixed(&mut s, ns, 1_000_000, 1000, 3);
    s
}

/// A drift in seconds with one decimal.
pub fn tenth(ns: i128) -> (s: String)
    ensures
        s@ == tenth_text(ns as int),
{
    let mut s = sign_of(ns, false).to_owned();
    push_fixed(&mut s, ns, 100_000_000, 10, 1);
    s
}

/// `s`, filled up on the right with blanks to `width` characters.
pub open spec fn right_filled(s: Seq<char>, width: nat) -> Seq<char> {
    if s.len() < width {
        s + text::repeated(' ', (width - s.len()) as nat)
    } else {
        s
    }
}

/// What is said of a server.
pub open spec fn server_line(host: Seq<char>, drift: int) -> Seq<char> {
    "  ["@ + right_filled(host, 24) + "] "@ + (if ntp::within_limit(drift) {
        C_GREEN@ + C_BRIGHT_WHITE@ + "✓ VALID"@
    } else {
        C_RED@ + C_BRIGHT_WHITE@ + "✗ REJECTED"@
    }) + C_RESET@ + "  drift "@ + milli_text(drift, true) + "s"@
}

fn server(host: &str, drift: i128) -> (s: String)
    ensures
        s@ == server_line(host@, drift as int),
{
    let mut name = host.to_owned();
    let len: usize = host.unicode_len();
    if len < 24 {
        text::push_repeated(&mut name, ' ', 24 - len);
    }
    let mut verdict = if drift_ok(drift) {
        C_GREEN.to_owned()
    } else {
        C_RED.to_owned()
    };
    verdict.append(C_BRIGHT_WHITE);
    if drift_ok(drift) {
        verdict.append("✓ VALID");
    } else {
        verdict.append("✗ REJECTED");
    }
    let mut s = "  [".to_owned();
    s.append(name.as_str());
    s.append("] ");
    s.append(verdict.as_str());
    s.append(C_RESET);
    s.append("  drift ");
    s.append(milli(drift, true).as_str());
    s.append("s");
    s
}

/// One line for each of the first `n` servers.
pub open spec fn server_lines(samples: Seq<Sample>, n: nat) -> Seq<Seq<char>>
    decreases n,
{
    if n == 0 {
        Seq::empty()
    } else {
        server_lines(samples, (n - 1) as nat).push(
            server_line(samples[n - 1].host@, samples[n - 1].reading.drift as int),
        )
    }
}

/// The part of the report that speaks of the servers.
pub open spec fn scan_lines(samples: Seq<Sample>, width: nat) -> Seq<Seq<char>> {
    let rule = text::repeated('═', width);
    seq![rule, "  █ NTP CONSENSUS SCAN █"@, rule, ""@] + server_lines(samples, samples.len())
        + seq![""@]
}

fn push_line(lines: &mut Vec<String>, s: String)
    ensures
        text::views(final(lines)@) == text::views(old(lines)@).push(s@),
{
    let ghost before = text::views(lines@);
    let ghost view = s@;
    lines.push(s);
    proof {
        assert(text::views(lines@) =~= before.push(view));
    }
}

fn push_servers(lines: &mut Vec<String>, samples: &[Sample])
    ensures
        text::views(final(lines)@) == text::views(old(lines)@) + server_lines(
            samples@,
            samples@.len(),
        ),
{
    let ghost before = text::views(lines@);
    let mut i: usize = 0;
    proof {
        assert(text::views(lines@) =~= before + server_lines(samples@, 0));
    }
    while i < samples.len()
        invariant
            i <= samples@.len(),
            text::views(lines@) == before + server_lines(samples@, i as nat),
        decreases samples@.len() - i,
    {
        let ghost done = server_lines(samples@, i as nat);
        let line = server(samples[i].host.as_str(), samples[i].reading.drift);
        let ghost view = line@;
        push_line(lines, line);
        i += 1;
        proof {
            assert(text::views(lines@) =~= before + done.push(view));
        }
    }
}

/// The part of the report that speaks of the servers.
pub fn hacker_ntp_report(samples: &[Sample], width: usize) -> (lines: Vec<String>)
    ensures
        text::views(lines@) == scan_lines(samples@, width as nat),
{
    let mut rule = String::new();
    text::push_repeated(&mut rule, '═', width);
    let mut again = String::new();
    text::push_repeated(&mut again, '═', width);
    proof {
        assert(rule@ =~= text::repeated('═', width as nat));
        assert(again@ =~= text::repeated('═', width as nat));
    }
    let mut lines: Vec<String> = Vec::new();
    push_line(&mut lines, rule);
    push_line(&mut lines, "  █ NTP CONSENSUS SCAN █".to_owned());
    push_line(&mut lines, again);
    push_line(&mut lines, "".to_owned());
    proof {
        let line = text::repeated('═', width as nat);
        assert(text::views(lines@) =~= seq![line, "  █ NTP CONSENSUS SCAN █"@, line, ""@]);
    }
    push_servers(&mut lines, samples);
    let ghost mid = text::views(lines@);
    push_line(&mut lines, "".to_owned());
    proof {
        assert(text::views(lines@) =~= mid + seq![""@]);
    }
    lines
}

/// What the system call filter is said to do.
pub open spec fn hardening_line(rules: nat) -> Seq<char> {
    "Hardening    seccomp "@ + text::decimal(rules)
        + " rules · injection check · guard pages · anti-debug"@
}

/// The report: both clocks, their drift, the protection, and the servers.
pub open spec fn report_lines(
    local_now: u64,
    agreed: Reading,
    samples: Seq<Sample>,
    rules: nat,
    width: nat,
) -> Seq<Seq<char>> {
    seq![
        "Local time    "@ + calendar::unix_text(local_now as nat),
        "NTP time     "@ + calendar::unix_text(ntp::seconds_of(agreed.now as int) as nat),
        "Clock drift  "@ + milli_text(agreed.drift as int, false) + "s"@,
        hardening_line(rules),
    ] + scan_lines(samples, width) + seq![""@]
}

fn labelled(label: &str, value: &str) -> (s: String)
    ensures
        s@ == label@ + value@,
{
    let mut s = label.to_owned();
    s.append(value);
    s
}

/// The report: both clocks, their drift, the protection, and the servers.
pub fn build_report(
    local_now: u64,
    agreed: Reading,
    samples: &[Sample],
    rules: usize,
    width: usize,
) -> (lines: Vec<String>)
    ensures
        text::views(lines@) == report_lines(
            local_now,
            agreed,
            samples@,
            rules as nat,
            width as nat,
        ),
{
    let mut lines: Vec<String> = Vec::new();
    let secs: u64 = whole_seconds(agreed.now);
    push_line(&mut lines, labelled("Local time    ", format_unix(local_now).as_str()));
    push_line(&mut lines, labelled("NTP time     ", format_unix(secs).as_str()));
    let mut drift = labelled("Clock drift  ", milli(agreed.drift, false).as_str());
    drift.append("s");
    push_line(&mut lines, drift);
    let mut hardening = "Hardening    seccomp ".to_owned();
    text::push_decimal(&mut hardening, rules as u64);
    hardening.append(" rules · injection check · guard pages · anti-debug");
    push_line(&mut lines, hardening);
    let ghost head = seq![
        "Local time    "@ + calendar::unix_text(local_now as nat),
        "NTP time     "@ + calendar::unix_text(secs as nat),
        "Clock drift  "@ + milli_text(agreed.drift as int, false) + "s"@,
        hardening_line(rules as nat),
    ];
    proof {
        assert(text::views(lines@) =~= head);
    }
    let mut scan = hacker_ntp_report(samples, width);
    let ghost scan_view = text::views(scan@);
    lines.append(&mut scan);
    proof {
        assert(text::views(lines@) =~= head + scan_view);
    }
    push_line(&mut lines, "".to_owned());
    proof {
        assert(text::views(lines@) =~= head + scan_view + seq![""@]);
    }
    lines
}

/// What is said in front of a door that is locked.
pub open spec fn locked_lines(open_ts: u64, left: u64) -> Seq<Seq<char>> {
    seq![
        "DOOR IS LOCKED"@,
        "Opens at     "@ + calendar::unix_text(open_ts as nat),
        "Time left    "@ + text::decimal(left as nat) + " seconds"@,
        "Time has not yet arrived"@,
    ]
}

/// Adds what is said in front of a door that is locked.
pub fn push_locked(lines: &mut Vec<String>, open_ts: u64, left: u64)
    ensures
        text::views(final(lines)@) == text::views(old(lines)@) + locked_lines(open_ts, left),
{
    let ghost before = text::views(lines@);
    push_line(lines, "DOOR IS LOCKED".to_owned());
    push_line(lines, labelled("Opens at     ", format_unix(open_ts).as_str()));
    let mut time_left = labelled("Time left    ", text::decimal_string(left).as_str());
    time_left.append(" seconds");
    push_line(lines, time_left);
    push_line(lines, "Time has not yet arrived".to_owned());
    proof {
        assert(text::views(lines@) =~= before + locked_lines(open_ts, left));
    }
}

/// What an opened payload shows: the record, if there is one, and the lines of
/// the text.
pub open spec fn revealed_lines(payload: Seq<u8>) -> Seq<Seq<char>> {
    (match meta::payload_meta(payload) {
        Some(m) => meta::record_lines(meta::read_record(text::utf8_text(m))),
        None => Seq::empty(),
    }) + text::text_lines(text::utf8_text(meta::payload_text(payload)))
}

/// Whether the record, if there is one, and the text of a payload are UTF-8.
pub open spec fn payload_is_text(payload: Seq<u8>) -> bool {
    &&& meta::payload_meta(payload) matches Some(m) ==> vstd::utf8::valid_utf8(m)
    &&& vstd::utf8::valid_utf8(meta::payload_text(payload))
}

/// What an opened payload shows where it is UTF-8.
pub open spec fn decoded_lines(payload: Seq<u8>) -> Seq<Seq<char>> {
    (match meta::payload_meta(payload) {
        Some(m) => meta::record_lines(meta::read_record(vstd::utf8::decode_utf8(m))),
        None => Seq::empty(),
    }) + text::text_lines(vstd::utf8::decode_utf8(meta::payload_text(payload)))
}

/// Adds what an opened payload shows.
pub fn push_revealed(lines: &mut Vec<String>, payload: &[u8])
    ensures
        text::views(final(lines)@) == text::views(old(lines)@) + revealed_lines(payload@),
        payload_is_text(payload@) ==> text::views(final(lines)@) == text::views(old(lines)@)
            + decoded_lines(payload@),
{
    let ghost before = text::views(lines@);
    let (record, body) = meta::split_payload(payload);
    let ghost mut shown: Seq<Seq<char>> = Seq::empty();
    if let Some(record) = record {
        let mut record_lines = meta::parse_meta(record.as_slice());
        proof {
            shown = text::views(record_lines@);
        }
        lines.append(&mut record_lines);
    }
    proof {
        assert(text::views(lines@) =~= before + shown);
    }
    let content = text::utf8_lossy(body.as_slice());
    let mut content_lines = text::lines(content.as_str());
    let ghost rest = text::views(content_lines@);
    lines.append(&mut content_lines);
    proof {
        assert(text::views(lines@) =~= before + (shown + rest));
    }
}

/// Whether the year of a local clock is plausible.
pub open spec fn plausible(secs: u64) -> bool {
    2020 <= calendar::date_of(secs as int / 86400).0 <= 2100
}

/// Whether the year of a local clock is plausible.
pub fn clock_plausible(secs: u64) -> (r: bool)
    ensures
        r == plausible(secs),
        r == (1_577_836_800 <= secs < 4_133_980_800),
{
    let (year, month, day) = civil_from_days((secs / 86400) as i64);
    proof {
        let t = (year as int, month as int, day as int);
        let u = calendar::date_of(secs as int / 86400);
        assert(calendar::is_date(t.0, t.1, t.2) && calendar::day_number(t.0, t.1, t.2) == secs as int
            / 86400);
        calendar::law_date_unique(t.0, t.1, t.2, u.0, u.1, u.2);
        calendar::law_years_in_order(t.0, t.1, t.2, 2020);
        calendar::law_years_in_order(t.0, t.1, t.2, 2101);
        assert(calendar::day_number(2020, 1, 1) == 18262);
        assert(calendar::day_number(2101, 1, 1) == 47847);
    }
    2020 <= year && year <= 2100
}

/// What is said before the passphrase is asked for.
pub fn door_label(open_ts: u64) -> (s: String)
    ensures
        s@ == "Door opens on "@ + calendar::date_text(calendar::date_of(open_ts as int / 86400)),
{
    labelled("Door opens on ", date_string(open_ts).as_str())
}

/// Why access is denied, in words. A drift and a locked door have more to say.
pub open spec fn reason_text(r: Reason, drift: int) -> Seq<char> {
    match r {
        Reason::Injection => "INJECTION DETECTED"@,
        Reason::Memory => "Memory lock failed"@,
        Reason::Program => "Embedded program damaged"@,
        Reason::ClockJump => "Clock jump detected"@,
        Reason::Filter => "seccomp install failed"@,
        Reason::LocalClock => "Local clock suspicious"@,
        Reason::ServerDrift => "Custom NTP drift "@ + tenth_text(drift) + "s"@,
        Reason::ServerFailed => "Custom NTP verification failed"@,
        Reason::Locked => "DOOR IS LOCKED"@,
    }
}

/// Why access is denied, in words.
pub fn refusal(r: Reason, drift: i128) -> (lines: Vec<String>)
    ensures
        text::views(lines@) == seq![reason_text(r, drift as int), "Access denied"@],
{
    let first = match r {
        Reason::Injection => "INJECTION DETECTED".to_owned(),
        Reason::Memory => "Memory lock failed".to_owned(),
        Reason::Program => "Embedded program damaged".to_owned(),
        Reason::ClockJump => "Clock jump detected".to_owned(),
        Reason::Filter => "seccomp install failed".to_owned(),
        Reason::LocalClock => "Local clock suspicious".to_owned(),
        Reason::ServerDrift => {
            let mut s = labelled("Custom NTP drift ", tenth(drift).as_str());
            s.append("s");
            s
        },
        Reason::ServerFailed => "Custom NTP verification failed".to_owned(),
        Reason::Locked => "DOOR IS LOCKED".to_owned(),
    };
    let ghost view = first@;
    let mut lines: Vec<String> = Vec::new();
    push_line(&mut lines, first);
    push_line(&mut lines, "Access denied".to_owned());
    proof {
        assert(text::views(lines@) =~= seq![view, "Access denied"@]);
    }
    lines
}

/// What came of asking a server that the user named.
pub fn custom_event(reading: Option<Reading>) -> (e: Event)
    ensures
        e == match reading {
            Some(r) => if ntp::within_limit(r.drift as int) {
                Event::Pass
            } else {
                Event::Drifted
            },
            None => Event::Fail,
        },
{
    match reading {
        Some(r) => if drift_ok(r.drift) {
            Event::Pass
        } else {
            Event::Drifted
        },
        None => Event::Fail,
    }
}

/// What an opened payload shows is its record and then every line of its text.
pub proof fn law_revealed_text(record: Seq<u8>, content: Seq<u8>)
    requires
        record.len() <= u32::MAX,
    ensures
        revealed_lines(meta::framed(record, content)) == meta::record_lines(
            meta::read_record(text::utf8_text(record)),
        ) + text::text_lines(text::utf8_text(content)),
        decoded_lines(meta::framed(record, content)) == meta::record_lines(
            meta::read_record(vstd::utf8::decode_utf8(record)),
        ) + text::text_lines(vstd::utf8::decode_utf8(content)),
{
    meta::law_payload_round_trip(record, content);
}

/// A drift is shown to the nearest thousandth of a second, and half of one is
/// rounded away from zero.
pub proof fn law_drift_to_the_thousandth(ns: int, plus: bool, q: nat)
    requires
        1_000_000 * q - 500_000 <= ntp::abs(ns) < 1_000_000 * q + 500_000,
    ensures
        milli_text(ns, plus) == (if ns < 0 {
            "-"@
        } else if plus {
            "+"@
        } else {
            ""@
        }) + (text::decimal(q / 1000) + "."@ + text::zero_filled(q % 1000, 3)),
{
    assert((ntp::abs(ns) + 500_000) / 1_000_000 == q);
}

/// A refused drift is shown to the nearest tenth of a second, and half of one is
/// rounded away from zero.
pub proof fn law_drift_to_the_tenth(ns: int, q: nat)
    requires
        100_000_000 * q - 50_000_000 <= ntp::abs(ns) < 100_000_000 * q + 50_000_000,
    ensures
        tenth_text(ns) == (if ns < 0 {
            "-"@
        } else {
            ""@
        }) + (text::decimal(q / 10) + "."@ + text::zero_filled(q % 10, 1)),
{
    assert((ntp::abs(ns) + 50_000_000) / 100_000_000 == q);
}

/// Every server that answered has its line, in the order of the answers, with
/// its name and drift, and is called valid exactly if it is less than ten
/// seconds off.
pub proof fn law_every_server_is_listed(samples: Seq<Sample>, i: int)
    requires
        0 <= i < samples.len(),
    ensures
        ({
            let lines = server_lines(samples, samples.len());
            let drift = samples[i].reading.drift;
            &&& lines.len() == samples.len()
            &&& lines[i] == "  ["@ + right_filled(samples[i].host@, 24) + "] "@ + (if
                -10_000_000_000 < drift < 10_000_000_000 {
                C_GREEN@ + C_BRIGHT_WHITE@ + "✓ VALID"@
            } else {
                C_RED@ + C_BRIGHT_WHITE@ + "✗ REJECTED"@
            }) + C_RESET@ + "  drift "@ + milli_text(drift as int, true) + "s"@
        }),
{
    lemma_server_line(samples, samples.len(), i);
}

proof fn lemma_server_line(samples: Seq<Sample>, n: nat, i: int)
    requires
        n <= samples.len(),
    ensures
        server_lines(samples, n).len() == n,
        0 <= i < n ==> server_lines(samples, n)[i] == server_line(
            samples[i].host@,
            samples[i].reading.drift as int,
        ),
    decreases n,
{
    if n > 0 {
        lemma_server_line(samples, (n - 1) as nat, i);
    }
}

/// What stands in the report: the local time, the agreed time in whole seconds,
/// the drift, the protection, and then the servers.
pub proof fn law_report_holds_both_clocks(
    local_now: u64,
    agreed: Reading,
    samples: Seq<Sample>,
    rules: nat,
    width: nat,
    i: int,
)
    requires
        0 <= i < samples.len(),
    ensures
        ({
            let r = report_lines(local_now, agreed, samples, rules, width);
            &&& r.len() == samples.len() + 10
            &&& r[0] == "Local time    "@ + calendar::unix_text(local_now as nat)
            &&& r[1] == "NTP time     "@ + calendar::unix_text(
                ntp::seconds_of(agreed.now as int) as nat,
            )
            &&& r[2] == "Clock drift  "@ + milli_text(agreed.drift as int, false) + "s"@
            &&& r[8 + i] == server_line(samples[i].host@, samples[i].reading.drift as int)
        }),
{
    lemma_server_line(samples, samples.len(), i);
}

/// In front of a locked door it is said when it opens and how many seconds are
/// left.
pub proof fn law_locked_lines(open_ts: u64, left: u64)
    ensures
        ({
            let l = locked_lines(open_ts, left);
            &&& l.len() == 4
            &&& l[0] == "DOOR IS LOCKED"@
            &&& l[1] == "Opens at     "@ + calendar::unix_text(open_ts as nat)
            &&& l[2] == "Time left    "@ + text::decimal(left as nat) + " seconds"@
        }),
{
}

/// What is said for each reason.
pub proof fn law_reasons(drift: int)
    ensures
        reason_text(Reason::Injection, drift) == "INJECTION DETECTED"@,
        reason_text(Reason::Memory, drift) == "Memory lock failed"@,
        reason_text(Reason::ClockJump, drift) == "Clock jump detected"@,
        reason_text(Reason::Filter, drift) == "seccomp install failed"@,
        reason_text(Reason::LocalClock, drift) == "Local clock suspicious"@,
        reason_text(Reason::ServerDrift, drift) == "Custom NTP drift "@ + tenth_text(drift) + "s"@,
        reason_text(Reason::ServerFailed, drift) == "Custom NTP verification failed"@,
{
}

/// A name is filled up on the right with blanks, and kept as it is where it is
/// long enough.
pub proof fn law_names_are_filled_up(s: Seq<char>, width: nat)
    ensures
        s.len() >= width ==> right_filled(s, width) == s,
        s.len() < width ==> right_filled(s, width).len() == width,
        s.is_prefix_of(right_filled(s, width)),
        forall|i: int|
            s.len() <= i < right_filled(s, width).len() ==> #[trigger] right_filled(s, width)[i]
                == ' ',
{
    assert(right_filled(s, width).subrange(0, s.len() as int) =~= s);
}

} // verus!
