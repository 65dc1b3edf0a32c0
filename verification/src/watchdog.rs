//! The watchdogs: two of them look after the program and after each other, and
//! end it at the first sign of tampering.
use vstd::prelude::*;

use crate::crypto;
use crate::primitives;
use crate::text;

verus! {

/// A heartbeat older than this many seconds counts as missing.
pub const HEARTBEAT_ALIVE_SECS: u64 = 2;

/// The main thread may be silent for this many seconds.
pub const STALE_SECS: u64 = 300;

/// Milliseconds between two ticks.
pub const TICK_MILLIS: u64 = 400;

/// Most bytes of key that are watched.
pub const WATCHED_KEY_MAX: usize = 64;

/// The opening time of a watchdog that does not watch the time yet.
pub const NOT_ARMED: u64 = 0xffff_ffff_ffff_ffff;

/// One of the two watchdogs.
#[derive(Clone, Copy, PartialEq, Eq, Structural, Debug)]
pub enum Dog {
    First,
    Second,
}

/// Why a watchdog ends the program.
#[derive(Clone, Copy, PartialEq, Eq, Structural, Debug)]
pub enum Reason {
    /// The main thread has stopped beating.
    MainDead,
    /// The other watchdog has stopped ticking.
    SiblingDead,
    /// The main thread makes no progress.
    Stale,
    /// A tracer is attached.
    Traced,
    /// A debugger is attached.
    Debugger,
    /// The code in memory has changed.
    TextPatched,
    /// The clock is before the opening time.
    TimeGateEarly,
    /// The program file has changed.
    ExeChanged,
    /// The watched key is too long.
    KeyTooLong,
    /// The watched key has changed.
    KeyChanged,
}

/// What a watchdog sees at a tick.
pub struct Observation {
    /// Seconds Unix time.
    pub now: u64,
    /// Seconds since the main thread last made progress.
    pub idle_secs: u64,
    /// Process number of the tracer, zero for none.
    pub tracer: u32,
    /// Whether a debugger shows.
    pub debugger: bool,
    /// Digest of the code in memory, if it can be read.
    pub text: Option<[u8; 32]>,
    /// Two digests of the program file in a row, if it can be read.
    pub exe: Option<([u8; 32], [u8; 32])>,
    /// The watched key.
    pub key: Vec<u8>,
}

/// What the watchdogs share.
pub struct Watchdog {
    pub running: bool,
    pub open_ts: u64,
    pub main_beat: u64,
    pub first_beat: u64,
    pub second_beat: u64,
    pub text_base: Option<[u8; 32]>,
    pub exe_base: Option<[u8; 32]>,
    pub expected_key_sha: [u8; 32],
}

/// Whether a heartbeat is recent.
pub open spec fn beats(beat: u64, now: u64) -> bool {
    beat + HEARTBEAT_ALIVE_SECS >= now
}

/// The heartbeat of the other watchdog.
pub open spec fn sibling_beat(w: Watchdog, who: Dog) -> u64 {
    match who {
        Dog::First => w.second_beat,
        Dog::Second => w.first_beat,
    }
}

/// Whether the code in memory differs from what it was at the first tick that
/// looked.
pub open spec fn text_patched(base: Option<[u8; 32]>, now: Option<[u8; 32]>) -> bool {
    match (base, now) {
        (Some(b), Some(n)) => b@ != n@,
        _ => false,
    }
}

/// Whether the program file differs from what it was at the first tick that
/// read it, or changes while it is read.
pub open spec fn exe_changed(base: Option<[u8; 32]>, exe: Option<([u8; 32], [u8; 32])>) -> bool {
    match exe {
        Some((a, b)) => a@ != b@ || (base is Some && base->0@ != a@),
        None => false,
    }
}

/// The digest of the code in memory to go by from now on: that of the first
/// tick that looked.
pub open spec fn text_base_after(w: Watchdog, who: Dog, o: Observation) -> Option<[u8; 32]> {
    if w.text_base is None && life_alarm(w, who, o) is None {
        o.text
    } else {
        w.text_base
    }
}

/// The digest of the program file to go by from now on: that of the first tick
/// that read it twice alike.
pub open spec fn exe_base_after(w: Watchdog, who: Dog, o: Observation) -> Option<[u8; 32]> {
    if w.exe_base is None && life_alarm(w, who, o) is None && !text_patched(w.text_base, o.text)
        && !too_early(w.open_ts, o.now) && o.exe is Some && !exe_changed(None, o.exe) {
        Some((o.exe->0).0)
    } else {
        w.exe_base
    }
}

/// Whether the clock is before an opening time that is watched.
pub open spec fn too_early(open_ts: u64, now: u64) -> bool {
    open_ts != NOT_ARMED && now < open_ts
}

/// The first reason that lies with the threads or with a debugger, if any.
pub open spec fn life_alarm(w: Watchdog, who: Dog, o: Observation) -> Option<Reason> {
    if !beats(w.main_beat, o.now) {
        Some(Reason::MainDead)
    } else if !beats(sibling_beat(w, who), o.now) {
        Some(Reason::SiblingDead)
    } else if o.idle_secs > STALE_SECS {
        Some(Reason::Stale)
    } else if o.tracer != 0 {
        Some(Reason::Traced)
    } else if o.debugger {
        Some(Reason::Debugger)
    } else {
        None
    }
}

/// Why a tick ends the program, if it does: the first reason that holds.
pub open spec fn alarm(w: Watchdog, who: Dog, o: Observation) -> Option<Reason> {
    if life_alarm(w, who, o) is Some {
        life_alarm(w, who, o)
    } else if text_patched(w.text_base, o.text) {
        Some(Reason::TextPatched)
    } else if too_early(w.open_ts, o.now) {
        Some(Reason::TimeGateEarly)
    } else if exe_changed(w.exe_base, o.exe) {
        Some(Reason::ExeChanged)
    } else if o.key@.len() > WATCHED_KEY_MAX {
        Some(Reason::KeyTooLong)
    } else if primitives::sha3_256_digest(o.key@) != w.expected_key_sha@ {
        Some(Reason::KeyChanged)
    } else {
        None
    }
}

/// A tick passes exactly if everything is as it should be: both heartbeats are
/// recent, the main thread makes progress, nobody traces or debugs, the code in
/// memory and the file are unchanged, the opening time has come or is not
/// watched, and the key is the expected one.
pub proof fn law_tick_passes(w: Watchdog, who: Dog, o: Observation)
    ensures
        alarm(w, who, o) is None <==> {
            &&& beats(w.main_beat, o.now)
            &&& beats(sibling_beat(w, who), o.now)
            &&& o.idle_secs <= STALE_SECS
            &&& o.tracer == 0
            &&& !o.debugger
            &&& !text_patched(w.text_base, o.text)
            &&& !too_early(w.open_ts, o.now)
            &&& !exe_changed(w.exe_base, o.exe)
            &&& o.key@.len() <= WATCHED_KEY_MAX
            &&& primitives::sha3_256_digest(o.key@) == w.expected_key_sha@
        },
{
}

/// Once an opening time is watched, no tick passes while the clock is before
/// it, whatever else is seen.
pub proof fn law_rollback_is_caught(w: Watchdog, who: Dog, o: Observation)
    requires
        w.open_ts != NOT_ARMED,
        o.now < w.open_ts,
    ensures
        alarm(w, who, o) is Some,
{
}

/// The state that a tick leaves.
pub open spec fn after_tick(w: Watchdog, who: Dog, o: Observation) -> Watchdog {
    Watchdog {
        first_beat: if who == Dog::First {
            o.now
        } else {
            w.first_beat
        },
        second_beat: if who == Dog::Second {
            o.now
        } else {
            w.second_beat
        },
        text_base: text_base_after(w, who, o),
        exe_base: exe_base_after(w, who, o),
        ..w
    }
}

/// A program file that was read at a tick and is another one at a later tick
/// does not pass, whichever watchdogs tick and whatever else is seen. In
/// between, `w2` keeps what was remembered.
pub proof fn law_changed_file_is_caught(
    w: Watchdog,
    w2: Watchdog,
    who: Dog,
    who2: Dog,
    o: Observation,
    o2: Observation,
)
    requires
        alarm(w, who, o) is None,
        w2.exe_base == after_tick(w, who, o).exe_base,
        o.exe is Some,
        o2.exe is Some,
        (o.exe->0).0@ != (o2.exe->0).0@,
    ensures
        alarm(w2, who2, o2) is Some,
{
}

/// What a tick has remembered of the program file, no later tick forgets.
pub proof fn law_file_is_remembered(w: Watchdog, who: Dog, o: Observation)
    ensures
        w.exe_base is Some ==> after_tick(w, who, o).exe_base == w.exe_base,
        w.text_base is Some ==> after_tick(w, who, o).text_base == w.text_base,
{
}

/// Watchdogs that start now on a key with the given digest.
pub fn start(now: u64, expected_key_sha: [u8; 32]) -> (w: Watchdog)
    ensures
        w == (Watchdog {
            running: true,
            open_ts: NOT_ARMED,
            main_beat: now,
            first_beat: now,
            second_beat: now,
            text_base: None,
            exe_base: None,
            expected_key_sha,
        }),
{
    Watchdog {
        running: true,
        open_ts: NOT_ARMED,
        main_beat: now,
        first_beat: now,
        second_beat: now,
        text_base: None,
        exe_base: None,
        expected_key_sha,
    }
}

/// Watches the opening time from now on.
pub fn set_open_ts(w: &mut Watchdog, ts: u64)
    ensures
        *final(w) == (Watchdog { open_ts: ts, ..*old(w) }),
{
    w.open_ts = ts;
}

/// Sends the watchdogs to sleep.
pub fn stop(w: &mut Watchdog)
    ensures
        *final(w) == (Watchdog { running: false, ..*old(w) }),
{
    w.running = false;
}

/// The main thread's heartbeat.
pub fn beat_main(w: &mut Watchdog, now: u64)
    ensures
        *final(w) == (Watchdog { main_beat: now, ..*old(w) }),
{
    w.main_beat = now;
}

/// One tick of a watchdog: its own heartbeat is stamped, the code in memory
/// and the program file are remembered if they are seen for the first time, and
/// the first reason to end the program is given, if there is one.
pub fn tick(w: &mut Watchdog, who: Dog, o: &Observation) -> (r: Option<Reason>)
    ensures
        r == alarm(*old(w), who, *o),
        *final(w) == after_tick(*old(w), who, *o),
{
    let sibling: u64 = match who {
        Dog::First => {
            w.first_beat = o.now;
            w.second_beat
        },
        Dog::Second => {
            w.second_beat = o.now;
            w.first_beat
        },
    };
    if !recent(w.main_beat, o.now) {
        return Some(Reason::MainDead);
    }
    if !recent(sibling, o.now) {
        return Some(Reason::SiblingDead);
    }
    if o.idle_secs > STALE_SECS {
        return Some(Reason::Stale);
    }
    if o.tracer != 0 {
        return Some(Reason::Traced);
    }
    if o.debugger {
        return Some(Reason::Debugger);
    }
    if let Some(h) = o.text {
        match w.text_base {
            None => {
                w.text_base = Some(h);
            },
            Some(base) => {
                if !crypto::ct_eq(&base, &h) {
                    return Some(Reason::TextPatched);
                }
            },
        }
    }
    if w.open_ts != NOT_ARMED && o.now < w.open_ts {
        return Some(Reason::TimeGateEarly);
    }
    if let Some((a, b)) = o.exe {
        if !crypto::ct_eq(&a, &b) {
            return Some(Reason::ExeChanged);
        }
        match w.exe_base {
            None => {
                w.exe_base = Some(a);
            },
            Some(base) => {
                if !crypto::ct_eq(&base, &a) {
                    return Some(Reason::ExeChanged);
                }
            },
        }
    }
    if o.key.len() > WATCHED_KEY_MAX {
        return Some(Reason::KeyTooLong);
    }
    let actual: [u8; 32] = crypto::sha3_256(o.key.as_slice());
    if !crypto::ct_eq(&actual, &w.expected_key_sha) {
        return Some(Reason::KeyChanged);
    }
    None
}

fn recent(beat: u64, now: u64) -> (r: bool)
    ensures
        r == beats(beat, now),
{
    now <= beat || now - beat <= HEARTBEAT_ALIVE_SECS
}

/// The word that a reason leaves in the log.
pub open spec fn reason_word(r: Reason, who: Dog) -> Seq<char> {
    match r {
        Reason::MainDead => "MAIN_DEAD"@,
        Reason::SiblingDead => match who {
            Dog::First => "W2_DEAD"@,
            Dog::Second => "W1_DEAD"@,
        },
        Reason::Stale => "STALE >300s"@,
        Reason::Traced => "TRACED"@,
        Reason::Debugger => "DEBUGGER_MIDRUN"@,
        Reason::TextPatched => "TEXT_PATCHED"@,
        Reason::TimeGateEarly => "TIME_GATE_EARLY"@,
        Reason::ExeChanged => "EXE_CHANGED"@,
        Reason::KeyTooLong => "KEY_TOO_LONG"@,
        Reason::KeyChanged => "KEY_HASH_MISMATCH"@,
    }
}

/// The word that a reason leaves in the log.
pub fn reason_name(r: Reason, who: Dog) -> (s: &'static str)
    ensures
        s@ == reason_word(r, who),
{
    match r {
        Reason::MainDead => "MAIN_DEAD",
        Reason::SiblingDead => match who {
            Dog::First => "W2_DEAD",
            Dog::Second => "W1_DEAD",
        },
        Reason::Stale => "STALE >300s",
        Reason::Traced => "TRACED",
        Reason::Debugger => "DEBUGGER_MIDRUN",
        Reason::TextPatched => "TEXT_PATCHED",
        Reason::TimeGateEarly => "TIME_GATE_EARLY",
        Reason::ExeChanged => "EXE_CHANGED",
        Reason::KeyTooLong => "KEY_TOO_LONG",
        Reason::KeyChanged => "KEY_HASH_MISMATCH",
    }
}

/// The line that is logged before the run ends.
pub fn destruct_line(secs: u64, reason: &str) -> (s: String)
    ensures
        s@ == "[unix "@ + text::decimal(secs as nat) + "] "@ + reason@,
{
    let mut s = "[unix ".to_owned();
    text::push_decimal(&mut s, secs);
    s.append("] ");
    s.append(reason);
    s
}

/// The tracer that a line of a process status names, if it names one.
pub open spec fn line_tracer(line: Seq<char>) -> Option<u32> {
    match text::after_prefix(line, "TracerPid:"@) {
        Some(rest) => match text::parsed_u64(text::trimmed(rest)) {
            Some(v) => if v <= u32::MAX {
                Some(v as u32)
            } else {
                None
            },
            None => None,
        },
        None => None,
    }
}

/// The first tracer that the lines from `i` on name; zero where none does.
pub open spec fn first_tracer(lines: Seq<Seq<char>>, i: int) -> u32
    decreases lines.len() - i,
{
    if i < 0 || i >= lines.len() {
        0
    } else {
        match line_tracer(lines[i]) {
            Some(v) => v,
            None => first_tracer(lines, i + 1),
        }
    }
}

fn tracer_in(line: &str) -> (r: Option<u32>)
    ensures
        r == line_tracer(line@),
{
    let chars: Vec<char> = text::chars_of(line);
    match text::strip_prefix(chars.as_slice(), "TracerPid:") {
        Some(rest) => match text::parse_u64(text::trim(rest)) {
            Some(v) => if v <= 0xffff_ffff {
                Some(v as u32)
            } else {
                None
            },
            None => None,
        },
        None => None,
    }
}

/// The process number of the tracer that a process status names; zero where it
/// names none.
pub fn tracer_pid(status: &str) -> (pid: u32)
    ensures
        pid == first_tracer(text::text_lines(status@), 0),
{
    let lines: Vec<String> = text::lines(status);
    let ghost lv = text::text_lines(status@);
    let mut i: usize = 0;
    while i < lines.len()
        invariant
            i <= lines@.len(),
            lv == text::views(lines@),
            lv == text::text_lines(status@),
            first_tracer(lv, 0) == first_tracer(lv, i as int),
        decreases lines@.len() - i,
    {
        proof {
            assert(lv[i as int] == lines@[i as int]@);
        }
        if let Some(v) = tracer_in(lines[i].as_str()) {
            return v;
        }
        i = i + 1;
    }
    0
}

/// The handle that keeps the program file from being deleted, while it is
/// held.
pub struct ExeLock {
    pub handle: Option<usize>,
}

/// Keeps a handle on the program file.
pub fn harden_exe(lock: &mut ExeLock, handle: usize)
    ensures
        final(lock).handle == Some(handle),
{
    lock.handle = Some(handle);
}

/// Gives up the handle on the program file: whoever asks closes it, and
/// nobody gets it twice.
pub fn unlock_exe(lock: &mut ExeLock) -> (handle: Option<usize>)
    ensures
        handle == old(lock).handle,
        final(lock).handle is None,
{
    lock.handle.take()
}

/// What a passing tick has found, in numbers: main thread and other watchdog
/// have beaten within the last two seconds, the main thread has made progress
/// within the last 300, nobody traces or debugs, code and file are what they
/// were, the clock is not before an opening time that is watched, and the key
/// has at most 64 bytes and the expected SHA3-256 digest. A tick that finds all
/// of this passes.
pub proof fn law_tick_in_numbers(w: Watchdog, who: Dog, o: Observation)
    ensures
        alarm(w, who, o) is None <==> {
            &&& o.now <= w.main_beat + 2
            &&& (who == Dog::First ==> o.now <= w.second_beat + 2)
            &&& (who == Dog::Second ==> o.now <= w.first_beat + 2)
            &&& o.idle_secs <= 300
            &&& o.tracer == 0
            &&& !o.debugger
            &&& (w.text_base is Some && o.text is Some ==> w.text_base->0@ == o.text->0@)
            &&& (w.open_ts == 0xffff_ffff_ffff_ffff || w.open_ts <= o.now)
            &&& (o.exe is Some ==> (o.exe->0).0@ == (o.exe->0).1@)
            &&& (w.exe_base is Some && o.exe is Some ==> w.exe_base->0@ == (o.exe->0).0@)
            &&& o.key@.len() <= 64
            &&& primitives::sha3_256_digest(o.key@) == w.expected_key_sha@
        },
{
}

/// What a tick remembers: its own heartbeat, and nothing of the other one's.
pub proof fn law_tick_stamps_its_own_heartbeat(w: Watchdog, who: Dog, o: Observation)
    ensures
        ({
            let t = after_tick(w, who, o);
            &&& who == Dog::First ==> t.first_beat == o.now && t.second_beat == w.second_beat
            &&& who == Dog::Second ==> t.second_beat == o.now && t.first_beat == w.first_beat
            &&& t.main_beat == w.main_beat
            &&& t.open_ts == w.open_ts
            &&& t.running == w.running
            &&& t.expected_key_sha == w.expected_key_sha
            &&& alarm(w, who, o) is None && w.text_base is None ==> t.text_base == o.text
            &&& alarm(w, who, o) is None && w.exe_base is None && o.exe is Some ==> t.exe_base
                == Some((o.exe->0).0)
        }),
{
}

/// A code region that is read at a tick and is another one at a later tick does
/// not pass.
pub proof fn law_changed_code_is_caught(
    w: Watchdog,
    w2: Watchdog,
    who: Dog,
    who2: Dog,
    o: Observation,
    o2: Observation,
)
    requires
        alarm(w, who, o) is None,
        w2.text_base == after_tick(w, who, o).text_base,
        o.text is Some,
        o2.text is Some,
        o.text->0@ != o2.text->0@,
    ensures
        alarm(w2, who2, o2) is Some,
{
}

/// A process status names its tracer behind the word `TracerPid:`, with white
/// space around the number.
pub proof fn law_tracer_is_read(gap: Seq<char>, pid: u32, tail: Seq<char>)
    requires
        forall|i: int| 0 <= i < gap.len() ==> text::is_space(#[trigger] gap[i]),
        forall|i: int| 0 <= i < tail.len() ==> text::is_space(#[trigger] tail[i]),
    ensures
        line_tracer("TracerPid:"@ + (gap + text::decimal(pid as nat) + tail)) == Some(pid),
{
    let d = text::decimal(pid as nat);
    let rest = gap + d + tail;
    text::law_prefixes(rest, "TracerPid:"@, rest);
    text::law_numbers_read_back(pid as u64, 0);
    text::law_what_reads_as_a_number(d, '0');
    assert(d.len() > 0);
    assert(48 <= d[0] as u32 <= 57 && 48 <= d.last() as u32 <= 57) by {
        lemma_starts_with_digit(pid as nat);
    }
    text::law_trimming(gap, d, tail);
}

proof fn lemma_starts_with_digit(n: nat)
    ensures
        text::decimal(n).len() > 0,
        48 <= text::decimal(n)[0] as u32 <= 57,
        48 <= text::decimal(n).last() as u32 <= 57,
    decreases n,
{
    if n >= 10 {
        lemma_starts_with_digit(n / 10);
        assert(text::decimal(n)[0] == text::decimal(n / 10)[0]);
    }
}

/// The first line that names a tracer counts; where none does, there is none.
pub proof fn law_first_tracer_counts(lines: Seq<Seq<char>>, k: int)
    requires
        0 <= k <= lines.len(),
        forall|i: int| 0 <= i < k ==> line_tracer(#[trigger] lines[i]) is None,
        k < lines.len() ==> line_tracer(lines[k]) is Some,
    ensures
        first_tracer(lines, 0) == (if k < lines.len() {
            line_tracer(lines[k])->0
        } else {
            0
        }),
{
    lemma_tracer_from(lines, 0, k);
}

proof fn lemma_tracer_from(lines: Seq<Seq<char>>, i: int, k: int)
    requires
        0 <= i <= k <= lines.len(),
        forall|j: int| 0 <= j < k ==> line_tracer(#[trigger] lines[j]) is None,
        k < lines.len() ==> line_tracer(lines[k]) is Some,
    ensures
        first_tracer(lines, i) == (if k < lines.len() {
            line_tracer(lines[k])->0
        } else {
            0
        }),
    decreases k - i,
{
    if i < k {
        lemma_tracer_from(lines, i + 1, k);
    }
}

/// The word that each reason leaves in the log; a watchdog that misses the other
/// one names the other.
pub proof fn law_words_in_the_log(who: Dog)
    ensures
        reason_word(Reason::MainDead, who) == "MAIN_DEAD"@,
        reason_word(Reason::SiblingDead, Dog::First) == "W2_DEAD"@,
        reason_word(Reason::SiblingDead, Dog::Second) == "W1_DEAD"@,
        reason_word(Reason::Stale, who) == "STALE >300s"@,
        reason_word(Reason::Traced, who) == "TRACED"@,
        reason_word(Reason::Debugger, who) == "DEBUGGER_MIDRUN"@,
        reason_word(Reason::TextPatched, who) == "TEXT_PATCHED"@,
        reason_word(Reason::TimeGateEarly, who) == "TIME_GATE_EARLY"@,
        reason_word(Reason::ExeChanged, who) == "EXE_CHANGED"@,
        reason_word(Reason::KeyTooLong, who) == "KEY_TOO_LONG"@,
        reason_word(Reason::KeyChanged, who) == "KEY_HASH_MISMATCH"@,
{
}

/// Which reason is given: the first that holds, in this order.
pub proof fn law_first_reason(w: Watchdog, who: Dog, o: Observation)
    ensures
        ({
            let sibling = if who == Dog::First {
                w.second_beat
            } else {
                w.first_beat
            };
            let life = o.now <= w.main_beat + 2 && o.now <= sibling + 2;
            let quiet = life && o.idle_secs <= 300 && o.tracer == 0 && !o.debugger;
            let patched = w.text_base is Some && o.text is Some && w.text_base->0@ != o.text->0@;
            let early = w.open_ts != 0xffff_ffff_ffff_ffff && o.now < w.open_ts;
            let changed = o.exe is Some && ((o.exe->0).0@ != (o.exe->0).1@ || (w.exe_base is Some
                && w.exe_base->0@ != (o.exe->0).0@));
            let same = quiet && !patched && !early && !changed;
            let a = alarm(w, who, o);
            &&& o.now > w.main_beat + 2 ==> a == Some(Reason::MainDead)
            &&& o.now <= w.main_beat + 2 && o.now > sibling + 2 ==> a == Some(Reason::SiblingDead)
            &&& life && o.idle_secs > 300 ==> a == Some(Reason::Stale)
            &&& life && o.idle_secs <= 300 && o.tracer != 0 ==> a == Some(Reason::Traced)
            &&& life && o.idle_secs <= 300 && o.tracer == 0 && o.debugger ==> a == Some(
                Reason::Debugger,
            )
            &&& quiet && patched ==> a == Some(Reason::TextPatched)
            &&& quiet && !patched && early ==> a == Some(Reason::TimeGateEarly)
            &&& quiet && !patched && !early && changed ==> a == Some(Reason::ExeChanged)
            &&& same && o.key@.len() > 64 ==> a == Some(Reason::KeyTooLong)
            &&& same && o.key@.len() <= 64 && primitives::sha3_256_digest(o.key@)
                != w.expected_key_sha@ ==> a == Some(Reason::KeyChanged)
        }),
{
}

} // verus!
