//! The course of a run: which check comes next, and what follows from each of
//! them. A check that fails ends the run; only damage to what is sealed destroys
//! it, and a wrong passphrase is just asked for again.
use vstd::prelude::*;

verus! {

/// Where a run stands: what it is waiting for.
#[derive(Clone, Copy, PartialEq, Eq, Structural, Debug)]
pub enum Phase {
    /// Whether a debugger is attached.
    Debugger,
    /// Whether the program file is signed.
    Signature,
    /// Whether foreign code was loaded.
    Injection,
    /// Whether memory could be locked.
    Memory,
    /// Whether the embedded program is whole.
    Program,
    /// A passphrase that opens the embedded program.
    Password,
    /// The keys that the embedded program rebuilds.
    Keys,
    /// Whether the clock jumped.
    Clock,
    /// Whether the system calls are filtered.
    Filter,
    /// Whether the local clock is plausible.
    Year,
    /// The time that the servers agree on.
    Servers,
    /// The time that a server named by the user gives.
    Custom,
    /// Whether the clock jumped meanwhile.
    ClockAgain,
    /// What the vault says.
    Door,
    /// What the reader does.
    Reading,
    /// Nothing any more.
    Over,
}

/// What came of it.
#[derive(Clone, Copy, PartialEq, Eq, Structural, Debug)]
pub enum Event {
    /// It is in order, or it was found.
    Pass,
    /// It is not.
    Fail,
    /// The server's time is too far from the local clock.
    Drifted,
    /// The time has not come.
    Locked,
    /// The reader burns the text.
    Burn,
}

/// Why access is denied.
#[derive(Clone, Copy, PartialEq, Eq, Structural, Debug)]
pub enum Reason {
    Injection,
    Memory,
    Program,
    ClockJump,
    Filter,
    LocalClock,
    ServerDrift,
    ServerFailed,
    Locked,
}

/// What is to be done.
#[derive(Clone, Copy, PartialEq, Eq, Structural, Debug)]
pub enum Action {
    /// Find out what the new phase waits for.
    Check,
    /// Say that the passphrase is wrong, and ask again.
    AskAgain,
    /// Show the text.
    Reveal,
    /// Say why access is denied, and end with code 1.
    Refuse(Reason),
    /// End with a code.
    Exit(i32),
    /// Destroy everything.
    Destroy,
    /// Burn the text and the program.
    Burn,
}

/// The phase behind a check that passed.
pub open spec fn after(p: Phase) -> Phase {
    match p {
        Phase::Debugger => Phase::Signature,
        Phase::Signature => Phase::Injection,
        Phase::Injection => Phase::Memory,
        Phase::Memory => Phase::Program,
        Phase::Program => Phase::Password,
        Phase::Password => Phase::Keys,
        Phase::Keys => Phase::Clock,
        Phase::Clock => Phase::Filter,
        Phase::Filter => Phase::Year,
        Phase::Year => Phase::Servers,
        Phase::Servers => Phase::ClockAgain,
        Phase::Custom => Phase::ClockAgain,
        Phase::ClockAgain => Phase::Door,
        Phase::Door => Phase::Reading,
        Phase::Reading => Phase::Over,
        Phase::Over => Phase::Over,
    }
}

/// What follows from a check that did not pass.
pub open spec fn failed(p: Phase, e: Event, at_keyboard: bool) -> (Phase, Action) {
    match p {
        Phase::Debugger => (Phase::Over, Action::Exit(137)),
        Phase::Signature => (Phase::Over, Action::Exit(138)),
        Phase::Injection => (Phase::Over, Action::Refuse(Reason::Injection)),
        Phase::Memory => (Phase::Over, Action::Refuse(Reason::Memory)),
        Phase::Program => (Phase::Over, Action::Refuse(Reason::Program)),
        Phase::Password => if at_keyboard {
            (Phase::Password, Action::AskAgain)
        } else {
            (Phase::Over, Action::Exit(1))
        },
        Phase::Keys => (Phase::Over, Action::Destroy),
        Phase::Clock => (Phase::Over, Action::Refuse(Reason::ClockJump)),
        Phase::Filter => (Phase::Over, Action::Refuse(Reason::Filter)),
        Phase::Year => (Phase::Over, Action::Refuse(Reason::LocalClock)),
        Phase::Servers => (Phase::Custom, Action::Check),
        Phase::Custom => if e == Event::Drifted {
            (Phase::Over, Action::Refuse(Reason::ServerDrift))
        } else {
            (Phase::Over, Action::Refuse(Reason::ServerFailed))
        },
        Phase::ClockAgain => (Phase::Over, Action::Refuse(Reason::ClockJump)),
        Phase::Door => if e == Event::Locked {
            (Phase::Over, Action::Refuse(Reason::Locked))
        } else {
            (Phase::Over, Action::Destroy)
        },
        Phase::Reading => if e == Event::Burn {
            (Phase::Over, Action::Burn)
        } else {
            (Phase::Over, Action::Exit(0))
        },
        Phase::Over => (Phase::Over, Action::Exit(0)),
    }
}

/// What follows from an event.
pub open spec fn followed(p: Phase, e: Event, at_keyboard: bool) -> (Phase, Action) {
    if e == Event::Pass && p != Phase::Reading && p != Phase::Over {
        (
            after(p),
            if p == Phase::Door {
                Action::Reveal
            } else {
                Action::Check
            },
        )
    } else {
        failed(p, e, at_keyboard)
    }
}

fn next_phase(p: Phase) -> (r: Phase)
    ensures
        r == after(p),
{
    match p {
        Phase::Debugger => Phase::Signature,
        Phase::Signature => Phase::Injection,
        Phase::Injection => Phase::Memory,
        Phase::Memory => Phase::Program,
        Phase::Program => Phase::Password,
        Phase::Password => Phase::Keys,
        Phase::Keys => Phase::Clock,
        Phase::Clock => Phase::Filter,
        Phase::Filter => Phase::Year,
        Phase::Year => Phase::Servers,
        Phase::Servers => Phase::ClockAgain,
        Phase::Custom => Phase::ClockAgain,
        Phase::ClockAgain => Phase::Door,
        Phase::Door => Phase::Reading,
        Phase::Reading => Phase::Over,
        Phase::Over => Phase::Over,
    }
}

fn on_failure(p: Phase, e: Event, at_keyboard: bool) -> (r: (Phase, Action))
    ensures
        r == failed(p, e, at_keyboard),
{
    let action: Action = match p {
        Phase::Debugger => Action::Exit(137),
        Phase::Signature => Action::Exit(138),
        Phase::Injection => Action::Refuse(Reason::Injection),
        Phase::Memory => Action::Refuse(Reason::Memory),
        Phase::Program => Action::Refuse(Reason::Program),
        Phase::Password => if at_keyboard {
            return (Phase::Password, Action::AskAgain);
        } else {
            Action::Exit(1)
        },
        Phase::Keys => Action::Destroy,
        Phase::Clock => Action::Refuse(Reason::ClockJump),
        Phase::Filter => Action::Refuse(Reason::Filter),
        Phase::Year => Action::Refuse(Reason::LocalClock),
        Phase::Servers => {
            return (Phase::Custom, Action::Check);
        },
        Phase::Custom => if e == Event::Drifted {
            Action::Refuse(Reason::ServerDrift)
        } else {
            Action::Refuse(Reason::ServerFailed)
        },
        Phase::ClockAgain => Action::Refuse(Reason::ClockJump),
        Phase::Door => if e == Event::Locked {
            Action::Refuse(Reason::Locked)
        } else {
            Action::Destroy
        },
        Phase::Reading => if e == Event::Burn {
            Action::Burn
        } else {
            Action::Exit(0)
        },
        Phase::Over => Action::Exit(0),
    };
    (Phase::Over, action)
}

/// A run.
pub struct Session {
    pub phase: Phase,
    pub at_keyboard: bool,
}

impl Session {
    /// A run that starts.
    pub fn new(at_keyboard: bool) -> (s: Session)
        ensures
            s.phase == Phase::Debugger,
            s.at_keyboard == at_keyboard,
    {
        Session { phase: Phase::Debugger, at_keyboard }
    }

    /// What follows from an event.
    pub fn step(&mut self, e: Event) -> (a: Action)
        ensures
            (final(self).phase, a) == followed(old(self).phase, e, old(self).at_keyboard),
            final(self).at_keyboard == old(self).at_keyboard,
    {
        let p: Phase = self.phase;
        if e == Event::Pass && p != Phase::Reading && p != Phase::Over {
            self.phase = next_phase(p);
            if p == Phase::Door {
                Action::Reveal
            } else {
                Action::Check
            }
        } else {
            let (q, action) = on_failure(p, e, self.at_keyboard);
            self.phase = q;
            action
        }
    }
}

/// Where a run stands after `n` events.
pub open spec fn phase_at(events: Seq<Event>, n: nat, at_keyboard: bool) -> Phase
    decreases n,
{
    if n == 0 {
        Phase::Debugger
    } else {
        followed(phase_at(events, (n - 1) as nat, at_keyboard), events[n - 1], at_keyboard).0
    }
}

/// How far a phase is from the start.
pub open spec fn place(p: Phase) -> int {
    match p {
        Phase::Debugger => 0,
        Phase::Signature => 1,
        Phase::Injection => 2,
        Phase::Memory => 3,
        Phase::Program => 4,
        Phase::Password => 5,
        Phase::Keys => 6,
        Phase::Clock => 7,
        Phase::Filter => 8,
        Phase::Year => 9,
        Phase::Servers => 10,
        Phase::Custom => 10,
        Phase::ClockAgain => 11,
        Phase::Door => 12,
        Phase::Reading => 13,
        Phase::Over => 14,
    }
}

/// Whether a check of that place passed within the first `n` events.
pub open spec fn passed_within(
    events: Seq<Event>,
    n: nat,
    at_keyboard: bool,
    k: int,
) -> bool {
    exists|i: nat|
        i < n && place(#[trigger] phase_at(events, i, at_keyboard)) == k && events[i as int]
            == Event::Pass
}

/// Nobody reads the text unless every check before it has passed, whatever
/// came in between.
pub proof fn law_every_check_passed(events: Seq<Event>, n: nat, at_keyboard: bool, k: int)
    requires
        n <= events.len(),
        phase_at(events, n, at_keyboard) != Phase::Over,
        0 <= k < place(phase_at(events, n, at_keyboard)),
    ensures
        passed_within(events, n, at_keyboard, k),
    decreases n,
{
    let before = phase_at(events, (n - 1) as nat, at_keyboard);
    let e = events[n - 1];
    if k < place(before) {
        law_every_check_passed(events, (n - 1) as nat, at_keyboard, k);
        let i = choose|i: nat|
            i < n - 1 && place(#[trigger] phase_at(events, i, at_keyboard)) == k && events[i as int]
                == Event::Pass;
        assert(place(phase_at(events, i, at_keyboard)) == k);
    } else {
        assert(e == Event::Pass);
        assert(place(phase_at(events, (n - 1) as nat, at_keyboard)) == k);
    }
}

/// The text is shown only where the vault was found open.
pub proof fn law_reveal_only_from_open_door(p: Phase, e: Event, at_keyboard: bool)
    ensures
        followed(p, e, at_keyboard).1 == Action::Reveal <==> p == Phase::Door && e == Event::Pass,
{
}

/// A wrong passphrase is not punished: it is asked for again, or the run ends.
pub proof fn law_wrong_password_is_free(e: Event, at_keyboard: bool)
    requires
        e != Event::Pass,
    ensures
        followed(Phase::Password, e, at_keyboard) == if at_keyboard {
            (Phase::Password, Action::AskAgain)
        } else {
            (Phase::Over, Action::Exit(1))
        },
{
}

/// Everything is destroyed only where the keys or the vault are found damaged,
/// never because the time has not come.
pub proof fn law_destroy_only_on_damage(p: Phase, e: Event, at_keyboard: bool)
    requires
        followed(p, e, at_keyboard).1 == Action::Destroy,
    ensures
        p == Phase::Keys || p == Phase::Door,
        e != Event::Pass,
        p == Phase::Door ==> e != Event::Locked,
{
}

/// Nothing is burnt unless the text has been shown and the reader wants it.
pub proof fn law_burn_only_after_reading(p: Phase, e: Event, at_keyboard: bool)
    ensures
        followed(p, e, at_keyboard).1 == Action::Burn <==> p == Phase::Reading && e == Event::Burn,
{
}

/// A run that is over stays over.
pub proof fn law_over_is_over(e: Event, at_keyboard: bool)
    ensures
        followed(Phase::Over, e, at_keyboard).0 == Phase::Over,
{
}

/// What a check that does not pass leads to. A debugger ends the run with code
/// 137 and a missing signature with 138; without a keyboard a wrong passphrase
/// ends it with code 1; if the servers do not agree, the user is asked for one;
/// damaged keys and a damaged vault destroy everything; and whatever else fails
/// is refused with its reason.
pub proof fn law_what_failure_leads_to(e: Event, at_keyboard: bool)
    requires
        e != Event::Pass,
    ensures
        followed(Phase::Debugger, e, at_keyboard).1 == Action::Exit(137),
        followed(Phase::Signature, e, at_keyboard).1 == Action::Exit(138),
        followed(Phase::Injection, e, at_keyboard).1 == Action::Refuse(Reason::Injection),
        followed(Phase::Memory, e, at_keyboard).1 == Action::Refuse(Reason::Memory),
        followed(Phase::Program, e, at_keyboard).1 == Action::Refuse(Reason::Program),
        followed(Phase::Keys, e, at_keyboard).1 == Action::Destroy,
        followed(Phase::Clock, e, at_keyboard).1 == Action::Refuse(Reason::ClockJump),
        followed(Phase::Filter, e, at_keyboard).1 == Action::Refuse(Reason::Filter),
        followed(Phase::Year, e, at_keyboard).1 == Action::Refuse(Reason::LocalClock),
        followed(Phase::Servers, e, at_keyboard) == (Phase::Custom, Action::Check),
        followed(Phase::Custom, Event::Drifted, at_keyboard).1 == Action::Refuse(
            Reason::ServerDrift,
        ),
        e != Event::Drifted ==> followed(Phase::Custom, e, at_keyboard).1 == Action::Refuse(
            Reason::ServerFailed,
        ),
        followed(Phase::ClockAgain, e, at_keyboard).1 == Action::Refuse(Reason::ClockJump),
        followed(Phase::Door, Event::Locked, at_keyboard).1 == Action::Refuse(Reason::Locked),
        e != Event::Locked ==> followed(Phase::Door, e, at_keyboard).1 == Action::Destroy,
        e != Event::Burn ==> followed(Phase::Reading, e, at_keyboard).1 == Action::Exit(0),
{
}

/// Whatever is refused, destroyed, burnt or ended, the run is over; and it is
/// over in no other way.
pub proof fn law_the_end_ends_it(p: Phase, e: Event, at_keyboard: bool)
    ensures
        followed(p, e, at_keyboard).0 == Phase::Over <==> match followed(p, e, at_keyboard).1 {
            Action::Refuse(_) | Action::Exit(_) | Action::Destroy | Action::Burn => true,
            _ => false,
        },
{
}

/// A run in which every check passes comes to the text: thirteen checks, one
/// after the other, and the last of them reveals it.
pub proof fn law_all_checks_lead_to_the_text(events: Seq<Event>, at_keyboard: bool)
    requires
        events.len() >= 13,
        forall|i: int| 0 <= i < 13 ==> #[trigger] events[i] == Event::Pass,
    ensures
        phase_at(events, 12, at_keyboard) == Phase::Door,
        phase_at(events, 13, at_keyboard) == Phase::Reading,
        followed(phase_at(events, 12, at_keyboard), events[12], at_keyboard).1 == Action::Reveal,
{
    reveal_with_fuel(phase_at, 14);
    assert(events[0] == Event::Pass && events[1] == Event::Pass && events[2] == Event::Pass
        && events[3] == Event::Pass && events[4] == Event::Pass && events[5] == Event::Pass
        && events[6] == Event::Pass && events[7] == Event::Pass && events[8] == Event::Pass
        && events[9] == Event::Pass && events[10] == Event::Pass && events[11] == Event::Pass
        && events[12] == Event::Pass);
}

} // verus!
