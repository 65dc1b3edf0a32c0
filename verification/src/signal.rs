//! The signals that cannot end the program.
use vstd::prelude::*;

verus! {

/// Signals that the program knows of.
#[derive(Clone, Copy, PartialEq, Eq, Structural, Debug)]
pub enum Signal {
    Interrupt,
    Terminate,
    HangUp,
    Quit,
    TerminalStop,
    BrokenPipe,
}

/// The signals to ignore: all of them.
pub fn ignore() -> (signals: Vec<Signal>)
    ensures
        signals@ == seq![
            Signal::Interrupt,
            Signal::Terminate,
            Signal::HangUp,
            Signal::Quit,
            Signal::TerminalStop,
            Signal::BrokenPipe,
        ],
{
    let signals: Vec<Signal> = vec![
        Signal::Interrupt,
        Signal::Terminate,
        Signal::HangUp,
        Signal::Quit,
        Signal::TerminalStop,
        Signal::BrokenPipe,
    ];
    proof {
        assert(signals@ =~= seq![
            Signal::Interrupt,
            Signal::Terminate,
            Signal::HangUp,
            Signal::Quit,
            Signal::TerminalStop,
            Signal::BrokenPipe,
        ]);
    }
    signals
}

} // verus!
