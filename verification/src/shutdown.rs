//! How the server comes to its end.
use vstd::prelude::*;
use vstd::string::*;

verus! {

/// How long the server may take to end before a person is told what it waits for, in milliseconds.
pub const SHUTDOWN_WARNING_DELAY_MS: u64 = 100;

/// The status that a forced end leaves.
pub const FORCED_STATUS: i32 = 130;

/// How the servers ended.
#[derive(Clone, Copy, Debug, PartialEq, Eq, Structural)]
pub enum ShutdownOutcome {
    Graceful,
    Forced,
}

/// How far the end is.
#[derive(Clone, Copy, Debug, PartialEq, Eq, Structural)]
pub enum Phase {
    /// Requests are served.
    Serving,
    /// Open requests are finished.
    Draining,
    /// They still are, and a person knows.
    Warned,
    /// Terminals run on.
    Terminals,
    /// Turns are ended.
    Turns,
    /// It is over.
    Over,
}

/// What happens meanwhile.
#[derive(Debug)]
pub enum ShutdownEvent {
    /// The servers ended, by themselves or because they were told to; so many terminals run.
    Ended { result: Result<(), String>, terminals: usize },
    /// A person wants an end.
    Signal(Result<(), String>),
    /// Time has gone by: so many terminals and turns run.
    Elapsed { terminals: usize, turns: usize },
}

/// What has to be done.
#[derive(Debug)]
pub enum ShutdownAction {
    /// Wait for what happens.
    Wait,
    /// Let the servers finish what is open, and take nothing new.
    Drain,
    /// Tell a person that requests are open.
    WarnRequests,
    /// Tell a person that terminals run.
    WarnTerminals,
    /// Cancel the turns that run.
    CancelTurns,
    /// End the terminals and the program at once.
    Force(Forcing),
    /// Put the conversations away: it is over.
    Finish,
    /// It is over with an error.
    Fail(String),
}

/// What is cut short.
#[derive(Clone, Copy, Debug, PartialEq, Eq, Structural)]
pub enum Forcing {
    Requests,
    Terminals,
}

/// What a person is told while requests are open.
pub fn requests_message() -> (s: &'static str)
    ensures
        s@
            == "CodeCrab is still shutting down because active HTTP/HTTPS requests or open connections have not finished. Press Ctrl+C again to force exit."@,
{
    "CodeCrab is still shutting down because active HTTP/HTTPS requests or open connections have not finished. Press Ctrl+C again to force exit."
}

/// What a person is told while terminals run.
pub fn terminals_message() -> (s: &'static str)
    ensures
        s@
            == "CodeCrab still has managed terminals running. Press Ctrl+C again to stop their process trees and force exit."@,
{
    "CodeCrab still has managed terminals running. Press Ctrl+C again to stop their process trees and force exit."
}

/// What a person is told of a forced end.
pub fn forcing_message(forcing: Forcing) -> (s: &'static str)
    ensures
        s@ == (match forcing {
            Forcing::Requests => "Forcing CodeCrab to exit immediately."@,
            Forcing::Terminals =>
                "Forcing CodeCrab to exit after stopping managed terminals."@,
        }),
{
    match forcing {
        Forcing::Requests => "Forcing CodeCrab to exit immediately.",
        Forcing::Terminals => "Forcing CodeCrab to exit after stopping managed terminals.",
    }
}

/// What is done once the servers have ended.
pub open spec fn after_servers(terminals: usize) -> (Phase, ShutdownAction) {
    if terminals > 0 {
        (Phase::Terminals, ShutdownAction::WarnTerminals)
    } else {
        (Phase::Turns, ShutdownAction::CancelTurns)
    }
}

/// How the end goes on.
pub open spec fn next_of(phase: Phase, event: ShutdownEvent) -> (Phase, ShutdownAction) {
    match (phase, event) {
        (Phase::Over, _) => (Phase::Over, ShutdownAction::Wait),
        (_, ShutdownEvent::Signal(Err(e))) => if phase == Phase::Turns {
            (Phase::Turns, ShutdownAction::Wait)
        } else {
            (Phase::Over, ShutdownAction::Fail(e))
        },
        (Phase::Serving, ShutdownEvent::Signal(Ok(()))) => (Phase::Draining, ShutdownAction::Drain),
        (Phase::Draining, ShutdownEvent::Signal(Ok(())))
        | (Phase::Warned, ShutdownEvent::Signal(Ok(()))) => (
            Phase::Over,
            ShutdownAction::Force(Forcing::Requests),
        ),
        (Phase::Terminals, ShutdownEvent::Signal(Ok(()))) => (
            Phase::Over,
            ShutdownAction::Force(Forcing::Terminals),
        ),
        (Phase::Serving, ShutdownEvent::Ended { result, terminals })
        | (Phase::Draining, ShutdownEvent::Ended { result, terminals })
        | (Phase::Warned, ShutdownEvent::Ended { result, terminals }) => match result {
            Ok(()) => after_servers(terminals),
            Err(e) => (Phase::Over, ShutdownAction::Fail(e)),
        },
        (Phase::Draining, ShutdownEvent::Elapsed { .. }) => (
            Phase::Warned,
            ShutdownAction::WarnRequests,
        ),
        (Phase::Terminals, ShutdownEvent::Elapsed { terminals, .. }) => if terminals == 0 {
            (Phase::Turns, ShutdownAction::CancelTurns)
        } else {
            (Phase::Terminals, ShutdownAction::Wait)
        },
        (Phase::Turns, ShutdownEvent::Elapsed { turns, .. }) => if turns == 0 {
            (Phase::Over, ShutdownAction::Finish)
        } else {
            (Phase::Turns, ShutdownAction::Wait)
        },
        _ => (phase, ShutdownAction::Wait),
    }
}

/// How the end goes on: what has to be done, and how far it is then.
pub fn next(phase: Phase, event: ShutdownEvent) -> (r: (Phase, ShutdownAction))
    ensures
        r == next_of(phase, event),
{
    match phase {
        Phase::Over => {
            return (Phase::Over, ShutdownAction::Wait);
        },
        _ => {},
    }
    match event {
        ShutdownEvent::Signal(Err(e)) => match phase {
            Phase::Turns => (Phase::Turns, ShutdownAction::Wait),
            _ => (Phase::Over, ShutdownAction::Fail(e)),
        },
        ShutdownEvent::Signal(Ok(())) => match phase {
            Phase::Serving => (Phase::Draining, ShutdownAction::Drain),
            Phase::Draining | Phase::Warned => (
                Phase::Over,
                ShutdownAction::Force(Forcing::Requests),
            ),
            Phase::Terminals => (Phase::Over, ShutdownAction::Force(Forcing::Terminals)),
            _ => (phase, ShutdownAction::Wait),
        },
        ShutdownEvent::Ended { result, terminals } => match phase {
            Phase::Serving | Phase::Draining | Phase::Warned => match result {
                Ok(()) => if terminals > 0 {
                    (Phase::Terminals, ShutdownAction::WarnTerminals)
                } else {
                    (Phase::Turns, ShutdownAction::CancelTurns)
                },
                Err(e) => (Phase::Over, ShutdownAction::Fail(e)),
            },
            _ => (phase, ShutdownAction::Wait),
        },
        ShutdownEvent::Elapsed { terminals, turns } => match phase {
            Phase::Draining => (Phase::Warned, ShutdownAction::WarnRequests),
            Phase::Terminals => if terminals == 0 {
                (Phase::Turns, ShutdownAction::CancelTurns)
            } else {
                (Phase::Terminals, ShutdownAction::Wait)
            },
            Phase::Turns => if turns == 0 {
                (Phase::Over, ShutdownAction::Finish)
            } else {
                (Phase::Turns, ShutdownAction::Wait)
            },
            _ => (phase, ShutdownAction::Wait),
        },
    }
}

/// How the servers ended, by what was done.
pub fn outcome(action: &ShutdownAction) -> (r: Option<ShutdownOutcome>)
    ensures
        r == (match *action {
            ShutdownAction::Force(Forcing::Requests) => Some(ShutdownOutcome::Forced),
            ShutdownAction::WarnTerminals | ShutdownAction::CancelTurns => Some(
                ShutdownOutcome::Graceful,
            ),
            _ => None,
        }),
{
    match action {
        ShutdownAction::Force(Forcing::Requests) => Some(ShutdownOutcome::Forced),
        ShutdownAction::WarnTerminals | ShutdownAction::CancelTurns => Some(
            ShutdownOutcome::Graceful,
        ),
        _ => None,
    }
}

/// How far a phase is.
pub open spec fn progress(phase: Phase) -> nat {
    match phase {
        Phase::Serving => 0,
        Phase::Draining => 1,
        Phase::Warned => 2,
        Phase::Terminals => 3,
        Phase::Turns => 4,
        Phase::Over => 5,
    }
}

/// The end never goes back, and only what waits leaves it where it is.
pub proof fn the_end_does_not_go_back(phase: Phase, event: ShutdownEvent)
    ensures
        progress(phase) <= progress(next_of(phase, event).0),
        progress(phase) == progress(next_of(phase, event).0) ==> next_of(phase, event).1 is Wait,
{
}

/// A person who wants an end twice has it: while requests are open or terminals run, the second
/// signal ends the program at once.
pub proof fn a_second_signal_forces_the_end(event: ShutdownEvent)
    requires
        event matches ShutdownEvent::Signal(Ok(())),
    ensures
        next_of(Phase::Serving, event) == (Phase::Draining, ShutdownAction::Drain),
        next_of(Phase::Draining, event).1 is Force,
        next_of(Phase::Warned, event).1 is Force,
        next_of(Phase::Terminals, event).1 is Force,
{
}

/// The end goes step by step: a first signal lets open requests finish, the servers' end leads to the
/// terminals where any run and else to the turns, and when no turn runs all is over.
pub proof fn the_end_goes_step_by_step(terminals: usize, turns: usize, error: String)
    ensures
        next_of(Phase::Serving, ShutdownEvent::Signal(Ok(()))) == (
            Phase::Draining,
            ShutdownAction::Drain,
        ),
        forall|p: Phase|
            (p == Phase::Serving || p == Phase::Draining || p == Phase::Warned) ==> (#[trigger] next_of(
                p,
                ShutdownEvent::Ended { result: Ok(()), terminals },
            )) == (if terminals > 0 {
                (Phase::Terminals, ShutdownAction::WarnTerminals)
            } else {
                (Phase::Turns, ShutdownAction::CancelTurns)
            }),
        forall|p: Phase|
            (p == Phase::Serving || p == Phase::Draining || p == Phase::Warned) ==> (#[trigger] next_of(
                p,
                ShutdownEvent::Ended { result: Err(error), terminals },
            )) == (Phase::Over, ShutdownAction::Fail(error)),
        next_of(Phase::Draining, ShutdownEvent::Elapsed { terminals, turns }) == (
            Phase::Warned,
            ShutdownAction::WarnRequests,
        ),
        next_of(Phase::Terminals, ShutdownEvent::Elapsed { terminals, turns }) == (if terminals
            == 0 {
            (Phase::Turns, ShutdownAction::CancelTurns)
        } else {
            (Phase::Terminals, ShutdownAction::Wait)
        }),
        next_of(Phase::Turns, ShutdownEvent::Elapsed { terminals, turns }) == (if turns == 0 {
            (Phase::Over, ShutdownAction::Finish)
        } else {
            (Phase::Turns, ShutdownAction::Wait)
        }),
{
}

} // verus!
