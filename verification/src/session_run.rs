//! A program run in a session of its own: the session is opened, made the
//! current one, used, and closed again unless it is to be kept.

use vstd::prelude::*;

verus! {

/// What is done next.
#[derive(Clone, Copy, Debug, PartialEq, Eq, Structural)]
pub enum RunStep {
    /// Opens a session.
    Open,
    /// Makes it the current one.
    Point,
    /// Sends the program, and waits for what comes of it.
    Send,
    /// Closes the session.
    Close { succeeded: bool },
    /// Lets go of the session.
    Clear { succeeded: bool },
    /// The program ran, well or not; the session is still open, or not.
    Ended { open: bool, succeeded: bool },
    /// A step failed that all others need.
    Failed,
}

/// What came of a step.
#[derive(Clone, Copy, Debug, PartialEq, Eq, Structural)]
pub enum RunEvent {
    Done,
    /// What came of the program.
    Outcome { succeeded: bool },
    Failed,
}

/// The step after another.
pub open spec fn run_after(step: RunStep, event: RunEvent, keep_open: bool) -> RunStep {
    match step {
        RunStep::Open => if event is Failed {
            RunStep::Failed
        } else {
            RunStep::Point
        },
        RunStep::Point => if event is Failed {
            RunStep::Failed
        } else {
            RunStep::Send
        },
        RunStep::Send => match event {
            RunEvent::Outcome { succeeded } => if keep_open {
                RunStep::Ended { open: true, succeeded }
            } else {
                RunStep::Close { succeeded }
            },
            _ => RunStep::Failed,
        },
        RunStep::Close { succeeded } => if event is Failed {
            RunStep::Ended { open: true, succeeded }
        } else {
            RunStep::Clear { succeeded }
        },
        RunStep::Clear { succeeded } => if event is Failed {
            RunStep::Failed
        } else {
            RunStep::Ended { open: false, succeeded }
        },
        RunStep::Ended { .. } => step,
        RunStep::Failed => step,
    }
}

/// The step after another.
pub fn run_next(step: RunStep, event: RunEvent, keep_open: bool) -> (next: RunStep)
    ensures
        next == run_after(step, event, keep_open),
{
    let failed = match event {
        RunEvent::Failed => true,
        _ => false,
    };
    match step {
        RunStep::Open => if failed {
            RunStep::Failed
        } else {
            RunStep::Point
        },
        RunStep::Point => if failed {
            RunStep::Failed
        } else {
            RunStep::Send
        },
        RunStep::Send => match event {
            RunEvent::Outcome { succeeded } => if keep_open {
                RunStep::Ended { open: true, succeeded }
            } else {
                RunStep::Close { succeeded }
            },
            _ => RunStep::Failed,
        },
        RunStep::Close { succeeded } => if failed {
            RunStep::Ended { open: true, succeeded }
        } else {
            RunStep::Clear { succeeded }
        },
        RunStep::Clear { succeeded } => if failed {
            RunStep::Failed
        } else {
            RunStep::Ended { open: false, succeeded }
        },
        RunStep::Ended { open, succeeded } => RunStep::Ended { open, succeeded },
        RunStep::Failed => RunStep::Failed,
    }
}

/// How things stand with a session.
pub ghost struct RunState {
    pub step: RunStep,
    /// The session was opened, and not closed.
    pub open: bool,
    /// The session was made the current one, and not let go of.
    pub current: bool,
}

/// How things stand after a step.
pub open spec fn run_moved(state: RunState, event: RunEvent, keep_open: bool) -> RunState {
    let done = !(event is Failed);
    RunState {
        step: run_after(state.step, event, keep_open),
        open: if state.step is Open {
            done
        } else if state.step is Close && done {
            false
        } else {
            state.open
        },
        current: if state.step is Point {
            done
        } else if state.step is Clear && done {
            false
        } else {
            state.current
        },
    }
}

/// How things stand after a number of steps.
pub open spec fn run_states(events: Seq<RunEvent>, keep_open: bool) -> RunState
    decreases events.len(),
{
    if events.len() == 0 {
        RunState { step: RunStep::Open, open: false, current: false }
    } else {
        run_moved(run_states(events.drop_last(), keep_open), events.last(), keep_open)
    }
}

/// Whatever happens once a session is the current one, it stays so for as long as
/// it is open: what is left of it can always be asked about and recovered.
pub proof fn open_sessions_stay_current(events: Seq<RunEvent>, keep_open: bool)
    requires
        events.len() >= 2,
        !(events[0] is Failed),
        !(events[1] is Failed),
    ensures
        run_states(events, keep_open).open ==> run_states(events, keep_open).current,
        run_states(events, keep_open).step matches RunStep::Ended { open, .. } ==> open
            == run_states(events, keep_open).open && open == run_states(events, keep_open).current,
        !(run_states(events, keep_open).step is Open),
        !(run_states(events, keep_open).step is Point),
        run_states(events, keep_open).step is Send || run_states(events, keep_open).step is Close
            ==> run_states(events, keep_open).open && run_states(events, keep_open).current,
        run_states(events, keep_open).step is Clear ==> !run_states(events, keep_open).open
            && run_states(events, keep_open).current,
    decreases events.len(),
{
    let before = events.drop_last();
    if events.len() == 2 {
        assert(before.len() == 1);
        assert(before.drop_last().len() == 0);
        assert(run_states(before.drop_last(), keep_open) == (RunState {
            step: RunStep::Open,
            open: false,
            current: false,
        }));
        assert(before.last() == events[0]);
        assert(run_states(before, keep_open).step == RunStep::Point);
        assert(run_states(before, keep_open).open);
        assert(events.last() == events[1]);
    } else {
        assert(before[0] == events[0]);
        assert(before[1] == events[1]);
        open_sessions_stay_current(before, keep_open);
    }
}

/// A session that is to be kept is never closed.
pub proof fn kept_sessions_stay_open(events: Seq<RunEvent>)
    requires
        events.len() > 0,
        !(events[0] is Failed),
    ensures
        run_states(events, true).open,
        !(run_states(events, true).step is Open),
        !(run_states(events, true).step is Close),
        !(run_states(events, true).step is Clear),
    decreases events.len(),
{
    let before = events.drop_last();
    if events.len() == 1 {
        assert(before.len() == 0);
        assert(run_states(before, true).step == RunStep::Open);
        assert(events.last() == events[0]);
    } else {
        assert(before[0] == events[0]);
        kept_sessions_stay_open(before);
    }
}

} // verus!
