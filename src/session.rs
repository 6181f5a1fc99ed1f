//! The life of one run of the clock: locate the viewer, take over the terminal,
//! redraw on every tick, and give the terminal back once on exit.
//!
//! The driver performs each action that `step` returns and reports what happened
//! next as an event. It draws once as soon as the terminal is taken over, then
//! waits for input a bounded time per tick: a wait that sees no key press is a
//! tick; a key press or an interrupt from the operating system ends the run.
use vstd::prelude::*;

verus! {

#[derive(Clone, Copy, Debug, PartialEq, Eq, Structural)]
pub enum Phase {
    /// Waiting for the viewer's coordinate; the terminal is untouched.
    Locating,
    /// The terminal is taken over and the clocks are shown.
    Running,
    /// The run ended normally; the terminal has been given back.
    Exited,
    /// The coordinate could not be had; the terminal was never touched.
    Failed,
}

#[derive(Clone, Copy, Debug, PartialEq, Eq, Structural)]
pub enum Event {
    /// The coordinate lookup succeeded.
    Located,
    /// The coordinate lookup failed.
    LocateFailed,
    /// A tick passed without a key press.
    Tick,
    /// A key was pressed.
    KeyPress,
    /// The operating system asked the program to stop.
    Interrupt,
}

#[derive(Clone, Copy, Debug, PartialEq, Eq, Structural)]
pub enum Action {
    /// Take over the terminal (raw mode, alternate screen).
    EnterTerminal,
    /// Take a fresh snapshot and redraw the whole panel.
    Draw,
    /// Give the terminal back in its original mode.
    RestoreTerminal,
    /// Report the failure and end with a non-zero status.
    ExitFailure,
    /// Do nothing.
    Nothing,
}

/// The transition table.
pub open spec fn step_spec(phase: Phase, event: Event) -> (Phase, Action) {
    match (phase, event) {
        (Phase::Locating, Event::Located) => (Phase::Running, Action::EnterTerminal),
        (Phase::Locating, Event::LocateFailed) => (Phase::Failed, Action::ExitFailure),
        (Phase::Running, Event::Tick) => (Phase::Running, Action::Draw),
        (Phase::Running, Event::KeyPress) => (Phase::Exited, Action::RestoreTerminal),
        (Phase::Running, Event::Interrupt) => (Phase::Exited, Action::RestoreTerminal),
        (p, _) => (p, Action::Nothing),
    }
}

/// The next phase and the action to perform, on `event` in `phase`.
pub fn step(phase: Phase, event: Event) -> (r: (Phase, Action))
    ensures
        r == step_spec(phase, event),
{
    match (phase, event) {
        (Phase::Locating, Event::Located) => (Phase::Running, Action::EnterTerminal),
        (Phase::Locating, Event::LocateFailed) => (Phase::Failed, Action::ExitFailure),
        (Phase::Running, Event::Tick) => (Phase::Running, Action::Draw),
        (Phase::Running, Event::KeyPress) => (Phase::Exited, Action::RestoreTerminal),
        (Phase::Running, Event::Interrupt) => (Phase::Exited, Action::RestoreTerminal),
        (p, _) => (p, Action::Nothing),
    }
}

/// The status that the process ends with, once the run is over.
pub fn exit_status(phase: Phase) -> (r: Option<u8>)
    ensures
        r == (match phase {
            Phase::Exited => Some(0u8),
            Phase::Failed => Some(1u8),
            _ => None,
        }),
{
    match phase {
        Phase::Exited => Some(0),
        Phase::Failed => Some(1),
        _ => None,
    }
}

/// The actions performed for a sequence of events, starting in `phase`.
pub open spec fn run_actions(phase: Phase, events: Seq<Event>) -> Seq<Action>
    decreases events.len(),
{
    if events.len() == 0 {
        Seq::empty()
    } else {
        let (next, action) = step_spec(phase, events[0]);
        seq![action] + run_actions(next, events.drop_first())
    }
}

/// The phase reached after a sequence of events, starting in `phase`.
pub open spec fn run_phase(phase: Phase, events: Seq<Event>) -> Phase
    decreases events.len(),
{
    if events.len() == 0 {
        phase
    } else {
        run_phase(step_spec(phase, events[0]).0, events.drop_first())
    }
}

/// One action is performed per event.
pub proof fn lemma_run_actions_len(phase: Phase, events: Seq<Event>)
    ensures
        run_actions(phase, events).len() == events.len(),
    decreases events.len(),
{
    if events.len() > 0 {
        lemma_run_actions_len(step_spec(phase, events[0]).0, events.drop_first());
    }
}

/// Once the run is over, nothing more is done, whatever happens.
pub proof fn lemma_finished_is_quiet(phase: Phase, events: Seq<Event>)
    requires
        phase == Phase::Exited || phase == Phase::Failed,
    ensures
        forall|i: int| 0 <= i < events.len() ==> run_actions(phase, events)[i] == Action::Nothing,
        run_phase(phase, events) == phase,
    decreases events.len(),
{
    lemma_run_actions_len(phase, events);
    if events.len() > 0 {
        let tail = events.drop_first();
        lemma_finished_is_quiet(phase, tail);
        lemma_run_actions_len(phase, tail);
        assert forall|i: int| 0 <= i < events.len() implies run_actions(phase, events)[i]
            == Action::Nothing by {
            if i > 0 {
                assert(run_actions(phase, events)[i] == run_actions(phase, tail)[i - 1]);
            }
        }
    }
}

/// The terminal is given back at most once, and after that nothing is drawn
/// and nothing else is done.
pub proof fn lemma_restore_at_most_once(phase: Phase, events: Seq<Event>)
    ensures
        forall|i: int, j: int|
            0 <= i < j < events.len() && run_actions(phase, events)[i] == Action::RestoreTerminal
                ==> run_actions(phase, events)[j] == Action::Nothing,
    decreases events.len(),
{
    lemma_run_actions_len(phase, events);
    if events.len() > 0 {
        let (next, action) = step_spec(phase, events[0]);
        let tail = events.drop_first();
        let acts = run_actions(phase, events);
        lemma_restore_at_most_once(next, tail);
        lemma_run_actions_len(next, tail);
        if action == Action::RestoreTerminal {
            lemma_finished_is_quiet(next, tail);
        }
        assert forall|i: int, j: int|
            0 <= i < j < events.len() && acts[i] == Action::RestoreTerminal implies acts[j]
            == Action::Nothing by {
            assert(acts[j] == run_actions(next, tail)[j - 1]);
            if i > 0 {
                assert(acts[i] == run_actions(next, tail)[i - 1]);
            }
        }
    }
}

/// A run that starts by failing to locate the viewer ends in failure and never
/// touches the terminal.
pub proof fn lemma_failed_lookup_leaves_terminal(events: Seq<Event>)
    requires
        events.len() > 0,
        events[0] == Event::LocateFailed,
    ensures
        run_phase(Phase::Locating, events) == Phase::Failed,
        run_actions(Phase::Locating, events)[0] == Action::ExitFailure,
        forall|i: int|
            0 <= i < events.len() ==> run_actions(Phase::Locating, events)[i]
                != Action::EnterTerminal && run_actions(Phase::Locating, events)[i]
                != Action::Draw && run_actions(Phase::Locating, events)[i]
                != Action::RestoreTerminal,
{
    let tail = events.drop_first();
    lemma_finished_is_quiet(Phase::Failed, tail);
    lemma_run_actions_len(Phase::Failed, tail);
    let acts = run_actions(Phase::Locating, events);
    assert forall|i: int| 0 <= i < events.len() implies acts[i] != Action::EnterTerminal
        && acts[i] != Action::Draw && acts[i] != Action::RestoreTerminal by {
        if i > 0 {
            assert(acts[i] == run_actions(Phase::Failed, tail)[i - 1]);
        }
    }
}

/// A key press or an interrupt while the clocks are shown ends the run at that
/// very event: the terminal is given back then, and never again.
pub proof fn lemma_exit_is_prompt(events: Seq<Event>)
    requires
        events.len() > 0,
        events[0] == Event::KeyPress || events[0] == Event::Interrupt,
    ensures
        run_phase(Phase::Running, events) == Phase::Exited,
        run_actions(Phase::Running, events)[0] == Action::RestoreTerminal,
        forall|i: int|
            0 < i < events.len() ==> run_actions(Phase::Running, events)[i] == Action::Nothing,
{
    let tail = events.drop_first();
    lemma_finished_is_quiet(Phase::Exited, tail);
    lemma_run_actions_len(Phase::Exited, tail);
    let acts = run_actions(Phase::Running, events);
    assert forall|i: int| 0 < i < events.len() implies acts[i] == Action::Nothing by {
        assert(acts[i] == run_actions(Phase::Exited, tail)[i - 1]);
    }
}

/// From the start, the terminal is given back only after it was taken over.
pub proof fn lemma_restore_follows_enter(events: Seq<Event>)
    ensures
        forall|j: int|
            0 <= j < events.len() && run_actions(Phase::Locating, events)[j]
                == Action::RestoreTerminal ==> exists|i: int|
                0 <= i < j && run_actions(Phase::Locating, events)[i] == Action::EnterTerminal,
    decreases events.len(),
{
    lemma_run_actions_len(Phase::Locating, events);
    if events.len() > 0 {
        let (next, action) = step_spec(Phase::Locating, events[0]);
        let tail = events.drop_first();
        let acts = run_actions(Phase::Locating, events);
        lemma_run_actions_len(next, tail);
        if next == Phase::Locating {
            lemma_restore_follows_enter(tail);
            assert forall|j: int|
                0 <= j < events.len() && acts[j] == Action::RestoreTerminal implies exists|i: int|
                0 <= i < j && acts[i] == Action::EnterTerminal by {
                assert(acts[j] == run_actions(next, tail)[j - 1]);
                let k = choose|k: int|
                    0 <= k < j - 1 && run_actions(next, tail)[k] == Action::EnterTerminal;
                assert(acts[k + 1] == run_actions(next, tail)[k]);
            }
        } else if next == Phase::Failed {
            lemma_finished_is_quiet(next, tail);
            assert forall|j: int|
                0 <= j < events.len() && acts[j] == Action::RestoreTerminal implies exists|i: int|
                0 <= i < j && acts[i] == Action::EnterTerminal by {
                assert(acts[j] == run_actions(next, tail)[j - 1]);
            }
        } else {
            assert(acts[0] == Action::EnterTerminal);
        }
    }
}

} // verus!
