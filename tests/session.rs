use geoclock::session::{exit_status, step, Action, Event, Phase};

fn run(events: &[Event]) -> (Phase, Vec<Action>) {
    let mut phase = Phase::Locating;
    let mut actions = Vec::new();
    for e in events {
        let (next, action) = step(phase, *e);
        phase = next;
        actions.push(action);
    }
    (phase, actions)
}

#[test]
fn transition_table() {
    assert_eq!(step(Phase::Locating, Event::Located), (Phase::Running, Action::EnterTerminal));
    assert_eq!(step(Phase::Locating, Event::LocateFailed), (Phase::Failed, Action::ExitFailure));
    assert_eq!(step(Phase::Locating, Event::Tick), (Phase::Locating, Action::Nothing));
    assert_eq!(step(Phase::Running, Event::Tick), (Phase::Running, Action::Draw));
    assert_eq!(step(Phase::Running, Event::KeyPress), (Phase::Exited, Action::RestoreTerminal));
    assert_eq!(step(Phase::Running, Event::Interrupt), (Phase::Exited, Action::RestoreTerminal));
    assert_eq!(step(Phase::Running, Event::Located), (Phase::Running, Action::Nothing));
    assert_eq!(step(Phase::Exited, Event::Tick), (Phase::Exited, Action::Nothing));
    assert_eq!(step(Phase::Exited, Event::KeyPress), (Phase::Exited, Action::Nothing));
    assert_eq!(step(Phase::Failed, Event::Located), (Phase::Failed, Action::Nothing));
}

#[test]
fn exit_statuses() {
    assert_eq!(exit_status(Phase::Exited), Some(0));
    assert_eq!(exit_status(Phase::Failed), Some(1));
    assert_eq!(exit_status(Phase::Running), None);
    assert_eq!(exit_status(Phase::Locating), None);
}

#[test]
fn failed_lookup_never_touches_the_terminal() {
    let (phase, actions) = run(&[Event::LocateFailed, Event::Tick, Event::Interrupt]);
    assert_eq!(phase, Phase::Failed);
    assert_eq!(actions, vec![Action::ExitFailure, Action::Nothing, Action::Nothing]);
    assert_ne!(exit_status(phase), Some(0));
}

#[test]
fn interrupt_mid_run_restores_once() {
    let (phase, actions) = run(&[
        Event::Located,
        Event::Tick,
        Event::Tick,
        Event::Interrupt,
        Event::Tick,
        Event::KeyPress,
    ]);
    assert_eq!(phase, Phase::Exited);
    assert_eq!(
        actions,
        vec![
            Action::EnterTerminal,
            Action::Draw,
            Action::Draw,
            Action::RestoreTerminal,
            Action::Nothing,
            Action::Nothing,
        ]
    );
    assert_eq!(actions.iter().filter(|a| **a == Action::RestoreTerminal).count(), 1);
    assert_eq!(exit_status(phase), Some(0));
}

#[test]
fn key_press_ends_the_run() {
    let (phase, actions) = run(&[Event::Located, Event::Tick, Event::KeyPress]);
    assert_eq!(phase, Phase::Exited);
    assert_eq!(actions[2], Action::RestoreTerminal);
}
