use treeview::render::{render_step, RenderAction, RenderEvent, RenderState};

#[test]
fn quit_key_restores_before_finishing() {
    // A whole session: acquire, tick without input, tick with the quit key,
    // restore, finish — the restore order comes before the task may end.
    let (s, a) = render_step(RenderState::Starting, RenderEvent::TerminalReady);
    assert_eq!(s, RenderState::Running);
    assert_eq!(a, RenderAction::DrawAndPoll);

    let (s, a) = render_step(s, RenderEvent::TickCompleted(None));
    assert_eq!(s, RenderState::Running);
    assert_eq!(a, RenderAction::DrawAndPoll);

    let (s, a) = render_step(s, RenderEvent::TickCompleted(Some('q')));
    assert_eq!(s, RenderState::Stopping);
    assert_eq!(a, RenderAction::RestoreTerminal);

    let (s, a) = render_step(s, RenderEvent::RestoreAttempted);
    assert_eq!(s, RenderState::Stopped);
    assert_eq!(a, RenderAction::Finish);
}

#[test]
fn other_keys_are_ignored() {
    let (s, a) = render_step(RenderState::Running, RenderEvent::TickCompleted(Some('x')));
    assert_eq!(s, RenderState::Running);
    assert_eq!(a, RenderAction::DrawAndPoll);
}

#[test]
fn draw_failure_still_restores_the_terminal() {
    let (s, a) = render_step(RenderState::Running, RenderEvent::TickFailed);
    assert_eq!(s, RenderState::Stopping);
    assert_eq!(a, RenderAction::RestoreTerminal);
}

#[test]
fn failed_acquisition_is_fatal_but_restores() {
    let (s, a) = render_step(RenderState::Starting, RenderEvent::TerminalFailed);
    assert_eq!(s, RenderState::Stopping);
    assert_eq!(a, RenderAction::RestoreTerminal);
    let (s, a) = render_step(s, RenderEvent::RestoreAttempted);
    assert_eq!(s, RenderState::Stopped);
    assert_eq!(a, RenderAction::Finish);
}

#[test]
fn stopped_is_terminal() {
    let (s, a) = render_step(RenderState::Stopped, RenderEvent::TickCompleted(None));
    assert_eq!(s, RenderState::Stopped);
    assert_eq!(a, RenderAction::Finish);
}
