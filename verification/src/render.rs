//! The render loop's control logic as a state machine: from a state and an
//! observed outcome, the next state and the next action the loop must take.
//! The terminal work itself (raw mode, alternate screen, drawing, polling)
//! happens outside the library; only its outcomes are fed back in here.

use vstd::prelude::*;

verus! {

/// Where the render task stands in its lifecycle.
#[derive(Clone, Copy, Debug, PartialEq, Eq, Structural)]
pub enum RenderState {
    /// The terminal session is being acquired (raw mode, alternate screen).
    Starting,
    /// Draw-then-poll ticks run until a quit key or a failure.
    Running,
    /// The terminal is being restored to its pre-launch state.
    Stopping,
    /// The render task has ended.
    Stopped,
}

/// What the loop observed while carrying out the last action.
#[derive(Clone, Copy, Debug)]
pub enum RenderEvent {
    /// Raw mode and the alternate screen were both entered.
    TerminalReady,
    /// Acquiring the terminal failed.
    TerminalFailed,
    /// A frame was drawn; the poll saw the given key, if any.
    TickCompleted(Option<char>),
    /// Drawing or polling failed.
    TickFailed,
    /// Restoration was attempted (best-effort, whatever its outcome).
    RestoreAttempted,
}

/// What the loop must do next.
#[derive(Clone, Copy, Debug, PartialEq, Eq, Structural)]
pub enum RenderAction {
    /// Enter raw mode and the alternate screen.
    AcquireTerminal,
    /// Draw one frame from a model snapshot, then poll briefly for input.
    DrawAndPoll,
    /// Restore the terminal to its pre-launch state.
    RestoreTerminal,
    /// End the render task.
    Finish,
}

/// The key that ends the session.
pub const QUIT_KEY: char = 'q';

/// The transition table. Total: an event that its state never produces is
/// treated as a failure of that state's action, so it too drives the loop
/// toward restoration and shutdown, never past it.
pub open spec fn next_of(s: RenderState, e: RenderEvent) -> (RenderState, RenderAction) {
    match s {
        RenderState::Starting => match e {
            RenderEvent::TerminalReady => (RenderState::Running, RenderAction::DrawAndPoll),
            _ => (RenderState::Stopping, RenderAction::RestoreTerminal),
        },
        RenderState::Running => match e {
            RenderEvent::TickCompleted(key) => if key == Some(QUIT_KEY) {
                (RenderState::Stopping, RenderAction::RestoreTerminal)
            } else {
                (RenderState::Running, RenderAction::DrawAndPoll)
            },
            _ => (RenderState::Stopping, RenderAction::RestoreTerminal),
        },
        RenderState::Stopping => (RenderState::Stopped, RenderAction::Finish),
        RenderState::Stopped => (RenderState::Stopped, RenderAction::Finish),
    }
}

/// One step of the render loop: the next state and action for an observed
/// outcome, exactly as `next_of` lays them out.
pub fn render_step(s: RenderState, e: RenderEvent) -> (r: (RenderState, RenderAction))
    ensures
        r == next_of(s, e),
{
    match s {
        RenderState::Starting => match e {
            RenderEvent::TerminalReady => (RenderState::Running, RenderAction::DrawAndPoll),
            _ => (RenderState::Stopping, RenderAction::RestoreTerminal),
        },
        RenderState::Running => match e {
            RenderEvent::TickCompleted(key) => if key == Some(QUIT_KEY) {
                (RenderState::Stopping, RenderAction::RestoreTerminal)
            } else {
                (RenderState::Running, RenderAction::DrawAndPoll)
            },
            _ => (RenderState::Stopping, RenderAction::RestoreTerminal),
        },
        RenderState::Stopping => (RenderState::Stopped, RenderAction::Finish),
        RenderState::Stopped => (RenderState::Stopped, RenderAction::Finish),
    }
}

/// However the render loop is left — quit key, draw failure, failed
/// acquisition — the task only ends through the Stopping state, and Stopping
/// is only ever entered together with the order to restore the terminal. So a
/// restore is attempted on every exit path before the task finishes.
pub proof fn lemma_restore_precedes_finish(s: RenderState, e: RenderEvent)
    ensures
        next_of(s, e).0 == RenderState::Stopped && s != RenderState::Stopped ==> s
            == RenderState::Stopping,
        next_of(s, e).0 == RenderState::Stopping ==> next_of(s, e).1
            == RenderAction::RestoreTerminal,
        s == RenderState::Stopping || s == RenderState::Stopped ==> next_of(s, e).0
            == RenderState::Stopped,
{
}

} // verus!
