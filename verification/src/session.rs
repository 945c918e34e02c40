use vstd::prelude::*;

verus! {

/// The states of one device session, from assembling parameters to
/// closing every descriptor.
#[derive(Clone, Copy, Debug, PartialEq, Eq, Structural)]
pub enum SessionState {
    /// Parameters assembled, no device touched.
    Created,
    /// Every needed device opened.
    Opened,
    /// Locks held for the duration of one operation.
    Locked,
    /// One formatting operation succeeded.
    Formatted,
    /// One verification operation succeeded.
    Verified,
    /// All locks released, all descriptors closed.
    Closed,
}

/// What happens to a session: a step succeeds, a step fails, or the
/// caller is done.
#[derive(Clone, Copy, Debug, PartialEq, Eq, Structural)]
pub enum SessionEvent {
    DevicesOpened,
    LocksAcquired,
    FormatSucceeded,
    VerifySucceeded,
    OperationRequested,
    StepFailed,
    CloseRequested,
}

/// What the caller must do on entering the next state: nothing, or
/// release every held lock and close every descriptor (done on every
/// path into `Closed`, errors included).
#[derive(Clone, Copy, Debug, PartialEq, Eq, Structural)]
pub enum SessionAction {
    Nothing,
    ReleaseAll,
}

/// Whether `event` is in order in `state`: devices are opened once from
/// the start, locks are taken on opened devices, operations run under
/// locks, a new operation re-enters the locked state from a terminal
/// success, and failing or closing is allowed anywhere before the end.
pub open spec fn event_allowed(state: SessionState, event: SessionEvent) -> bool {
    match event {
        SessionEvent::DevicesOpened => state == SessionState::Created,
        SessionEvent::LocksAcquired => state == SessionState::Opened,
        SessionEvent::FormatSucceeded => state == SessionState::Locked,
        SessionEvent::VerifySucceeded => state == SessionState::Locked,
        SessionEvent::OperationRequested => state == SessionState::Formatted || state
            == SessionState::Verified,
        SessionEvent::StepFailed => state != SessionState::Closed,
        SessionEvent::CloseRequested => state != SessionState::Closed,
    }
}

/// The state the session enters on `event`.
pub open spec fn next_state(state: SessionState, event: SessionEvent) -> SessionState {
    match event {
        SessionEvent::DevicesOpened => SessionState::Opened,
        SessionEvent::LocksAcquired => SessionState::Locked,
        SessionEvent::FormatSucceeded => SessionState::Formatted,
        SessionEvent::VerifySucceeded => SessionState::Verified,
        SessionEvent::OperationRequested => SessionState::Locked,
        SessionEvent::StepFailed => SessionState::Closed,
        SessionEvent::CloseRequested => SessionState::Closed,
    }
}

/// Decides one session step: the next state and what the caller owes
/// on the way there. An event out of order leaves the state as it is
/// and asks nothing. Cleanup is owed exactly on entering `Closed`,
/// whether by failure or by request.
pub fn session_step(state: SessionState, event: SessionEvent) -> (r: (
    SessionState,
    SessionAction,
))
    ensures
        event_allowed(state, event) ==> r.0 == next_state(state, event),
        !event_allowed(state, event) ==> r.0 == state && r.1 == SessionAction::Nothing,
        r.1 == SessionAction::ReleaseAll <==> (event_allowed(state, event) && next_state(
            state,
            event,
        ) == SessionState::Closed),
{
    let allowed = match event {
        SessionEvent::DevicesOpened => matches!(state, SessionState::Created),
        SessionEvent::LocksAcquired => matches!(state, SessionState::Opened),
        SessionEvent::FormatSucceeded => matches!(state, SessionState::Locked),
        SessionEvent::VerifySucceeded => matches!(state, SessionState::Locked),
        SessionEvent::OperationRequested => matches!(
            state,
            SessionState::Formatted | SessionState::Verified,
        ),
        SessionEvent::StepFailed => !matches!(state, SessionState::Closed),
        SessionEvent::CloseRequested => !matches!(state, SessionState::Closed),
    };
    if !allowed {
        return (state, SessionAction::Nothing);
    }
    match event {
        SessionEvent::DevicesOpened => (SessionState::Opened, SessionAction::Nothing),
        SessionEvent::LocksAcquired => (SessionState::Locked, SessionAction::Nothing),
        SessionEvent::FormatSucceeded => (SessionState::Formatted, SessionAction::Nothing),
        SessionEvent::VerifySucceeded => (SessionState::Verified, SessionAction::Nothing),
        SessionEvent::OperationRequested => (SessionState::Locked, SessionAction::Nothing),
        SessionEvent::StepFailed => (SessionState::Closed, SessionAction::ReleaseAll),
        SessionEvent::CloseRequested => (SessionState::Closed, SessionAction::ReleaseAll),
    }
}

/// A failure in any state before the end goes straight to `Closed`,
/// with every lock released on the way.
pub proof fn lemma_failure_always_closes(state: SessionState)
    requires
        state != SessionState::Closed,
    ensures
        next_state(state, SessionEvent::StepFailed) == SessionState::Closed,
        event_allowed(state, SessionEvent::StepFailed),
{
}

} // verus!
