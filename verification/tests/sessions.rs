use veritysetup::session::{session_step, SessionAction, SessionEvent, SessionState};

#[test]
fn format_session_runs_to_closed() {
    let (s, a) = session_step(SessionState::Created, SessionEvent::DevicesOpened);
    assert_eq!((s, a), (SessionState::Opened, SessionAction::Nothing));
    let (s, a) = session_step(s, SessionEvent::LocksAcquired);
    assert_eq!((s, a), (SessionState::Locked, SessionAction::Nothing));
    let (s, a) = session_step(s, SessionEvent::FormatSucceeded);
    assert_eq!((s, a), (SessionState::Formatted, SessionAction::Nothing));
    // a new operation re-enters the locked state
    let (s, a) = session_step(s, SessionEvent::OperationRequested);
    assert_eq!((s, a), (SessionState::Locked, SessionAction::Nothing));
    let (s, a) = session_step(s, SessionEvent::VerifySucceeded);
    assert_eq!((s, a), (SessionState::Verified, SessionAction::Nothing));
    let (s, a) = session_step(s, SessionEvent::CloseRequested);
    assert_eq!((s, a), (SessionState::Closed, SessionAction::ReleaseAll));
}

#[test]
fn any_failure_closes_and_releases() {
    for state in [
        SessionState::Created,
        SessionState::Opened,
        SessionState::Locked,
        SessionState::Formatted,
        SessionState::Verified,
    ] {
        let (s, a) = session_step(state, SessionEvent::StepFailed);
        assert_eq!((s, a), (SessionState::Closed, SessionAction::ReleaseAll));
    }
}

#[test]
fn out_of_order_events_change_nothing() {
    let (s, a) = session_step(SessionState::Created, SessionEvent::FormatSucceeded);
    assert_eq!((s, a), (SessionState::Created, SessionAction::Nothing));
    let (s, a) = session_step(SessionState::Closed, SessionEvent::CloseRequested);
    assert_eq!((s, a), (SessionState::Closed, SessionAction::Nothing));
}
