use leaning_tower::session::{Session, SessionEvent, ACCEPT_TIMEOUT_SECS};

#[test]
fn accept_wait_is_five_seconds() {
    assert_eq!(ACCEPT_TIMEOUT_SECS, 5);
}

#[test]
fn unanswered_grant_releases_its_permit() {
    let session = Session::new();
    assert!(session.holds_permit());
    let session = session.step(SessionEvent::TimedOut);
    assert_eq!(session, Session::Closed);
    assert!(!session.holds_permit());
    let session = session.step(SessionEvent::Accepted);
    assert_eq!(session, Session::Closed);
}

#[test]
fn served_session_holds_permit_until_peer_leaves() {
    let session = Session::new().step(SessionEvent::Accepted);
    assert_eq!(session, Session::Serving);
    assert!(session.holds_permit());
    let session = session.step(SessionEvent::TimedOut);
    assert_eq!(session, Session::Serving);
    let session = session.step(SessionEvent::Disconnected);
    assert!(!session.holds_permit());
}

#[test]
fn failures_end_the_session() {
    let session = Session::new().step(SessionEvent::AcceptFailed);
    assert_eq!(session, Session::Closed);
    let session = Session::new()
        .step(SessionEvent::Accepted)
        .step(SessionEvent::TransportFailed);
    assert_eq!(session, Session::Closed);
}
