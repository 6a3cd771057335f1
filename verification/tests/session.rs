use sher_display::common::{Error, ObjectId};
use sher_display::session::{GraphicalSession, SessionState};

#[test]
fn full_lifecycle_happy_path() {
    let mut session = GraphicalSession::new();
    session.login("georgi").unwrap();
    assert_eq!(session.state(), SessionState::Active);

    session.lock().unwrap();
    assert_eq!(session.state(), SessionState::Locked);
    assert_eq!(session.user(), Some("georgi"));

    session.unlock().unwrap();
    assert_eq!(session.state(), SessionState::Active);

    session.logout().unwrap();
    assert_eq!(session.state(), SessionState::LoggedOut);
    assert_eq!(session.user(), None);
}

#[test]
fn cannot_unlock_a_session_that_is_not_locked() {
    let mut session = GraphicalSession::new();
    session.login("georgi").unwrap();
    assert!(session.unlock().is_err());
}

#[test]
fn cannot_lock_before_logging_in() {
    let mut session = GraphicalSession::new();
    assert!(session.lock().is_err());
}

#[test]
fn cannot_log_in_twice() {
    let mut session = GraphicalSession::new();
    session.login("georgi").unwrap();
    assert!(session.login("someone_else").is_err());
}

#[test]
fn restart_preserves_login_and_returns_to_active() {
    let mut session = GraphicalSession::new();
    session.login("georgi").unwrap();
    session.lock().unwrap();

    session.restart().unwrap();

    assert_eq!(session.state(), SessionState::Active);
    assert_eq!(session.user(), Some("georgi"));
}

#[test]
fn seats_survive_logout() {
    let mut session = GraphicalSession::new();
    let seat = ObjectId::from_raw(9_001);
    session.add_seat(seat);
    session.login("georgi").unwrap();
    session.logout().unwrap();

    assert_eq!(session.seats(), &[seat]);
}

fn security_message(r: Result<(), Error>) -> String {
    match r {
        Err(Error::Security(m)) => m,
        other => panic!("expected a security error, got {:?}", other),
    }
}

#[test]
fn illegal_transitions_report_their_reason() {
    let mut session = GraphicalSession::new();
    assert_eq!(security_message(session.logout()), "cannot log out: no active session");
    assert_eq!(security_message(session.lock()), "cannot lock: session is not active");
    assert_eq!(security_message(session.unlock()), "cannot unlock: session is not locked");
    assert_eq!(security_message(session.restart()), "cannot restart: no active session");
    session.login("georgi").unwrap();
    assert_eq!(security_message(session.login("x")), "cannot log in: session is already active");
    assert_eq!(session.user(), Some("georgi"));
}

#[test]
fn seats_are_kept_once_and_can_be_removed() {
    let mut session = GraphicalSession::new();
    let a = ObjectId::from_raw(9_101);
    let b = ObjectId::from_raw(9_102);
    session.add_seat(a);
    session.add_seat(b);
    session.add_seat(a);
    assert_eq!(session.seats(), &[a, b]);
    session.remove_seat(&a);
    assert_eq!(session.seats(), &[b]);
    session.remove_seat(&a);
    assert_eq!(session.seats(), &[b]);
}
