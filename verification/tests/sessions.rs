use std::sync::Arc;
use iboardbot::sessions::{Session, SessionActor, SessionMessage, SessionReply};

#[test]
fn created_session_is_found_until_deleted() {
    let mut store: SessionActor<Session> = SessionActor::new();
    match store.handle(SessionMessage::Get { id: "a".to_string() }) {
        SessionReply::Found(None) => {}
        _ => panic!("expected nothing"),
    }
    match store.handle(SessionMessage::Create { id: "a".to_string(), session: Session::new("a".to_string()) }) {
        SessionReply::Created(s) => assert_eq!(s.id, "a"),
        _ => panic!("expected a session"),
    }
    match store.handle(SessionMessage::Get { id: "a".to_string() }) {
        SessionReply::Found(Some(s)) => assert_eq!(s, Session::new("a".to_string())),
        _ => panic!("expected the session"),
    }
    assert!(matches!(store.handle(SessionMessage::Delete { id: "a".to_string() }), SessionReply::Deleted));
    assert!(matches!(store.handle(SessionMessage::Get { id: "a".to_string() }), SessionReply::Found(None)));
}

#[test]
fn shared_handles_are_the_same() {
    let mut store: SessionActor<Arc<Session>> = SessionActor::new();
    let s = Arc::new(Session::new("x".to_string()));
    store.handle(SessionMessage::Create { id: "x".to_string(), session: s.clone() });
    match store.handle(SessionMessage::Get { id: "x".to_string() }) {
        SessionReply::Found(Some(h)) => assert!(Arc::ptr_eq(&h, &s)),
        _ => panic!("expected the session"),
    }
}

#[test]
fn other_requests_leave_a_session_alone() {
    let mut store: SessionActor<Arc<Session>> = SessionActor::new();
    let s = Arc::new(Session::new("x".to_string()));
    store.handle(SessionMessage::Create { id: "x".to_string(), session: s.clone() });
    store.handle(SessionMessage::Create { id: "y".to_string(), session: Arc::new(Session::new("y".to_string())) });
    store.handle(SessionMessage::Get { id: "y".to_string() });
    store.handle(SessionMessage::Delete { id: "y".to_string() });
    store.handle(SessionMessage::Delete { id: "z".to_string() });
    match store.handle(SessionMessage::Get { id: "x".to_string() }) {
        SessionReply::Found(Some(h)) => assert!(Arc::ptr_eq(&h, &s)),
        _ => panic!("expected the session"),
    }
    store.handle(SessionMessage::Delete { id: "x".to_string() });
    store.handle(SessionMessage::Create { id: "w".to_string(), session: Arc::new(Session::new("w".to_string())) });
    assert!(matches!(store.handle(SessionMessage::Get { id: "x".to_string() }), SessionReply::Found(None)));
}
