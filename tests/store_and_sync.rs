use gaming_calendar::event_store::EventStore;
use gaming_calendar::model::{GamingSession, User};
use gaming_calendar::sync::{FetchOutcome, MutationStatus, SyncController, SyncError};

fn user(name: &str) -> User {
    User { name: name.to_string(), picture: "placeholder".to_string() }
}

fn session(id: i64, owner: &str) -> GamingSession {
    GamingSession {
        server_id: "server".to_string(),
        session_id: id,
        title: format!("session {}", id),
        start_time: 1000 * id,
        end_time: 1000 * id + 500,
        owner: user(owner),
        participants: vec![user(owner)],
        game: None,
    }
}

fn ids(sessions: &[GamingSession]) -> Vec<i64> {
    sessions.iter().map(|s| s.session_id).collect()
}

fn names(s: &GamingSession) -> Vec<String> {
    s.participants.iter().map(|p| p.name.clone()).collect()
}

#[test]
fn store_replace_insert_remove() {
    let mut store = EventStore::new();
    assert!(store.sessions().is_empty());
    store.replace_all(vec![session(1, "a"), session(2, "b"), session(1, "c")]);
    assert_eq!(ids(store.sessions()), vec![1, 2, 1]);
    store.insert(session(3, "a"));
    assert_eq!(ids(store.sessions()), vec![1, 2, 1, 3]);
    store.remove(1);
    assert_eq!(ids(store.sessions()), vec![2, 3]);
    store.remove(42);
    assert_eq!(ids(store.sessions()), vec![2, 3]);
    store.replace_all(vec![]);
    assert!(store.sessions().is_empty());
}

#[test]
fn store_join_and_leave() {
    let mut store = EventStore::new();
    store.replace_all(vec![session(1, "a"), session(2, "b")]);
    store.add_participant(2, user("x"));
    assert_eq!(names(&store.sessions()[1]), vec!["b", "x"]);
    assert_eq!(names(&store.sessions()[0]), vec!["a"]);
    // Joining twice keeps one entry.
    store.add_participant(2, user("x"));
    assert_eq!(names(&store.sessions()[1]), vec!["b", "x"]);
    assert!(store.is_participating(2, &"x".to_string()));
    assert!(!store.is_participating(1, &"x".to_string()));
    store.remove_participant(2, &"x".to_string());
    assert_eq!(names(&store.sessions()[1]), vec!["b"]);
    assert!(!store.is_participating(2, &"x".to_string()));
    // A session that is gone is left alone.
    store.add_participant(9, user("x"));
    store.remove_participant(9, &"a".to_string());
    assert_eq!(ids(store.sessions()), vec![1, 2]);
    assert!(!store.is_participating(9, &"a".to_string()));
}

#[test]
fn stale_fetch_never_overwrites_newer_contents() {
    let mut c = SyncController::new();
    let first = c.begin_fetch();
    let second = c.begin_fetch();
    assert!(first < second);
    assert_eq!(c.complete_fetch(second, Ok(vec![session(2, "b")])), FetchOutcome::Applied);
    assert_eq!(c.complete_fetch(first, Ok(vec![session(1, "a")])), FetchOutcome::Stale);
    assert_eq!(ids(c.sessions()), vec![2]);
}

#[test]
fn failed_fetch_keeps_contents() {
    let mut c = SyncController::new();
    let first = c.begin_fetch();
    assert_eq!(c.complete_fetch(first, Ok(vec![session(1, "a")])), FetchOutcome::Applied);
    let second = c.begin_fetch();
    assert_eq!(c.complete_fetch(second, Err(SyncError::FetchFailed)), FetchOutcome::Failed);
    assert_eq!(ids(c.sessions()), vec![1]);
}

#[test]
fn create_inserts_only_on_success() {
    let mut c = SyncController::new();
    c.begin_create();
    assert_eq!(c.status(), MutationStatus::Pending);
    assert!(c.sessions().is_empty());
    c.finish_create(Err(SyncError::MutationFailed));
    assert_eq!(c.status(), MutationStatus::Failed);
    assert!(c.has_error());
    assert!(c.sessions().is_empty());
    c.begin_create();
    c.finish_create(Ok(session(7, "a")));
    assert_eq!(c.status(), MutationStatus::Committed);
    assert!(!c.has_error());
    assert_eq!(ids(c.sessions()), vec![7]);
}

#[test]
fn delete_is_for_the_owner_and_optimistic() {
    let mut c = SyncController::new();
    let seq = c.begin_fetch();
    c.complete_fetch(seq, Ok(vec![session(1, "a"), session(2, "b")]));
    assert!(!c.can_delete(1, &"b".to_string()));
    assert!(!c.begin_delete(1, &"b".to_string()));
    assert_eq!(ids(c.sessions()), vec![1, 2]);
    assert_eq!(c.status(), MutationStatus::Idle);
    assert!(c.begin_delete(1, &"a".to_string()));
    assert_eq!(c.status(), MutationStatus::Pending);
    assert_eq!(ids(c.sessions()), vec![2]);
    // A failure is reported; the removal stands.
    c.finish_mutation(Err(SyncError::MutationFailed));
    assert_eq!(c.status(), MutationStatus::Failed);
    assert!(c.has_error());
    assert_eq!(ids(c.sessions()), vec![2]);
}

#[test]
fn join_and_leave_are_optimistic() {
    let mut c = SyncController::new();
    let seq = c.begin_fetch();
    c.complete_fetch(seq, Ok(vec![session(1, "a")]));
    c.begin_join(1, user("x"));
    assert_eq!(c.status(), MutationStatus::Pending);
    assert_eq!(names(&c.sessions()[0]), vec!["a", "x"]);
    c.finish_mutation(Ok(()));
    assert_eq!(c.status(), MutationStatus::Committed);
    assert!(!c.has_error());
    c.begin_leave(1, &"x".to_string());
    assert_eq!(names(&c.sessions()[0]), vec!["a"]);
    c.finish_mutation(Ok(()));
    assert_eq!(c.status(), MutationStatus::Committed);
}
