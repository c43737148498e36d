use scopesafe::db::Database;
use scopesafe::error::Error;
use scopesafe::scope::Scope;
use scopesafe::tracker::{FileEvent, Tracker};

fn fresh_db() -> Database {
    Database::new()
}

fn owner() -> String {
    "tester".to_string()
}

fn now() -> String {
    chrono::Utc::now().to_rfc3339()
}

fn event(scope_id: &str, file: &str, in_scope: bool) -> FileEvent {
    FileEvent {
        id: 0,
        scope_id: scope_id.to_string(),
        file_path: file.to_string(),
        action: "modify".to_string(),
        timestamp: now(),
        approved: None,
        approved_by: None,
        rejection_reason: None,
        in_scope,
        is_blocked: false,
    }
}

#[test]
fn test_save_and_get_active_scope() {
    let mut db = fresh_db();
    let scope = Scope::new("test".into(), Some("src/*.rs".into()), None, None, owner()).unwrap();
    db.save_scope(&scope).unwrap();

    let active = db.get_active_scope().unwrap();
    assert_eq!(active.id, scope.id);
    assert_eq!(active.task, "test");
    assert_eq!(active.files.as_deref(), Some("src/*.rs"));
}

#[test]
fn test_track_file_in_scope() {
    let mut db = fresh_db();
    let scope =
        Scope::new("test".into(), Some("payments/*.go".into()), None, None, owner()).unwrap();
    db.save_scope(&scope).unwrap();

    let event = FileEvent {
        id: 0,
        scope_id: scope.id.clone(),
        file_path: "payments/retry.go".into(),
        action: "modify".into(),
        timestamp: now(),
        approved: None,
        approved_by: None,
        rejection_reason: None,
        in_scope: true,
        is_blocked: false,
    };
    let saved = db.save_event(&event).unwrap();
    assert!(saved.id > 0);

    let events = db.get_events(&scope.id).unwrap();
    assert_eq!(events.len(), 1);
    assert_eq!(events[0].file_path, "payments/retry.go");
    assert!(events[0].in_scope);
    assert!(!events[0].is_blocked);
}

#[test]
fn test_approve_reject_files() {
    let mut db = fresh_db();
    let scope = Scope::new("test".into(), Some("src/*.rs".into()), None, None, owner()).unwrap();
    db.save_scope(&scope).unwrap();

    let event = FileEvent {
        id: 0,
        scope_id: scope.id.clone(),
        file_path: "README.md".into(),
        action: "modify".into(),
        timestamp: now(),
        approved: None,
        approved_by: None,
        rejection_reason: None,
        in_scope: false,
        is_blocked: false,
    };
    db.save_event(&event).unwrap();

    db.approve_file("README.md", "tester").unwrap();
    let events = db.get_events(&scope.id).unwrap();
    assert_eq!(events[0].approved, Some(true));

    // Add another and reject
    let event2 = FileEvent {
        id: 0,
        scope_id: scope.id.clone(),
        file_path: "package.json".into(),
        action: "modify".into(),
        timestamp: now(),
        approved: None,
        approved_by: None,
        rejection_reason: None,
        in_scope: false,
        is_blocked: false,
    };
    db.save_event(&event2).unwrap();

    db.reject_file("package.json", "out of scope").unwrap();
    let events = db.get_events(&scope.id).unwrap();
    let pkg = events.iter().find(|e| e.file_path == "package.json").unwrap();
    assert_eq!(pkg.approved, Some(false));
    assert_eq!(pkg.rejection_reason.as_deref(), Some("out of scope"));
}

#[test]
fn test_list_all_scopes() {
    let mut db = fresh_db();
    let s1 = Scope::new("a".into(), None, None, None, owner()).unwrap();
    let s2 = Scope::new("b".into(), None, None, None, owner()).unwrap();
    db.save_scope(&s1).unwrap();
    db.save_scope(&s2).unwrap();

    let scopes = db.list_all_scopes().unwrap();
    assert_eq!(scopes.len(), 2);
}

#[test]
fn test_tracker_blocked_file_bails() {
    let mut db = fresh_db();
    let scope = Scope::new("test".into(), Some("*.go".into()), None, None, owner()).unwrap();
    db.save_scope(&scope).unwrap();

    let mut tracker = Tracker { db };
    let result = tracker.track_file(&scope.id, ".env", "modify", false, true);
    assert!(result.is_err());
}

#[test]
fn blocked_track_records_nothing() {
    let mut tracker = Tracker { db: fresh_db() };
    let scope = Scope::new("t".into(), None, None, None, owner()).unwrap();
    tracker.save_scope(&scope).unwrap();
    match tracker.track_file(&scope.id, "keys/server.pem", "modify", false, true) {
        Err(Error::PermissionDenied(m)) => {
            assert_eq!(m, "blocked file cannot be modified: keys/server.pem")
        }
        _ => panic!("expected a refusal"),
    }
    assert!(tracker.get_events(&scope.id).unwrap().is_empty());
}

#[test]
fn event_ids_count_up_from_one() {
    let mut tracker = Tracker { db: fresh_db() };
    let scope = Scope::new("t".into(), None, None, None, owner()).unwrap();
    tracker.save_scope(&scope).unwrap();
    let a = tracker.track_file(&scope.id, "a.rs", "modify", true, false).unwrap();
    let b = tracker.track_file(&scope.id, "b.rs", "create", false, false).unwrap();
    assert_eq!(a.id, 1);
    assert_eq!(b.id, 2);
    assert_eq!(b.action, "create");
    assert_eq!(b.approved, None);
}

#[test]
fn ids_continue_after_loaded_rows() {
    let mut e = event("s", "a.rs", true);
    e.id = 41;
    let mut db = Database::from_rows(Vec::new(), vec![e], 7);
    let saved = db.save_event(&event("s", "b.rs", true)).unwrap();
    assert_eq!(saved.id, 42);
    let mut db2 = Database::from_rows(Vec::new(), Vec::new(), 99);
    assert_eq!(db2.save_event(&event("s", "c.rs", true)).unwrap().id, 100);
}

#[test]
fn store_refuses_when_ids_are_used_up() {
    let mut db = Database::from_rows(Vec::new(), Vec::new(), i64::MAX);
    match db.save_event(&event("s", "a.rs", true)) {
        Err(Error::Database(_)) => {}
        _ => panic!("expected a store error"),
    }
}

#[test]
fn decided_file_cannot_be_decided_again() {
    let mut tracker = Tracker { db: fresh_db() };
    let scope = Scope::new("t".into(), None, None, None, owner()).unwrap();
    tracker.save_scope(&scope).unwrap();
    tracker.track_file(&scope.id, "README.md", "modify", false, false).unwrap();
    tracker.approve_file("README.md", "alice").unwrap();
    match tracker.reject_file("README.md", "late") {
        Err(Error::FileNotTracked(f)) => assert_eq!(f, "README.md"),
        _ => panic!("expected FileNotTracked"),
    }
    let events = tracker.get_events(&scope.id).unwrap();
    assert_eq!(events[0].approved, Some(true));
    assert_eq!(events[0].approved_by.as_deref(), Some("alice"));
    assert_eq!(events[0].rejection_reason, None);
}

#[test]
fn approving_an_untracked_file_fails() {
    let mut tracker = Tracker { db: fresh_db() };
    match tracker.approve_file("never-tracked.go", "alice") {
        Err(e) => {
            assert_eq!(e.message(), "file not tracked: never-tracked.go");
            assert_eq!(e.exit_code(), 2);
        }
        Ok(()) => panic!("expected an error"),
    }
}

#[test]
fn no_active_scope_without_scopes() {
    let db = fresh_db();
    match db.get_active_scope() {
        Err(Error::NoActiveScope) => {}
        _ => panic!("expected NoActiveScope"),
    }
}

#[test]
fn completed_scope_is_no_longer_active() {
    let mut tracker = Tracker { db: fresh_db() };
    let scope = Scope::new("t".into(), None, None, None, owner()).unwrap();
    tracker.save_scope(&scope).unwrap();
    tracker.complete_scope(&scope.id).unwrap();
    assert!(tracker.get_active_scope().is_err());
    // Saving the same scope again makes it active once more.
    tracker.save_scope(&scope).unwrap();
    assert_eq!(tracker.get_active_scope().unwrap().id, scope.id);
    assert_eq!(tracker.db.list_all_scopes().unwrap().len(), 1);
}

#[test]
fn newest_active_scope_wins() {
    let mut db = fresh_db();
    let mut old = Scope::new("old".into(), None, None, None, owner()).unwrap();
    old.created_at = "2024-01-01T00:00:00+00:00".to_string();
    let mut new = Scope::new("new".into(), None, None, None, owner()).unwrap();
    new.id = "scope-b".to_string();
    new.created_at = "2024-02-01T00:00:00+00:00".to_string();
    db.save_scope(&new).unwrap();
    db.save_scope(&old).unwrap();
    assert_eq!(db.get_active_scope().unwrap().task, "new");
    let all = db.list_all_scopes().unwrap();
    assert_eq!(all[0].task, "new");
    assert_eq!(all[1].task, "old");
}

#[test]
fn events_come_back_oldest_first() {
    let mut db = fresh_db();
    let mut late = event("s", "late.rs", true);
    late.timestamp = "2024-03-02T00:00:00+00:00".to_string();
    let mut early = event("s", "early.rs", true);
    early.timestamp = "2024-03-01T00:00:00+00:00".to_string();
    let other = event("t", "other.rs", true);
    db.save_event(&late).unwrap();
    db.save_event(&other).unwrap();
    db.save_event(&early).unwrap();
    let evs = db.get_events("s").unwrap();
    assert_eq!(evs.len(), 2);
    assert_eq!(evs[0].file_path, "early.rs");
    assert_eq!(evs[1].file_path, "late.rs");
}

#[test]
fn scopes_in_a_window() {
    let mut db = fresh_db();
    for (id, at) in [
        ("a", "2024-05-05T00:00:00+00:00"),
        ("b", "2024-05-06T00:00:00+00:00"),
        ("c", "2024-05-13T00:00:00+00:00"),
        ("d", "2024-05-07T00:00:00+00:00"),
    ] {
        let mut s = Scope::new(id.into(), None, None, None, owner()).unwrap();
        s.id = id.to_string();
        s.created_at = at.to_string();
        db.save_scope(&s).unwrap();
    }
    let w = db
        .list_scopes_in_window("2024-05-06T00:00:00+00:00", "2024-05-13T00:00:00+00:00")
        .unwrap();
    let ids: Vec<&str> = w.iter().map(|s| s.id.as_str()).collect();
    assert_eq!(ids, vec!["b", "d"]);
}

#[test]
fn tracking_at_a_given_time() {
    let mut tracker = Tracker::new(fresh_db());
    let e = tracker
        .track_file_at("s", "a.rs", "modify", true, false, "2024-01-01T00:00:00+00:00".to_string())
        .unwrap();
    assert_eq!(e.timestamp, "2024-01-01T00:00:00+00:00");
    assert_eq!(e.id, 1);
    assert!(tracker
        .track_file_at("s", ".env", "modify", false, true, "x".to_string())
        .is_err());
    assert_eq!(tracker.get_events("s").unwrap().len(), 1);
}
