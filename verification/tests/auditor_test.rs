use scopesafe::auditor::{latest_events, Auditor, ScopeStatus};
use scopesafe::db::Database;
use scopesafe::scope::Scope;
use scopesafe::tracker::Tracker;

fn setup() -> (Tracker, Scope) {
    let mut tracker = Tracker::new(Database::new());
    let scope = Scope::new("t".into(), Some("src/*.rs".into()), None, None, "u".into()).unwrap();
    tracker.save_scope(&scope).unwrap();
    tracker.track_file(&scope.id, "src/a.rs", "modify", true, false).unwrap();
    tracker.track_file(&scope.id, "docs/x.md", "modify", false, false).unwrap();
    tracker.track_file(&scope.id, "docs/y.md", "modify", false, false).unwrap();
    tracker.track_file(&scope.id, "docs/z.md", "modify", false, false).unwrap();
    tracker.approve_file("docs/x.md", "u").unwrap();
    tracker.reject_file("docs/y.md", "no").unwrap();
    (tracker, scope)
}

#[test]
fn revert_lists_pending_out_of_scope_changes() {
    let (tracker, scope) = setup();
    let auditor = Auditor::new(tracker);
    assert_eq!(auditor.revert_out_of_scope(&scope).unwrap(), vec!["docs/z.md".to_string()]);
}

#[test]
fn status_counts_of_a_scope() {
    let (tracker, scope) = setup();
    let s = ScopeStatus::from_scope(&scope, &tracker).unwrap();
    assert_eq!(s.scope.id, scope.id);
    assert_eq!(s.total_files, 4);
    assert_eq!(s.in_scope_files, 1);
    assert_eq!(s.out_of_scope_files, 3);
    assert_eq!(s.blocked_files, 0);
    assert_eq!(s.approved_files, 1);
    assert_eq!(s.credit_halves, 2 + 2 + 0 + 1);
}

#[test]
fn latest_event_per_file_in_order_of_first_touch() {
    let (mut tracker, scope) = setup();
    tracker.track_file(&scope.id, "docs/x.md", "delete", false, false).unwrap();
    let evs = tracker.get_events(&scope.id).unwrap();
    let latest = latest_events(&evs);
    let paths: Vec<&str> = latest.iter().map(|e| e.file_path.as_str()).collect();
    assert_eq!(paths, vec!["src/a.rs", "docs/x.md", "docs/y.md", "docs/z.md"]);
    assert_eq!(latest[1].action, "delete");
    assert_eq!(latest[1].approved, None);
}
