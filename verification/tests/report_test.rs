use scopesafe::report::weekly_at;
use scopesafe::db::Database;
use scopesafe::patterns::PatternAnalyzer;
use scopesafe::report::{
    current_week_start, owner_tasks, recommendations, score_credit, ReportGenerator, ScopeTally,
    WeeklyTally,
};
use scopesafe::scope::Scope;
use scopesafe::tracker::FileEvent;

fn fresh_db() -> Database {
    Database::new()
}

fn owner() -> String {
    "tester".to_string()
}

fn mk_event(scope_id: &str, file: &str, in_scope: bool, approved: Option<bool>) -> FileEvent {
    FileEvent {
        id: 0,
        scope_id: scope_id.to_string(),
        file_path: file.to_string(),
        action: "modify".to_string(),
        timestamp: chrono::Utc::now().to_rfc3339(),
        approved,
        approved_by: if approved == Some(true) { Some("tester".to_string()) } else { None },
        rejection_reason: if approved == Some(false) { Some("nope".to_string()) } else { None },
        in_scope,
        is_blocked: false,
    }
}

/// The scope score in percent: the credit (in half points) over twice the number of
/// events, and 100 for no events.
fn score(events: &[FileEvent]) -> f64 {
    if events.is_empty() {
        return 100.0;
    }
    score_credit(events) as f64 * 50.0 / events.len() as f64
}

/// The average score of the scopes of a weekly tally, 100 when there are none.
fn average(t: &WeeklyTally) -> f64 {
    if t.scopes.is_empty() {
        return 100.0;
    }
    let sum: f64 = t
        .scopes
        .iter()
        .map(|s| if s.events == 0 { 100.0 } else { s.credit_halves as f64 * 50.0 / s.events as f64 })
        .sum();
    sum / t.scopes.len() as f64
}

#[test]
fn test_compute_score_all_in_scope() {
    let s = "scope-1";
    let events = vec![mk_event(s, "src/a.rs", true, None), mk_event(s, "src/b.rs", true, None)];
    let score = score(&events);
    assert!((score - 100.0).abs() < 0.01);
}

#[test]
fn test_compute_score_rejected_doesnt_count() {
    let s = "scope-1";
    let events = vec![mk_event(s, "src/a.rs", true, None), mk_event(s, "README.md", false, Some(false))];
    // 1 in scope (full credit), 1 rejected (no credit) => 1/2 = 50%
    let score = score(&events);
    assert!((score - 50.0).abs() < 0.01);
}

#[test]
fn test_compute_score_approved_counts_as_in_scope() {
    let s = "scope-1";
    let events = vec![mk_event(s, "src/a.rs", true, None), mk_event(s, "README.md", false, Some(true))];
    let score = score(&events);
    assert!((score - 100.0).abs() < 0.01);
}

#[test]
fn test_compute_score_pending_partial_credit() {
    let s = "scope-1";
    let events = vec![mk_event(s, "src/a.rs", true, None), mk_event(s, "README.md", false, None)];
    // 1 + 0.5 / 2 = 75%
    let score = score(&events);
    assert!((score - 75.0).abs() < 0.01);
}

#[test]
fn test_compute_score_empty() {
    assert_eq!(score(&[]), 100.0);
    assert_eq!(score_credit(&[]), 0);
}

#[test]
fn test_weekly_report_empty() {
    let db = fresh_db();
    let patterns = PatternAnalyzer::new().unwrap();
    let gen = ReportGenerator::with_db(db);
    let weekly = gen.generate_weekly(&patterns).unwrap();
    assert_eq!(weekly.total_tasks, 0);
    assert_eq!(weekly.total_files_tracked, 0);
    assert!((average(&weekly) - 100.0).abs() < 0.01);
}

#[test]
fn test_weekly_report_with_data() {
    let mut db = fresh_db();
    let scope = Scope::new("task1".into(), Some("src/*.rs".into()), None, None, owner()).unwrap();
    db.save_scope(&scope).unwrap();
    db.save_event(&mk_event(&scope.id, "src/main.rs", true, None)).unwrap();
    db.save_event(&mk_event(&scope.id, "src/lib.rs", true, None)).unwrap();
    db.save_event(&mk_event(&scope.id, "README.md", false, None)).unwrap();

    let patterns = PatternAnalyzer::new().unwrap();
    let gen = ReportGenerator::with_db(db);
    let weekly = gen.generate_weekly(&patterns).unwrap();
    assert_eq!(weekly.total_tasks, 1);
    assert_eq!(weekly.total_files_tracked, 3);
    assert_eq!(weekly.total_out_of_scope, 1);
    // 2 in scope + 0.5 (pending) / 3 = 83.33%
    assert!((average(&weekly) - 83.333).abs() < 1.0);
}

#[test]
fn credit_counts_half_points() {
    let s = "s";
    let mut blocked = mk_event(s, ".env", false, None);
    blocked.is_blocked = true;
    let events = vec![
        mk_event(s, "a.rs", true, None),
        mk_event(s, "b.md", false, None),
        mk_event(s, "c.md", false, Some(true)),
        mk_event(s, "d.md", false, Some(false)),
        blocked,
    ];
    assert_eq!(score_credit(&events), 2 + 1 + 2 + 0 + 0);
}

#[test]
fn weeks_start_on_monday_midnight() {
    // 2024-06-05 12:00:00 UTC was a Wednesday; its week starts on Monday 2024-06-03.
    assert_eq!(current_week_start(1_717_588_800), 1_717_372_800);
    // A Monday at midnight starts its own week.
    assert_eq!(current_week_start(1_717_372_800), 1_717_372_800);
    // One second earlier belongs to the week before.
    assert_eq!(current_week_start(1_717_372_799), 1_717_372_800 - 604_800);
    // Before the epoch: 1969-12-31 (a Wednesday) is in the week of Monday 1969-12-29.
    assert_eq!(current_week_start(-86_400), -3 * 86_400);
}

#[test]
fn tally_of_a_given_week() {
    let mut db = fresh_db();
    let mut inside = Scope::new("inside".into(), Some("src/*.rs".into()), None, None, owner()).unwrap();
    inside.id = "in".to_string();
    inside.created_at = "2024-06-04T09:00:00+00:00".to_string();
    let mut outside = Scope::new("outside".into(), None, None, None, "bob".into()).unwrap();
    outside.id = "out".to_string();
    outside.created_at = "2024-06-10T00:00:00+00:00".to_string();
    db.save_scope(&inside).unwrap();
    db.save_scope(&outside).unwrap();
    for f in ["Cargo.toml", "package.json", "Cargo.toml"] {
        db.save_event(&mk_event("in", f, false, None)).unwrap();
    }
    db.save_event(&mk_event("in", "src/main.rs", true, None)).unwrap();
    db.save_event(&mk_event("out", "x.md", false, None)).unwrap();

    let gen = ReportGenerator::with_db(db);
    let t = gen.tally_week(&PatternAnalyzer::new().unwrap(), 1_717_372_800);
    assert_eq!(t.week_start, "2024-06-03");
    assert_eq!(t.week_end, "2024-06-09");
    assert_eq!(t.total_tasks, 1);
    assert_eq!(t.completed_tasks, 0);
    assert_eq!(t.total_files_tracked, 4);
    assert_eq!(t.total_out_of_scope, 3);
    assert_eq!(t.total_blocked_attempts, 0);
    assert_eq!(t.scopes.len(), 1);
    assert_eq!(t.scopes[0].owner, "tester");
    assert_eq!(t.scopes[0].credit_halves, 2 + 1 + 1 + 1);
    assert_eq!(t.top_offending_files, vec![("Cargo.toml".to_string(), 2), ("package.json".to_string(), 1)]);
    assert_eq!(t.top_violations[0].pattern, "dependency change");
    assert_eq!(t.top_violations[0].occurrences, 3);
}

#[test]
fn advice_for_a_week() {
    let mut db = fresh_db();
    let scope = Scope::new("t".into(), Some("src/*.rs".into()), None, None, owner()).unwrap();
    db.save_scope(&scope).unwrap();
    let gen = ReportGenerator::with_db(db);
    let empty = gen.generate_weekly(&PatternAnalyzer::new().unwrap()).unwrap();
    assert_eq!(recommendations(&empty, false), vec!["Scope discipline is on point. Keep it up."]);

    let mut t = empty;
    t.total_blocked_attempts = 2;
    t.top_offending_files = vec![("package.json".to_string(), 3)];
    assert_eq!(
        recommendations(&t, true),
        vec![
            "Add the 2 blocked file(s) to your agent's system prompt as 'do not touch'.",
            "Avg scope score < 80%. Consider tighter file patterns and stronger exclude rules.",
            "Most-touched out-of-scope file is 'package.json'. Add it to your --exclude patterns.",
        ]
    );
}

#[test]
fn weekly_tally_at_an_instant() {
    let mut db = fresh_db();
    let mut s = Scope::new("t".into(), None, None, None, owner()).unwrap();
    s.created_at = "2024-06-04T09:00:00+00:00".to_string();
    db.save_scope(&s).unwrap();
    let patterns = PatternAnalyzer::new().unwrap();
    let t = weekly_at(&db, &patterns, 1_717_588_800).unwrap();
    assert_eq!(t.week_start, "2024-06-03");
    assert_eq!(t.total_tasks, 1);
    let later = weekly_at(&db, &patterns, 1_717_588_800 + 604_800).unwrap();
    assert_eq!(later.week_start, "2024-06-10");
    assert_eq!(later.total_tasks, 0);
    assert!(weekly_at(&db, &patterns, i64::MAX).is_err());
    assert!(weekly_at(&db, &patterns, i64::MIN).is_err());
}

#[test]
fn weeks_at_the_edges_of_the_calendar() {
    let db = fresh_db();
    let p = PatternAnalyzer::new().unwrap();
    // The last whole week that chrono can write, and the first.
    assert!(weekly_at(&db, &p, 8_210_266_876_799 - 8 * 86_400).is_ok());
    assert!(weekly_at(&db, &p, 8_210_266_876_799).is_err());
    assert!(weekly_at(&db, &p, -8_334_601_315_200 + 14 * 86_400).is_ok());
    assert!(weekly_at(&db, &p, -8_334_601_315_200).is_err());
}

#[test]
fn top_files_of_a_week() {
    let mut db = fresh_db();
    let mut s = Scope::new("t".into(), Some("src/*.rs".into()), None, None, owner()).unwrap();
    s.id = "w".to_string();
    s.created_at = "2024-06-04T09:00:00+00:00".to_string();
    db.save_scope(&s).unwrap();
    let touches = [
        ("a.md", 1), ("b.md", 3), ("c.md", 2), ("d.md", 3), ("e.md", 1), ("f.md", 4), ("g.md", 1),
    ];
    for (f, n) in touches {
        for _ in 0..n {
            db.save_event(&mk_event("w", f, false, None)).unwrap();
        }
    }
    db.save_event(&mk_event("w", "src/lib.rs", true, None)).unwrap();
    let gen = ReportGenerator::with_db(db);
    let t = gen.tally_week(&PatternAnalyzer::new().unwrap(), 1_717_372_800);
    assert_eq!(
        t.top_offending_files,
        vec![
            ("f.md".to_string(), 4),
            ("b.md".to_string(), 3),
            ("d.md".to_string(), 3),
            ("c.md".to_string(), 2),
            ("a.md".to_string(), 1),
        ]
    );
    assert_eq!(t.total_out_of_scope, 15);
}

#[test]
fn tasks_per_owner() {
    let st = |o: &str| ScopeTally { owner: o.to_string(), credit_halves: 0, events: 0 };
    let t = WeeklyTally {
        week_start: "2024-06-03".to_string(),
        week_end: "2024-06-09".to_string(),
        total_tasks: 4,
        completed_tasks: 0,
        scopes: vec![st("ann"), st("bob"), st("ann"), st("cy")],
        top_violations: vec![],
        top_offending_files: vec![],
        total_files_tracked: 0,
        total_blocked_attempts: 0,
        total_out_of_scope: 0,
    };
    let r = owner_tasks(&t);
    assert_eq!(r, vec![("ann".to_string(), 2), ("bob".to_string(), 1), ("cy".to_string(), 1)]);
    assert_eq!(r.iter().map(|x| x.1).sum::<usize>(), t.total_tasks);
}
