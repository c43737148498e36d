use scopesafe::db::Database;
use scopesafe::patterns::{description_for, PatternAnalyzer};
use scopesafe::scope::Scope;
use scopesafe::tracker::FileEvent;

fn fresh_db() -> Database {
    Database::new()
}

fn owner() -> String {
    "tester".to_string()
}

fn mk_event(scope_id: &str, file: &str, in_scope: bool, blocked: bool) -> FileEvent {
    FileEvent {
        id: 0,
        scope_id: scope_id.to_string(),
        file_path: file.to_string(),
        action: "modify".to_string(),
        timestamp: chrono::Utc::now().to_rfc3339(),
        approved: None,
        approved_by: None,
        rejection_reason: None,
        in_scope,
        is_blocked: blocked,
    }
}

#[test]
fn test_pattern_secrets_touch() {
    let mut db = fresh_db();
    let scope = Scope::new("fix bug".into(), Some("src/*.go".into()), None, None, owner()).unwrap();
    db.save_scope(&scope).unwrap();
    db.save_event(&mk_event(&scope.id, "src/env_loader.go", true, false)).unwrap();
    db.save_event(&mk_event(&scope.id, ".env.example", false, false)).unwrap();

    let patterns = PatternAnalyzer::new().unwrap();
    let v = patterns.analyze_scope_violations_from_scopes(&[scope], &db);
    assert!(!v.is_empty());
    assert!(v.iter().any(|p| p.pattern == "secrets / .env touch" && p.occurrences >= 1));
}

#[test]
fn test_pattern_dependency_change() {
    let mut db = fresh_db();
    let scope = Scope::new("refactor".into(), Some("src/*.rs".into()), None, None, owner()).unwrap();
    db.save_scope(&scope).unwrap();
    db.save_event(&mk_event(&scope.id, "src/lib.rs", true, false)).unwrap();
    db.save_event(&mk_event(&scope.id, "Cargo.toml", false, false)).unwrap();
    db.save_event(&mk_event(&scope.id, "package.json", false, false)).unwrap();

    let patterns = PatternAnalyzer::new().unwrap();
    let v = patterns.analyze_scope_violations_from_scopes(&[scope], &db);
    let dep = v.iter().find(|p| p.pattern == "dependency change").unwrap();
    assert_eq!(dep.occurrences, 2);
}

#[test]
fn test_pattern_config_change() {
    let mut db = fresh_db();
    let scope = Scope::new("work".into(), Some("src/*.py".into()), None, None, owner()).unwrap();
    db.save_scope(&scope).unwrap();
    db.save_event(&mk_event(&scope.id, "src/main.py", true, false)).unwrap();
    db.save_event(&mk_event(&scope.id, "config.yaml", false, false)).unwrap();
    db.save_event(&mk_event(&scope.id, "settings.toml", false, false)).unwrap();
    db.save_event(&mk_event(&scope.id, "app.ini", false, false)).unwrap();

    let patterns = PatternAnalyzer::new().unwrap();
    let v = patterns.analyze_scope_violations_from_scopes(&[scope], &db);
    let cfg = v.iter().find(|p| p.pattern == "config change").unwrap();
    assert_eq!(cfg.occurrences, 3);
}

#[test]
fn test_pattern_blocked_secret() {
    let mut db = fresh_db();
    let scope = Scope::new("work".into(), Some("src/*.py".into()), None, None, owner()).unwrap();
    db.save_scope(&scope).unwrap();
    // The blocked event still gets recorded (for pattern analysis) when we
    // bypass the tracker; the audit logic surfaces it as a hard block.
    db.save_event(&mk_event(&scope.id, "src/main.py", true, false)).unwrap();
    db.save_event(&mk_event(&scope.id, ".env", false, true)).unwrap();

    let patterns = PatternAnalyzer::new().unwrap();
    let v = patterns.analyze_scope_violations_from_scopes(&[scope], &db);
    assert!(v.iter().any(|p| p.pattern == "blocked secret file" && p.occurrences == 1));
}

#[test]
fn kinds_come_most_frequent_first() {
    let mut db = fresh_db();
    let scope = Scope::new("w".into(), Some("src/*.rs".into()), None, None, owner()).unwrap();
    db.save_scope(&scope).unwrap();
    for f in ["a.yaml", "b.yml", "c.ini", "README.md", "Cargo.toml"] {
        db.save_event(&mk_event(&scope.id, f, false, false)).unwrap();
    }
    let v = PatternAnalyzer::new().unwrap().analyze_scope_violations_from_scopes(&[scope], &db);
    // config: a.yaml, b.yml, c.ini, Cargo.toml (.toml) = 4; docs: 1; dependency: 1.
    assert_eq!(v[0].pattern, "config change");
    assert_eq!(v[0].occurrences, 4);
    for w in v.windows(2) {
        assert!(w[0].occurrences >= w[1].occurrences);
    }
    assert!(v.iter().all(|p| p.occurrences > 0));
    // Equal counts keep the order of the kinds: dependency change before docs.
    let names: Vec<&str> = v.iter().map(|p| p.pattern.as_str()).collect();
    assert_eq!(names, vec!["config change", "dependency change", "docs / readme edit"]);
}

#[test]
fn adjacent_refactor_and_logging() {
    let mut db = fresh_db();
    let scope =
        Scope::new("w".into(), Some("payments/retry/*".into()), None, None, owner()).unwrap();
    db.save_scope(&scope).unwrap();
    db.save_event(&mk_event(&scope.id, "payments/billing/x.go", false, false)).unwrap();
    db.save_event(&mk_event(&scope.id, "src/logger.go", false, false)).unwrap();
    let v = PatternAnalyzer::new().unwrap().analyze_scope_violations_from_scopes(&[scope], &db);
    assert!(v.iter().any(|p| p.pattern == "refactor adjacent code" && p.occurrences == 1));
    assert!(v.iter().any(|p| p.pattern == "add logging" && p.occurrences == 1));
}

#[test]
fn in_scope_events_are_not_violations() {
    let mut db = fresh_db();
    let scope = Scope::new("w".into(), None, None, None, owner()).unwrap();
    db.save_scope(&scope).unwrap();
    db.save_event(&mk_event(&scope.id, "Cargo.toml", true, false)).unwrap();
    let v = PatternAnalyzer::new().unwrap().analyze_scope_violations_from_scopes(&[scope], &db);
    assert!(v.is_empty());
}

#[test]
fn single_scope_analysis() {
    let events = vec![
        mk_event("s", "ENV.txt", false, false),
        mk_event("s", "go.mod", false, false),
        mk_event("s", "go.mod", true, false),
    ];
    let v = PatternAnalyzer::new().unwrap().analyze_scope_violations(&events);
    assert_eq!(v.len(), 2);
    assert!(v.iter().any(|p| p.pattern == "secrets touch" && p.occurrences == 1));
    assert!(v.iter().any(|p| p.pattern == "dependency change" && p.occurrences == 1));
}

#[test]
fn descriptions_of_patterns() {
    assert_eq!(description_for("config change"), "Agent modified configuration files.");
    assert_eq!(
        description_for("blocked secret file"),
        "Agent attempted to modify a secret/key/credential file."
    );
    assert_eq!(description_for("something else"), "Repeated out-of-scope behaviour.");
}

#[test]
fn ranking_ignores_in_scope_and_other_scopes_events() {
    let mut db = fresh_db();
    let scope = Scope::new("work".into(), Some("src/*.rs".into()), None, None, owner()).unwrap();
    let other = Scope::new("other".into(), Some("src/*.rs".into()), None, None, owner()).unwrap();
    db.save_scope(&scope).unwrap();
    db.save_scope(&other).unwrap();
    db.save_event(&mk_event(&scope.id, "Cargo.toml", false, false)).unwrap();
    db.save_event(&mk_event(&scope.id, "config.yaml", false, false)).unwrap();
    db.save_event(&mk_event(&scope.id, ".env", true, true)).unwrap();
    let patterns = PatternAnalyzer::new().unwrap();
    let before = patterns.analyze_scope_violations_from_scopes(std::slice::from_ref(&scope), &db);
    assert_eq!(before.len(), 3);

    db.save_event(&mk_event(&scope.id, "package.json", true, false)).unwrap();
    db.save_event(&mk_event(&scope.id, "README.md", true, false)).unwrap();
    db.save_event(&mk_event(&other.id, "package.json", false, false)).unwrap();
    db.save_event(&mk_event(&other.id, ".env", false, true)).unwrap();
    let after = patterns.analyze_scope_violations_from_scopes(&[scope], &db);
    assert_eq!(after, before);
}
