use scopesafe::cli::{run, Cli, Commands, Outcome};
use scopesafe::db::Database;
use scopesafe::error::Error;
use scopesafe::mcp::Verdict;
use scopesafe::tracker::Tracker;

fn tracker() -> Tracker {
    Tracker { db: Database::new() }
}

fn init(t: &mut Tracker, task: &str, files: Option<&str>, exclude: Option<&str>) {
    let c = Commands::Init {
        task: task.to_string(),
        files: files.map(|s| s.to_string()),
        exclude: exclude.map(|s| s.to_string()),
        project: Some("/repo".to_string()),
    };
    match run(&c, t, "test-user") {
        Ok(Outcome::Created(s)) => {
            assert_eq!(s.task, task);
            assert_eq!(s.owner, "test-user");
            assert_eq!(s.project, "/repo");
        }
        _ => panic!("expected a created scope"),
    }
}

fn track(t: &mut Tracker, file: &str) -> Result<Outcome, Error> {
    run(&Commands::Track { file: file.to_string(), action: "modify".to_string() }, t, "test-user")
}

fn verdict_of(r: Result<Outcome, Error>) -> Verdict {
    match r {
        Ok(Outcome::Recorded { verdict, .. }) => verdict,
        _ => panic!("expected a recorded operation"),
    }
}

#[test]
fn lifecycle_in_library_terms() {
    let mut t = tracker();
    init(&mut t, "fix retry timeout", Some("payments/*.go"), Some("payments/subscriptions/*,payments/vendor/*"));
    assert!(matches!(verdict_of(track(&mut t, "payments/retry.go")), Verdict::Allowed));
    assert!(matches!(verdict_of(track(&mut t, "payments/timeout.go")), Verdict::Allowed));
    assert!(matches!(verdict_of(track(&mut t, "payments/subscriptions/main.go")), Verdict::OutOfScope));
    match track(&mut t, ".env") {
        Err(e) => assert!(e.message().contains("blocked file cannot be modified")),
        Ok(_) => panic!("a secrets file must be refused"),
    }
    match run(&Commands::Status, &mut t, "test-user") {
        Ok(Outcome::Status(s)) => {
            assert_eq!(s.total_files, 3);
            assert_eq!(s.in_scope_files, 2);
            assert_eq!(s.out_of_scope_files, 1);
            // 2 + 0.5 / 3 ≈ 83%
            assert_eq!(s.credit_halves * 50 / s.total_files as u128, 83);
        }
        _ => panic!("expected a status"),
    }
    match run(&Commands::Audit { show_diff: false }, &mut t, "test-user") {
        Ok(Outcome::Audited { status, latest }) => {
            assert_eq!(status.total_files, 3);
            let paths: Vec<&str> = latest.iter().map(|e| e.file_path.as_str()).collect();
            assert_eq!(paths, vec!["payments/retry.go", "payments/timeout.go", "payments/subscriptions/main.go"]);
            assert_eq!(latest[2].approved, None);
        }
        _ => panic!("expected an audit"),
    }
    match run(&Commands::Approve { file: "payments/subscriptions/main.go".to_string() }, &mut t, "test-user") {
        Ok(Outcome::Approved { file }) => assert_eq!(file, "payments/subscriptions/main.go"),
        _ => panic!("expected an approval"),
    }
    match run(&Commands::Audit { show_diff: false }, &mut t, "test-user") {
        Ok(Outcome::Audited { status, latest }) => {
            assert_eq!(latest[2].approved, Some(true));
            assert_eq!(latest[2].approved_by.as_deref(), Some("test-user"));
            assert_eq!(status.credit_halves, 6);
        }
        _ => panic!("expected an audit"),
    }
}

#[test]
fn reject_then_revert() {
    let mut t = tracker();
    init(&mut t, "tight scope", Some("src/*.rs"), None);
    assert!(matches!(verdict_of(track(&mut t, "payments/retry.go")), Verdict::OutOfScope));
    match run(
        &Commands::Reject { file: "payments/retry.go".to_string(), reason: "intentional regression".to_string() },
        &mut t,
        "test-user",
    ) {
        Ok(Outcome::Rejected { file, reason }) => {
            assert_eq!(file, "payments/retry.go");
            assert_eq!(reason, "intentional regression");
        }
        _ => panic!("expected a rejection"),
    }
    // Rejected files are skipped, not reverted.
    match run(&Commands::RevertAll, &mut t, "test-user") {
        Ok(Outcome::Reverted { paths, .. }) => assert!(paths.is_empty()),
        _ => panic!("expected the files to revert"),
    }
    track(&mut t, "payments/retry.go").ok().unwrap();
    match run(&Commands::RevertAll, &mut t, "test-user") {
        Ok(Outcome::Reverted { scope, paths }) => {
            assert_eq!(scope.task, "tight scope");
            assert_eq!(paths, vec!["payments/retry.go".to_string()]);
        }
        _ => panic!("expected the files to revert"),
    }
}

#[test]
fn weekly_report_counts_the_week() {
    let mut t = tracker();
    init(&mut t, "test", Some("src/*.go"), None);
    for f in ["src/a.go", "src/b.go", "Cargo.toml", "package.json"] {
        track(&mut t, f).ok().unwrap();
    }
    match run(&Commands::ReportWeekly, &mut t, "test-user") {
        Ok(Outcome::Weekly(w)) => {
            assert_eq!(w.total_tasks, 1);
            assert_eq!(w.total_out_of_scope, 2);
            assert!(w.top_violations.iter().any(|v| v.pattern == "dependency change"));
        }
        _ => panic!("expected a weekly tally"),
    }
}

#[test]
fn invalid_glob_fails_cleanly() {
    let mut t = tracker();
    let c = Commands::Init { task: "bad".into(), files: Some("[invalid".into()), exclude: None, project: None };
    match run(&c, &mut t, "u") {
        Err(e) => {
            assert!(matches!(e, Error::InvalidPattern(_)));
            assert!(e.message().starts_with("invalid pattern"));
            assert_eq!(e.exit_code(), 1);
        }
        Ok(_) => panic!("expected an error"),
    }
    assert!(t.db.list_all_scopes().unwrap().is_empty());
}

#[test]
fn no_active_scope_errors() {
    let mut t = tracker();
    match run(&Commands::Status, &mut t, "u") {
        Err(e) => {
            assert_eq!(e.message(), "no active scope");
            assert_eq!(e.exit_code(), 2);
        }
        Ok(_) => panic!("expected an error"),
    }
}

#[test]
fn file_not_tracked_error() {
    let mut t = tracker();
    init(&mut t, "work", Some("src/*.go"), None);
    match run(&Commands::Approve { file: "never-tracked.go".into() }, &mut t, "u") {
        Err(e) => assert!(e.message().contains("file not tracked")),
        Ok(_) => panic!("expected an error"),
    }
}

#[test]
fn default_project_and_serve() {
    let mut t = tracker();
    let c = Commands::Init { task: "x".into(), files: None, exclude: None, project: None };
    match run(&c, &mut t, "u") {
        Ok(Outcome::Created(s)) => assert_eq!(s.project, "."),
        _ => panic!("expected a created scope"),
    }
    let cli = Cli { command: Commands::Mcp { project: Some("/p".into()) } };
    match cli.execute(&mut t, "u") {
        Ok(Outcome::Serve { project }) => assert_eq!(project.as_deref(), Some("/p")),
        _ => panic!("expected to serve"),
    }
}

#[test]
fn approved_changes_are_kept_by_revert() {
    let mut t = tracker();
    init(&mut t, "scope", Some("src/*.rs"), None);
    track(&mut t, "docs/a.md").ok().unwrap();
    track(&mut t, "docs/b.md").ok().unwrap();
    run(&Commands::Approve { file: "docs/a.md".into() }, &mut t, "u").ok().unwrap();
    match run(&Commands::RevertAll, &mut t, "u") {
        Ok(Outcome::Reverted { paths, .. }) => assert_eq!(paths, vec!["docs/b.md".to_string()]),
        _ => panic!("expected the files to revert"),
    }
}

#[test]
fn refusals_leave_the_store_unchanged() {
    let mut t = tracker();
    let bad = Commands::Init {
        task: "t".to_string(),
        files: Some("[invalid".to_string()),
        exclude: None,
        project: None,
    };
    match run(&bad, &mut t, "test-user") {
        Err(e) => assert!(e.message().starts_with("invalid pattern: ")),
        Ok(_) => panic!("an invalid pattern must be refused"),
    }
    assert_eq!(t.db.scope_list().len(), 0);
    match run(&Commands::Status, &mut t, "test-user") {
        Err(e) => assert_eq!(e.message(), "no active scope"),
        Ok(_) => panic!("no scope is active"),
    }
    init(&mut t, "t", Some("src/*.rs"), None);
    match run(&Commands::Approve { file: "src/x.rs".to_string() }, &mut t, "test-user") {
        Err(e) => assert_eq!(e.message(), "file not tracked: src/x.rs"),
        Ok(_) => panic!("nothing is pending"),
    }
    match track(&mut t, ".env") {
        Err(e) => assert_eq!(e.message(), "permission denied: blocked file cannot be modified: .env"),
        Ok(_) => panic!("a secrets file must be refused"),
    }
    assert_eq!(t.db.scope_list().len(), 1);
    assert_eq!(t.db.event_list().len(), 0);
}
