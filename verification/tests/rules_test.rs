use scopesafe::clock::{clock_instant, rfc3339_of, ClockReading};
use scopesafe::scope::{scope_at, ScopeStatus};
use scopesafe::error::Error;
use scopesafe::scope::{uuid_of, uuid_simple, Scope};
use scopesafe::text::{count_string, int_string};

fn scope(files: Option<&str>, exclude: Option<&str>) -> Scope {
    Scope::new(
        "t".to_string(),
        files.map(|s| s.to_string()),
        exclude.map(|s| s.to_string()),
        None,
        "tester".to_string(),
    )
    .unwrap()
}

#[test]
fn secrets_are_blocked_anywhere() {
    let s = scope(Some("src/*.rs"), None);
    for p in [
        "deploy/service-account-prod.json",
        "x/y.keystore",
        ".env.production",
        "keys/id_ed25519.pub",
        "a\\b\\server.crt",
        "deep/dir/tls.cert",
        "store.jks",
        "bundle.p12",
        "putty.ppk",
        "api.token",
        "cfg/secrets.yaml",
        "prod.env",
    ] {
        assert!(s.is_blocked_file(p), "{} should be blocked", p);
    }
    for p in ["service-account.yaml", "environment.md", "id.rs", "src/keys.rs", "pemfile.txt"] {
        assert!(!s.is_blocked_file(p), "{} should not be blocked", p);
    }
}

#[test]
fn exclusion_wins_over_file_patterns() {
    let s = scope(Some("src/*"), Some("src/gen/*"));
    assert!(s.is_file_in_scope("src/main.rs"));
    assert!(!s.is_file_in_scope("src/gen/out.rs"));
    assert!(!s.is_file_in_scope("src/gen/deep/er.rs"));
}

#[test]
fn without_file_patterns_only_exclusions_count() {
    let s = scope(None, Some("*.log"));
    assert!(s.is_file_in_scope("anything/at/all.rs"));
    assert!(!s.is_file_in_scope("logs/app.log"));
}

#[test]
fn paths_are_normalized() {
    let s = scope(Some("src/*.rs"), None);
    assert_eq!(s.is_file_in_scope("./src/a.rs"), s.is_file_in_scope("src/a.rs"));
    assert!(s.is_file_in_scope("././src/a.rs"));
    assert!(s.is_file_in_scope("src\\a.rs"));
    assert!(!s.is_file_in_scope("./lib/a.rs"));
}

#[test]
fn character_classes_follow_the_glob_crate() {
    let s = scope(Some("src/[ab].rs"), None);
    assert!(s.is_file_in_scope("src/a.rs"));
    assert!(s.is_file_in_scope("src/b.rs"));
    assert!(!s.is_file_in_scope("src/c.rs"));
    let q = scope(Some("src/?.rs"), None);
    assert!(q.is_file_in_scope("src/x.rs"));
    assert!(!q.is_file_in_scope("src/xy.rs"));
}

#[test]
fn invalid_exclude_pattern_is_reported() {
    let r = Scope::new("t".into(), Some("src/*".into()), Some("a/***".into()), None, "u".into());
    match r {
        Err(Error::InvalidPattern(m)) => assert!(!m.is_empty()),
        _ => panic!("expected an invalid pattern"),
    }
}

#[test]
fn trimmed_pattern_lists() {
    let s = scope(Some(" src/*.rs ,lib/*.go,"), None);
    assert_eq!(s.files_pattern().unwrap(), vec!["src/*.rs", "lib/*.go", ""]);
    assert!(s.exclude_pattern().is_none());
}

#[test]
fn scope_ids_are_hex_time() {
    let s = scope(None, None);
    let hex = &s.id["scope-".len()..];
    assert!(!hex.is_empty());
    assert!(hex.chars().all(|c| c.is_ascii_hexdigit() && !c.is_ascii_uppercase()));
    let u = uuid_simple().unwrap();
    assert!(u.chars().all(|c| c.is_ascii_hexdigit()));
    assert!(u.len() >= 15);
    assert!(chrono::DateTime::parse_from_rfc3339(&s.created_at).is_ok());
}

#[test]
fn exit_codes_and_messages() {
    let cases: Vec<(Error, i32, &str)> = vec![
        (Error::Database("disk".into()), 1, "database error: disk"),
        (Error::Io("pipe".into()), 1, "IO error: pipe"),
        (Error::ScopeNotFound, 2, "scope not found"),
        (Error::ScopeAlreadyExists, 3, "scope already exists"),
        (Error::InvalidPattern("x".into()), 1, "invalid pattern: x"),
        (Error::NoActiveScope, 2, "no active scope"),
        (Error::FileNotTracked("f".into()), 2, "file not tracked: f"),
        (Error::PermissionDenied("p".into()), 1, "permission denied: p"),
    ];
    for (e, code, msg) in cases {
        assert_eq!(e.exit_code(), code);
        assert_eq!(e.message(), msg);
    }
}

#[test]
fn numbers_in_decimal() {
    assert_eq!(int_string(0), "0");
    assert_eq!(int_string(42), "42");
    assert_eq!(int_string(-7), "-7");
    assert_eq!(int_string(i64::MIN), "-9223372036854775808");
    assert_eq!(count_string(1000), "1000");
}

#[test]
fn scope_made_of_parts() {
    let s = scope_at(
        "task".into(),
        Some("a/*".into()),
        None,
        None,
        "me".into(),
        Some("1f".into()),
        Some("2024-01-01T00:00:00+00:00".into()),
    )
    .unwrap();
    assert_eq!(s.id, "scope-1f");
    assert_eq!(s.project, ".");
    assert_eq!(s.owner, "me");
    assert_eq!(s.created_at, "2024-01-01T00:00:00+00:00");
    assert_eq!(s.status, ScopeStatus::Active);
    match scope_at("t".into(), None, None, None, "me".into(), None, Some("x".into())) {
        Err(Error::Io(_)) => {}
        _ => panic!("expected a clock error"),
    }
    match scope_at("t".into(), None, None, None, "me".into(), Some("1".into()), None) {
        Err(Error::Io(_)) => {}
        _ => panic!("expected a clock error"),
    }
    match scope_at("t".into(), Some("[x".into()), None, None, "me".into(), None, None) {
        Err(Error::InvalidPattern(_)) => {}
        _ => panic!("the pattern is checked first"),
    }
}

#[test]
fn clock_readings_as_instants() {
    let after = ClockReading { before_epoch: false, secs: 1_717_588_800, nanos: 5 };
    assert_eq!(clock_instant(&after), Some((1_717_588_800, 5)));
    let before = ClockReading { before_epoch: true, secs: 10, nanos: 250_000_000 };
    assert_eq!(clock_instant(&before), Some((-11, 750_000_000)));
    let whole = ClockReading { before_epoch: true, secs: 10, nanos: 0 };
    assert_eq!(clock_instant(&whole), Some((-10, 0)));
    let far = ClockReading { before_epoch: false, secs: 8_210_266_876_800, nanos: 0 };
    assert_eq!(clock_instant(&far), None);
    let first = ClockReading { before_epoch: true, secs: 8_334_601_315_200, nanos: 0 };
    assert_eq!(clock_instant(&first), Some((-8_334_601_315_200, 0)));
    let too_early = ClockReading { before_epoch: true, secs: 8_334_601_315_200, nanos: 1 };
    assert_eq!(clock_instant(&too_early), None);
}

#[test]
fn scope_ids_and_times_from_clock_readings() {
    let after = ClockReading { before_epoch: false, secs: 1, nanos: 5 };
    assert_eq!(uuid_of(&after), Some("3b9aca05".to_string()));
    let zero = ClockReading { before_epoch: false, secs: 0, nanos: 0 };
    assert_eq!(uuid_of(&zero), Some("0".to_string()));
    let before = ClockReading { before_epoch: true, secs: 1, nanos: 0 };
    assert_eq!(uuid_of(&before), None);

    let noon = ClockReading { before_epoch: false, secs: 1_717_502_400, nanos: 0 };
    assert_eq!(rfc3339_of(&noon), Some("2024-06-04T12:00:00+00:00".to_string()));
    let early = ClockReading { before_epoch: true, secs: 1, nanos: 500_000_000 };
    assert_eq!(rfc3339_of(&early), Some("1969-12-31T23:59:58.500+00:00".to_string()));
    let far = ClockReading { before_epoch: false, secs: 8_210_266_876_800, nanos: 0 };
    assert_eq!(rfc3339_of(&far), None);

    let s = scope_at(
        "t".to_string(),
        None,
        None,
        None,
        "u".to_string(),
        uuid_of(&after),
        rfc3339_of(&noon),
    )
    .unwrap();
    assert_eq!(s.id, "scope-3b9aca05");
    assert_eq!(s.created_at, "2024-06-04T12:00:00+00:00");
}
