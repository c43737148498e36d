use scopesafe::db::Database;
use scopesafe::error::Error;
use scopesafe::mcp::{
    route_method, route_tool, rpc_error, rpc_error_code, run_mcp, summarize_events, verdict,
    McpFailure, McpReply, McpRequest, McpServer, Method, Tool, ToolArgs, Verdict,
};
use scopesafe::tracker::FileEvent;

fn server() -> McpServer {
    McpServer::new(Database::new(), "/repo".to_string(), "tester".to_string())
}

fn no_args() -> ToolArgs {
    ToolArgs { task: None, files: None, exclude: None, project: None, file: None, action: None }
}

fn method(m: &str) -> McpRequest {
    McpRequest { method: m.to_string(), tool: None, uri: None, args: no_args() }
}

fn call(tool: &str, args: ToolArgs) -> McpRequest {
    McpRequest { method: "tools/call".to_string(), tool: Some(tool.to_string()), uri: None, args }
}

fn init(task: &str, files: Option<&str>, exclude: Option<&str>) -> McpRequest {
    let mut a = no_args();
    a.task = Some(task.to_string());
    a.files = files.map(|s| s.to_string());
    a.exclude = exclude.map(|s| s.to_string());
    call("init_scope", a)
}

fn file_args(file: &str, action: Option<&str>) -> ToolArgs {
    let mut a = no_args();
    a.file = Some(file.to_string());
    a.action = action.map(|s| s.to_string());
    a
}

fn text(r: Result<McpReply, McpFailure>) -> String {
    match r {
        Ok(McpReply::Text(t)) => t,
        _ => panic!("expected a text answer"),
    }
}

fn checked(r: Result<McpReply, McpFailure>) -> (bool, bool, Verdict) {
    match r {
        Ok(McpReply::Checked { in_scope, is_blocked, verdict, .. }) => (in_scope, is_blocked, verdict),
        _ => panic!("expected a file check"),
    }
}

#[test]
fn test_mcp_initialize() {
    let mut server = server();
    match server.dispatch(&method("initialize")) {
        Ok(McpReply::Initialize { protocol_version, name, version }) => {
            assert_eq!(protocol_version, "2024-11-05");
            assert_eq!(name, "scopesafe");
            assert!(!version.is_empty());
        }
        _ => panic!("initialize should succeed"),
    }
}

#[test]
fn test_mcp_tools_list_has_required_tools() {
    let mut server = server();
    let names = match server.dispatch(&method("tools/list")) {
        Ok(McpReply::ToolsList { names }) => names,
        _ => panic!("tools is a list"),
    };
    for required in ["init_scope", "track_file", "check_file", "audit", "status", "weekly_report"] {
        assert!(names.iter().any(|n| n == required), "missing tool: {}", required);
    }
    assert_eq!(names.len(), 7);
}

#[test]
fn test_mcp_init_scope_and_check_file() {
    let mut server = server();
    let t = text(server.dispatch(&init("fix retry timeout", Some("payments/*.go"), Some("payments/vendor/*"))));
    assert!(t.contains("Scope created"));
    assert!(t.contains("fix retry timeout"));

    // check_file in scope
    let (in_scope, _, v) = checked(server.dispatch(&call("check_file", file_args("payments/retry.go", None))));
    assert_eq!(v.label(), "ALLOWED");
    assert!(in_scope);

    // check_file out of scope (excluded)
    let (_, _, v) = checked(server.dispatch(&call("check_file", file_args("payments/vendor/dep.go", None))));
    assert_eq!(v.label(), "OUT_OF_SCOPE");

    // check_file blocked
    let (_, _, v) = checked(server.dispatch(&call("check_file", file_args(".env", None))));
    assert_eq!(v.label(), "BLOCKED");
}

#[test]
fn test_mcp_track_file_blocks_secrets() {
    let mut server = server();
    server.dispatch(&init("test", None, None)).ok().unwrap();

    let result = server.dispatch(&call("track_file", file_args(".env", Some("modify"))));
    assert!(result.is_err());
    let err_msg = match result {
        Err(f) => rpc_error(&f).message,
        Ok(_) => unreachable!(),
    };
    assert!(err_msg.contains("blocked") || err_msg.contains("permission"));
}

#[test]
fn test_mcp_track_in_then_audit() {
    let mut server = server();
    server.dispatch(&init("work", Some("src/*.rs"), None)).ok().unwrap();
    server.dispatch(&call("track_file", file_args("src/main.rs", Some("modify")))).ok().unwrap();
    server.dispatch(&call("track_file", file_args("README.md", Some("modify")))).ok().unwrap();

    match server.dispatch(&call("audit", no_args())) {
        Ok(McpReply::Audit { status, summary }) => {
            assert!(summary.contains("src/main.rs"));
            assert!(summary.contains("README.md"));
            // 1 in scope + 0.5 pending / 2 = 75%
            assert_eq!(status.credit_halves * 50 / status.total_files as u128, 75);
        }
        _ => panic!("expected an audit"),
    }
}

#[test]
fn test_mcp_resources_read_active_scope() {
    let mut server = server();
    server.dispatch(&init("the work", None, None)).ok().unwrap();
    let mut req = method("resources/read");
    req.uri = Some("scope://active".to_string());
    match server.dispatch(&req) {
        Ok(McpReply::ActiveScope(s)) => assert!(s.task.contains("the work")),
        _ => panic!("expected the active scope"),
    }
}

#[test]
fn tracked_answer_text() {
    let mut server = server();
    server.dispatch(&init("work", Some("src/*.rs"), None)).ok().unwrap();
    let a = text(server.dispatch(&call("track_file", file_args("src/main.rs", Some("modify")))));
    assert_eq!(a, "tracked: src/main.rs (in scope, action=modify, event_id=1)");
    let b = text(server.dispatch(&call("track_file", file_args("README.md", Some("create")))));
    assert_eq!(b, "tracked: README.md (OUT OF SCOPE, action=create, event_id=2)");
}

#[test]
fn created_answer_text() {
    let mut server = server();
    let t = text(server.dispatch(&init("work", None, None)));
    assert!(t.starts_with("Scope created: work\nID: scope-"));
    assert!(t.ends_with("\nFiles: (all)\nExclude: (none)"));
    let t = text(server.dispatch(&init("w2", Some("a/*"), Some("a/b/*"))));
    assert!(t.ends_with("\nFiles: a/*\nExclude: a/b/*"));
}

#[test]
fn new_scope_defaults_to_the_server_project() {
    let mut server = server();
    server.dispatch(&init("work", None, None)).ok().unwrap();
    match server.dispatch(&{
        let mut r = method("resources/read");
        r.uri = Some("scope://active".to_string());
        r
    }) {
        Ok(McpReply::ActiveScope(s)) => {
            assert_eq!(s.project, "/repo");
            assert_eq!(s.owner, "tester");
        }
        _ => panic!("expected the active scope"),
    }
}

#[test]
fn request_errors() {
    let mut server = server();
    let msg = |r: Result<McpReply, McpFailure>| match r {
        Err(McpFailure::Request(m)) => m,
        _ => panic!("expected a request error"),
    };
    assert_eq!(msg(server.dispatch(&method("bogus"))), "method not found: bogus");
    assert_eq!(msg(server.dispatch(&method("tools/call"))), "missing tool name");
    assert_eq!(msg(server.dispatch(&call("nope", no_args()))), "unknown tool: nope");
    assert_eq!(msg(server.dispatch(&call("init_scope", no_args()))), "missing required argument: task");
    assert_eq!(msg(server.dispatch(&call("track_file", no_args()))), "missing required argument: file");
    assert_eq!(
        msg(server.dispatch(&call("track_file", file_args("a.rs", None)))),
        "missing required argument: action"
    );
    assert_eq!(msg(server.dispatch(&method("resources/read"))), "missing uri");
    let mut req = method("resources/read");
    req.uri = Some("scope://other".to_string());
    assert_eq!(msg(server.dispatch(&req)), "unknown resource: scope://other");
}

#[test]
fn rpc_errors_of_failures() {
    let mut server = server();
    match run_mcp(&mut server, &call("status", no_args())) {
        Err(e) => {
            assert_eq!(e.code, -32004);
            assert_eq!(e.message, "no active scope");
        }
        Ok(_) => panic!("expected an error"),
    }
    server.dispatch(&init("t", None, None)).ok().unwrap();
    match run_mcp(&mut server, &call("track_file", file_args("id_rsa", Some("modify")))) {
        Err(e) => {
            assert_eq!(e.code, -32003);
            assert_eq!(e.message, "permission denied: blocked file cannot be modified: id_rsa");
        }
        Ok(_) => panic!("expected an error"),
    }
    match run_mcp(&mut server, &method("nope")) {
        Err(e) => assert_eq!(e.code, -32000),
        Ok(_) => panic!("expected an error"),
    }
    match run_mcp(&mut server, &init("bad", Some("[oops"), None)) {
        Err(e) => {
            assert_eq!(e.code, -32000);
            assert!(e.message.starts_with("invalid pattern: "));
        }
        Ok(_) => panic!("expected an error"),
    }
    assert_eq!(rpc_error_code(&Error::FileNotTracked("x".into())), -32004);
    assert!(matches!(run_mcp(&mut server, &method("ping")), Ok(McpReply::Empty)));
}

#[test]
fn status_and_list_scopes() {
    let mut server = server();
    let t = text(server.dispatch(&call("list_scopes", no_args())));
    assert_eq!(t, "No scopes yet.");
    server.dispatch(&init("work", Some("src/*.go"), None)).ok().unwrap();
    server.dispatch(&call("track_file", file_args("src/main.go", Some("modify")))).ok().unwrap();
    server.dispatch(&call("track_file", file_args("README.md", Some("modify")))).ok().unwrap();
    match server.dispatch(&call("status", no_args())) {
        Ok(McpReply::Status(s)) => {
            assert_eq!(s.total_files, 2);
            assert_eq!(s.in_scope_files, 1);
            assert_eq!(s.out_of_scope_files, 1);
            assert_eq!(s.blocked_files, 0);
            assert_eq!(s.scope.task, "work");
        }
        _ => panic!("expected a status"),
    }
    let t = text(server.dispatch(&call("list_scopes", no_args())));
    assert!(t.starts_with("scope-"));
    assert!(t.ends_with(" — work [Active]\n"));
}

#[test]
fn weekly_report_tool() {
    let mut server = server();
    server.dispatch(&init("work", Some("src/*.go"), None)).ok().unwrap();
    server.dispatch(&call("track_file", file_args("Cargo.toml", Some("modify")))).ok().unwrap();
    match server.dispatch(&call("weekly_report", no_args())) {
        Ok(McpReply::Weekly(w)) => {
            assert_eq!(w.total_tasks, 1);
            assert_eq!(w.total_out_of_scope, 1);
        }
        _ => panic!("expected a weekly report"),
    }
}

#[test]
fn routing() {
    assert!(matches!(route_method("initialize"), Method::Initialize));
    assert!(matches!(route_method("notifications/initialized"), Method::Ping));
    assert!(matches!(route_method("resources/list"), Method::ResourcesList));
    assert!(matches!(route_method("tools/call "), Method::NotFound));
    assert!(matches!(route_tool("weekly_report"), Some(Tool::WeeklyReport)));
    assert!(route_tool("Audit").is_none());
    assert_eq!(verdict(true, true).label(), "BLOCKED");
    assert_eq!(verdict(false, false).track_tag(), "OUT OF SCOPE");
    assert_eq!(verdict(true, false).track_tag(), "in scope");
}

fn ev(path: &str, in_scope: bool, blocked: bool, approved: Option<bool>) -> FileEvent {
    FileEvent {
        id: 0,
        scope_id: "s".to_string(),
        file_path: path.to_string(),
        action: "modify".to_string(),
        timestamp: "2024-01-01T00:00:00+00:00".to_string(),
        approved,
        approved_by: None,
        rejection_reason: None,
        in_scope,
        is_blocked: blocked,
    }
}

#[test]
fn summary_of_events() {
    let events = vec![
        ev("src/a.rs", true, false, None),
        ev("README.md", false, false, None),
        ev("docs/x.md", false, false, Some(false)),
        ev(".env", false, true, None),
        ev("README.md", false, false, Some(true)),
    ];
    assert_eq!(
        summarize_events(&events),
        "IN SCOPE:\n  ✓ src/a.rs\n\nOUT OF SCOPE:\n  ⚠ README.md [APPROVED]\n  ⚠ docs/x.md [REJECTED]\n\nBLOCKED:\n  ⛔ .env\n"
    );
    assert_eq!(summarize_events(&[ev("a.rs", true, false, None)]), "IN SCOPE:\n  ✓ a.rs\n");
    assert_eq!(summarize_events(&[]), "IN SCOPE:\n");
}
