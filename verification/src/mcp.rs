//! The decisions of the MCP server: which method and tool a request names, what a
//! file check answers, how a tracked file is recorded, and which error code a failure
//! gets. The JSON-RPC framing around them lives with the program.
use vstd::prelude::*;

use crate::auditor::{
    count_events, count_if, counts_of, is_blocked, is_in_scope, is_out_of_scope, latest_by_file,
    latest_events, lemma_count_bounded, ScopeStatus,
};
use crate::db::{created_after, events_for, newest_active, scope_saved, Database};
use crate::error::{message_of, Error};
use crate::order::sort_by;
use crate::patterns::PatternAnalyzer;
use crate::report::{tally_of_current_week, weekly_of, WeeklyTally};
use crate::scope::{
    lemma_secret_files_blocked, opt_view, path_blocked, path_in_scope, patterns_error, secret_name,
    Scope,
};
use crate::text::{basename, concat, int_decimal, int_string, normalize_path, str_eq};
use crate::tracker::{blocked_message, fresh_event, FileEvent};

verus! {

/// What the server answers about a file.
#[derive(Debug, Clone, Copy, PartialEq, Eq, Structural)]
pub enum Verdict {
    Blocked,
    Allowed,
    OutOfScope,
}

/// A blocked file is blocked whatever the scope says; otherwise the scope decides.
pub open spec fn verdict_of(in_scope: bool, is_blocked: bool) -> Verdict {
    if is_blocked {
        Verdict::Blocked
    } else if in_scope {
        Verdict::Allowed
    } else {
        Verdict::OutOfScope
    }
}

/// The verdict on a file with these flags.
pub fn verdict(in_scope: bool, is_blocked: bool) -> (v: Verdict)
    ensures
        v == verdict_of(in_scope, is_blocked),
{
    if is_blocked {
        Verdict::Blocked
    } else if in_scope {
        Verdict::Allowed
    } else {
        Verdict::OutOfScope
    }
}

impl Verdict {
    /// The verdict as a file check reports it.
    pub fn label(&self) -> (s: &'static str)
        ensures
            s@ == match *self {
                Verdict::Blocked => "BLOCKED"@,
                Verdict::Allowed => "ALLOWED"@,
                Verdict::OutOfScope => "OUT_OF_SCOPE"@,
            },
    {
        match self {
            Verdict::Blocked => "BLOCKED",
            Verdict::Allowed => "ALLOWED",
            Verdict::OutOfScope => "OUT_OF_SCOPE",
        }
    }

    /// The verdict as a tracked file is tagged.
    pub fn track_tag(&self) -> (s: &'static str)
        ensures
            s@ == match *self {
                Verdict::Blocked => "BLOCKED"@,
                Verdict::Allowed => "in scope"@,
                Verdict::OutOfScope => "OUT OF SCOPE"@,
            },
    {
        match self {
            Verdict::Blocked => "BLOCKED",
            Verdict::Allowed => "in scope",
            Verdict::OutOfScope => "OUT OF SCOPE",
        }
    }
}

/// The JSON-RPC error code for a failure.
pub open spec fn rpc_code_of(e: Error) -> int {
    match e {
        Error::NoActiveScope | Error::FileNotTracked(_) => -32004,
        Error::PermissionDenied(_) => -32003,
        _ => -32000,
    }
}

/// The JSON-RPC error code for `e`.
pub fn rpc_error_code(e: &Error) -> (c: i32)
    ensures
        c == rpc_code_of(*e),
{
    match e {
        Error::NoActiveScope | Error::FileNotTracked(_) => -32004,
        Error::PermissionDenied(_) => -32003,
        _ => -32000,
    }
}

/// The methods the server answers.
#[derive(Debug, Clone, Copy, PartialEq, Eq, Structural)]
pub enum Method {
    Initialize,
    Ping,
    ToolsList,
    ToolsCall,
    ResourcesList,
    ResourcesRead,
    NotFound,
}

/// The method a request names.
pub open spec fn method_of(m: Seq<char>) -> Method {
    if m == "initialize"@ {
        Method::Initialize
    } else if m == "notifications/initialized"@ || m == "ping"@ {
        Method::Ping
    } else if m == "tools/list"@ {
        Method::ToolsList
    } else if m == "tools/call"@ {
        Method::ToolsCall
    } else if m == "resources/list"@ {
        Method::ResourcesList
    } else if m == "resources/read"@ {
        Method::ResourcesRead
    } else {
        Method::NotFound
    }
}

/// The method named by `m`.
pub fn route_method(m: &str) -> (r: Method)
    ensures
        r == method_of(m@),
{
    if str_eq(m, "initialize") {
        Method::Initialize
    } else if str_eq(m, "notifications/initialized") || str_eq(m, "ping") {
        Method::Ping
    } else if str_eq(m, "tools/list") {
        Method::ToolsList
    } else if str_eq(m, "tools/call") {
        Method::ToolsCall
    } else if str_eq(m, "resources/list") {
        Method::ResourcesList
    } else if str_eq(m, "resources/read") {
        Method::ResourcesRead
    } else {
        Method::NotFound
    }
}

/// The tools the server offers.
#[derive(Debug, Clone, Copy, PartialEq, Eq, Structural)]
pub enum Tool {
    InitScope,
    TrackFile,
    CheckFile,
    Audit,
    Status,
    ListScopes,
    WeeklyReport,
}

/// The tool a call names, if any.
pub open spec fn tool_of(n: Seq<char>) -> Option<Tool> {
    if n == "init_scope"@ {
        Some(Tool::InitScope)
    } else if n == "track_file"@ {
        Some(Tool::TrackFile)
    } else if n == "check_file"@ {
        Some(Tool::CheckFile)
    } else if n == "audit"@ {
        Some(Tool::Audit)
    } else if n == "status"@ {
        Some(Tool::Status)
    } else if n == "list_scopes"@ {
        Some(Tool::ListScopes)
    } else if n == "weekly_report"@ {
        Some(Tool::WeeklyReport)
    } else {
        None
    }
}

/// The tool named by `n`, if any.
pub fn route_tool(n: &str) -> (r: Option<Tool>)
    ensures
        r == tool_of(n@),
{
    if str_eq(n, "init_scope") {
        Some(Tool::InitScope)
    } else if str_eq(n, "track_file") {
        Some(Tool::TrackFile)
    } else if str_eq(n, "check_file") {
        Some(Tool::CheckFile)
    } else if str_eq(n, "audit") {
        Some(Tool::Audit)
    } else if str_eq(n, "status") {
        Some(Tool::Status)
    } else if str_eq(n, "list_scopes") {
        Some(Tool::ListScopes)
    } else if str_eq(n, "weekly_report") {
        Some(Tool::WeeklyReport)
    } else {
        None
    }
}

/// The server's state: the store, the project root new scopes default to, and the
/// user who owns them.
pub struct McpServer {
    pub db: Database,
    pub project_root: String,
    pub owner: String,
}

/// The newest active scope of `db`, when there is one.
pub open spec fn active_of(db: Database) -> Option<Scope> {
    match newest_active(db.scope_rows(), db.scope_rows().len() as int) {
        Some(i) => Some(db.scope_rows()[i]),
        None => None,
    }
}

impl McpServer {
    /// A server over `db`.
    pub fn new(db: Database, project_root: String, owner: String) -> (s: McpServer)
        ensures
            s.db == db,
            s.project_root == project_root,
            s.owner == owner,
    {
        McpServer { db, project_root, owner }
    }

    /// The `init_scope` tool: a new scope, defaulting to the server's project root,
    /// saved in the store.
    pub fn init_scope(
        &mut self,
        task: String,
        files: Option<String>,
        exclude: Option<String>,
        project: Option<String>,
    ) -> (r: Result<Scope, Error>)
        ensures
            final(self).project_root == old(self).project_root,
            final(self).owner == old(self).owner,
            final(self).db.event_rows() == old(self).db.event_rows(),
            final(self).db.last_id() == old(self).db.last_id(),
            patterns_error(opt_view(files), opt_view(exclude)) matches Some(m) ==> (r matches Err(
                Error::InvalidPattern(e),
            ) && e@ == m),
            patterns_error(opt_view(files), opt_view(exclude)) is None ==> (r is Ok || r matches Err(
                Error::Io(_),
            )),
            r is Err ==> final(self).db == old(self).db,
            r matches Ok(s) ==> {
                &&& s.task == task
                &&& s.files == files
                &&& s.exclude == exclude
                &&& s.project@ == (match project {
                    Some(p) => p@,
                    None => old(self).project_root@,
                })
                &&& s.owner == old(self).owner
                &&& s.status == crate::scope::ScopeStatus::Active
                &&& scope_saved(old(self).db.scope_rows(), final(self).db.scope_rows(), s)
            },
    {
        let project = match project {
            Some(p) => p,
            None => self.project_root.clone(),
        };
        let scope = Scope::new(task, files, exclude, Some(project), self.owner.clone())?;
        let _ = self.db.save_scope(&scope);
        Ok(scope)
    }

    /// The `check_file` tool: whether `file` is in the active scope, whether it is
    /// blocked, and the verdict.
    pub fn check_file(&self, file: &str) -> (r: Result<(bool, bool, Verdict), Error>)
        ensures
            active_of(self.db) is None ==> r matches Err(Error::NoActiveScope),
            active_of(self.db) matches Some(s) ==> {
                let i = path_in_scope(opt_view(s.files), opt_view(s.exclude), file@);
                let b = path_blocked(file@);
                r == Ok::<(bool, bool, Verdict), Error>((i, b, verdict_of(i, b)))
            },
    {
        let scope = self.db.get_active_scope()?;
        let in_scope = scope.is_file_in_scope(file);
        let is_blocked = scope.is_blocked_file(file);
        Ok((in_scope, is_blocked, verdict(in_scope, is_blocked)))
    }

    /// The `track_file` tool: records `action` on `file` against the active scope,
    /// stamped with the current time. A blocked file is refused and nothing is
    /// recorded; so is any file when the clock reads a time outside the calendar.
    pub fn track_file(&mut self, file: &str, action: &str) -> (r: Result<(FileEvent, Verdict), Error>)
        ensures
            final(self).project_root == old(self).project_root,
            final(self).owner == old(self).owner,
            final(self).db.scope_rows() == old(self).db.scope_rows(),
            r is Err ==> final(self).db.event_rows() == old(self).db.event_rows(),
            active_of(old(self).db) is None ==> r matches Err(Error::NoActiveScope),
            active_of(old(self).db) matches Some(s) ==> {
                let i = path_in_scope(opt_view(s.files), opt_view(s.exclude), file@);
                let b = path_blocked(file@);
                &&& b ==> (r matches Err(Error::PermissionDenied(m)) && m@ == blocked_message(file@))
                &&& !b && old(self).db.last_id() < i64::MAX ==> match r {
                    Ok((e, v)) => {
                        &&& v == verdict_of(i, b)
                        &&& e.id == old(self).db.last_id() + 1
                        &&& fresh_event(e, s.id@, file@, action@, i, b)
                        &&& final(self).db.event_rows() == old(self).db.event_rows().push(e)
                    },
                    Err(e) => e is Io,
                }
                &&& !b && old(self).db.last_id() >= i64::MAX ==> (r matches Err(e) && (e is Database
                    || e is Io))
            },
    {
        let scope = self.db.get_active_scope()?;
        let in_scope = scope.is_file_in_scope(file);
        let is_blocked = scope.is_blocked_file(file);
        if is_blocked {
            return Err(Error::PermissionDenied(concat("blocked file cannot be modified: ", file)));
        }
        let timestamp = match crate::clock::now_rfc3339() {
            Some(t) => t,
            None => {
                return Err(Error::Io(String::from_str("the clock reads a time outside the calendar")));
            },
        };
        let event = FileEvent {
            id: 0,
            scope_id: scope.id.clone(),
            file_path: String::from_str(file),
            action: String::from_str(action),
            timestamp,
            approved: None,
            approved_by: None,
            rejection_reason: None,
            in_scope,
            is_blocked,
        };
        let saved = self.db.save_event(&event)?;
        Ok((saved, verdict(in_scope, is_blocked)))
    }
}


// ---------------------------------------------------------------------------
// The texts of the server's answers
// ---------------------------------------------------------------------------

/// The tag of an out-of-scope file by its decision.
pub open spec fn decision_tag(a: Option<bool>) -> Seq<char> {
    match a {
        Some(true) => "APPROVED"@,
        Some(false) => "REJECTED"@,
        None => "PENDING"@,
    }
}

/// Which events a section of the audit summary lists: those in scope (0), those out
/// of scope (1) and those blocked (2).
pub open spec fn section_pred(k: int) -> spec_fn(FileEvent) -> bool {
    if k == 0 {
        is_in_scope()
    } else if k == 1 {
        is_out_of_scope()
    } else {
        is_blocked()
    }
}

/// The line of an event in section `k` of the audit summary.
pub open spec fn section_line(k: int) -> spec_fn(FileEvent) -> Seq<char> {
    if k == 0 {
        |e: FileEvent| "  ✓ "@ + e.file_path@ + "\n"@
    } else if k == 1 {
        |e: FileEvent| "  ⚠ "@ + e.file_path@ + " ["@ + decision_tag(e.approved) + "]\n"@
    } else {
        |e: FileEvent| "  ⛔ "@ + e.file_path@ + "\n"@
    }
}

/// The lines of the events of `evs` that section `k` lists, in order.
pub open spec fn section_text(evs: Seq<FileEvent>, k: int) -> Seq<char>
    decreases evs.len(),
{
    if evs.len() == 0 {
        Seq::<char>::empty()
    } else {
        section_text(evs.drop_last(), k) + if section_pred(k)(evs.last()) {
            section_line(k)(evs.last())
        } else {
            Seq::<char>::empty()
        }
    }
}

/// The audit summary of the last events on each file: the files in scope, then those
/// out of scope with their decisions, then the blocked ones; an empty section other
/// than the first is left out.
pub open spec fn summary_text(latest: Seq<FileEvent>) -> Seq<char> {
    let outs = if count_if(latest, is_out_of_scope()) > 0 {
        "\nOUT OF SCOPE:\n"@ + section_text(latest, 1)
    } else {
        Seq::<char>::empty()
    };
    let blocked = if count_if(latest, is_blocked()) > 0 {
        "\nBLOCKED:\n"@ + section_text(latest, 2)
    } else {
        Seq::<char>::empty()
    };
    "IN SCOPE:\n"@ + section_text(latest, 0) + outs + blocked
}

/// The answer to a created scope.
pub open spec fn created_text(s: Scope) -> Seq<char> {
    "Scope created: "@ + s.task@ + "\nID: "@ + s.id@ + "\nFiles: "@ + match s.files {
        Some(f) => f@,
        None => "(all)"@,
    } + "\nExclude: "@ + match s.exclude {
        Some(e) => e@,
        None => "(none)"@,
    }
}

/// The answer to a tracked file.
pub open spec fn tracked_text(file: Seq<char>, tag: Seq<char>, action: Seq<char>, id: int) -> Seq<
    char,
> {
    "tracked: "@ + file + " ("@ + tag + ", action="@ + action + ", event_id="@ + int_decimal(id)
        + ")"@
}

/// The name of a scope's status.
pub open spec fn status_name(st: crate::scope::ScopeStatus) -> Seq<char> {
    match st {
        crate::scope::ScopeStatus::Active => "Active"@,
        crate::scope::ScopeStatus::Completed => "Completed"@,
        crate::scope::ScopeStatus::Cancelled => "Cancelled"@,
    }
}

/// One line per scope: its id, its task and its status.
pub open spec fn scope_lines(scopes: Seq<Scope>) -> Seq<char>
    decreases scopes.len(),
{
    if scopes.len() == 0 {
        Seq::<char>::empty()
    } else {
        let s = scopes.last();
        scope_lines(scopes.drop_last()) + s.id@ + " — "@ + s.task@ + " ["@ + status_name(s.status)
            + "]\n"@
    }
}

/// The answer listing `scopes`.
pub open spec fn scope_list_text(scopes: Seq<Scope>) -> Seq<char> {
    if scopes.len() == 0 {
        "No scopes yet."@
    } else {
        scope_lines(scopes)
    }
}

/// The line of `e` in section `k` of the audit summary.
fn section_line_exec(e: &FileEvent, k: u8) -> (r: String)
    requires
        k < 3,
    ensures
        r@ == section_line(k as int)(*e),
{
    if k == 0 {
        let mut r = String::from_str("  ✓ ");
        r.append(e.file_path.as_str());
        r.append("\n");
        r
    } else if k == 1 {
        let mut r = String::from_str("  ⚠ ");
        r.append(e.file_path.as_str());
        r.append(" [");
        let tag = match e.approved {
            Some(true) => "APPROVED",
            Some(false) => "REJECTED",
            None => "PENDING",
        };
        r.append(tag);
        r.append("]\n");
        r
    } else {
        let mut r = String::from_str("  ⛔ ");
        r.append(e.file_path.as_str());
        r.append("\n");
        r
    }
}

/// The lines of section `k` for `evs`, and how many events it lists.
fn section_exec(evs: &[FileEvent], k: u8) -> (r: (String, usize))
    requires
        k < 3,
    ensures
        r.0@ == section_text(evs@, k as int),
        r.1 == count_if(evs@, section_pred(k as int)),
{
    let mut text = String::new();
    let mut n: usize = 0;
    let mut i: usize = 0;
    assert(evs@.take(0) =~= Seq::<FileEvent>::empty());
    while i < evs.len()
        invariant
            k < 3,
            i <= evs.len(),
            text@ == section_text(evs@.take(i as int), k as int),
            n == count_if(evs@.take(i as int), section_pred(k as int)),
        decreases evs.len() - i,
    {
        let ghost t = evs@.take(i as int);
        assert(evs@.take(i + 1).drop_last() =~= t);
        assert(evs@.take(i + 1).last() == evs@[i as int]);
        proof {
            lemma_count_bounded(t, section_pred(k as int));
        }
        let e = &evs[i];
        let listed = if k == 0 {
            e.in_scope
        } else if k == 1 {
            !e.in_scope && !e.is_blocked
        } else {
            e.is_blocked
        };
        if listed {
            let line = section_line_exec(e, k);
            text.append(line.as_str());
            n = n + 1;
        }
        i = i + 1;
    }
    assert(evs@.take(evs.len() as int) =~= evs@);
    (text, n)
}

/// The audit summary of `events`: the last event on each file, listed in scope, out
/// of scope with its decision, and blocked.
pub fn summarize_events(events: &[FileEvent]) -> (r: String)
    ensures
        r@ == summary_text(latest_by_file(events@)),
{
    let latest = latest_events(events);
    let mut s = String::from_str("IN SCOPE:\n");
    let (ins, _) = section_exec(&latest, 0);
    s.append(ins.as_str());
    let (outs, n_out) = section_exec(&latest, 1);
    if n_out > 0 {
        s.append("\nOUT OF SCOPE:\n");
        s.append(outs.as_str());
    }
    let (bl, n_bl) = section_exec(&latest, 2);
    if n_bl > 0 {
        s.append("\nBLOCKED:\n");
        s.append(bl.as_str());
    }
    s
}

/// The answer to a created scope.
fn created_message(s: &Scope) -> (r: String)
    ensures
        r@ == created_text(*s),
{
    let mut r = String::from_str("Scope created: ");
    r.append(s.task.as_str());
    r.append("\nID: ");
    r.append(s.id.as_str());
    r.append("\nFiles: ");
    match &s.files {
        Some(f) => r.append(f.as_str()),
        None => r.append("(all)"),
    }
    r.append("\nExclude: ");
    match &s.exclude {
        Some(e) => r.append(e.as_str()),
        None => r.append("(none)"),
    }
    r
}

/// The answer to a tracked file.
fn tracked_message(file: &str, tag: &str, action: &str, id: i64) -> (r: String)
    ensures
        r@ == tracked_text(file@, tag@, action@, id as int),
{
    let mut r = String::from_str("tracked: ");
    r.append(file);
    r.append(" (");
    r.append(tag);
    r.append(", action=");
    r.append(action);
    r.append(", event_id=");
    let n = int_string(id);
    r.append(n.as_str());
    r.append(")");
    r
}

/// The answer listing `scopes`.
fn scope_list_message(scopes: &[Scope]) -> (r: String)
    ensures
        r@ == scope_list_text(scopes@),
{
    if scopes.len() == 0 {
        return String::from_str("No scopes yet.");
    }
    let mut r = String::new();
    let mut i: usize = 0;
    assert(scopes@.take(0) =~= Seq::<Scope>::empty());
    while i < scopes.len()
        invariant
            i <= scopes.len(),
            r@ == scope_lines(scopes@.take(i as int)),
        decreases scopes.len() - i,
    {
        assert(scopes@.take(i + 1).drop_last() =~= scopes@.take(i as int));
        assert(scopes@.take(i + 1).last() == scopes@[i as int]);
        let s = &scopes[i];
        r.append(s.id.as_str());
        r.append(" — ");
        r.append(s.task.as_str());
        r.append(" [");
        let name = match s.status {
            crate::scope::ScopeStatus::Active => "Active",
            crate::scope::ScopeStatus::Completed => "Completed",
            crate::scope::ScopeStatus::Cancelled => "Cancelled",
        };
        r.append(name);
        r.append("]\n");
        i = i + 1;
    }
    assert(scopes@.take(scopes.len() as int) =~= scopes@);
    r
}


// ---------------------------------------------------------------------------
// Requests and answers
// ---------------------------------------------------------------------------

/// The text arguments of a tool call that the tools read.
pub struct ToolArgs {
    pub task: Option<String>,
    pub files: Option<String>,
    pub exclude: Option<String>,
    pub project: Option<String>,
    pub file: Option<String>,
    pub action: Option<String>,
}

/// A request as the server reads it: the method, the tool name and resource URI of
/// its parameters, and the tool's arguments.
pub struct McpRequest {
    pub method: String,
    pub tool: Option<String>,
    pub uri: Option<String>,
    pub args: ToolArgs,
}

/// What a request is answered with, before it is written out.
pub enum McpReply {
    /// The protocol version the server speaks, and the server's name and version.
    Initialize { protocol_version: String, name: String, version: String },
    /// An empty object.
    Empty,
    /// The names of the tools, in the order they are listed.
    ToolsList { names: Vec<String> },
    /// The list of resources.
    ResourcesList,
    /// The active scope, as the `scope://active` resource.
    ActiveScope(Scope),
    /// A tool's answer as text.
    Text(String),
    /// The answer of `check_file`.
    Checked { file: String, in_scope: bool, is_blocked: bool, verdict: Verdict },
    /// The answer of `audit`: the active scope's counts and its summary.
    Audit { status: ScopeStatus, summary: String },
    /// The answer of `status`: the active scope's counts.
    Status(ScopeStatus),
    /// The answer of `weekly_report`.
    Weekly(WeeklyTally),
}

/// Why a request failed.
pub enum McpFailure {
    /// The library refused.
    Library(Error),
    /// The request itself is wrong; the text says how.
    Request(String),
}

/// A JSON-RPC error: its code and message.
pub struct RpcError {
    pub code: i32,
    pub message: String,
}

/// The names of the tools, in the order they are listed.
pub open spec fn tool_names() -> Seq<Seq<char>> {
    seq![
        "init_scope"@,
        "track_file"@,
        "check_file"@,
        "audit"@,
        "status"@,
        "list_scopes"@,
        "weekly_report"@,
    ]
}

/// The names of the tools, in the order they are listed.
pub fn tool_name_list() -> (v: Vec<String>)
    ensures
        v@.map_values(|x: String| x@) == tool_names(),
{
    let mut v: Vec<String> = Vec::new();
    v.push(String::from_str("init_scope"));
    v.push(String::from_str("track_file"));
    v.push(String::from_str("check_file"));
    v.push(String::from_str("audit"));
    v.push(String::from_str("status"));
    v.push(String::from_str("list_scopes"));
    v.push(String::from_str("weekly_report"));
    assert(v@.map_values(|x: String| x@) =~= tool_names());
    v
}

/// The request failed with the message `m`.
pub open spec fn refused(r: Result<McpReply, McpFailure>, m: Seq<char>) -> bool {
    r matches Err(McpFailure::Request(x)) && x@ == m
}

/// What reading the resource `uri` gives on a server that was `old`.
pub open spec fn read_outcome(old: McpServer, uri: Option<String>, r: Result<McpReply, McpFailure>) -> bool {
    match uri {
        None => refused(r, "missing uri"@),
        Some(u) => if u@ == "scope://active"@ {
            match active_of(old.db) {
                None => r matches Err(McpFailure::Library(Error::NoActiveScope)),
                Some(s) => r == Ok::<McpReply, McpFailure>(McpReply::ActiveScope(s)),
            }
        } else {
            refused(r, "unknown resource: "@ + u@)
        },
    }
}

/// What `init_scope` does with arguments `a`.
pub open spec fn init_outcome(old: McpServer, new: McpServer, a: ToolArgs, r: Result<McpReply, McpFailure>) -> bool {
    match a.task {
        None => new == old && refused(r, "missing required argument: task"@),
        Some(task) => {
            let err = patterns_error(opt_view(a.files), opt_view(a.exclude));
            &&& new.project_root == old.project_root
            &&& new.owner == old.owner
            &&& new.db.event_rows() == old.db.event_rows()
            &&& new.db.last_id() == old.db.last_id()
            &&& r is Err ==> new.db == old.db
            &&& err matches Some(m) ==> (r matches Err(McpFailure::Library(Error::InvalidPattern(e)))
                && e@ == m)
            &&& err is None ==> (r is Ok || r matches Err(McpFailure::Library(Error::Io(_))))
            &&& r is Ok ==> exists|s: Scope|
                {
                    &&& s.task == task
                    &&& s.files == a.files
                    &&& s.exclude == a.exclude
                    &&& s.project@ == (match a.project {
                        Some(p) => p@,
                        None => old.project_root@,
                    })
                    &&& s.owner == old.owner
                    &&& s.status == crate::scope::ScopeStatus::Active
                    &&& scope_saved(old.db.scope_rows(), new.db.scope_rows(), s)
                    &&& #[trigger] r->Ok_0 matches McpReply::Text(t) && t@ == created_text(s)
                }
        },
    }
}

/// What `track_file` does with arguments `a`.
pub open spec fn track_outcome(old: McpServer, new: McpServer, a: ToolArgs, r: Result<McpReply, McpFailure>) -> bool {
    match (a.file, a.action) {
        (None, _) => new == old && refused(r, "missing required argument: file"@),
        (Some(_), None) => new == old && refused(r, "missing required argument: action"@),
        (Some(file), Some(action)) => {
            &&& new.project_root == old.project_root
            &&& new.owner == old.owner
            &&& new.db.scope_rows() == old.db.scope_rows()
            &&& r is Err ==> new.db.event_rows() == old.db.event_rows()
            &&& match active_of(old.db) {
            None => r matches Err(McpFailure::Library(Error::NoActiveScope)),
            Some(s) => {
                let i = path_in_scope(opt_view(s.files), opt_view(s.exclude), file@);
                let b = path_blocked(file@);
                &&& b ==> (r matches Err(McpFailure::Library(Error::PermissionDenied(m))) && m@
                    == blocked_message(file@))
                &&& !b && old.db.last_id() < i64::MAX ==> match r {
                    Ok(x) => {
                        &&& new.db.event_rows().len() == old.db.event_rows().len() + 1
                        &&& new.db.event_rows() == old.db.event_rows().push(new.db.event_rows().last())
                        &&& new.db.event_rows().last().id == old.db.last_id() + 1
                        &&& fresh_event(new.db.event_rows().last(), s.id@, file@, action@, i, b)
                        &&& x matches McpReply::Text(t) && t@ == tracked_text(
                            file@,
                            if i {
                                "in scope"@
                            } else {
                                "OUT OF SCOPE"@
                            },
                            action@,
                            old.db.last_id() + 1,
                        )
                    },
                    Err(f) => f matches McpFailure::Library(Error::Io(_)),
                }
                &&& !b && old.db.last_id() >= i64::MAX ==> (r matches Err(McpFailure::Library(e))
                    && (e is Database || e is Io))
            },
            }
        },
    }
}

/// What `check_file` answers with arguments `a` on `srv`.
pub open spec fn check_outcome(srv: McpServer, a: ToolArgs, r: Result<McpReply, McpFailure>) -> bool {
    match a.file {
        None => refused(r, "missing required argument: file"@),
        Some(file) => match active_of(srv.db) {
            None => r matches Err(McpFailure::Library(Error::NoActiveScope)),
            Some(s) => {
                let i = path_in_scope(opt_view(s.files), opt_view(s.exclude), file@);
                let b = path_blocked(file@);
                r matches Ok(McpReply::Checked { file: f, in_scope, is_blocked, verdict }) && f == file
                    && in_scope == i && is_blocked == b && verdict == verdict_of(i, b)
            },
        },
    }
}

/// What `audit` answers on `srv`.
pub open spec fn audit_outcome(srv: McpServer, r: Result<McpReply, McpFailure>) -> bool {
    match active_of(srv.db) {
        None => r matches Err(McpFailure::Library(Error::NoActiveScope)),
        Some(s) => {
            let evs = events_for(srv.db.event_rows(), s.id@);
            r matches Ok(McpReply::Audit { status, summary }) && status.scope == s && counts_of(
                status,
                evs,
            ) && summary@ == summary_text(latest_by_file(evs))
        },
    }
}

/// What `status` answers on `srv`.
pub open spec fn status_outcome(srv: McpServer, r: Result<McpReply, McpFailure>) -> bool {
    match active_of(srv.db) {
        None => r matches Err(McpFailure::Library(Error::NoActiveScope)),
        Some(s) => r matches Ok(McpReply::Status(status)) && status.scope == s && counts_of(
            status,
            events_for(srv.db.event_rows(), s.id@),
        ),
    }
}

/// What `list_scopes` answers on `srv`.
pub open spec fn list_outcome(srv: McpServer, r: Result<McpReply, McpFailure>) -> bool {
    r matches Ok(McpReply::Text(x)) && x@ == scope_list_text(
        sort_by(srv.db.scope_rows(), created_after()),
    )
}

/// What `weekly_report` answers on `srv`.
pub open spec fn weekly_outcome(srv: McpServer, r: Result<McpReply, McpFailure>) -> bool {
    match r {
        Err(e) => e matches McpFailure::Library(Error::Io(_)),
        Ok(x) => x matches McpReply::Weekly(w) && tally_of_current_week(w, srv.db),
    }
}

/// What tool `t` does with arguments `a` on a server that was `old` and is `new`.
pub open spec fn tool_outcome(
    old: McpServer,
    new: McpServer,
    t: Tool,
    a: ToolArgs,
    r: Result<McpReply, McpFailure>,
) -> bool {
    match t {
        Tool::InitScope => init_outcome(old, new, a, r),
        Tool::TrackFile => track_outcome(old, new, a, r),
        Tool::CheckFile => new == old && check_outcome(old, a, r),
        Tool::Audit => new == old && audit_outcome(old, r),
        Tool::Status => new == old && status_outcome(old, r),
        Tool::ListScopes => new == old && list_outcome(old, r),
        Tool::WeeklyReport => new == old && weekly_outcome(old, r),
    }
}

/// What request `req` does to a server that was `old` and is `new` afterwards, and
/// what it is answered with.
pub open spec fn dispatched(old: McpServer, new: McpServer, req: McpRequest, r: Result<McpReply, McpFailure>) -> bool {
    match method_of(req.method@) {
        Method::Initialize => new == old && (r matches Ok(
            McpReply::Initialize { protocol_version: p, name: n, version: v },
        ) && p@ == "2024-11-05"@ && n@ == "scopesafe"@ && v@ == "0.1.0"@),
        Method::Ping => new == old && (r matches Ok(McpReply::Empty)),
        Method::ToolsList => new == old && (r matches Ok(McpReply::ToolsList { names }) && names@.map_values(
            |x: String| x@,
        ) == tool_names()),
        Method::ResourcesList => new == old && (r matches Ok(McpReply::ResourcesList)),
        Method::ResourcesRead => new == old && read_outcome(old, req.uri, r),
        Method::NotFound => new == old && refused(r, "method not found: "@ + req.method@),
        Method::ToolsCall => match req.tool {
            None => new == old && refused(r, "missing tool name"@),
            Some(n) => match tool_of(n@) {
                None => new == old && refused(r, "unknown tool: "@ + n@),
                Some(t) => tool_outcome(old, new, t, req.args, r),
            },
        },
    }
}

/// The JSON-RPC error code of a failure.
pub open spec fn failure_code(f: McpFailure) -> int {
    match f {
        McpFailure::Library(e) => rpc_code_of(e),
        McpFailure::Request(_) => -32000,
    }
}

/// The JSON-RPC error message of a failure.
pub open spec fn failure_message(f: McpFailure) -> Seq<char> {
    match f {
        McpFailure::Library(e) => message_of(e),
        McpFailure::Request(m) => m@,
    }
}

/// The JSON-RPC error for a failure.
pub fn rpc_error(f: &McpFailure) -> (r: RpcError)
    ensures
        r.code == failure_code(*f),
        r.message@ == failure_message(*f),
{
    match f {
        McpFailure::Library(e) => RpcError { code: rpc_error_code(e), message: e.message() },
        McpFailure::Request(m) => RpcError { code: -32000, message: m.clone() },
    }
}

/// A clone of optional text.
fn opt_clone(o: &Option<String>) -> (r: Option<String>)
    ensures
        r == *o,
{
    crate::scope::clone_opt(o)
}

/// The failure "missing required argument: `key`".
fn missing(key: &str) -> (r: McpFailure)
    ensures
        r matches McpFailure::Request(m) && m@ == "missing required argument: "@ + key@,
{
    McpFailure::Request(concat("missing required argument: ", key))
}

impl McpServer {
    /// The `init_scope` tool.
    fn tool_init_scope(&mut self, a: &ToolArgs) -> (r: Result<McpReply, McpFailure>)
        ensures
            tool_outcome(*old(self), *final(self), Tool::InitScope, *a, r),
    {
        proof {
            reveal_strlit("task");
            reveal_strlit("missing required argument: ");
            reveal_strlit("missing required argument: task");
            assert("missing required argument: "@ + "task"@ =~= "missing required argument: task"@);
        }
        let task = match &a.task {
            Some(x) => x.clone(),
            None => {
                return Err(missing("task"));
            },
        };
        let r = self.init_scope(task, opt_clone(&a.files), opt_clone(&a.exclude), opt_clone(&a.project));
        match r {
            Ok(s) => {
                let m = created_message(&s);
                let reply: Result<McpReply, McpFailure> = Ok(McpReply::Text(m));
                assert(reply->Ok_0 matches McpReply::Text(t) && t@ == created_text(s));
                reply
            },
            Err(e) => Err(McpFailure::Library(e)),
        }
    }

    /// The `track_file` tool.
    fn tool_track_file(&mut self, a: &ToolArgs) -> (r: Result<McpReply, McpFailure>)
        ensures
            tool_outcome(*old(self), *final(self), Tool::TrackFile, *a, r),
    {
        proof {
            reveal_strlit("file");
            reveal_strlit("action");
            reveal_strlit("missing required argument: ");
            reveal_strlit("missing required argument: file");
            reveal_strlit("missing required argument: action");
            assert("missing required argument: "@ + "file"@ =~= "missing required argument: file"@);
            assert("missing required argument: "@ + "action"@ =~= "missing required argument: action"@);
        }
        let file = match &a.file {
            Some(x) => x,
            None => {
                return Err(missing("file"));
            },
        };
        let action = match &a.action {
            Some(x) => x,
            None => {
                return Err(missing("action"));
            },
        };
        match self.track_file(file.as_str(), action.as_str()) {
            Ok((e, v)) => {
                let tag = v.track_tag();
                Ok(McpReply::Text(tracked_message(file.as_str(), tag, action.as_str(), e.id)))
            },
            Err(e) => Err(McpFailure::Library(e)),
        }
    }

    /// The `check_file` tool.
    fn tool_check_file(&self, a: &ToolArgs) -> (r: Result<McpReply, McpFailure>)
        ensures
            check_outcome(*self, *a, r),
    {
        proof {
            reveal_strlit("file");
            reveal_strlit("missing required argument: ");
            reveal_strlit("missing required argument: file");
            assert("missing required argument: "@ + "file"@ =~= "missing required argument: file"@);
        }
        let file = match &a.file {
            Some(x) => x,
            None => {
                return Err(missing("file"));
            },
        };
        match self.check_file(file.as_str()) {
            Ok((i, b, v)) => Ok(
                McpReply::Checked { file: file.clone(), in_scope: i, is_blocked: b, verdict: v },
            ),
            Err(e) => Err(McpFailure::Library(e)),
        }
    }

    /// The `audit` tool.
    fn tool_audit(&self) -> (r: Result<McpReply, McpFailure>)
        ensures
            audit_outcome(*self, r),
    {
        match self.db.get_active_scope() {
            Ok(s) => {
                let evs = match self.db.get_events(s.id.as_str()) {
                    Ok(v) => v,
                    Err(_) => Vec::new(),
                };
                let status = count_events(&s, &evs);
                let summary = summarize_events(&evs);
                Ok(McpReply::Audit { status, summary })
            },
            Err(e) => Err(McpFailure::Library(e)),
        }
    }

    /// The `status` tool.
    fn tool_status(&self) -> (r: Result<McpReply, McpFailure>)
        ensures
            status_outcome(*self, r),
    {
        match self.db.get_active_scope() {
            Ok(s) => {
                let evs = match self.db.get_events(s.id.as_str()) {
                    Ok(v) => v,
                    Err(_) => Vec::new(),
                };
                Ok(McpReply::Status(count_events(&s, &evs)))
            },
            Err(e) => Err(McpFailure::Library(e)),
        }
    }

    /// The `list_scopes` tool.
    fn tool_list_scopes(&self) -> (r: Result<McpReply, McpFailure>)
        ensures
            list_outcome(*self, r),
    {
        let scopes = match self.db.list_all_scopes() {
            Ok(v) => v,
            Err(_) => Vec::new(),
        };
        Ok(McpReply::Text(scope_list_message(&scopes)))
    }

    /// The `weekly_report` tool.
    fn tool_weekly_report(&self) -> (r: Result<McpReply, McpFailure>)
        ensures
            weekly_outcome(*self, r),
    {
        let patterns = PatternAnalyzer {};
        match weekly_of(&self.db, &patterns) {
            Ok(w) => Ok(McpReply::Weekly(w)),
            Err(e) => Err(McpFailure::Library(e)),
        }
    }

    /// Answers the tool `t` with arguments `a`.
    fn call_tool(&mut self, t: Tool, a: &ToolArgs) -> (r: Result<McpReply, McpFailure>)
        ensures
            tool_outcome(*old(self), *final(self), t, *a, r),
    {
        match t {
            Tool::InitScope => self.tool_init_scope(a),
            Tool::TrackFile => self.tool_track_file(a),
            Tool::CheckFile => self.tool_check_file(a),
            Tool::Audit => self.tool_audit(),
            Tool::Status => self.tool_status(),
            Tool::ListScopes => self.tool_list_scopes(),
            Tool::WeeklyReport => self.tool_weekly_report(),
        }
    }

    /// Answers `req`: routes its method, and for a tool call its tool, and runs it.
    pub fn dispatch(&mut self, req: &McpRequest) -> (r: Result<McpReply, McpFailure>)
        ensures
            dispatched(*old(self), *final(self), *req, r),
    {
        match route_method(req.method.as_str()) {
            Method::Initialize => Ok(
                McpReply::Initialize {
                    protocol_version: String::from_str("2024-11-05"),
                    name: String::from_str("scopesafe"),
                    version: String::from_str("0.1.0"),
                },
            ),
            Method::Ping => Ok(McpReply::Empty),
            Method::ToolsList => Ok(McpReply::ToolsList { names: tool_name_list() }),
            Method::ResourcesList => Ok(McpReply::ResourcesList),
            Method::NotFound => Err(McpFailure::Request(concat("method not found: ", req.method.as_str()))),
            Method::ResourcesRead => {
                match &req.uri {
                    None => Err(McpFailure::Request(String::from_str("missing uri"))),
                    Some(u) => {
                        if str_eq(u.as_str(), "scope://active") {
                            match self.db.get_active_scope() {
                                Ok(s) => Ok(McpReply::ActiveScope(s)),
                                Err(e) => Err(McpFailure::Library(e)),
                            }
                        } else {
                            Err(McpFailure::Request(concat("unknown resource: ", u.as_str())))
                        }
                    },
                }
            },
            Method::ToolsCall => {
                match &req.tool {
                    None => Err(McpFailure::Request(String::from_str("missing tool name"))),
                    Some(n) => match route_tool(n.as_str()) {
                        None => Err(McpFailure::Request(concat("unknown tool: ", n.as_str()))),
                        Some(t) => self.call_tool(t, &req.args),
                    },
                }
            },
        }
    }
}

/// One turn of the server: answers `req`, or gives the JSON-RPC error of its failure.
pub fn run_mcp(server: &mut McpServer, req: &McpRequest) -> (r: Result<McpReply, RpcError>)
    ensures
        exists|f: Result<McpReply, McpFailure>|
            #[trigger] dispatched(*old(server), *final(server), *req, f) && match f {
                Ok(x) => r == Ok::<McpReply, RpcError>(x),
                Err(e) => r matches Err(re) && re.code == failure_code(e) && re.message@
                    == failure_message(e),
            },
{
    let f = server.dispatch(req);
    match f {
        Ok(x) => Ok(x),
        Err(e) => Err(rpc_error(&e)),
    }
}



/// The server's log is append-only as well: whatever request it answers, every
/// recorded event stays in its place unchanged, and at most one event is added, at
/// the end.
pub proof fn lemma_requests_keep_history(
    old: McpServer,
    new: McpServer,
    req: McpRequest,
    r: Result<McpReply, McpFailure>,
)
    requires
        dispatched(old, new, req, r),
    ensures
        old.db.event_rows().len() <= new.db.event_rows().len() <= old.db.event_rows().len() + 1,
        forall|j: int|
            0 <= j < old.db.event_rows().len() ==> #[trigger] new.db.event_rows()[j]
                == old.db.event_rows()[j],
{
    let o = old.db.event_rows();
    let n = new.db.event_rows();
    if method_of(req.method@) == Method::ToolsCall && req.tool is Some && tool_of(
        req.tool->Some_0@,
    ) == Some(Tool::TrackFile) && r is Ok {
        assert(n == o.push(n.last()));
        assert forall|j: int| 0 <= j < o.len() implies #[trigger] n[j] == o[j] by {
            assert(n[j] == o.push(n.last())[j]);
        }
    }
}


/// Checking a file predicts tracking it: on the same server, a file checked as
/// blocked is refused and nothing is recorded, a file checked as allowed or out of
/// scope is recorded with the same in-scope flag (unless the clock reads a time
/// outside the calendar), and without an active scope both fail alike.
pub proof fn lemma_check_predicts_track(
    srv: McpServer,
    after: McpServer,
    a: ToolArgs,
    checked: Result<McpReply, McpFailure>,
    recorded: Result<McpReply, McpFailure>,
)
    requires
        a.file is Some,
        a.action is Some,
        srv.db.last_id() < i64::MAX,
        check_outcome(srv, a, checked),
        track_outcome(srv, after, a, recorded),
    ensures
        checked is Err ==> recorded matches Err(McpFailure::Library(Error::NoActiveScope)),
        checked matches Ok(McpReply::Checked { in_scope, verdict, .. }) ==> {
            &&& verdict == Verdict::Blocked ==> (recorded matches Err(
                McpFailure::Library(Error::PermissionDenied(_)),
            ))
            &&& verdict != Verdict::Blocked ==> (recorded is Ok || recorded matches Err(
                McpFailure::Library(Error::Io(_)),
            ))
            &&& recorded is Err ==> after.db.event_rows() == srv.db.event_rows()
            &&& recorded is Ok ==> {
                &&& after.db.event_rows().len() == srv.db.event_rows().len() + 1
                &&& after.db.event_rows().last().in_scope == in_scope
            }
        },
{
}


/// The server never records a secret either: a `track_file` call on a file whose
/// name is a secret's fails, and the log is left as it was.
pub proof fn lemma_server_never_records_secrets(
    old: McpServer,
    new: McpServer,
    a: ToolArgs,
    r: Result<McpReply, McpFailure>,
)
    requires
        track_outcome(old, new, a, r),
        a.file matches Some(f) && secret_name(basename(normalize_path(f@))),
    ensures
        r is Err,
        new.db.event_rows() == old.db.event_rows(),
{
    lemma_secret_files_blocked(a.file->Some_0@);
}

} // verus!
