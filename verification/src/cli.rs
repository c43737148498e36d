//! The commands of the command-line tool, and what each one does to the store.
use vstd::prelude::*;

use crate::auditor::{
    count_events, counts_of, latest_by_file, latest_events, paths_where, revert_paths,
    to_revert, ScopeStatus,
};
use crate::db::{
    events_for, has_pending, lemma_approval_keeps_history, pending_for, lemma_rejection_keeps_history,
    rows_approved, rows_rejected, same_but_decision, scope_saved,
};
use crate::error::{message_of, Error};
use crate::mcp::{active_of, verdict, verdict_of, Verdict};
use crate::patterns::PatternAnalyzer;
use crate::report::{tally_of_current_week, weekly_of, WeeklyTally};
use crate::scope::{
    lemma_secret_files_blocked, opt_view, path_blocked, path_in_scope, patterns_error, secret_name,
    Scope,
};
use crate::text::{basename, normalize_path};
use crate::tracker::{blocked_message, fresh_event, FileEvent, Tracker};

verus! {

/// A command of the tool.
#[derive(Debug)]
pub enum Commands {
    /// Start a scope for a task.
    Init { task: String, files: Option<String>, exclude: Option<String>, project: Option<String> },
    /// Record a file operation.
    Track { file: String, action: String },
    /// Audit the active scope.
    Audit { show_diff: bool },
    /// Show the active scope's counts.
    Status,
    /// Approve an out-of-scope change.
    Approve { file: String },
    /// Reject an out-of-scope change.
    Reject { file: String, reason: String },
    /// Revert every out-of-scope change.
    RevertAll,
    /// Print the weekly drift report.
    ReportWeekly,
    /// Serve MCP over standard input and output.
    Mcp { project: Option<String> },
}

/// The parsed command line.
#[derive(Debug)]
pub struct Cli {
    pub command: Commands,
}

/// What a command did, for the program to show or carry out.
pub enum Outcome {
    /// A scope was created and saved.
    Created(Scope),
    /// A file operation was recorded.
    Recorded { file: String, verdict: Verdict },
    /// The audit of the active scope: its counts and the last event on each file.
    Audited { status: ScopeStatus, latest: Vec<FileEvent> },
    /// The counts of the active scope.
    Status(ScopeStatus),
    /// The pending changes to a file were approved.
    Approved { file: String },
    /// The pending changes to a file were rejected.
    Rejected { file: String, reason: String },
    /// The files of the active scope whose out-of-scope changes are to be reverted,
    /// in event order.
    Reverted { scope: Scope, paths: Vec<String> },
    /// The tally of the current week.
    Weekly(WeeklyTally),
    /// The MCP server is to be served for this project.
    Serve { project: Option<String> },
}

/// What `init` does.
pub open spec fn init_done(
    old: Tracker,
    new: Tracker,
    task: String,
    files: Option<String>,
    exclude: Option<String>,
    project: Option<String>,
    owner: Seq<char>,
    r: Result<Outcome, Error>,
) -> bool {
    let err = patterns_error(opt_view(files), opt_view(exclude));
    &&& new.db.event_rows() == old.db.event_rows()
    &&& new.db.last_id() == old.db.last_id()
    &&& r is Err ==> new == old
    &&& err matches Some(m) ==> (r matches Err(Error::InvalidPattern(e)) && e@ == m)
    &&& err is None ==> (r is Ok || r matches Err(Error::Io(_)))
    &&& match r {
        Ok(Outcome::Created(s)) => {
            &&& s.task == task
            &&& s.files == files
            &&& s.exclude == exclude
            &&& s.project@ == (match project {
                Some(p) => p@,
                None => "."@,
            })
            &&& s.owner@ == owner
            &&& s.status == crate::scope::ScopeStatus::Active
            &&& scope_saved(old.db.scope_rows(), new.db.scope_rows(), s)
        },
        Ok(_) => false,
        Err(_) => true,
    }
}

/// What `track` does.
pub open spec fn track_done(
    old: Tracker,
    new: Tracker,
    file: String,
    action: String,
    r: Result<Outcome, Error>,
) -> bool {
    &&& new.db.scope_rows() == old.db.scope_rows()
    &&& r is Err ==> new.db.event_rows() == old.db.event_rows()
    &&& match active_of(old.db) {
        None => r matches Err(Error::NoActiveScope),
        Some(s) => {
            let i = path_in_scope(opt_view(s.files), opt_view(s.exclude), file@);
            let b = path_blocked(file@);
            &&& b ==> (r matches Err(Error::PermissionDenied(m)) && m@ == blocked_message(file@))
            &&& !b && old.db.last_id() < i64::MAX ==> match r {
                Ok(o) => {
                    &&& new.db.event_rows() == old.db.event_rows().push(new.db.event_rows().last())
                    &&& new.db.event_rows().len() == old.db.event_rows().len() + 1
                    &&& new.db.event_rows().last().id == old.db.last_id() + 1
                    &&& fresh_event(new.db.event_rows().last(), s.id@, file@, action@, i, b)
                    &&& o matches Outcome::Recorded { file: f, verdict: v } && f == file && v
                        == verdict_of(i, b)
                },
                Err(e) => e is Io,
            }
            &&& !b && old.db.last_id() >= i64::MAX ==> (r matches Err(e) && (e is Database
                || e is Io))
        },
    }
}

/// What a command that reads the active scope answers.
pub open spec fn audit_done(old: Tracker, r: Result<Outcome, Error>) -> bool {
    match active_of(old.db) {
        None => r matches Err(Error::NoActiveScope),
        Some(s) => {
            let evs = events_for(old.db.event_rows(), s.id@);
            r matches Ok(Outcome::Audited { status, latest }) && status.scope == s && counts_of(
                status,
                evs,
            ) && latest@ == latest_by_file(evs)
        },
    }
}

/// What `status` answers.
pub open spec fn status_done(old: Tracker, r: Result<Outcome, Error>) -> bool {
    match active_of(old.db) {
        None => r matches Err(Error::NoActiveScope),
        Some(s) => r matches Ok(Outcome::Status(status)) && status.scope == s && counts_of(
            status,
            events_for(old.db.event_rows(), s.id@),
        ),
    }
}

/// What `revert-all` answers.
pub open spec fn revert_done(old: Tracker, r: Result<Outcome, Error>) -> bool {
    match active_of(old.db) {
        None => r matches Err(Error::NoActiveScope),
        Some(s) => r matches Ok(Outcome::Reverted { scope: sc, paths }) && sc == s && paths@.map_values(
            |p: String| p@,
        ) == paths_where(events_for(old.db.event_rows(), s.id@), to_revert()),
    }
}

/// What command `c`, run by `owner`, does to a tracker that was `old` and is `new`
/// afterwards, and what it reports.
pub open spec fn executed(
    old: Tracker,
    new: Tracker,
    c: Commands,
    owner: Seq<char>,
    r: Result<Outcome, Error>,
) -> bool {
    match c {
        Commands::Init { task, files, exclude, project } => init_done(
            old,
            new,
            task,
            files,
            exclude,
            project,
            owner,
            r,
        ),
        Commands::Track { file, action } => track_done(old, new, file, action, r),
        Commands::Audit { .. } => new == old && audit_done(old, r),
        Commands::Status => new == old && status_done(old, r),
        Commands::Approve { file } => {
            &&& new.db.scope_rows() == old.db.scope_rows()
            &&& new.db.last_id() == old.db.last_id()
            &&& rows_approved(old.db.event_rows(), new.db.event_rows(), file@, owner)
            &&& r is Ok <==> has_pending(old.db.event_rows(), file@)
            &&& match r {
                Ok(o) => o matches Outcome::Approved { file: f } && f == file,
                Err(e) => e matches Error::FileNotTracked(m) && m@ == file@,
            }
        },
        Commands::Reject { file, reason } => {
            &&& new.db.scope_rows() == old.db.scope_rows()
            &&& new.db.last_id() == old.db.last_id()
            &&& rows_rejected(old.db.event_rows(), new.db.event_rows(), file@, reason@)
            &&& r is Ok <==> has_pending(old.db.event_rows(), file@)
            &&& match r {
                Ok(o) => o matches Outcome::Rejected { file: f, reason: why } && f == file && why
                    == reason,
                Err(e) => e matches Error::FileNotTracked(m) && m@ == file@,
            }
        },
        Commands::RevertAll => new == old && revert_done(old, r),
        Commands::ReportWeekly => new == old && match r {
            Ok(o) => o matches Outcome::Weekly(t) && tally_of_current_week(t, old.db),
            Err(e) => e is Io,
        },
        Commands::Mcp { project } => new == old && (r matches Ok(Outcome::Serve { project: p })
            && p == project),
    }
}

/// A copy of optional text.
fn copy_opt(o: &Option<String>) -> (r: Option<String>)
    ensures
        r == *o,
{
    crate::scope::clone_opt(o)
}

/// `init`: a new scope owned by `owner`, saved.
fn run_init(
    tracker: &mut Tracker,
    task: &String,
    files: &Option<String>,
    exclude: &Option<String>,
    project: &Option<String>,
    owner: &str,
) -> (r: Result<Outcome, Error>)
    ensures
        init_done(*old(tracker), *final(tracker), *task, *files, *exclude, *project, owner@, r),
{
    proof {
        reveal_strlit(".");
    }
    let scope = Scope::new(
        task.clone(),
        copy_opt(files),
        copy_opt(exclude),
        copy_opt(project),
        String::from_str(owner),
    )?;
    let _ = tracker.save_scope(&scope);
    Ok(Outcome::Created(scope))
}

/// `track`: records the operation against the active scope.
fn run_track(tracker: &mut Tracker, file: &String, action: &String) -> (r: Result<Outcome, Error>)
    ensures
        track_done(*old(tracker), *final(tracker), *file, *action, r),
{
    let scope = tracker.get_active_scope()?;
    let in_scope = scope.is_file_in_scope(file.as_str());
    let is_blocked = scope.is_blocked_file(file.as_str());
    let _event = tracker.track_file(scope.id.as_str(), file.as_str(), action.as_str(), in_scope, is_blocked)?;
    Ok(Outcome::Recorded { file: file.clone(), verdict: verdict(in_scope, is_blocked) })
}

/// The events of `scope`, oldest first.
fn events_of(tracker: &Tracker, scope: &Scope) -> (v: Vec<FileEvent>)
    ensures
        v@ == events_for(tracker.db.event_rows(), scope.id@),
{
    match tracker.get_events(scope.id.as_str()) {
        Ok(v) => v,
        Err(_) => Vec::new(),
    }
}

/// `audit`: the counts of the active scope and the last event on each file.
fn run_audit(tracker: &Tracker) -> (r: Result<Outcome, Error>)
    ensures
        audit_done(*tracker, r),
{
    let scope = tracker.get_active_scope()?;
    let events = events_of(tracker, &scope);
    let status = count_events(&scope, &events);
    let latest = latest_events(&events);
    Ok(Outcome::Audited { status, latest })
}

/// `status`: the counts of the active scope.
fn run_status(tracker: &Tracker) -> (r: Result<Outcome, Error>)
    ensures
        status_done(*tracker, r),
{
    let scope = tracker.get_active_scope()?;
    let status = ScopeStatus::from_scope(&scope, tracker)?;
    Ok(Outcome::Status(status))
}

/// `revert-all`: the files whose out-of-scope changes are to be reverted.
fn run_revert(tracker: &Tracker) -> (r: Result<Outcome, Error>)
    ensures
        revert_done(*tracker, r),
{
    let scope = tracker.get_active_scope()?;
    let paths = revert_paths(tracker, &scope);
    Ok(Outcome::Reverted { scope, paths })
}

/// Runs `command` for `owner` against the store of `tracker`, and reports what it did.
pub fn run(command: &Commands, tracker: &mut Tracker, owner: &str) -> (r: Result<Outcome, Error>)
    ensures
        executed(*old(tracker), *final(tracker), *command, owner@, r),
{
    match command {
        Commands::Init { task, files, exclude, project } => run_init(
            tracker,
            task,
            files,
            exclude,
            project,
            owner,
        ),
        Commands::Track { file, action } => run_track(tracker, file, action),
        Commands::Audit { .. } => run_audit(tracker),
        Commands::Status => run_status(tracker),
        Commands::Approve { file } => {
            tracker.approve_file(file.as_str(), owner)?;
            Ok(Outcome::Approved { file: file.clone() })
        },
        Commands::Reject { file, reason } => {
            tracker.reject_file(file.as_str(), reason.as_str())?;
            Ok(Outcome::Rejected { file: file.clone(), reason: reason.clone() })
        },
        Commands::RevertAll => run_revert(tracker),
        Commands::ReportWeekly => {
            let patterns = PatternAnalyzer {};
            let t = weekly_of(&tracker.db, &patterns)?;
            Ok(Outcome::Weekly(t))
        },
        Commands::Mcp { project } => Ok(Outcome::Serve { project: copy_opt(project) }),
    }
}

impl Cli {
    /// Runs the command of this command line; see `run`.
    pub fn execute(&self, tracker: &mut Tracker, owner: &str) -> (r: Result<Outcome, Error>)
        ensures
            executed(*old(tracker), *final(tracker), self.command, owner@, r),
    {
        run(&self.command, tracker, owner)
    }
}


/// The audit log is append-only: whatever command runs, every recorded event stays in
/// its place with its id, scope, path, action, time and flags, and at most one event
/// is added, at the end.
pub proof fn lemma_commands_keep_history(
    old: Tracker,
    new: Tracker,
    c: Commands,
    owner: Seq<char>,
    r: Result<Outcome, Error>,
)
    requires
        executed(old, new, c, owner, r),
    ensures
        old.db.event_rows().len() <= new.db.event_rows().len() <= old.db.event_rows().len() + 1,
        forall|j: int|
            0 <= j < old.db.event_rows().len() ==> same_but_decision(
                #[trigger] old.db.event_rows()[j],
                new.db.event_rows()[j],
            ),
{
    let o = old.db.event_rows();
    let n = new.db.event_rows();
    match c {
        Commands::Approve { file } => {
            lemma_approval_keeps_history(o, n, file@, owner);
        },
        Commands::Reject { file, reason } => {
            lemma_rejection_keeps_history(o, n, file@, reason@);
        },
        Commands::Track { file, action } => {
            if r is Ok {
                assert(n == o.push(n.last()));
                assert forall|j: int| 0 <= j < o.len() implies same_but_decision(
                    #[trigger] o[j],
                    n[j],
                ) by {
                    assert(n[j] == o.push(n.last())[j]);
                }
            }
        },
        _ => {},
    }
}


/// Secrets are never recorded: tracking a file whose name is a secret's fails, and
/// the log is left as it was.
pub proof fn lemma_secrets_never_recorded(
    old: Tracker,
    new: Tracker,
    file: String,
    action: String,
    r: Result<Outcome, Error>,
)
    requires
        track_done(old, new, file, action, r),
        secret_name(basename(normalize_path(file@))),
    ensures
        r is Err,
        new.db.event_rows() == old.db.event_rows(),
{
    lemma_secret_files_blocked(file@);
}

/// A refused command changes nothing, and says why: `init` with a pattern that glob
/// rejects answers that the pattern is invalid, with glob's error; `status` with no
/// active scope answers that there is none; `approve` of a file with no undecided
/// event answers that the file is not tracked; `track` of a blocked file under an
/// active scope answers that the file is blocked. No scope or event is stored or
/// changed in any of these cases.
pub proof fn lemma_refusals_change_nothing(
    old: Tracker,
    new: Tracker,
    c: Commands,
    owner: Seq<char>,
    r: Result<Outcome, Error>,
)
    requires
        executed(old, new, c, owner, r),
    ensures
        c matches Commands::Init { files, exclude, .. } ==> (patterns_error(opt_view(files), opt_view(exclude))
            matches Some(m) ==> {
            &&& r matches Err(e) && message_of(e) == "invalid pattern: "@ + m
            &&& new.db.scope_rows() == old.db.scope_rows()
            &&& new.db.event_rows() == old.db.event_rows()
        }),
        c is Status && active_of(old.db) is None ==> {
            &&& r matches Err(e) && message_of(e) == "no active scope"@
            &&& new.db.scope_rows() == old.db.scope_rows()
            &&& new.db.event_rows() == old.db.event_rows()
        },
        c matches Commands::Approve { file } ==> (!has_pending(old.db.event_rows(), file@) ==> {
            &&& r matches Err(e) && message_of(e) == "file not tracked: "@ + file@
            &&& new.db.scope_rows() == old.db.scope_rows()
            &&& new.db.event_rows() == old.db.event_rows()
        }),
        c matches Commands::Track { file, .. } ==> (active_of(old.db) is Some && path_blocked(file@) ==> {
            &&& r matches Err(e) && message_of(e) == "permission denied: "@ + blocked_message(file@)
            &&& new.db.scope_rows() == old.db.scope_rows()
            &&& new.db.event_rows() == old.db.event_rows()
        }),
{
    if let Commands::Approve { file } = c {
        if !has_pending(old.db.event_rows(), file@) {
            let o = old.db.event_rows();
            let n = new.db.event_rows();
            assert forall|j: int| 0 <= j < o.len() implies n[j] == o[j] by {
                assert(!pending_for(o[j], file@));
            }
            assert(n =~= o);
        }
    }
}

} // verus!
