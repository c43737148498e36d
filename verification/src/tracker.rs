//! File events: what an agent did to which file, and under which scope.
use vstd::prelude::*;

use crate::clock::now_rfc3339;
use crate::db::{
    active_scope_result, events_for, has_pending, rows_approved, rows_completed, rows_rejected,
    scope_saved, Database,
};
use crate::error::Error;
use crate::scope::{clone_opt, Scope};
use crate::text::concat;

verus! {

/// One file operation, as recorded against a scope.
#[derive(Debug)]
pub struct FileEvent {
    pub id: i64,
    pub scope_id: String,
    pub file_path: String,
    pub action: String,
    pub timestamp: String,
    pub approved: Option<bool>,
    pub approved_by: Option<String>,
    pub rejection_reason: Option<String>,
    pub in_scope: bool,
    pub is_blocked: bool,
}

impl Clone for FileEvent {
    fn clone(&self) -> (r: Self)
        ensures
            r == *self,
    {
        FileEvent {
            id: self.id,
            scope_id: self.scope_id.clone(),
            file_path: self.file_path.clone(),
            action: self.action.clone(),
            timestamp: self.timestamp.clone(),
            approved: self.approved,
            approved_by: clone_opt(&self.approved_by),
            rejection_reason: clone_opt(&self.rejection_reason),
            in_scope: self.in_scope,
            is_blocked: self.is_blocked,
        }
    }
}


/// The message of the refusal to track a blocked file.
pub open spec fn blocked_message(path: Seq<char>) -> Seq<char> {
    "blocked file cannot be modified: "@ + path
}

/// `e` is a fresh, undecided event of `scope_id` on `path` for `action`.
pub open spec fn fresh_event(
    e: FileEvent,
    scope_id: Seq<char>,
    path: Seq<char>,
    action: Seq<char>,
    in_scope: bool,
    is_blocked: bool,
) -> bool {
    &&& e.scope_id@ == scope_id
    &&& e.file_path@ == path
    &&& e.action@ == action
    &&& e.approved is None
    &&& e.approved_by is None
    &&& e.rejection_reason is None
    &&& e.in_scope == in_scope
    &&& e.is_blocked == is_blocked
}

/// Records file events against scopes in a store.
pub struct Tracker {
    pub db: Database,
}

impl Tracker {
    /// A tracker over the store `db`.
    pub fn new(db: Database) -> (t: Tracker)
        ensures
            t.db == db,
    {
        Tracker { db }
    }

    /// Saves `scope` in the store.
    pub fn save_scope(&mut self, scope: &Scope) -> (r: Result<(), Error>)
        ensures
            r is Ok,
            scope_saved(old(self).db.scope_rows(), final(self).db.scope_rows(), *scope),
            final(self).db.event_rows() == old(self).db.event_rows(),
            final(self).db.last_id() == old(self).db.last_id(),
    {
        self.db.save_scope(scope)
    }

    /// The newest active scope.
    pub fn get_active_scope(&self) -> (r: Result<Scope, Error>)
        ensures
            active_scope_result(self.db.scope_rows(), r),
    {
        self.db.get_active_scope()
    }

    /// Records that `action` was done to `file_path` under scope `scope_id` at the time
    /// `timestamp`. A blocked file is refused with `PermissionDenied` and nothing is
    /// recorded; otherwise the event is stored undecided.
    pub fn track_file_at(
        &mut self,
        scope_id: &str,
        file_path: &str,
        action: &str,
        in_scope: bool,
        is_blocked: bool,
        timestamp: String,
    ) -> (r: Result<FileEvent, Error>)
        ensures
            final(self).db.scope_rows() == old(self).db.scope_rows(),
            is_blocked ==> {
                &&& r matches Err(Error::PermissionDenied(m)) && m@ == blocked_message(file_path@)
                &&& final(self).db.event_rows() == old(self).db.event_rows()
                &&& final(self).db.last_id() == old(self).db.last_id()
            },
            !is_blocked && old(self).db.last_id() < i64::MAX ==> {
                &&& r matches Ok(e)
                &&& e.id == old(self).db.last_id() + 1
                &&& e.id > 0
                &&& fresh_event(e, scope_id@, file_path@, action@, in_scope, is_blocked)
                &&& e.timestamp == timestamp
                &&& final(self).db.event_rows() == old(self).db.event_rows().push(e)
                &&& final(self).db.last_id() == old(self).db.last_id() + 1
            },
            !is_blocked && old(self).db.last_id() >= i64::MAX ==> {
                &&& r matches Err(Error::Database(_))
                &&& final(self).db.event_rows() == old(self).db.event_rows()
                &&& final(self).db.last_id() == old(self).db.last_id()
            },
    {
        if is_blocked {
            return Err(Error::PermissionDenied(concat("blocked file cannot be modified: ", file_path)));
        }
        let event = FileEvent {
            id: 0,
            scope_id: String::from_str(scope_id),
            file_path: String::from_str(file_path),
            action: String::from_str(action),
            timestamp,
            approved: None,
            approved_by: None,
            rejection_reason: None,
            in_scope,
            is_blocked,
        };
        self.db.save_event(&event)
    }

    /// Records that `action` was done to `file_path` under scope `scope_id`, stamped with
    /// the current time; see `track_file_at`. When the clock reads a time outside the
    /// calendar, an `Io` error is returned and nothing is recorded.
    pub fn track_file(
        &mut self,
        scope_id: &str,
        file_path: &str,
        action: &str,
        in_scope: bool,
        is_blocked: bool,
    ) -> (r: Result<FileEvent, Error>)
        ensures
            final(self).db.scope_rows() == old(self).db.scope_rows(),
            r is Err ==> {
                &&& final(self).db.event_rows() == old(self).db.event_rows()
                &&& final(self).db.last_id() == old(self).db.last_id()
            },
            is_blocked ==> (r matches Err(Error::PermissionDenied(m)) && m@ == blocked_message(
                file_path@,
            )),
            !is_blocked && old(self).db.last_id() < i64::MAX ==> match r {
                Ok(e) => {
                    &&& e.id == old(self).db.last_id() + 1
                    &&& e.id > 0
                    &&& fresh_event(e, scope_id@, file_path@, action@, in_scope, is_blocked)
                    &&& final(self).db.event_rows() == old(self).db.event_rows().push(e)
                    &&& final(self).db.last_id() == old(self).db.last_id() + 1
                },
                Err(e) => e is Io,
            },
            !is_blocked && old(self).db.last_id() >= i64::MAX ==> (r matches Err(e) && (e is Database
                || e is Io)),
    {
        if is_blocked {
            return Err(Error::PermissionDenied(concat("blocked file cannot be modified: ", file_path)));
        }
        match now_rfc3339() {
            Some(t) => self.track_file_at(scope_id, file_path, action, in_scope, is_blocked, t),
            None => Err(Error::Io(String::from_str("the clock reads a time outside the calendar"))),
        }
    }

    /// The events of scope `scope_id`, oldest first.
    pub fn get_events(&self, scope_id: &str) -> (r: Result<Vec<FileEvent>, Error>)
        ensures
            r matches Ok(v) && v@ == events_for(self.db.event_rows(), scope_id@),
    {
        self.db.get_events(scope_id)
    }

    /// Approves the pending events on `file_path`, recording `approver`.
    pub fn approve_file(&mut self, file_path: &str, approver: &str) -> (r: Result<(), Error>)
        ensures
            final(self).db.scope_rows() == old(self).db.scope_rows(),
            final(self).db.last_id() == old(self).db.last_id(),
            rows_approved(old(self).db.event_rows(), final(self).db.event_rows(), file_path@, approver@),
            r is Ok <==> has_pending(old(self).db.event_rows(), file_path@),
            r matches Err(e) ==> e matches Error::FileNotTracked(m) && m@ == file_path@,
    {
        self.db.approve_file(file_path, approver)
    }

    /// Rejects the pending events on `file_path`, recording `reason`.
    pub fn reject_file(&mut self, file_path: &str, reason: &str) -> (r: Result<(), Error>)
        ensures
            final(self).db.scope_rows() == old(self).db.scope_rows(),
            final(self).db.last_id() == old(self).db.last_id(),
            rows_rejected(old(self).db.event_rows(), final(self).db.event_rows(), file_path@, reason@),
            r is Ok <==> has_pending(old(self).db.event_rows(), file_path@),
            r matches Err(e) ==> e matches Error::FileNotTracked(m) && m@ == file_path@,
    {
        self.db.reject_file(file_path, reason)
    }

    /// Marks scope `scope_id` completed.
    pub fn complete_scope(&mut self, scope_id: &str) -> (r: Result<(), Error>)
        ensures
            r is Ok,
            rows_completed(old(self).db.scope_rows(), final(self).db.scope_rows(), scope_id@),
            final(self).db.event_rows() == old(self).db.event_rows(),
            final(self).db.last_id() == old(self).db.last_id(),
    {
        self.db.complete_scope(scope_id)
    }
}

} // verus!
