//! The store of scopes and file events, with the queries the tool runs on it.
use vstd::prelude::*;

use crate::error::Error;
use crate::order::{
    insert_by, lemma_insert_past, lemma_insert_start, lemma_insert_stop, lemma_sort_contains,
    lemma_sort_members, lemma_sort_sorted, lemma_sort_step, sort_by, sorted_by, total, transitive,
};
use crate::scope::{Scope, ScopeStatus};
use crate::text::{
    chars_of, lemma_lex_total, lemma_lex_trans, lex_le, lex_le_exec, lex_lt, slice_eq, str_eq,
};
use crate::tracker::FileEvent;

verus! {

// ---------------------------------------------------------------------------
// Query semantics
// ---------------------------------------------------------------------------

/// The events of scope `id`, in stored order.
pub open spec fn select_scope(rows: Seq<FileEvent>, id: Seq<char>) -> Seq<FileEvent>
    decreases rows.len(),
{
    if rows.len() == 0 {
        Seq::<FileEvent>::empty()
    } else if rows.last().scope_id@ == id {
        select_scope(rows.drop_last(), id).push(rows.last())
    } else {
        select_scope(rows.drop_last(), id)
    }
}

/// Event `a` comes no later than `b` by timestamp.
pub open spec fn ts_before() -> spec_fn(FileEvent, FileEvent) -> bool {
    |a: FileEvent, b: FileEvent| lex_le(a.timestamp@, b.timestamp@)
}

/// The events of scope `id`, oldest first; equal timestamps keep stored order.
pub open spec fn events_for(rows: Seq<FileEvent>, id: Seq<char>) -> Seq<FileEvent> {
    sort_by(select_scope(rows, id), ts_before())
}

/// Scope `a` was created no later than `b`.
pub open spec fn created_before() -> spec_fn(Scope, Scope) -> bool {
    |a: Scope, b: Scope| lex_le(a.created_at@, b.created_at@)
}

/// Scope `a` was created no earlier than `b`.
pub open spec fn created_after() -> spec_fn(Scope, Scope) -> bool {
    |a: Scope, b: Scope| lex_le(b.created_at@, a.created_at@)
}

/// The scopes created in `[start, end)`, in stored order.
pub open spec fn select_window(rows: Seq<Scope>, start: Seq<char>, end: Seq<char>) -> Seq<Scope>
    decreases rows.len(),
{
    if rows.len() == 0 {
        Seq::<Scope>::empty()
    } else if lex_le(start, rows.last().created_at@) && lex_lt(rows.last().created_at@, end) {
        select_window(rows.drop_last(), start, end).push(rows.last())
    } else {
        select_window(rows.drop_last(), start, end)
    }
}

/// The index of the newest active scope among the first `n` rows; among equally new
/// ones the later row wins.
pub open spec fn newest_active(rows: Seq<Scope>, n: int) -> Option<int>
    decreases n,
{
    if n <= 0 {
        None
    } else {
        let best = newest_active(rows, n - 1);
        if rows[n - 1].status != ScopeStatus::Active {
            best
        } else {
            match best {
                None => Some(n - 1),
                Some(b) => if lex_le(rows[b].created_at@, rows[n - 1].created_at@) {
                    Some(n - 1)
                } else {
                    best
                },
            }
        }
    }
}

/// Some row holds a scope with id `id`.
pub open spec fn has_scope(rows: Seq<Scope>, id: Seq<char>) -> bool {
    exists|j: int| 0 <= j < rows.len() && (#[trigger] rows[j]).id@ == id
}

/// `n` is `o` made active again.
pub open spec fn reactivated(o: Scope, n: Scope) -> bool {
    n == Scope { status: ScopeStatus::Active, ..o }
}

/// An event waiting for a decision on `path`.
pub open spec fn pending_for(e: FileEvent, path: Seq<char>) -> bool {
    e.file_path@ == path && e.approved is None
}

/// `n` is `o` with only its decision fields changed.
pub open spec fn same_but_decision(o: FileEvent, n: FileEvent) -> bool {
    &&& n.id == o.id
    &&& n.scope_id == o.scope_id
    &&& n.file_path == o.file_path
    &&& n.action == o.action
    &&& n.timestamp == o.timestamp
    &&& n.in_scope == o.in_scope
    &&& n.is_blocked == o.is_blocked
}

/// `n` is `o` approved by `who`.
pub open spec fn approval_of(o: FileEvent, n: FileEvent, who: Seq<char>) -> bool {
    &&& same_but_decision(o, n)
    &&& n.approved == Some(true)
    &&& n.approved_by matches Some(w) && w@ == who
    &&& n.rejection_reason == o.rejection_reason
}

/// `n` is `o` rejected for `reason`.
pub open spec fn rejection_of(o: FileEvent, n: FileEvent, reason: Seq<char>) -> bool {
    &&& same_but_decision(o, n)
    &&& n.approved == Some(false)
    &&& n.rejection_reason matches Some(r) && r@ == reason
    &&& n.approved_by == o.approved_by
}

/// Some event is waiting for a decision on `path`.
pub open spec fn has_pending(rows: Seq<FileEvent>, path: Seq<char>) -> bool {
    exists|j: int| 0 <= j < rows.len() && #[trigger] pending_for(rows[j], path)
}

/// The largest event id among `rows`, or `floor` when that is larger.
pub open spec fn max_id(rows: Seq<FileEvent>, floor: int) -> int
    decreases rows.len(),
{
    if rows.len() == 0 {
        floor
    } else {
        let m = max_id(rows.drop_last(), floor);
        if rows.last().id > m {
            rows.last().id as int
        } else {
            m
        }
    }
}

/// `new` is `old` after saving `scope`: a stored scope with its id is made active
/// again, otherwise `scope` is added at the end.
pub open spec fn scope_saved(old: Seq<Scope>, new: Seq<Scope>, scope: Scope) -> bool {
    if has_scope(old, scope.id@) {
        &&& new.len() == old.len()
        &&& forall|j: int|
            0 <= j < old.len() ==> if (#[trigger] old[j]).id@ == scope.id@ {
                reactivated(old[j], new[j])
            } else {
                new[j] == old[j]
            }
    } else {
        new == old.push(scope)
    }
}

/// `new` is `old` with every event waiting on `path` approved by `who`.
pub open spec fn rows_approved(
    old: Seq<FileEvent>,
    new: Seq<FileEvent>,
    path: Seq<char>,
    who: Seq<char>,
) -> bool {
    &&& new.len() == old.len()
    &&& forall|j: int|
        0 <= j < old.len() ==> if pending_for(#[trigger] old[j], path) {
            approval_of(old[j], new[j], who)
        } else {
            new[j] == old[j]
        }
}

/// `new` is `old` with every event waiting on `path` rejected for `reason`.
pub open spec fn rows_rejected(
    old: Seq<FileEvent>,
    new: Seq<FileEvent>,
    path: Seq<char>,
    reason: Seq<char>,
) -> bool {
    &&& new.len() == old.len()
    &&& forall|j: int|
        0 <= j < old.len() ==> if pending_for(#[trigger] old[j], path) {
            rejection_of(old[j], new[j], reason)
        } else {
            new[j] == old[j]
        }
}

/// `new` is `old` with the scopes of id `id` completed.
pub open spec fn rows_completed(old: Seq<Scope>, new: Seq<Scope>, id: Seq<char>) -> bool {
    &&& new.len() == old.len()
    &&& forall|j: int|
        0 <= j < old.len() ==> if (#[trigger] old[j]).id@ == id {
            new[j] == Scope { status: ScopeStatus::Completed, ..old[j] }
        } else {
            new[j] == old[j]
        }
}

/// The outcome of a newest-active-scope query on `rows`.
pub open spec fn active_scope_result(rows: Seq<Scope>, r: Result<Scope, Error>) -> bool {
    match newest_active(rows, rows.len() as int) {
        None => r matches Err(Error::NoActiveScope),
        Some(i) => r == Ok::<Scope, Error>(rows[i]),
    }
}

// ---------------------------------------------------------------------------
// The store
// ---------------------------------------------------------------------------

/// Scopes and file events, with the id that the last saved event received.
pub struct Database {
    scopes: Vec<Scope>,
    events: Vec<FileEvent>,
    last_event_id: u64,
}

impl Database {
    /// The stored scopes, in stored order.
    pub closed spec fn scope_rows(&self) -> Seq<Scope> {
        self.scopes@
    }

    /// The stored events, in stored order.
    pub closed spec fn event_rows(&self) -> Seq<FileEvent> {
        self.events@
    }

    /// The id given to the last saved event (0 before any).
    pub closed spec fn last_id(&self) -> int {
        self.last_event_id as int
    }

    /// The stored scopes, in stored order.
    pub fn scope_list(&self) -> (r: &Vec<Scope>)
        ensures
            r@ == self.scope_rows(),
    {
        &self.scopes
    }

    /// The stored events, in stored order.
    pub fn event_list(&self) -> (r: &Vec<FileEvent>)
        ensures
            r@ == self.event_rows(),
    {
        &self.events
    }

    /// The id given to the last saved event (0 before any).
    pub fn last_event_id(&self) -> (r: u64)
        ensures
            r == self.last_id(),
    {
        self.last_event_id
    }

    /// An empty store.
    pub fn new() -> (db: Database)
        ensures
            db.scope_rows() == Seq::<Scope>::empty(),
            db.event_rows() == Seq::<FileEvent>::empty(),
            db.last_id() == 0,
    {
        Database { scopes: Vec::new(), events: Vec::new(), last_event_id: 0 }
    }

    /// A store holding the given rows. The next event id continues after `sequence`,
    /// after every stored id, and after 0, whichever is largest.
    pub fn from_rows(scopes: Vec<Scope>, events: Vec<FileEvent>, sequence: i64) -> (db: Database)
        ensures
            db.scope_rows() == scopes@,
            db.event_rows() == events@,
            db.last_id() == max_id(events@, if sequence > 0 { sequence as int } else { 0 }),
    {
        let mut last: i64 = if sequence > 0 {
            sequence
        } else {
            0
        };
        let ghost floor = last as int;
        let mut i: usize = 0;
        while i < events.len()
            invariant
                i <= events.len(),
                floor >= 0,
                last as int == max_id(events@.take(i as int), floor),
                last >= 0,
            decreases events.len() - i,
        {
            assert(events@.take(i + 1).drop_last() =~= events@.take(i as int));
            if events[i].id > last {
                last = events[i].id;
            }
            i = i + 1;
        }
        assert(events@.take(events.len() as int) =~= events@);
        Database { scopes, events, last_event_id: last as u64 }
    }

    /// Saves `scope`; when a scope with its id is already stored, that scope is made
    /// active again instead and nothing else changes.
    pub fn save_scope(&mut self, scope: &Scope) -> (r: Result<(), Error>)
        ensures
            r is Ok,
            final(self).event_rows() == old(self).event_rows(),
            final(self).last_id() == old(self).last_id(),
            scope_saved(old(self).scope_rows(), final(self).scope_rows(), *scope),
    {
        let ghost rows = self.scopes@;
        let mut found = false;
        let mut j: usize = 0;
        while j < self.scopes.len()
            invariant
                self.scopes@.len() == rows.len(),
                j <= rows.len(),
                found == exists|k: int| 0 <= k < j && (#[trigger] rows[k]).id@ == scope.id@,
                forall|k: int|
                    0 <= k < rows.len() ==> if k < j && (#[trigger] rows[k]).id@ == scope.id@ {
                        reactivated(rows[k], self.scopes@[k])
                    } else {
                        self.scopes@[k] == rows[k]
                    },
                self.last_event_id == old(self).last_event_id,
                self.events == old(self).events,
                rows == old(self).scopes@,
            decreases rows.len() - j,
        {
            if str_eq(self.scopes[j].id.as_str(), scope.id.as_str()) {
                let mut s = self.scopes[j].clone();
                s.status = ScopeStatus::Active;
                self.scopes.set(j, s);
                found = true;
                assert(rows[j as int].id@ == scope.id@);
            } else {
                assert(rows[j as int].id@ != scope.id@);
            }
            j = j + 1;
        }
        if !found {
            assert(!has_scope(rows, scope.id@));
            let c = scope.clone();
            self.scopes.push(c);
            assert(self.scopes@ == rows.push(*scope));
            assert(scope_saved(rows, self.scopes@, *scope));
        } else {
            assert(has_scope(rows, scope.id@));
            assert(self.scopes@.len() == rows.len());
            assert forall|k: int| 0 <= k < rows.len() implies if (#[trigger] rows[k]).id@ == scope.id@ {
                reactivated(rows[k], self.scopes@[k])
            } else {
                self.scopes@[k] == rows[k]
            } by {}
            assert(scope_saved(rows, self.scopes@, *scope));
        }
        Ok(())
    }

    /// The newest active scope; among equally new ones, the one stored last.
    pub fn get_active_scope(&self) -> (r: Result<Scope, Error>)
        ensures
            active_scope_result(self.scope_rows(), r),
    {
        let mut best: Option<usize> = None;
        let mut i: usize = 0;
        while i < self.scopes.len()
            invariant
                i <= self.scopes@.len(),
                match newest_active(self.scopes@, i as int) {
                    None => best is None,
                    Some(b) => best == Some(b as usize) && 0 <= b < i,
                },
            decreases self.scopes.len() - i,
        {
            if self.scopes[i].status == ScopeStatus::Active {
                match best {
                    None => {
                        best = Some(i);
                    },
                    Some(b) => {
                        let x = chars_of(self.scopes[b].created_at.as_str());
                        let y = chars_of(self.scopes[i].created_at.as_str());
                        if lex_le_exec(&x, &y) {
                            best = Some(i);
                        }
                    },
                }
            }
            i = i + 1;
        }
        match best {
            None => Err(Error::NoActiveScope),
            Some(b) => Ok(self.scopes[b].clone()),
        }
    }

    /// Stores `event` under the next id and returns it with that id. When the ids are
    /// used up the store refuses, as SQLite does.
    pub fn save_event(&mut self, event: &FileEvent) -> (r: Result<FileEvent, Error>)
        ensures
            final(self).scope_rows() == old(self).scope_rows(),
            old(self).last_id() >= 0,
            old(self).last_id() < i64::MAX ==> {
                &&& r == Ok::<FileEvent, Error>(FileEvent { id: (old(self).last_id() + 1) as i64, ..*event })
                &&& final(self).event_rows() == old(self).event_rows().push(r->Ok_0)
                &&& final(self).last_id() == old(self).last_id() + 1
            },
            old(self).last_id() >= i64::MAX ==> {
                &&& r matches Err(Error::Database(_))
                &&& final(self).event_rows() == old(self).event_rows()
                &&& final(self).last_id() == old(self).last_id()
            },
    {
        if self.last_event_id >= 0x7fff_ffff_ffff_ffff {
            return Err(Error::Database(String::from_str("database or disk is full")));
        }
        let id = (self.last_event_id + 1) as i64;
        let mut stored = event.clone();
        stored.id = id;
        let returned = stored.clone();
        self.events.push(stored);
        self.last_event_id = self.last_event_id + 1;
        Ok(returned)
    }

    /// The events of scope `scope_id`, oldest first; equal timestamps keep stored order.
    pub fn get_events(&self, scope_id: &str) -> (r: Result<Vec<FileEvent>, Error>)
        ensures
            r matches Ok(v) && v@ == events_for(self.event_rows(), scope_id@),
    {
        let ghost rows = self.events@;
        let mut out: Vec<FileEvent> = Vec::new();
        let mut i: usize = 0;
        while i < self.events.len()
            invariant
                rows == self.events@,
                i <= rows.len(),
                out@ == sort_by(select_scope(rows.take(i as int), scope_id@), ts_before()),
            decreases rows.len() - i,
        {
            let ghost prefix = rows.take(i as int);
            assert(rows.take(i + 1).drop_last() =~= prefix);
            if str_eq(self.events[i].scope_id.as_str(), scope_id) {
                proof {
                    let x = select_scope(rows.take(i + 1), scope_id@);
                    assert(x == select_scope(prefix, scope_id@).push(rows[i as int]));
                    assert(x.drop_last() =~= select_scope(prefix, scope_id@));
                    assert(sort_by(x, ts_before()) == insert_by(
                        sort_by(select_scope(prefix, scope_id@), ts_before()),
                        rows[i as int],
                        ts_before(),
                    ));
                }
                insert_event(&mut out, self.events[i].clone());
            }
            i = i + 1;
        }
        assert(rows.take(rows.len() as int) =~= rows);
        Ok(out)
    }
}

/// Inserts `e` into `v` after every event no later than it.
fn insert_event(v: &mut Vec<FileEvent>, e: FileEvent)
    ensures
        final(v)@ == insert_by(old(v)@, e, ts_before()),
{
    let ghost s = v@;
    let et = chars_of(e.timestamp.as_str());
    let mut j = v.len();
    proof {
        lemma_insert_start(s, e, ts_before());
    }
    while j > 0 && !lex_le_exec(&chars_of(v[j - 1].timestamp.as_str()), &et)
        invariant
            v@ == s,
            j <= s.len(),
            et@ == e.timestamp@,
            insert_by(s, e, ts_before()) == insert_by(s.take(j as int), e, ts_before()) + s.skip(
                j as int,
            ),
        decreases j,
    {
        proof {
            lemma_insert_past(s, e, ts_before(), j as int);
        }
        j = j - 1;
    }
    proof {
        lemma_insert_stop(s, e, ts_before(), j as int);
    }
    v.insert(j, e);
}


impl Database {
    /// Approves every event on `file_path` that waits for a decision, recording
    /// `approver`; fails with `FileNotTracked` when there is none.
    pub fn approve_file(&mut self, file_path: &str, approver: &str) -> (r: Result<(), Error>)
        ensures
            final(self).scope_rows() == old(self).scope_rows(),
            final(self).last_id() == old(self).last_id(),
            rows_approved(old(self).event_rows(), final(self).event_rows(), file_path@, approver@),
            r is Ok <==> has_pending(old(self).event_rows(), file_path@),
            r matches Err(e) ==> e matches Error::FileNotTracked(m) && m@ == file_path@,
    {
        let ghost rows = self.events@;
        let mut changed = false;
        let mut j: usize = 0;
        while j < self.events.len()
            invariant
                self.events@.len() == rows.len(),
                j <= rows.len(),
                changed == exists|k: int| 0 <= k < j && #[trigger] pending_for(rows[k], file_path@),
                forall|k: int|
                    0 <= k < rows.len() ==> if k < j && pending_for(#[trigger] rows[k], file_path@) {
                        approval_of(rows[k], self.events@[k], approver@)
                    } else {
                        self.events@[k] == rows[k]
                    },
                self.last_event_id == old(self).last_event_id,
                self.scopes == old(self).scopes,
                rows == old(self).events@,
            decreases rows.len() - j,
        {
            if self.events[j].approved.is_none() && str_eq(self.events[j].file_path.as_str(), file_path) {
                let mut e = self.events[j].clone();
                e.approved = Some(true);
                e.approved_by = Some(String::from_str(approver));
                self.events.set(j, e);
                changed = true;
                assert(pending_for(rows[j as int], file_path@));
            } else {
                assert(!pending_for(rows[j as int], file_path@));
            }
            j = j + 1;
        }
        if changed {
            Ok(())
        } else {
            Err(Error::FileNotTracked(String::from_str(file_path)))
        }
    }

    /// Rejects every event on `file_path` that waits for a decision, recording
    /// `reason`; fails with `FileNotTracked` when there is none.
    pub fn reject_file(&mut self, file_path: &str, reason: &str) -> (r: Result<(), Error>)
        ensures
            final(self).scope_rows() == old(self).scope_rows(),
            final(self).last_id() == old(self).last_id(),
            rows_rejected(old(self).event_rows(), final(self).event_rows(), file_path@, reason@),
            r is Ok <==> has_pending(old(self).event_rows(), file_path@),
            r matches Err(e) ==> e matches Error::FileNotTracked(m) && m@ == file_path@,
    {
        let ghost rows = self.events@;
        let mut changed = false;
        let mut j: usize = 0;
        while j < self.events.len()
            invariant
                self.events@.len() == rows.len(),
                j <= rows.len(),
                changed == exists|k: int| 0 <= k < j && #[trigger] pending_for(rows[k], file_path@),
                forall|k: int|
                    0 <= k < rows.len() ==> if k < j && pending_for(#[trigger] rows[k], file_path@) {
                        rejection_of(rows[k], self.events@[k], reason@)
                    } else {
                        self.events@[k] == rows[k]
                    },
                self.last_event_id == old(self).last_event_id,
                self.scopes == old(self).scopes,
                rows == old(self).events@,
            decreases rows.len() - j,
        {
            if self.events[j].approved.is_none() && str_eq(self.events[j].file_path.as_str(), file_path) {
                let mut e = self.events[j].clone();
                e.approved = Some(false);
                e.rejection_reason = Some(String::from_str(reason));
                self.events.set(j, e);
                changed = true;
                assert(pending_for(rows[j as int], file_path@));
            } else {
                assert(!pending_for(rows[j as int], file_path@));
            }
            j = j + 1;
        }
        if changed {
            Ok(())
        } else {
            Err(Error::FileNotTracked(String::from_str(file_path)))
        }
    }

    /// Marks the scope with id `scope_id` completed.
    pub fn complete_scope(&mut self, scope_id: &str) -> (r: Result<(), Error>)
        ensures
            r is Ok,
            final(self).event_rows() == old(self).event_rows(),
            final(self).last_id() == old(self).last_id(),
            rows_completed(old(self).scope_rows(), final(self).scope_rows(), scope_id@),
    {
        let ghost rows = self.scopes@;
        let mut j: usize = 0;
        while j < self.scopes.len()
            invariant
                self.scopes@.len() == rows.len(),
                j <= rows.len(),
                forall|k: int|
                    0 <= k < rows.len() ==> if k < j && (#[trigger] rows[k]).id@ == scope_id@ {
                        self.scopes@[k] == Scope { status: ScopeStatus::Completed, ..rows[k] }
                    } else {
                        self.scopes@[k] == rows[k]
                    },
                self.last_event_id == old(self).last_event_id,
                self.events == old(self).events,
                rows == old(self).scopes@,
            decreases rows.len() - j,
        {
            if str_eq(self.scopes[j].id.as_str(), scope_id) {
                let mut s = self.scopes[j].clone();
                s.status = ScopeStatus::Completed;
                self.scopes.set(j, s);
            }
            j = j + 1;
        }
        Ok(())
    }

    /// All scopes, newest first; equally new ones keep stored order.
    pub fn list_all_scopes(&self) -> (r: Result<Vec<Scope>, Error>)
        ensures
            r matches Ok(v) && v@ == sort_by(self.scope_rows(), created_after()),
    {
        let ghost rows = self.scopes@;
        let mut out: Vec<Scope> = Vec::new();
        let mut i: usize = 0;
        while i < self.scopes.len()
            invariant
                rows == self.scopes@,
                i <= rows.len(),
                out@ == sort_by(rows.take(i as int), created_after()),
            decreases rows.len() - i,
        {
            proof {
                lemma_sort_step(rows, i as int, created_after());
            }
            insert_scope(&mut out, self.scopes[i].clone(), false);
            i = i + 1;
        }
        assert(rows.take(rows.len() as int) =~= rows);
        Ok(out)
    }

    /// The scopes created in `[start, end)` (comparing RFC 3339 texts), oldest first;
    /// equally old ones keep stored order.
    pub fn list_scopes_in_window(&self, start: &str, end: &str) -> (r: Result<Vec<Scope>, Error>)
        ensures
            r matches Ok(v) && v@ == sort_by(
                select_window(self.scope_rows(), start@, end@),
                created_before(),
            ),
    {
        let ghost rows = self.scopes@;
        let sv = chars_of(start);
        let ev = chars_of(end);
        let mut out: Vec<Scope> = Vec::new();
        let mut i: usize = 0;
        while i < self.scopes.len()
            invariant
                rows == self.scopes@,
                sv@ == start@,
                ev@ == end@,
                i <= rows.len(),
                out@ == sort_by(select_window(rows.take(i as int), start@, end@), created_before()),
            decreases rows.len() - i,
        {
            let ghost prefix = rows.take(i as int);
            assert(rows.take(i + 1).drop_last() =~= prefix);
            let c = chars_of(self.scopes[i].created_at.as_str());
            if lex_le_exec(&sv, &c) && lex_le_exec(&c, &ev) && !slice_eq(&c, &ev) {
                proof {
                    let x = select_window(rows.take(i + 1), start@, end@);
                    assert(x == select_window(prefix, start@, end@).push(rows[i as int]));
                    assert(x.drop_last() =~= select_window(prefix, start@, end@));
                }
                insert_scope(&mut out, self.scopes[i].clone(), true);
            }
            i = i + 1;
        }
        assert(rows.take(rows.len() as int) =~= rows);
        Ok(out)
    }
}

/// Inserts `e` into `v`: after every scope created no later than it when
/// `ascending`, after every scope created no earlier than it otherwise.
fn insert_scope(v: &mut Vec<Scope>, e: Scope, ascending: bool)
    ensures
        final(v)@ == insert_by(
            old(v)@,
            e,
            if ascending {
                created_before()
            } else {
                created_after()
            },
        ),
{
    let ghost s = v@;
    let ghost f = if ascending {
        created_before()
    } else {
        created_after()
    };
    let ec = chars_of(e.created_at.as_str());
    let mut j = v.len();
    proof {
        lemma_insert_start(s, e, f);
    }
    loop
        invariant
            v@ == s,
            j <= s.len(),
            ec@ == e.created_at@,
            f == (if ascending {
                created_before()
            } else {
                created_after()
            }),
            insert_by(s, e, f) == insert_by(s.take(j as int), e, f) + s.skip(j as int),
        ensures
            v@ == s,
            j <= s.len(),
            j == 0 || f(s[j - 1], e),
            insert_by(s, e, f) == insert_by(s.take(j as int), e, f) + s.skip(j as int),
        decreases j,
    {
        if j == 0 {
            break;
        }
        let c = chars_of(v[j - 1].created_at.as_str());
        let stays = if ascending {
            lex_le_exec(&c, &ec)
        } else {
            lex_le_exec(&ec, &c)
        };
        if stays {
            break;
        }
        proof {
            lemma_insert_past(s, e, f, j as int);
        }
        j = j - 1;
    }
    proof {
        lemma_insert_stop(s, e, f, j as int);
    }
    v.insert(j, e);
}


// ---------------------------------------------------------------------------
// Laws of the store
// ---------------------------------------------------------------------------

/// Timestamps order events totally and transitively.
pub proof fn lemma_ts_before_order()
    ensures
        total(ts_before()),
        transitive(ts_before()),
{
    assert forall|a: FileEvent, b: FileEvent| #[trigger] ts_before()(a, b) || ts_before()(b, a) by {
        lemma_lex_total(a.timestamp@, b.timestamp@);
    }
    assert forall|a: FileEvent, b: FileEvent, c: FileEvent|
        #[trigger] ts_before()(a, b) && #[trigger] ts_before()(b, c) implies ts_before()(a, c) by {
        lemma_lex_trans(a.timestamp@, b.timestamp@, c.timestamp@);
    }
}

/// Only events of scope `id` are selected for it.
pub proof fn lemma_select_scope_only(rows: Seq<FileEvent>, id: Seq<char>)
    ensures
        forall|j: int|
            0 <= j < select_scope(rows, id).len() ==> (#[trigger] select_scope(rows, id)[j]).scope_id@
                == id,
    decreases rows.len(),
{
    if rows.len() > 0 {
        lemma_select_scope_only(rows.drop_last(), id);
    }
}

/// The events listed for scope `id` are exactly its stored events, each as often as
/// it is stored, oldest first.
pub proof fn lemma_events_listed(rows: Seq<FileEvent>, id: Seq<char>)
    ensures
        events_for(rows, id).to_multiset() == select_scope(rows, id).to_multiset(),
        sorted_by(events_for(rows, id), ts_before()),
        forall|j: int|
            0 <= j < events_for(rows, id).len() ==> (#[trigger] events_for(rows, id)[j]).scope_id@
                == id,
{
    let sel = select_scope(rows, id);
    lemma_sort_members(sel, ts_before());
    lemma_ts_before_order();
    lemma_sort_sorted(sel, ts_before());
    lemma_select_scope_only(rows, id);
    assert forall|j: int| 0 <= j < events_for(rows, id).len() implies (#[trigger] events_for(
        rows,
        id,
    )[j]).scope_id@ == id by {
        lemma_sort_contains(sel, ts_before(), j);
        let k = choose|k: int| 0 <= k < sel.len() && sel[k] == events_for(rows, id)[j];
        assert(sel[k].scope_id@ == id);
    }
}

/// Scope `id` is selected exactly the events that carry its id, as often as stored.
proof fn lemma_select_scope_counts(rows: Seq<FileEvent>, id: Seq<char>, x: FileEvent)
    ensures
        select_scope(rows, id).to_multiset().count(x) == if x.scope_id@ == id {
            rows.to_multiset().count(x)
        } else {
            0
        },
    decreases rows.len(),
{
    broadcast use vstd::seq_lib::group_seq_properties;
    broadcast use vstd::multiset::group_multiset_axioms;
    if rows.len() == 0 {
        assert(select_scope(rows, id) =~= Seq::<FileEvent>::empty());
    } else {
        let d = rows.drop_last();
        lemma_select_scope_counts(d, id, x);
        assert(rows =~= d.push(rows.last()));
        assert(rows.to_multiset() =~= d.to_multiset().insert(rows.last()));
    }
}

/// What the store lists for scope `id` is exactly the stored events that carry
/// that id, each as often as stored, in order of time.
pub proof fn lemma_events_listed_exactly(rows: Seq<FileEvent>, id: Seq<char>)
    ensures
        sorted_by(events_for(rows, id), ts_before()),
        forall|i: int, j: int|
            0 <= i < j < events_for(rows, id).len() ==> lex_le(
                (#[trigger] events_for(rows, id)[i]).timestamp@,
                (#[trigger] events_for(rows, id)[j]).timestamp@,
            ),
        forall|x: FileEvent|
            #[trigger] events_for(rows, id).to_multiset().count(x) == if x.scope_id@ == id {
                rows.to_multiset().count(x)
            } else {
                0
            },
{
    lemma_events_listed(rows, id);
    assert forall|x: FileEvent| #[trigger] events_for(rows, id).to_multiset().count(x) == if x.scope_id@
        == id {
        rows.to_multiset().count(x)
    } else {
        0
    } by {
        lemma_select_scope_counts(rows, id, x);
    }
}

/// An event stored with `save_event` is listed among the events of its scope, with
/// the id it was given.
pub proof fn lemma_saved_event_listed(db: Database, after: Database, e: FileEvent, r: Result<FileEvent, Error>)
    requires
        db.last_id() < i64::MAX,
        r == Ok::<FileEvent, Error>(FileEvent { id: (db.last_id() + 1) as i64, ..e }),
        after.event_rows() == db.event_rows().push(r->Ok_0),
    ensures
        events_for(after.event_rows(), e.scope_id@).contains(r->Ok_0),
        r->Ok_0.id == db.last_id() + 1,
{
    broadcast use vstd::seq_lib::group_seq_properties;
    broadcast use vstd::multiset::group_multiset_axioms;
    let s = r->Ok_0;
    let rows = after.event_rows();
    lemma_events_listed_exactly(rows, e.scope_id@);
    assert(rows[rows.len() - 1] == s);
    assert(rows.contains(s));
    assert(rows.to_multiset().count(s) > 0);
    assert(events_for(rows, e.scope_id@).to_multiset().count(s) > 0);
}

/// What approving `path` for `who` does to each stored event: an event on `path`
/// still waiting for a decision becomes approved, with `who` as approver and
/// nothing else changed; every other event stays as it was.
pub proof fn lemma_approval_fields(old: Seq<FileEvent>, new: Seq<FileEvent>, path: Seq<char>, who: Seq<char>)
    requires
        rows_approved(old, new, path, who),
    ensures
        new.len() == old.len(),
        forall|j: int|
            0 <= j < old.len() ==> if (#[trigger] old[j]).file_path@ == path && old[j].approved is None {
                &&& new[j].approved == Some(true)
                &&& new[j].approved_by matches Some(w) && w@ == who
                &&& new[j] == (FileEvent { approved: Some(true), approved_by: new[j].approved_by, ..old[j] })
            } else {
                new[j] == old[j]
            },
{
    assert forall|j: int| 0 <= j < old.len() implies if (#[trigger] old[j]).file_path@ == path
        && old[j].approved is None {
        &&& new[j].approved == Some(true)
        &&& new[j].approved_by matches Some(w) && w@ == who
        &&& new[j] == (FileEvent { approved: Some(true), approved_by: new[j].approved_by, ..old[j] })
    } else {
        new[j] == old[j]
    } by {
        assert(pending_for(old[j], path) == (old[j].file_path@ == path && old[j].approved is None));
    }
}

/// What rejecting `path` for `reason` does to each stored event: an event on `path`
/// still waiting for a decision becomes rejected, with `reason` recorded and nothing
/// else changed; every other event stays as it was.
pub proof fn lemma_rejection_fields(old: Seq<FileEvent>, new: Seq<FileEvent>, path: Seq<char>, reason: Seq<char>)
    requires
        rows_rejected(old, new, path, reason),
    ensures
        new.len() == old.len(),
        forall|j: int|
            0 <= j < old.len() ==> if (#[trigger] old[j]).file_path@ == path && old[j].approved is None {
                &&& new[j].approved == Some(false)
                &&& new[j].rejection_reason matches Some(r) && r@ == reason
                &&& new[j] == (FileEvent {
                    approved: Some(false),
                    rejection_reason: new[j].rejection_reason,
                    ..old[j]
                })
            } else {
                new[j] == old[j]
            },
{
    assert forall|j: int| 0 <= j < old.len() implies if (#[trigger] old[j]).file_path@ == path
        && old[j].approved is None {
        &&& new[j].approved == Some(false)
        &&& new[j].rejection_reason matches Some(r) && r@ == reason
        &&& new[j] == (FileEvent {
            approved: Some(false),
            rejection_reason: new[j].rejection_reason,
            ..old[j]
        })
    } else {
        new[j] == old[j]
    } by {
        assert(pending_for(old[j], path) == (old[j].file_path@ == path && old[j].approved is None));
    }
}

/// A read gives back what was written: after an event is stored, the events of its
/// scope are those listed before plus the new one, and the events of every other
/// scope are listed as before.
pub proof fn lemma_saved_event_read_back(rows: Seq<FileEvent>, e: FileEvent, id: Seq<char>)
    ensures
        e.scope_id@ == id ==> events_for(rows.push(e), id).to_multiset() == events_for(
            rows,
            id,
        ).to_multiset().insert(e),
        e.scope_id@ != id ==> events_for(rows.push(e), id) == events_for(rows, id),
{
    let r2 = rows.push(e);
    assert(r2.drop_last() =~= rows);
    assert(r2.last() == e);
    lemma_events_listed(rows, id);
    lemma_events_listed(r2, id);
    if e.scope_id@ == id {
        assert(select_scope(r2, id) == select_scope(rows, id).push(e));
        vstd::seq_lib::lemma_multiset_commutative(select_scope(rows, id), seq![e]);
        assert(select_scope(rows, id).push(e) =~= select_scope(rows, id) + seq![e]);
        assert(seq![e].to_multiset() =~= vstd::multiset::Multiset::<FileEvent>::empty().insert(e)) by {
            broadcast use vstd::seq_lib::group_seq_properties;
            broadcast use vstd::multiset::group_multiset_axioms;
            assert(seq![e] =~= Seq::<FileEvent>::empty().push(e));
        }
        broadcast use vstd::multiset::group_multiset_axioms;
        assert(select_scope(rows, id).to_multiset().add(seq![e].to_multiset()) =~= select_scope(
            rows,
            id,
        ).to_multiset().insert(e));
    } else {
        assert(select_scope(r2, id) == select_scope(rows, id));
    }
}

/// An event stamped no earlier than every stored event of its scope is listed last,
/// after the events listed before, in their order.
pub proof fn lemma_newest_event_listed_last(rows: Seq<FileEvent>, e: FileEvent)
    requires
        forall|j: int|
            0 <= j < rows.len() && (#[trigger] rows[j]).scope_id@ == e.scope_id@ ==> lex_le(
                rows[j].timestamp@,
                e.timestamp@,
            ),
    ensures
        events_for(rows.push(e), e.scope_id@) == events_for(rows, e.scope_id@).push(e),
{
    let id = e.scope_id@;
    let r2 = rows.push(e);
    assert(r2.drop_last() =~= rows);
    let sel = select_scope(rows, id);
    assert(select_scope(r2, id) == sel.push(e));
    assert((sel.push(e)).drop_last() =~= sel);
    let sorted = sort_by(sel, ts_before());
    lemma_sort_members(sel, ts_before());
    if sorted.len() > 0 {
        lemma_sort_contains(sel, ts_before(), sorted.len() - 1);
        let k = choose|k: int| 0 <= k < sel.len() && sel[k] == sorted.last();
        lemma_select_scope_only(rows, id);
        assert(sel[k].scope_id@ == id);
        lemma_selected_from(rows, id, k);
    }
}

/// Each selected event is a stored event.
proof fn lemma_selected_from(rows: Seq<FileEvent>, id: Seq<char>, k: int)
    requires
        0 <= k < select_scope(rows, id).len(),
    ensures
        exists|j: int| 0 <= j < rows.len() && #[trigger] rows[j] == select_scope(rows, id)[k],
    decreases rows.len(),
{
    let d = rows.drop_last();
    if rows.last().scope_id@ == id && k == select_scope(rows, id).len() - 1 {
        assert(rows[rows.len() - 1] == select_scope(rows, id)[k]);
    } else {
        assert(select_scope(rows, id)[k] == select_scope(d, id)[k]);
        lemma_selected_from(d, id, k);
        let j = choose|j: int| 0 <= j < d.len() && #[trigger] d[j] == select_scope(d, id)[k];
        assert(rows[j] == d[j]);
    }
}

/// Approving keeps the history: every event keeps its id, scope, path, action, time
/// and flags, an event decided before is left as it was, and no event on `path`
/// waits for a decision afterwards, so the same file cannot be decided twice.
pub proof fn lemma_approval_keeps_history(
    old: Seq<FileEvent>,
    new: Seq<FileEvent>,
    path: Seq<char>,
    who: Seq<char>,
)
    requires
        rows_approved(old, new, path, who),
    ensures
        new.len() == old.len(),
        forall|j: int| 0 <= j < old.len() ==> same_but_decision(#[trigger] old[j], new[j]),
        forall|j: int| 0 <= j < old.len() && (#[trigger] old[j]).approved is Some ==> new[j] == old[j],
        !has_pending(new, path),
{
    assert forall|j: int| 0 <= j < old.len() implies same_but_decision(#[trigger] old[j], new[j]) by {
        if pending_for(old[j], path) {
        } else {
            assert(new[j] == old[j]);
        }
    }
    assert forall|j: int| 0 <= j < new.len() implies !#[trigger] pending_for(new[j], path) by {
        if pending_for(old[j], path) {
        } else {
            assert(new[j] == old[j]);
        }
    }
}

/// Rejecting keeps the history in the same way approving does, and leaves no event
/// on `path` waiting for a decision.
pub proof fn lemma_rejection_keeps_history(
    old: Seq<FileEvent>,
    new: Seq<FileEvent>,
    path: Seq<char>,
    reason: Seq<char>,
)
    requires
        rows_rejected(old, new, path, reason),
    ensures
        new.len() == old.len(),
        forall|j: int| 0 <= j < old.len() ==> same_but_decision(#[trigger] old[j], new[j]),
        forall|j: int| 0 <= j < old.len() && (#[trigger] old[j]).approved is Some ==> new[j] == old[j],
        !has_pending(new, path),
{
    assert forall|j: int| 0 <= j < old.len() implies same_but_decision(#[trigger] old[j], new[j]) by {
        if pending_for(old[j], path) {
        } else {
            assert(new[j] == old[j]);
        }
    }
    assert forall|j: int| 0 <= j < new.len() implies !#[trigger] pending_for(new[j], path) by {
        if pending_for(old[j], path) {
        } else {
            assert(new[j] == old[j]);
        }
    }
}

/// What `newest_active` finds among the first `n` rows: nothing when none of them is
/// active, otherwise an active one created no earlier than any other active one.
proof fn lemma_newest_active_spec(rows: Seq<Scope>, n: int)
    requires
        0 <= n <= rows.len(),
    ensures
        match newest_active(rows, n) {
            None => forall|j: int| 0 <= j < n ==> (#[trigger] rows[j]).status != ScopeStatus::Active,
            Some(i) => {
                &&& 0 <= i < n
                &&& rows[i].status == ScopeStatus::Active
                &&& forall|j: int|
                    0 <= j < n && (#[trigger] rows[j]).status == ScopeStatus::Active ==> lex_le(
                        rows[j].created_at@,
                        rows[i].created_at@,
                    )
            },
        },
    decreases n,
{
    if n > 0 {
        lemma_newest_active_spec(rows, n - 1);
        let last = rows[n - 1];
        lemma_lex_total(last.created_at@, last.created_at@);
        match newest_active(rows, n - 1) {
            None => {},
            Some(b) => {
                lemma_lex_total(rows[b].created_at@, last.created_at@);
                if last.status == ScopeStatus::Active && lex_le(rows[b].created_at@, last.created_at@) {
                    assert forall|j: int|
                        0 <= j < n && (#[trigger] rows[j]).status == ScopeStatus::Active implies lex_le(
                        rows[j].created_at@,
                        last.created_at@,
                    ) by {
                        if j < n - 1 {
                            lemma_lex_trans(rows[j].created_at@, rows[b].created_at@, last.created_at@);
                        }
                    }
                }
            },
        }
    }
}

/// `newest_active` over the first `n` rows reads no other rows.
proof fn lemma_newest_active_prefix(a: Seq<Scope>, b: Seq<Scope>, n: int)
    requires
        0 <= n <= a.len(),
        n <= b.len(),
        forall|j: int| 0 <= j < n ==> a[j] == b[j],
    ensures
        newest_active(a, n) == newest_active(b, n),
    decreases n,
{
    if n > 0 {
        lemma_newest_active_prefix(a, b, n - 1);
        match newest_active(a, n - 1) {
            None => {},
            Some(i) => {
                lemma_newest_active_spec(a, n - 1);
                assert(a[i] == b[i]);
            },
        }
    }
}

/// The active scope is the newest active one: a query for it fails with
/// `NoActiveScope` exactly when no stored scope is active, and otherwise gives a
/// stored active scope created no earlier than any other active one.
pub proof fn lemma_active_is_newest(rows: Seq<Scope>, r: Result<Scope, Error>)
    requires
        active_scope_result(rows, r),
    ensures
        r is Err <==> forall|j: int| 0 <= j < rows.len() ==> (#[trigger] rows[j]).status
            != ScopeStatus::Active,
        r is Err ==> r matches Err(Error::NoActiveScope),
        r matches Ok(s) ==> {
            &&& s.status == ScopeStatus::Active
            &&& rows.contains(s)
            &&& forall|j: int|
                0 <= j < rows.len() && (#[trigger] rows[j]).status == ScopeStatus::Active ==> lex_le(
                    rows[j].created_at@,
                    s.created_at@,
                )
        },
{
    lemma_newest_active_spec(rows, rows.len() as int);
    match newest_active(rows, rows.len() as int) {
        None => {},
        Some(i) => {
            assert(rows[i] == r->Ok_0);
            assert(rows[i].status == ScopeStatus::Active);
        },
    }
}

/// A scope saved under a new id, active and created no earlier than every stored
/// scope, is the active scope afterwards.
pub proof fn lemma_new_scope_becomes_active(
    old: Seq<Scope>,
    new: Seq<Scope>,
    s: Scope,
    r: Result<Scope, Error>,
)
    requires
        scope_saved(old, new, s),
        !has_scope(old, s.id@),
        s.status == ScopeStatus::Active,
        forall|j: int| 0 <= j < old.len() ==> lex_le((#[trigger] old[j]).created_at@, s.created_at@),
        active_scope_result(new, r),
    ensures
        r == Ok::<Scope, Error>(s),
{
    let n = old.len() as int;
    assert(new == old.push(s));
    lemma_newest_active_prefix(old, new, n);
    assert(new[n] == s);
    match newest_active(old, n) {
        None => {},
        Some(b) => {
            lemma_newest_active_spec(old, n);
            assert(new[b] == old[b]);
        },
    }
}

/// A completed scope is no longer the active scope.
pub proof fn lemma_completed_not_active(
    old: Seq<Scope>,
    new: Seq<Scope>,
    id: Seq<char>,
    r: Result<Scope, Error>,
)
    requires
        rows_completed(old, new, id),
        active_scope_result(new, r),
    ensures
        r matches Ok(s) ==> s.id@ != id,
{
    lemma_newest_active_spec(new, new.len() as int);
    match newest_active(new, new.len() as int) {
        None => {},
        Some(i) => {
            if old[i].id@ == id {
                assert(new[i].status == ScopeStatus::Completed);
            } else {
                assert(new[i] == old[i]);
            }
        },
    }
}


/// Scope `s` was created in the window `[start, end)`, comparing creation texts.
pub open spec fn in_window(s: Scope, start: Seq<char>, end: Seq<char>) -> bool {
    lex_le(start, s.created_at@) && lex_lt(s.created_at@, end)
}

/// The window selects each stored scope created in it, as often as it is stored, and
/// no other.
proof fn lemma_select_window_members(rows: Seq<Scope>, start: Seq<char>, end: Seq<char>)
    ensures
        forall|x: Scope|
            #[trigger] select_window(rows, start, end).to_multiset().count(x) == if in_window(
                x,
                start,
                end,
            ) {
                rows.to_multiset().count(x)
            } else {
                0
            },
    decreases rows.len(),
{
    broadcast use vstd::seq_lib::group_seq_properties;
    broadcast use vstd::multiset::group_multiset_axioms;
    if rows.len() > 0 {
        let d = rows.drop_last();
        lemma_select_window_members(d, start, end);
        assert(rows =~= d.push(rows.last()));
        assert(rows.to_multiset() =~= d.to_multiset().insert(rows.last()));
        let sel = select_window(d, start, end);
        if in_window(rows.last(), start, end) {
            assert(select_window(rows, start, end) == sel.push(rows.last()));
            assert(sel.push(rows.last()).to_multiset() =~= sel.to_multiset().insert(rows.last()));
        } else {
            assert(select_window(rows, start, end) == sel);
        }
    }
}

/// Creation texts order scopes totally and transitively.
proof fn lemma_created_before_order()
    ensures
        total(created_before()),
        transitive(created_before()),
{
    assert forall|a: Scope, b: Scope| #[trigger] created_before()(a, b) || created_before()(b, a) by {
        lemma_lex_total(a.created_at@, b.created_at@);
    }
    assert forall|a: Scope, b: Scope, c: Scope|
        #[trigger] created_before()(a, b) && #[trigger] created_before()(b, c) implies created_before()(
        a,
        c,
    ) by {
        lemma_lex_trans(a.created_at@, b.created_at@, c.created_at@);
    }
}

/// The scopes listed for a window are the stored scopes created in it, each exactly as
/// often as it is stored, and no other, oldest first.
pub proof fn lemma_window_listed(rows: Seq<Scope>, start: Seq<char>, end: Seq<char>)
    ensures
        sorted_by(sort_by(select_window(rows, start, end), created_before()), created_before()),
        forall|i: int, j: int|
            0 <= i < j < sort_by(select_window(rows, start, end), created_before()).len() ==> lex_le(
                (#[trigger] sort_by(select_window(rows, start, end), created_before())[i]).created_at@,
                (#[trigger] sort_by(select_window(rows, start, end), created_before())[j]).created_at@,
            ),
        forall|x: Scope|
            #[trigger] sort_by(select_window(rows, start, end), created_before()).to_multiset().count(
                x,
            ) == if lex_le(start, x.created_at@) && lex_lt(x.created_at@, end) {
                rows.to_multiset().count(x)
            } else {
                0
            },
{
    let sel = select_window(rows, start, end);
    lemma_select_window_members(rows, start, end);
    lemma_sort_members(sel, created_before());
    lemma_created_before_order();
    lemma_sort_sorted(sel, created_before());
}

} // verus!
