//! The audit of a scope: what was touched, in or out of scope, and what to revert.
use vstd::prelude::*;

use crate::db::events_for;
use crate::error::Error;
use crate::patterns::out_of_scope;
use crate::scope::Scope;
use crate::text::{chars_of, slice_eq};
use crate::tracker::{FileEvent, Tracker};

verus! {

/// How many of `evs` satisfy `p`.
pub open spec fn count_if(evs: Seq<FileEvent>, p: spec_fn(FileEvent) -> bool) -> nat
    decreases evs.len(),
{
    if evs.len() == 0 {
        0
    } else {
        count_if(evs.drop_last(), p) + if p(evs.last()) {
            1nat
        } else {
            0nat
        }
    }
}

/// Events in scope.
pub open spec fn is_in_scope() -> spec_fn(FileEvent) -> bool {
    |e: FileEvent| e.in_scope
}

/// Events out of scope and not blocked.
pub open spec fn is_out_of_scope() -> spec_fn(FileEvent) -> bool {
    |e: FileEvent| out_of_scope(e)
}

/// Blocked events.
pub open spec fn is_blocked() -> spec_fn(FileEvent) -> bool {
    |e: FileEvent| e.is_blocked
}

/// Approved events.
pub open spec fn is_approved() -> spec_fn(FileEvent) -> bool {
    |e: FileEvent| e.approved == Some(true)
}

/// Out-of-scope events still waiting for a decision: the changes a revert undoes.
/// Approved changes are kept, and rejected ones are left to the user.
pub open spec fn to_revert() -> spec_fn(FileEvent) -> bool {
    |e: FileEvent| out_of_scope(e) && e.approved is None
}

/// The first index from `i` on whose event touched `p`, or -1.
pub open spec fn find_file(c: Seq<FileEvent>, p: Seq<char>, i: int) -> int
    decreases c.len() - i,
{
    if i < 0 || i >= c.len() {
        -1
    } else if c[i].file_path@ == p {
        i
    } else {
        find_file(c, p, i + 1)
    }
}

/// The last event on each file, files in order of first touch.
pub open spec fn latest_by_file(evs: Seq<FileEvent>) -> Seq<FileEvent>
    decreases evs.len(),
{
    if evs.len() == 0 {
        Seq::<FileEvent>::empty()
    } else {
        let c = latest_by_file(evs.drop_last());
        let e = evs.last();
        let i = find_file(c, e.file_path@, 0);
        if i >= 0 {
            c.update(i, e)
        } else {
            c.push(e)
        }
    }
}

/// The paths of the events of `evs` that satisfy `p`, in order.
pub open spec fn paths_where(evs: Seq<FileEvent>, p: spec_fn(FileEvent) -> bool) -> Seq<Seq<char>>
    decreases evs.len(),
{
    if evs.len() == 0 {
        Seq::<Seq<char>>::empty()
    } else {
        let rest = paths_where(evs.drop_last(), p);
        if p(evs.last()) {
            rest.push(evs.last().file_path@)
        } else {
            rest
        }
    }
}

/// A scope with the counts of its events, as its status shows them.
pub struct ScopeStatus {
    pub scope: Scope,
    pub total_files: usize,
    pub in_scope_files: usize,
    pub out_of_scope_files: usize,
    pub blocked_files: usize,
    pub approved_files: usize,
    /// The credit of the scope's events, in half points (see `report::score_credit`).
    pub credit_halves: u128,
}

/// `c` counts the events `evs`.
pub open spec fn counts_of(c: ScopeStatus, evs: Seq<FileEvent>) -> bool {
    &&& c.total_files == evs.len()
    &&& c.in_scope_files == count_if(evs, is_in_scope())
    &&& c.out_of_scope_files == count_if(evs, is_out_of_scope())
    &&& c.blocked_files == count_if(evs, is_blocked())
    &&& c.approved_files == count_if(evs, is_approved())
    &&& c.credit_halves == crate::report::total_credit(evs)
}

/// Counting is bounded by the number of events.
pub proof fn lemma_count_bounded(evs: Seq<FileEvent>, p: spec_fn(FileEvent) -> bool)
    ensures
        count_if(evs, p) <= evs.len(),
    decreases evs.len(),
{
    if evs.len() > 0 {
        lemma_count_bounded(evs.drop_last(), p);
    }
}

/// Counting by a predicate counts the events that a predicate with the same answers
/// keeps.
proof fn lemma_count_if_filter(evs: Seq<FileEvent>, p: spec_fn(FileEvent) -> bool, q: spec_fn(FileEvent) -> bool)
    requires
        forall|e: FileEvent| #[trigger] p(e) == q(e),
    ensures
        count_if(evs, p) == evs.filter(q).len(),
    decreases evs.len(),
{
    reveal(Seq::filter);
    if evs.len() > 0 {
        lemma_count_if_filter(evs.drop_last(), p, q);
    }
}

/// The paths picked by a predicate are those of the events that a predicate with the
/// same answers keeps, in order.
proof fn lemma_paths_where_filter(evs: Seq<FileEvent>, p: spec_fn(FileEvent) -> bool, q: spec_fn(FileEvent) -> bool)
    requires
        forall|e: FileEvent| #[trigger] p(e) == q(e),
    ensures
        paths_where(evs, p) == evs.filter(q).map_values(|e: FileEvent| e.file_path@),
    decreases evs.len(),
{
    reveal(Seq::filter);
    if evs.len() > 0 {
        lemma_paths_where_filter(evs.drop_last(), p, q);
        let f = evs.drop_last().filter(q);
        assert(f.push(evs.last()).map_values(|e: FileEvent| e.file_path@) =~= f.map_values(
            |e: FileEvent| e.file_path@,
        ).push(evs.last().file_path@));
    }
}

/// What a status counts: every event once; those in scope; those out of scope and
/// not blocked, whatever was decided; the blocked ones; the approved ones.
pub proof fn lemma_status_counts(c: ScopeStatus, evs: Seq<FileEvent>)
    requires
        counts_of(c, evs),
    ensures
        c.total_files == evs.len(),
        c.in_scope_files == evs.filter(|e: FileEvent| e.in_scope).len(),
        c.out_of_scope_files == evs.filter(|e: FileEvent| !e.in_scope && !e.is_blocked).len(),
        c.blocked_files == evs.filter(|e: FileEvent| e.is_blocked).len(),
        c.approved_files == evs.filter(|e: FileEvent| e.approved == Some(true)).len(),
{
    lemma_count_if_filter(evs, is_in_scope(), |e: FileEvent| e.in_scope);
    lemma_count_if_filter(evs, is_out_of_scope(), |e: FileEvent| !e.in_scope && !e.is_blocked);
    lemma_count_if_filter(evs, is_blocked(), |e: FileEvent| e.is_blocked);
    lemma_count_if_filter(evs, is_approved(), |e: FileEvent| e.approved == Some(true));
}

/// A revert undoes exactly the out-of-scope, unblocked changes still waiting for a
/// decision, in event order: approved and rejected changes are kept.
pub proof fn lemma_revert_undoes_pending(evs: Seq<FileEvent>)
    ensures
        paths_where(evs, to_revert()) == evs.filter(
            |e: FileEvent| !e.in_scope && !e.is_blocked && e.approved is None,
        ).map_values(|e: FileEvent| e.file_path@),
{
    lemma_paths_where_filter(evs, to_revert(), |e: FileEvent| !e.in_scope && !e.is_blocked && e.approved is None);
}

/// `find_file` gives the first index from `i` on whose event touched `p`, or -1 when
/// none does.
proof fn lemma_find_file(c: Seq<FileEvent>, p: Seq<char>, i: int)
    requires
        0 <= i,
    ensures
        find_file(c, p, i) == -1 ==> forall|k: int| i <= k < c.len() ==> (#[trigger] c[k]).file_path@ != p,
        find_file(c, p, i) != -1 ==> i <= find_file(c, p, i) < c.len() && c[find_file(c, p, i)].file_path@ == p,
    decreases c.len() - i,
{
    if i < c.len() && c[i].file_path@ != p {
        lemma_find_file(c, p, i + 1);
    }
}

/// The last event on each file: every file touched appears once, with the last event
/// that touched it.
pub proof fn lemma_latest_by_file(evs: Seq<FileEvent>)
    ensures
        forall|i: int, j: int|
            0 <= i < j < latest_by_file(evs).len() ==> (#[trigger] latest_by_file(evs)[i]).file_path@
                != (#[trigger] latest_by_file(evs)[j]).file_path@,
        forall|i: int|
            0 <= i < latest_by_file(evs).len() ==> #[trigger] is_last_on_file(evs, latest_by_file(evs)[i]),
        forall|j: int|
            0 <= j < evs.len() ==> #[trigger] lists_file_of(latest_by_file(evs), evs[j]),
    decreases evs.len(),
{
    if evs.len() > 0 {
        let d = evs.drop_last();
        let e = evs.last();
        let n = evs.len() - 1;
        lemma_latest_by_file(d);
        let c = latest_by_file(d);
        let l = latest_by_file(evs);
        lemma_find_file(c, e.file_path@, 0);
        let i = find_file(c, e.file_path@, 0);
        assert forall|j: int| 0 <= j < d.len() implies #[trigger] d[j] == evs[j] by {}
        if i >= 0 {
            assert(l == c.update(i, e));
            assert forall|a: int, b: int| 0 <= a < b < l.len() implies (#[trigger] l[a]).file_path@ != (
            #[trigger] l[b]).file_path@ by {
                assert(l[a].file_path@ == c[a].file_path@ && l[b].file_path@ == c[b].file_path@);
            }
            assert forall|a: int| 0 <= a < l.len() implies #[trigger] is_last_on_file(evs, l[a]) by {
                if a == i {
                    assert(evs[n] == e);
                } else {
                    assert(is_last_on_file(d, c[a]));
                    assert(c[a].file_path@ != c[i].file_path@);
                    let j = choose|j: int| 0 <= j < d.len() && d[j] == c[a] && forall|k: int|
                        j < k < d.len() ==> (#[trigger] d[k]).file_path@ != c[a].file_path@;
                    assert(evs[j] == c[a]);
                    assert forall|k: int| j < k < evs.len() implies (#[trigger] evs[k]).file_path@
                        != l[a].file_path@ by {
                        if k < d.len() {
                            assert(d[k] == evs[k]);
                        }
                    }
                }
            }
            assert forall|j: int| 0 <= j < evs.len() implies #[trigger] lists_file_of(l, evs[j]) by {
                if j == n {
                    assert(l[i].file_path@ == evs[j].file_path@);
                } else {
                    assert(lists_file_of(c, d[j]));
                    let a = choose|a: int| 0 <= a < c.len() && (#[trigger] c[a]).file_path@ == d[j].file_path@;
                    assert(l[a].file_path@ == evs[j].file_path@);
                }
            }
        } else {
            assert(l == c.push(e));
            assert forall|a: int, b: int| 0 <= a < b < l.len() implies (#[trigger] l[a]).file_path@ != (
            #[trigger] l[b]).file_path@ by {
                if b == c.len() {
                    assert(c[a].file_path@ != e.file_path@);
                } else {
                    assert(l[a] == c[a] && l[b] == c[b]);
                }
            }
            assert forall|a: int| 0 <= a < l.len() implies #[trigger] is_last_on_file(evs, l[a]) by {
                if a == c.len() {
                    assert(evs[n] == e);
                } else {
                    assert(l[a] == c[a]);
                    assert(is_last_on_file(d, c[a]));
                    assert(c[a].file_path@ != e.file_path@);
                    let j = choose|j: int| 0 <= j < d.len() && d[j] == c[a] && forall|k: int|
                        j < k < d.len() ==> (#[trigger] d[k]).file_path@ != c[a].file_path@;
                    assert(evs[j] == c[a]);
                    assert forall|k: int| j < k < evs.len() implies (#[trigger] evs[k]).file_path@
                        != l[a].file_path@ by {
                        if k < d.len() {
                            assert(d[k] == evs[k]);
                        }
                    }
                }
            }
            assert forall|j: int| 0 <= j < evs.len() implies #[trigger] lists_file_of(l, evs[j]) by {
                if j == n {
                    assert(l[c.len() as int].file_path@ == evs[j].file_path@);
                } else {
                    assert(lists_file_of(c, d[j]));
                    let a = choose|a: int| 0 <= a < c.len() && (#[trigger] c[a]).file_path@ == d[j].file_path@;
                    assert(l[a].file_path@ == evs[j].file_path@);
                }
            }
        }
    }
}

/// `x` is an event of `evs` and no later event of `evs` touched its file.
pub open spec fn is_last_on_file(evs: Seq<FileEvent>, x: FileEvent) -> bool {
    exists|j: int|
        0 <= j < evs.len() && evs[j] == x && forall|k: int|
            j < k < evs.len() ==> (#[trigger] evs[k]).file_path@ != x.file_path@
}

/// `c` holds an event on the file of `e`.
pub open spec fn lists_file_of(c: Seq<FileEvent>, e: FileEvent) -> bool {
    exists|a: int| 0 <= a < c.len() && (#[trigger] c[a]).file_path@ == e.file_path@
}

/// The status of `scope` whose events are `events`.
pub fn count_events(scope: &Scope, events: &[FileEvent]) -> (c: ScopeStatus)
    ensures
        c.scope == *scope,
        counts_of(c, events@),
{
    let mut c = ScopeStatus {
        scope: scope.clone(),
        total_files: events.len(),
        in_scope_files: 0,
        out_of_scope_files: 0,
        blocked_files: 0,
        approved_files: 0,
        credit_halves: crate::report::score_credit(events),
    };
    let mut i: usize = 0;
    assert(events@.take(0) =~= Seq::<FileEvent>::empty());
    while i < events.len()
        invariant
            i <= events.len(),
            c.scope == *scope,
            c.total_files == events@.len(),
            c.credit_halves == crate::report::total_credit(events@),
            c.in_scope_files == count_if(events@.take(i as int), is_in_scope()),
            c.out_of_scope_files == count_if(events@.take(i as int), is_out_of_scope()),
            c.blocked_files == count_if(events@.take(i as int), is_blocked()),
            c.approved_files == count_if(events@.take(i as int), is_approved()),
        decreases events.len() - i,
    {
        let ghost t = events@.take(i as int);
        assert(events@.take(i + 1).drop_last() =~= t);
        assert(events@.take(i + 1).last() == events@[i as int]);
        proof {
            lemma_count_bounded(t, is_in_scope());
            lemma_count_bounded(t, is_out_of_scope());
            lemma_count_bounded(t, is_blocked());
            lemma_count_bounded(t, is_approved());
        }
        let e = &events[i];
        if e.in_scope {
            c.in_scope_files = c.in_scope_files + 1;
        }
        if !e.in_scope && !e.is_blocked {
            c.out_of_scope_files = c.out_of_scope_files + 1;
        }
        if e.is_blocked {
            c.blocked_files = c.blocked_files + 1;
        }
        if e.approved == Some(true) {
            c.approved_files = c.approved_files + 1;
        }
        i = i + 1;
    }
    assert(events@.take(events.len() as int) =~= events@);
    c
}

/// The last event on each file of `events`, files in order of first touch.
pub fn latest_events(events: &[FileEvent]) -> (r: Vec<FileEvent>)
    ensures
        r@ == latest_by_file(events@),
{
    let mut out: Vec<FileEvent> = Vec::new();
    let mut i: usize = 0;
    assert(events@.take(0) =~= Seq::<FileEvent>::empty());
    while i < events.len()
        invariant
            i <= events.len(),
            out@ == latest_by_file(events@.take(i as int)),
        decreases events.len() - i,
    {
        let ghost c = out@;
        assert(events@.take(i + 1).drop_last() =~= events@.take(i as int));
        assert(events@.take(i + 1).last() == events@[i as int]);
        let p = chars_of(events[i].file_path.as_str());
        let mut j: usize = 0;
        while j < out.len() && !slice_eq(&chars_of(out[j].file_path.as_str()), &p)
            invariant
                out@ == c,
                j <= c.len(),
                p@ == events@[i as int].file_path@,
                find_file(c, p@, 0) == find_file(c, p@, j as int),
            decreases c.len() - j,
        {
            j = j + 1;
        }
        if j < out.len() {
            assert(find_file(c, p@, j as int) == j);
            out.set(j, events[i].clone());
        } else {
            assert(find_file(c, p@, j as int) == -1);
            out.push(events[i].clone());
        }
        i = i + 1;
    }
    assert(events@.take(events.len() as int) =~= events@);
    out
}

/// Audits and reverts scopes through a tracker.
pub struct Auditor {
    pub tracker: Tracker,
}

impl Auditor {
    /// An auditor reading through `tracker`.
    pub fn new(tracker: Tracker) -> (a: Auditor)
        ensures
            a.tracker == tracker,
    {
        Auditor { tracker }
    }

    /// The files a revert of `scope` undoes, in event order: every out-of-scope change
    /// still waiting for a decision.
    pub fn revert_out_of_scope(&self, scope: &Scope) -> (r: Result<Vec<String>, Error>)
        ensures
            r matches Ok(v) && v@.map_values(|s: String| s@) == paths_where(
                events_for(self.tracker.db.event_rows(), scope.id@),
                to_revert(),
            ),
    {
        Ok(revert_paths(&self.tracker, scope))
    }
}

/// The files a revert of `scope` undoes, in event order: every out-of-scope change
/// still waiting for a decision.
pub fn revert_paths(tracker: &Tracker, scope: &Scope) -> (v: Vec<String>)
    ensures
        v@.map_values(|s: String| s@) == paths_where(
            events_for(tracker.db.event_rows(), scope.id@),
            to_revert(),
        ),
{
    let events = match tracker.get_events(scope.id.as_str()) {
        Ok(v) => v,
        Err(_) => Vec::new(),
    };
    let mut out: Vec<String> = Vec::new();
    let mut i: usize = 0;
    assert(events@.take(0) =~= Seq::<FileEvent>::empty());
    assert(out@.map_values(|s: String| s@) =~= Seq::<Seq<char>>::empty());
    while i < events.len()
        invariant
            i <= events.len(),
            out@.map_values(|s: String| s@) == paths_where(events@.take(i as int), to_revert()),
        decreases events.len() - i,
    {
        assert(events@.take(i + 1).drop_last() =~= events@.take(i as int));
        assert(events@.take(i + 1).last() == events@[i as int]);
        let e = &events[i];
        let ghost before = out@;
        if !e.in_scope && !e.is_blocked && e.approved.is_none() {
            out.push(e.file_path.clone());
            assert(out@.map_values(|s: String| s@) =~= before.map_values(|s: String| s@).push(
                e.file_path@,
            ));
        }
        i = i + 1;
    }
    assert(events@.take(events.len() as int) =~= events@);
    out
}

impl ScopeStatus {
    /// The status of `scope`: the counts of its events.
    pub fn from_scope(scope: &Scope, tracker: &Tracker) -> (r: Result<ScopeStatus, Error>)
        ensures
            r matches Ok(c) && c.scope == *scope && counts_of(
                c,
                events_for(tracker.db.event_rows(), scope.id@),
            ),
    {
        let events = match tracker.get_events(scope.id.as_str()) {
            Ok(v) => v,
            Err(_) => Vec::new(),
        };
        Ok(count_events(scope, &events))
    }
}

} // verus!
