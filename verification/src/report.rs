//! Scope scores and the weekly drift report.
use vstd::prelude::*;

use crate::clock::{
    calendar_max, calendar_min, now_instant, rfc3339_at, rfc3339_text, ymd_at, ymd_text,
};
use crate::db::{
    created_before, events_for, pending_for, rows_approved, rows_rejected, select_scope,
    select_window, Database,
};
use crate::error::Error;
use crate::order::{
    insert_by, lemma_sort_contains, lemma_sort_keeps, lemma_sort_keys_distinct, lemma_sort_members,
    lemma_sort_sorted, sort_by, sorted_by,
};
use crate::text::{decimal, push_decimal};
use crate::patterns::{capped, lists, out_of_scope, ranking, scopes_events, PatternAnalyzer, ViolationPattern};
use crate::scope::{Scope, ScopeStatus};
use crate::tracker::FileEvent;

verus! {

// ---------------------------------------------------------------------------
// Scores
// ---------------------------------------------------------------------------

/// The credit of one event, in half points: an event in scope or approved earns
/// a full point, a pending out-of-scope event half a point, a blocked or rejected
/// event nothing.
pub open spec fn credit_halves(e: FileEvent) -> nat {
    if e.in_scope {
        2
    } else if e.is_blocked {
        0
    } else {
        match e.approved {
            Some(true) => 2,
            Some(false) => 0,
            None => 1,
        }
    }
}

/// The total credit of `evs`, in half points.
pub open spec fn total_credit(evs: Seq<FileEvent>) -> nat
    decreases evs.len(),
{
    if evs.len() == 0 {
        0
    } else {
        total_credit(evs.drop_last()) + credit_halves(evs.last())
    }
}

/// The credit of a scope, in half points, by kind of event: two for each event in
/// scope, two for each approved out-of-scope change, one for each out-of-scope
/// change still waiting for a decision, and nothing for blocked or rejected ones.
pub proof fn lemma_credit_by_kind(evs: Seq<FileEvent>)
    ensures
        total_credit(evs) == 2 * evs.filter(|e: FileEvent| e.in_scope).len() + 2 * evs.filter(
            |e: FileEvent| !e.in_scope && !e.is_blocked && e.approved == Some(true),
        ).len() + evs.filter(|e: FileEvent| !e.in_scope && !e.is_blocked && e.approved is None).len(),
    decreases evs.len(),
{
    reveal(Seq::filter);
    if evs.len() > 0 {
        lemma_credit_by_kind(evs.drop_last());
    }
}

/// The total credit of `events`, in half points. The scope score is this over twice
/// the number of events, as a percentage (100 for no events).
pub fn score_credit(events: &[FileEvent]) -> (r: u128)
    ensures
        r == total_credit(events@),
        r <= 2 * events@.len(),
{
    let mut sum: u128 = 0;
    let mut i: usize = 0;
    assert(events@.take(0) =~= Seq::<FileEvent>::empty());
    while i < events.len()
        invariant
            i <= events.len(),
            sum == total_credit(events@.take(i as int)),
            sum <= 2 * i,
        decreases events.len() - i,
    {
        assert(events@.take(i + 1).drop_last() =~= events@.take(i as int));
        assert(events@.take(i + 1).last() == events@[i as int]);
        let e = &events[i];
        let c: u128 = if e.in_scope {
            2
        } else if e.is_blocked {
            0
        } else {
            match e.approved {
                Some(true) => 2,
                Some(false) => 0,
                None => 1,
            }
        };
        sum = sum + c;
        i = i + 1;
    }
    assert(events@.take(events.len() as int) =~= events@);
    sum
}


/// No event earns more than a full point: a score never exceeds 100%.
pub proof fn lemma_credit_bounded(evs: Seq<FileEvent>)
    ensures
        total_credit(evs) <= 2 * evs.len(),
    decreases evs.len(),
{
    if evs.len() > 0 {
        lemma_credit_bounded(evs.drop_last());
    }
}

/// When every event is in scope, every event earns a full point: the score is 100%.
pub proof fn lemma_all_in_scope_full_credit(evs: Seq<FileEvent>)
    requires
        forall|j: int| 0 <= j < evs.len() ==> (#[trigger] evs[j]).in_scope,
    ensures
        total_credit(evs) == 2 * evs.len(),
    decreases evs.len(),
{
    if evs.len() > 0 {
        let d = evs.drop_last();
        assert forall|j: int| 0 <= j < d.len() implies (#[trigger] d[j]).in_scope by {
            assert(d[j] == evs[j]);
        }
        lemma_all_in_scope_full_credit(d);
        assert(evs.last() == evs[evs.len() - 1]);
    }
}

/// Credit adds up over an appended event.
proof fn lemma_credit_push(s: Seq<FileEvent>, e: FileEvent)
    ensures
        total_credit(s.push(e)) == total_credit(s) + credit_halves(e),
{
    assert(s.push(e).drop_last() =~= s);
}

/// Inserting an event adds its credit, wherever it goes.
proof fn lemma_credit_insert(s: Seq<FileEvent>, e: FileEvent, f: spec_fn(FileEvent, FileEvent) -> bool)
    ensures
        total_credit(insert_by(s, e, f)) == total_credit(s) + credit_halves(e),
    decreases s.len(),
{
    if s.len() == 0 {
        assert(seq![e] =~= s.push(e));
        lemma_credit_push(s, e);
    } else if f(s.last(), e) {
        lemma_credit_push(s, e);
    } else {
        let d = s.drop_last();
        lemma_credit_insert(d, e, f);
        lemma_credit_push(insert_by(d, e, f), s.last());
        assert(d.push(s.last()) =~= s);
        lemma_credit_push(d, s.last());
    }
}

/// Reordering events does not change their credit.
pub proof fn lemma_credit_sorted(s: Seq<FileEvent>, f: spec_fn(FileEvent, FileEvent) -> bool)
    ensures
        total_credit(sort_by(s, f)) == total_credit(s),
    decreases s.len(),
{
    if s.len() > 0 {
        lemma_credit_sorted(s.drop_last(), f);
        lemma_credit_insert(sort_by(s.drop_last(), f), s.last(), f);
    }
}

/// Two stores whose events match one for one in scope, one earning at least (or at
/// most) the credit of the other, select as many events for each scope, with at
/// least (or at most) the credit.
proof fn lemma_select_credit(old: Seq<FileEvent>, new: Seq<FileEvent>, id: Seq<char>, up: bool)
    requires
        new.len() == old.len(),
        forall|j: int|
            0 <= j < old.len() ==> {
                &&& (#[trigger] new[j]).scope_id == old[j].scope_id
                &&& up ==> credit_halves(new[j]) >= credit_halves(old[j])
                &&& !up ==> credit_halves(new[j]) <= credit_halves(old[j])
            },
    ensures
        select_scope(new, id).len() == select_scope(old, id).len(),
        up ==> total_credit(select_scope(new, id)) >= total_credit(select_scope(old, id)),
        !up ==> total_credit(select_scope(new, id)) <= total_credit(select_scope(old, id)),
    decreases old.len(),
{
    if old.len() > 0 {
        let od = old.drop_last();
        let nd = new.drop_last();
        assert forall|j: int| 0 <= j < od.len() implies {
            &&& (#[trigger] nd[j]).scope_id == od[j].scope_id
            &&& up ==> credit_halves(nd[j]) >= credit_halves(od[j])
            &&& !up ==> credit_halves(nd[j]) <= credit_halves(od[j])
        } by {
            assert(nd[j] == new[j] && od[j] == old[j]);
        }
        lemma_select_credit(od, nd, id, up);
        assert(new.last() == new[new.len() - 1] && old.last() == old[old.len() - 1]);
        if old.last().scope_id@ == id {
            lemma_credit_push(select_scope(od, id), old.last());
            lemma_credit_push(select_scope(nd, id), new.last());
        }
    }
}

/// Approving never lowers a scope's score: every scope keeps its number of events,
/// and its credit does not go down.
pub proof fn lemma_approval_never_lowers_score(
    old: Seq<FileEvent>,
    new: Seq<FileEvent>,
    path: Seq<char>,
    who: Seq<char>,
    id: Seq<char>,
)
    requires
        rows_approved(old, new, path, who),
    ensures
        events_for(new, id).len() == events_for(old, id).len(),
        total_credit(events_for(new, id)) >= total_credit(events_for(old, id)),
{
    assert forall|j: int| 0 <= j < old.len() implies {
        &&& (#[trigger] new[j]).scope_id == old[j].scope_id
        &&& true ==> credit_halves(new[j]) >= credit_halves(old[j])
        &&& !true ==> credit_halves(new[j]) <= credit_halves(old[j])
    } by {
        if pending_for(old[j], path) {
        } else {
            assert(new[j] == old[j]);
        }
    }
    lemma_select_credit(old, new, id, true);
    crate::order::lemma_sort_members(select_scope(old, id), crate::db::ts_before());
    crate::order::lemma_sort_members(select_scope(new, id), crate::db::ts_before());
    lemma_credit_sorted(select_scope(old, id), crate::db::ts_before());
    lemma_credit_sorted(select_scope(new, id), crate::db::ts_before());
}

/// Rejecting never raises a scope's score: every scope keeps its number of events,
/// and its credit does not go up.
pub proof fn lemma_rejection_never_raises_score(
    old: Seq<FileEvent>,
    new: Seq<FileEvent>,
    path: Seq<char>,
    reason: Seq<char>,
    id: Seq<char>,
)
    requires
        rows_rejected(old, new, path, reason),
    ensures
        events_for(new, id).len() == events_for(old, id).len(),
        total_credit(events_for(new, id)) <= total_credit(events_for(old, id)),
{
    assert forall|j: int| 0 <= j < old.len() implies {
        &&& (#[trigger] new[j]).scope_id == old[j].scope_id
        &&& false ==> credit_halves(new[j]) >= credit_halves(old[j])
        &&& !false ==> credit_halves(new[j]) <= credit_halves(old[j])
    } by {
        if pending_for(old[j], path) {
        } else {
            assert(new[j] == old[j]);
        }
    }
    lemma_select_credit(old, new, id, false);
    crate::order::lemma_sort_members(select_scope(old, id), crate::db::ts_before());
    crate::order::lemma_sort_members(select_scope(new, id), crate::db::ts_before());
    lemma_credit_sorted(select_scope(old, id), crate::db::ts_before());
    lemma_credit_sorted(select_scope(new, id), crate::db::ts_before());
}

// ---------------------------------------------------------------------------
// Weeks
// ---------------------------------------------------------------------------

/// Seconds in a week.
pub open spec fn week_secs() -> int {
    604800
}

/// `t` is a Monday 00:00 UTC (1970-01-01 was a Thursday).
pub open spec fn is_week_start(t: int) -> bool {
    t % 86400 == 0 && (t / 86400 + 3) % 7 == 0
}

/// The start of the week that holds `now`: the Monday 00:00 UTC at or before it,
/// less than a week before it.
pub open spec fn current_week_start_spec(now: i64) -> i64 {
    let day = now / 86400;
    (((day - (day + 3) % 7) * 86400) as i64)
}

/// Only one week start lies at or before `now` and less than a week before it.
pub proof fn lemma_week_start_unique(now: int, a: int, b: int)
    requires
        is_week_start(a),
        is_week_start(b),
        a <= now < a + week_secs(),
        b <= now < b + week_secs(),
    ensures
        a == b,
{
    assert(a == b) by (nonlinear_arith)
        requires
            a % 86400 == 0,
            b % 86400 == 0,
            (a / 86400 + 3) % 7 == 0,
            (b / 86400 + 3) % 7 == 0,
            a <= now < a + 604800,
            b <= now < b + 604800,
    ;
}

/// A week start is the start of its own week.
pub proof fn lemma_week_start_fixed(t: i64)
    requires
        is_week_start(t as int),
    ensures
        current_week_start_spec(t) == t,
{
    let day = t / 86400;
    assert(day * 86400 == t) by (nonlinear_arith)
        requires
            t % 86400 == 0,
            day == t / 86400,
    ;
}

/// The start of the week (Monday 00:00 UTC) that holds the instant `now`, in
/// seconds since the epoch.
#[verifier::spinoff_prover]
#[verifier::rlimit(40)]
pub fn current_week_start(now: i64) -> (r: i64)
    requires
        calendar_min() <= now <= calendar_max(),
    ensures
        is_week_start(r as int),
        r <= now < r + week_secs(),
        calendar_min() - week_secs() <= r,
        r == current_week_start_spec(now),
{
    let off: i64 = 8_334_601_833_600;
    let shifted: i64 = now + off;
    let day: i64 = shifted / 86400;
    let rem: i64 = shifted % 86400;
    let dow: i64 = (day + 3) % 7;
    assert(shifted == day * 86400 + rem && 0 <= rem < 86400) by (nonlinear_arith)
        requires
            shifted >= 0,
            day == shifted / 86400,
            rem == shifted % 86400,
    ;
    assert(0 <= dow < 7 && (day + 3) == ((day + 3) / 7) * 7 + dow) by (nonlinear_arith)
        requires
            day >= 0,
            dow == (day + 3) % 7,
    ;
    assert(0 <= day <= 200_000_000) by (nonlinear_arith)
        requires
            0 <= shifted <= 16_544_868_710_399,
            day == shifted / 86400,
    ;
    let start_day: i64 = day - dow - 96_465_299;
    let r: i64 = start_day * 86400;
    assert(r / 86400 == start_day && r % 86400 == 0) by (nonlinear_arith)
        requires
            r == start_day * 86400,
    ;
    assert((start_day + 3) % 7 == 0) by (nonlinear_arith)
        requires
            start_day == day - dow - 96_465_299,
            (day + 3) == ((day + 3) / 7) * 7 + dow,
    ;
    r
}


// ---------------------------------------------------------------------------
// The weekly tally
// ---------------------------------------------------------------------------

/// How many of `evs` were blocked.
pub open spec fn count_blocked(evs: Seq<FileEvent>) -> nat
    decreases evs.len(),
{
    if evs.len() == 0 {
        0
    } else {
        count_blocked(evs.drop_last()) + if evs.last().is_blocked {
            1nat
        } else {
            0nat
        }
    }
}

/// How many of `evs` touched files out of scope without being blocked.
pub open spec fn count_out_of_scope(evs: Seq<FileEvent>) -> nat
    decreases evs.len(),
{
    if evs.len() == 0 {
        0
    } else {
        count_out_of_scope(evs.drop_last()) + if out_of_scope(evs.last()) {
            1nat
        } else {
            0nat
        }
    }
}

/// How many of `scopes` are completed.
pub open spec fn count_completed(scopes: Seq<Scope>) -> nat
    decreases scopes.len(),
{
    if scopes.len() == 0 {
        0
    } else {
        count_completed(scopes.drop_last()) + if scopes.last().status == ScopeStatus::Completed {
            1nat
        } else {
            0nat
        }
    }
}

/// The first index from `i` on whose path is `p`, or -1.
pub open spec fn find_path(c: Seq<(Seq<char>, nat)>, p: Seq<char>, i: int) -> int
    decreases c.len() - i,
{
    if i < 0 || i >= c.len() {
        -1
    } else if c[i].0 == p {
        i
    } else {
        find_path(c, p, i + 1)
    }
}

/// How often each file was touched out of scope, in order of first touch.
pub open spec fn path_counts(evs: Seq<FileEvent>) -> Seq<(Seq<char>, nat)>
    decreases evs.len(),
{
    if evs.len() == 0 {
        Seq::<(Seq<char>, nat)>::empty()
    } else {
        let c = path_counts(evs.drop_last());
        let e = evs.last();
        if !out_of_scope(e) {
            c
        } else {
            let i = find_path(c, e.file_path@, 0);
            if i >= 0 {
                c.update(i, (c[i].0, c[i].1 + 1))
            } else {
                c.push((e.file_path@, 1nat))
            }
        }
    }
}

/// The files touched out of scope, as (position in `path_counts`, count), most
/// touched first; ties in order of first touch.
pub open spec fn file_ranking(evs: Seq<FileEvent>) -> Seq<(usize, usize)> {
    let c = path_counts(evs);
    sort_by(
        Seq::new(c.len(), |i: int| (i as usize, capped(c[i].1) as usize)),
        crate::patterns::ranks_before(),
    )
}

/// At most the first five of `s`.
pub open spec fn top5<T>(s: Seq<T>) -> Seq<T> {
    if s.len() > 5 {
        s.take(5)
    } else {
        s
    }
}

/// How many of `evs` touched the file `p` out of scope.
pub open spec fn oos_count(evs: Seq<FileEvent>, p: Seq<char>) -> nat
    decreases evs.len(),
{
    if evs.len() == 0 {
        0
    } else {
        oos_count(evs.drop_last(), p) + if out_of_scope(evs.last()) && evs.last().file_path@ == p {
            1nat
        } else {
            0nat
        }
    }
}

/// `find_path` gives the first index from `i` on that holds `p`, or -1 when none does.
proof fn lemma_find_path(c: Seq<(Seq<char>, nat)>, p: Seq<char>, i: int)
    requires
        0 <= i,
    ensures
        find_path(c, p, i) == -1 ==> forall|k: int| i <= k < c.len() ==> (#[trigger] c[k]).0 != p,
        find_path(c, p, i) != -1 ==> i <= find_path(c, p, i) < c.len() && c[find_path(c, p, i)].0
            == p,
    decreases c.len() - i,
{
    if i < c.len() && c[i].0 != p {
        lemma_find_path(c, p, i + 1);
    }
}

/// Each file appears once in `path_counts`, with the number of its out-of-scope
/// touches, and every file touched out of scope appears.
proof fn lemma_path_counts(evs: Seq<FileEvent>)
    ensures
        path_counts(evs).len() <= evs.len(),
        forall|i: int, j: int|
            0 <= i < j < path_counts(evs).len() ==> (#[trigger] path_counts(evs)[i]).0 != (
            #[trigger] path_counts(evs)[j]).0,
        forall|i: int|
            0 <= i < path_counts(evs).len() ==> (#[trigger] path_counts(evs)[i]).1 == oos_count(
                evs,
                path_counts(evs)[i].0,
            ) && path_counts(evs)[i].1 >= 1,
        forall|p: Seq<char>|
            #[trigger] oos_count(evs, p) > 0 ==> exists|i: int|
                0 <= i < path_counts(evs).len() && (#[trigger] path_counts(evs)[i]).0 == p,
    decreases evs.len(),
{
    if evs.len() > 0 {
        let d = evs.drop_last();
        let e = evs.last();
        lemma_path_counts(d);
        let c = path_counts(d);
        let n = path_counts(evs);
        if !out_of_scope(e) {
            assert(n == c);
            assert forall|p: Seq<char>| #[trigger] oos_count(evs, p) == oos_count(d, p) by {}
        } else {
            let q = e.file_path@;
            lemma_find_path(c, q, 0);
            let i = find_path(c, q, 0);
            if i >= 0 {
                assert(n == c.update(i, (c[i].0, c[i].1 + 1)));
                assert forall|a: int, b: int| 0 <= a < b < n.len() implies (#[trigger] n[a]).0 != (
                #[trigger] n[b]).0 by {
                    assert(n[a].0 == c[a].0 && n[b].0 == c[b].0);
                }
                assert forall|a: int| 0 <= a < n.len() implies (#[trigger] n[a]).1 == oos_count(
                    evs,
                    n[a].0,
                ) && n[a].1 >= 1 by {
                    assert(oos_count(evs, n[a].0) == oos_count(d, n[a].0) + if n[a].0 == q {
                        1nat
                    } else {
                        0nat
                    });
                    if a != i {
                        assert(c[a].0 != c[i].0);
                    }
                }
                assert forall|p: Seq<char>| #[trigger] oos_count(evs, p) > 0 implies exists|a: int|
                    0 <= a < n.len() && (#[trigger] n[a]).0 == p by {
                    if p == q {
                        assert(n[i].0 == p);
                    } else {
                        assert(oos_count(evs, p) == oos_count(d, p));
                        let a = choose|a: int| 0 <= a < c.len() && (#[trigger] c[a]).0 == p;
                        assert(n[a].0 == p);
                    }
                }
            } else {
                assert(n == c.push((q, 1nat)));
                if oos_count(d, q) > 0 {
                    let a = choose|a: int| 0 <= a < c.len() && (#[trigger] c[a]).0 == q;
                    assert(c[a].0 != q);
                }
                assert forall|a: int, b: int| 0 <= a < b < n.len() implies (#[trigger] n[a]).0 != (
                #[trigger] n[b]).0 by {
                    if b == c.len() {
                        assert(c[a].0 != q);
                    } else {
                        assert(n[a].0 == c[a].0 && n[b].0 == c[b].0);
                    }
                }
                assert forall|a: int| 0 <= a < n.len() implies (#[trigger] n[a]).1 == oos_count(
                    evs,
                    n[a].0,
                ) && n[a].1 >= 1 by {
                    assert(oos_count(evs, n[a].0) == oos_count(d, n[a].0) + if n[a].0 == q {
                        1nat
                    } else {
                        0nat
                    });
                    if a < c.len() {
                        assert(c[a].0 != q);
                        assert(n[a] == c[a]);
                    }
                }
                assert forall|p: Seq<char>| #[trigger] oos_count(evs, p) > 0 implies exists|a: int|
                    0 <= a < n.len() && (#[trigger] n[a]).0 == p by {
                    if p == q {
                        assert(n[c.len() as int].0 == p);
                    } else {
                        assert(oos_count(evs, p) == oos_count(d, p));
                        let a = choose|a: int| 0 <= a < c.len() && (#[trigger] c[a]).0 == p;
                        assert(n[a].0 == p);
                    }
                }
            }
        }
    }
}

/// `r` ranks the entry at position `k` of `path_counts`.
spec fn ranks_entry(r: Seq<(usize, usize)>, k: int) -> bool {
    exists|i: int| 0 <= i < r.len() && (#[trigger] r[i]).0 == k
}

/// The ranking of files holds each file of `path_counts` once, by its position,
/// with its count, most touched first.
proof fn lemma_file_ranking(evs: Seq<FileEvent>)
    requires
        evs.len() <= usize::MAX,
    ensures
        file_ranking(evs).len() == path_counts(evs).len(),
        sorted_by(file_ranking(evs), crate::patterns::ranks_before()),
        forall|i: int, j: int|
            0 <= i < j < file_ranking(evs).len() ==> (#[trigger] file_ranking(evs)[i]).0 != (
            #[trigger] file_ranking(evs)[j]).0,
        forall|i: int|
            0 <= i < file_ranking(evs).len() ==> {
                &&& (#[trigger] file_ranking(evs)[i]).0 < path_counts(evs).len()
                &&& file_ranking(evs)[i].1 == capped(path_counts(evs)[file_ranking(evs)[i].0 as int].1)
            },
        forall|k: int| 0 <= k < path_counts(evs).len() ==> #[trigger] ranks_entry(file_ranking(evs), k),
{
    let c = path_counts(evs);
    lemma_path_counts(evs);
    let before = crate::patterns::ranks_before();
    let full = Seq::new(c.len(), |i: int| (i as usize, capped(c[i].1) as usize));
    let r = file_ranking(evs);
    assert(r == sort_by(full, before));
    lemma_sort_members(full, before);
    lemma_sort_sorted(full, before);
    assert forall|i: int, j: int| 0 <= i < j < full.len() implies crate::patterns::kind_key()(
        #[trigger] full[i],
    ) != crate::patterns::kind_key()(#[trigger] full[j]) by {}
    lemma_sort_keys_distinct(full, before, crate::patterns::kind_key());
    assert forall|i: int, j: int| 0 <= i < j < r.len() implies (#[trigger] r[i]).0 != (
    #[trigger] r[j]).0 by {
        assert(crate::patterns::kind_key()(r[i]) != crate::patterns::kind_key()(r[j]));
    }
    assert forall|i: int| 0 <= i < r.len() implies {
        &&& (#[trigger] r[i]).0 < c.len()
        &&& r[i].1 == capped(c[r[i].0 as int].1)
    } by {
        lemma_sort_contains(full, before, i);
        let k = choose|k: int| 0 <= k < full.len() && full[k] == r[i];
        assert(full[k] == r[i]);
    }
    assert forall|k: int| 0 <= k < c.len() implies #[trigger] ranks_entry(r, k) by {
        assert(full.contains(full[k]));
        lemma_sort_keeps(full, before, full[k]);
        let i = choose|i: int| 0 <= i < r.len() && r[i] == full[k];
        assert(r[i].0 == k);
    }
}

/// `f` lists the file `p`.
pub open spec fn lists_file(f: Seq<(String, usize)>, p: Seq<char>) -> bool {
    exists|i: int| 0 <= i < f.len() && (#[trigger] f[i]).0@ == p
}

/// The most-touched files of a weekly tally: at most five, most touched first, each
/// file once, each with the number of its out-of-scope touches in the week; a file
/// touched out of scope but left out was touched no more often than any listed one.
pub proof fn lemma_top_files(t: WeeklyTally, db: Database, start: i64)
    requires
        tally_of(t, db, start),
        scopes_events(db.event_rows(), week_scopes(db, start)).len() <= usize::MAX,
    ensures
        ({
            let evs = scopes_events(db.event_rows(), week_scopes(db, start));
            let f = t.top_offending_files@;
            &&& f.len() <= 5
            &&& forall|i: int, j: int| 0 <= i < j < f.len() ==> (#[trigger] f[i]).1 >= (#[trigger] f[j]).1
            &&& forall|i: int, j: int|
                0 <= i < j < f.len() ==> (#[trigger] f[i]).0@ != (#[trigger] f[j]).0@
            &&& forall|i: int|
                0 <= i < f.len() ==> (#[trigger] f[i]).1 == capped(oos_count(evs, f[i].0@))
                    && f[i].1 >= 1
            &&& forall|p: Seq<char>|
                #[trigger] oos_count(evs, p) > 0 && !lists_file(f, p) ==> {
                    &&& f.len() == 5
                    &&& forall|i: int| 0 <= i < f.len() ==> capped(oos_count(evs, p)) <= (#[trigger] f[i]).1
                }
        }),
{
    let evs = scopes_events(db.event_rows(), week_scopes(db, start));
    let f = t.top_offending_files@;
    let c = path_counts(evs);
    let r = file_ranking(evs);
    let top = top5(r);
    lemma_path_counts(evs);
    lemma_file_ranking(evs);
    assert forall|i: int| 0 <= i < top.len() implies #[trigger] top[i] == r[i] by {}
    assert forall|i: int, j: int| 0 <= i < j < f.len() implies (#[trigger] f[i]).1 >= (
    #[trigger] f[j]).1 by {
        assert(top[i] == r[i] && top[j] == r[j]);
        assert(crate::patterns::ranks_before()(r[i], r[j]));
    }
    assert forall|i: int, j: int| 0 <= i < j < f.len() implies (#[trigger] f[i]).0@ != (
    #[trigger] f[j]).0@ by {
        assert(top[i] == r[i] && top[j] == r[j]);
        assert(r[i].0 != r[j].0);
        if r[i].0 < r[j].0 {
            assert(c[r[i].0 as int].0 != c[r[j].0 as int].0);
        } else {
            assert(c[r[j].0 as int].0 != c[r[i].0 as int].0);
        }
    }
    assert forall|i: int| 0 <= i < f.len() implies (#[trigger] f[i]).1 == capped(
        oos_count(evs, f[i].0@),
    ) && f[i].1 >= 1 by {
        assert(top[i] == r[i]);
        let k = r[i].0 as int;
        assert(c[k].1 == oos_count(evs, c[k].0));
    }
    assert forall|p: Seq<char>| #[trigger] oos_count(evs, p) > 0 && !lists_file(f, p) implies {
        &&& f.len() == 5
        &&& forall|i: int| 0 <= i < f.len() ==> capped(oos_count(evs, p)) <= (#[trigger] f[i]).1
    } by {
        let k = choose|k: int| 0 <= k < c.len() && (#[trigger] c[k]).0 == p;
        assert(ranks_entry(r, k));
        let j = choose|j: int| 0 <= j < r.len() && (#[trigger] r[j]).0 == k;
        if j < top.len() {
            assert(top[j] == r[j]);
            assert(f[j].0@ == p);
        }
        assert(r.len() > 5);
        assert forall|i: int| 0 <= i < f.len() implies capped(oos_count(evs, p)) <= (
        #[trigger] f[i]).1 by {
            assert(top[i] == r[i]);
            assert(crate::patterns::ranks_before()(r[i], r[j]));
        }
    }
}

/// The scores of one scope in a weekly tally.
pub struct ScopeTally {
    pub owner: String,
    /// The scope's credit in half points.
    pub credit_halves: u128,
    /// The number of the scope's events.
    pub events: usize,
}

/// The counts behind the weekly drift report.
pub struct WeeklyTally {
    pub week_start: String,
    pub week_end: String,
    pub total_tasks: usize,
    pub completed_tasks: usize,
    /// One entry per scope of the week, oldest scope first.
    pub scopes: Vec<ScopeTally>,
    pub top_violations: Vec<ViolationPattern>,
    pub top_offending_files: Vec<(String, usize)>,
    pub total_files_tracked: usize,
    pub total_blocked_attempts: usize,
    pub total_out_of_scope: usize,
}

/// The scopes of the week starting at `start`, oldest first.
pub open spec fn week_scopes(db: Database, start: i64) -> Seq<Scope> {
    sort_by(
        select_window(
            db.scope_rows(),
            rfc3339_text(start, 0),
            rfc3339_text((start + week_secs()) as i64, 0),
        ),
        created_before(),
    )
}

/// `t` is the tally of the week starting at `start` in `db`.
pub open spec fn tally_of(t: WeeklyTally, db: Database, start: i64) -> bool {
    let scopes = week_scopes(db, start);
    let rows = db.event_rows();
    let evs = scopes_events(rows, scopes);
    let files = file_ranking(evs);
    let top = top5(files);
    let kinds = top5(ranking(rows, scopes));
    &&& t.week_start@ == ymd_text(start)
    &&& t.week_end@ == ymd_text((start + week_secs() - 1) as i64)
    &&& t.total_tasks == scopes.len()
    &&& t.completed_tasks == count_completed(scopes)
    &&& t.total_files_tracked == capped(evs.len())
    &&& t.total_blocked_attempts == capped(count_blocked(evs))
    &&& t.total_out_of_scope == capped(count_out_of_scope(evs))
    &&& t.scopes@.len() == scopes.len()
    &&& forall|i: int|
        0 <= i < scopes.len() ==> {
            &&& (#[trigger] t.scopes@[i]).owner@ == scopes[i].owner@
            &&& t.scopes@[i].credit_halves == total_credit(events_for(rows, scopes[i].id@))
            &&& t.scopes@[i].events == events_for(rows, scopes[i].id@).len()
        }
    &&& lists(t.top_violations@, kinds)
    &&& t.top_offending_files@.len() == top.len()
    &&& forall|i: int|
        0 <= i < top.len() ==> {
            &&& (#[trigger] t.top_offending_files@[i]).0@ == path_counts(evs)[top[i].0 as int].0
            &&& t.top_offending_files@[i].1 == top[i].1
        }
}

/// The owners of `scopes`, in order.
pub open spec fn owners_of(scopes: Seq<ScopeTally>) -> Seq<Seq<char>> {
    scopes.map_values(|s: ScopeTally| s.owner@)
}

/// Each owner of `owners` with the number of times it occurs, in order of first
/// occurrence.
pub open spec fn owner_counts(owners: Seq<Seq<char>>) -> Seq<(Seq<char>, nat)>
    decreases owners.len(),
{
    if owners.len() == 0 {
        Seq::<(Seq<char>, nat)>::empty()
    } else {
        let c = owner_counts(owners.drop_last());
        let o = owners.last();
        let i = find_path(c, o, 0);
        if i >= 0 {
            c.update(i, (c[i].0, c[i].1 + 1))
        } else {
            c.push((o, 1nat))
        }
    }
}

/// How often `o` occurs in `owners`.
pub open spec fn occurrences(owners: Seq<Seq<char>>, o: Seq<char>) -> nat
    decreases owners.len(),
{
    if owners.len() == 0 {
        0
    } else {
        occurrences(owners.drop_last(), o) + if owners.last() == o {
            1nat
        } else {
            0nat
        }
    }
}

/// The sum of the counts of `c`.
pub open spec fn count_sum(c: Seq<(Seq<char>, nat)>) -> nat
    decreases c.len(),
{
    if c.len() == 0 {
        0
    } else {
        count_sum(c.drop_last()) + c.last().1
    }
}

/// Raising one count raises the sum by as much.
proof fn lemma_count_sum_bump(c: Seq<(Seq<char>, nat)>, i: int)
    requires
        0 <= i < c.len(),
    ensures
        count_sum(c.update(i, (c[i].0, c[i].1 + 1))) == count_sum(c) + 1,
    decreases c.len(),
{
    let u = c.update(i, (c[i].0, c[i].1 + 1));
    if i < c.len() - 1 {
        lemma_count_sum_bump(c.drop_last(), i);
        assert(u.drop_last() =~= c.drop_last().update(i, (c[i].0, c[i].1 + 1)));
    } else {
        assert(u.drop_last() =~= c.drop_last());
    }
}

/// Each owner is counted once, with the number of its scopes; every owner is
/// counted; and the counts add up to the number of scopes.
pub proof fn lemma_owner_counts(owners: Seq<Seq<char>>)
    ensures
        owner_counts(owners).len() <= owners.len(),
        count_sum(owner_counts(owners)) == owners.len(),
        forall|i: int, j: int|
            0 <= i < j < owner_counts(owners).len() ==> (#[trigger] owner_counts(owners)[i]).0 != (
            #[trigger] owner_counts(owners)[j]).0,
        forall|i: int|
            0 <= i < owner_counts(owners).len() ==> (#[trigger] owner_counts(owners)[i]).1
                == occurrences(owners, owner_counts(owners)[i].0) && owner_counts(owners)[i].1 >= 1,
        forall|o: Seq<char>|
            #[trigger] occurrences(owners, o) > 0 ==> exists|i: int|
                0 <= i < owner_counts(owners).len() && (#[trigger] owner_counts(owners)[i]).0 == o,
    decreases owners.len(),
{
    if owners.len() > 0 {
        let d = owners.drop_last();
        let q = owners.last();
        lemma_owner_counts(d);
        let c = owner_counts(d);
        let n = owner_counts(owners);
        lemma_find_path(c, q, 0);
        let i = find_path(c, q, 0);
        if i >= 0 {
            assert(n == c.update(i, (c[i].0, c[i].1 + 1)));
            lemma_count_sum_bump(c, i);
            assert forall|a: int, b: int| 0 <= a < b < n.len() implies (#[trigger] n[a]).0 != (
            #[trigger] n[b]).0 by {
                assert(n[a].0 == c[a].0 && n[b].0 == c[b].0);
            }
            assert forall|a: int| 0 <= a < n.len() implies (#[trigger] n[a]).1 == occurrences(
                owners,
                n[a].0,
            ) && n[a].1 >= 1 by {
                assert(occurrences(owners, n[a].0) == occurrences(d, n[a].0) + if n[a].0 == q {
                    1nat
                } else {
                    0nat
                });
                if a != i {
                    assert(c[a].0 != c[i].0);
                }
            }
            assert forall|o: Seq<char>| #[trigger] occurrences(owners, o) > 0 implies exists|a: int|
                0 <= a < n.len() && (#[trigger] n[a]).0 == o by {
                if o == q {
                    assert(n[i].0 == o);
                } else {
                    assert(occurrences(owners, o) == occurrences(d, o));
                    let a = choose|a: int| 0 <= a < c.len() && (#[trigger] c[a]).0 == o;
                    assert(n[a].0 == o);
                }
            }
        } else {
            assert(n == c.push((q, 1nat)));
            assert(n.drop_last() =~= c);
            if occurrences(d, q) > 0 {
                let a = choose|a: int| 0 <= a < c.len() && (#[trigger] c[a]).0 == q;
                assert(c[a].0 != q);
            }
            assert forall|a: int, b: int| 0 <= a < b < n.len() implies (#[trigger] n[a]).0 != (
            #[trigger] n[b]).0 by {
                if b == c.len() {
                    assert(c[a].0 != q);
                } else {
                    assert(n[a].0 == c[a].0 && n[b].0 == c[b].0);
                }
            }
            assert forall|a: int| 0 <= a < n.len() implies (#[trigger] n[a]).1 == occurrences(
                owners,
                n[a].0,
            ) && n[a].1 >= 1 by {
                assert(occurrences(owners, n[a].0) == occurrences(d, n[a].0) + if n[a].0 == q {
                    1nat
                } else {
                    0nat
                });
                if a < c.len() {
                    assert(c[a].0 != q);
                    assert(n[a] == c[a]);
                }
            }
            assert forall|o: Seq<char>| #[trigger] occurrences(owners, o) > 0 implies exists|a: int|
                0 <= a < n.len() && (#[trigger] n[a]).0 == o by {
                if o == q {
                    assert(n[c.len() as int].0 == o);
                } else {
                    assert(occurrences(owners, o) == occurrences(d, o));
                    let a = choose|a: int| 0 <= a < c.len() && (#[trigger] c[a]).0 == o;
                    assert(n[a].0 == o);
                }
            }
        }
    }
}

/// The owners of the week's scopes, each with its number of tasks, in order of
/// first appearance.
pub fn owner_tasks(t: &WeeklyTally) -> (r: Vec<(String, usize)>)
    ensures
        r@.len() == owner_counts(owners_of(t.scopes@)).len(),
        forall|i: int|
            0 <= i < r@.len() ==> {
                &&& (#[trigger] r@[i]).0@ == owner_counts(owners_of(t.scopes@))[i].0
                &&& r@[i].1 == owner_counts(owners_of(t.scopes@))[i].1
            },
{
    let ghost all = owners_of(t.scopes@);
    let mut r: Vec<(String, usize)> = Vec::new();
    let mut i: usize = 0;
    assert(all.take(0) =~= Seq::<Seq<char>>::empty());
    while i < t.scopes.len()
        invariant
            i <= t.scopes@.len(),
            all == owners_of(t.scopes@),
            r@.len() == owner_counts(all.take(i as int)).len(),
            forall|q: int|
                0 <= q < r@.len() ==> {
                    &&& (#[trigger] r@[q]).0@ == owner_counts(all.take(i as int))[q].0
                    &&& r@[q].1 == owner_counts(all.take(i as int))[q].1
                },
            count_sum(owner_counts(all.take(i as int))) == i,
        decreases t.scopes.len() - i,
    {
        let ghost c = owner_counts(all.take(i as int));
        proof {
            lemma_owner_counts(all.take(i as int));
            assert(all.take(i + 1).drop_last() =~= all.take(i as int));
            assert(all.take(i + 1).last() == t.scopes@[i as int].owner@);
        }
        let o = t.scopes[i].owner.as_str();
        let mut j: usize = 0;
        while j < r.len() && !crate::text::str_eq(r[j].0.as_str(), o)
            invariant
                j <= r@.len(),
                r@.len() == c.len(),
                forall|q: int| 0 <= q < r@.len() ==> (#[trigger] r@[q]).0@ == c[q].0,
                find_path(c, o@, 0) == find_path(c, o@, j as int),
            decreases r.len() - j,
        {
            j = j + 1;
        }
        if j < r.len() {
            assert(find_path(c, o@, j as int) == j);
            proof {
                lemma_count_sum_bump(c, j as int);
                lemma_count_sum_le(c, j as int);
            }
            let n = r[j].1;
            let name = String::from_str(o);
            r.set(j, (name, n + 1));
        } else {
            assert(find_path(c, o@, j as int) == -1);
            r.push((String::from_str(o), 1));
            assert(count_sum(c.push((o@, 1nat))) == count_sum(c) + 1) by {
                assert(c.push((o@, 1nat)).drop_last() =~= c);
            }
        }
        i = i + 1;
    }
    assert(all.take(t.scopes@.len() as int) =~= all);
    r
}

/// No count exceeds the sum.
proof fn lemma_count_sum_le(c: Seq<(Seq<char>, nat)>, i: int)
    requires
        0 <= i < c.len(),
    ensures
        c[i].1 <= count_sum(c),
    decreases c.len(),
{
    if i < c.len() - 1 {
        lemma_count_sum_le(c.drop_last(), i);
    }
}

/// The tasks per owner of a weekly tally: each owner once, with the number of its
/// scopes in the week; every owner of the week appears; the tasks add up to the
/// week's total.
pub proof fn lemma_owner_tasks_total(t: WeeklyTally, db: Database, start: i64)
    requires
        tally_of(t, db, start),
    ensures
        count_sum(owner_counts(owners_of(t.scopes@))) == t.total_tasks,
{
    lemma_owner_counts(owners_of(t.scopes@));
}

/// The events of each of `scopes`, added up.
pub open spec fn events_total(rows: Seq<FileEvent>, scopes: Seq<Scope>) -> nat
    decreases scopes.len(),
{
    if scopes.len() == 0 {
        0
    } else {
        events_total(rows, scopes.drop_last()) + events_for(rows, scopes.last().id@).len()
    }
}

/// The blocked events of each of `scopes`, added up.
pub open spec fn blocked_total(rows: Seq<FileEvent>, scopes: Seq<Scope>) -> nat
    decreases scopes.len(),
{
    if scopes.len() == 0 {
        0
    } else {
        blocked_total(rows, scopes.drop_last()) + count_blocked(events_for(rows, scopes.last().id@))
    }
}

/// The out-of-scope events of each of `scopes`, added up.
pub open spec fn out_of_scope_total(rows: Seq<FileEvent>, scopes: Seq<Scope>) -> nat
    decreases scopes.len(),
{
    if scopes.len() == 0 {
        0
    } else {
        out_of_scope_total(rows, scopes.drop_last()) + count_out_of_scope(
            events_for(rows, scopes.last().id@),
        )
    }
}

/// Counting over two sequences one after the other.
proof fn lemma_counts_concat(a: Seq<FileEvent>, b: Seq<FileEvent>)
    ensures
        count_blocked(a + b) == count_blocked(a) + count_blocked(b),
        count_out_of_scope(a + b) == count_out_of_scope(a) + count_out_of_scope(b),
    decreases b.len(),
{
    if b.len() == 0 {
        assert(a + b =~= a);
    } else {
        lemma_counts_concat(a, b.drop_last());
        assert((a + b).drop_last() =~= a + b.drop_last());
        assert((a + b).last() == b.last());
    }
}

/// The events of `scopes`, taken together, are counted scope by scope.
proof fn lemma_scope_totals(rows: Seq<FileEvent>, scopes: Seq<Scope>)
    ensures
        scopes_events(rows, scopes).len() == events_total(rows, scopes),
        count_blocked(scopes_events(rows, scopes)) == blocked_total(rows, scopes),
        count_out_of_scope(scopes_events(rows, scopes)) == out_of_scope_total(rows, scopes),
    decreases scopes.len(),
{
    if scopes.len() > 0 {
        lemma_scope_totals(rows, scopes.drop_last());
        lemma_counts_concat(
            scopes_events(rows, scopes.drop_last()),
            events_for(rows, scopes.last().id@),
        );
    }
}

/// The weekly tally, in one place: its scopes are exactly the stored scopes created
/// in the week, each as often as stored, oldest first; the tasks and completed tasks
/// are counted over them; the files tracked, blocked attempts and out-of-scope touches
/// are the sums over those scopes of their listed events (as a `usize` holds them);
/// the top kinds are the first five of the ranking of those scopes.
pub proof fn lemma_weekly_tally(t: WeeklyTally, db: Database, start: i64)
    requires
        tally_of(t, db, start),
    ensures
        ({
            let s = week_scopes(db, start);
            let rows = db.event_rows();
            let from = rfc3339_text(start, 0);
            let to = rfc3339_text((start + week_secs()) as i64, 0);
            &&& sorted_by(s, created_before())
            &&& forall|x: Scope|
                #[trigger] s.to_multiset().count(x) == if crate::db::in_window(x, from, to) {
                    db.scope_rows().to_multiset().count(x)
                } else {
                    0
                }
            &&& t.total_tasks == s.len()
            &&& t.completed_tasks == count_completed(s)
            &&& t.total_files_tracked == capped(events_total(rows, s))
            &&& t.total_blocked_attempts == capped(blocked_total(rows, s))
            &&& t.total_out_of_scope == capped(out_of_scope_total(rows, s))
            &&& lists(t.top_violations@, top5(ranking(rows, s)))
        }),
{
    let from = rfc3339_text(start, 0);
    let to = rfc3339_text((start + week_secs()) as i64, 0);
    crate::db::lemma_window_listed(db.scope_rows(), from, to);
    lemma_scope_totals(db.event_rows(), week_scopes(db, start));
}

/// An event that touched a file out of scope without being blocked, whatever was
/// decided about it.
pub open spec fn touched_out_of_scope() -> spec_fn(FileEvent) -> bool {
    |e: FileEvent| !e.in_scope && !e.is_blocked
}

/// A blocked event.
pub open spec fn was_blocked() -> spec_fn(FileEvent) -> bool {
    |e: FileEvent| e.is_blocked
}

/// Counting the events of `evs` that touched a file out of scope, and those that
/// were blocked: every such event counts once, approved, rejected or undecided.
pub proof fn lemma_counts_are_filters(evs: Seq<FileEvent>)
    ensures
        count_out_of_scope(evs) == evs.filter(touched_out_of_scope()).len(),
        count_blocked(evs) == evs.filter(was_blocked()).len(),
    decreases evs.len(),
{
    reveal(Seq::filter);
    if evs.len() > 0 {
        lemma_counts_are_filters(evs.drop_last());
    }
}

/// The completed scopes are counted once each.
pub proof fn lemma_completed_is_filter(scopes: Seq<Scope>)
    ensures
        count_completed(scopes) == scopes.filter(|s: Scope| s.status == ScopeStatus::Completed).len(),
    decreases scopes.len(),
{
    reveal(Seq::filter);
    if scopes.len() > 0 {
        lemma_completed_is_filter(scopes.drop_last());
    }
}

/// The out-of-scope touches add up to the counts of the files touched out of scope.
pub proof fn lemma_out_of_scope_by_file(evs: Seq<FileEvent>)
    ensures
        count_out_of_scope(evs) == count_sum(path_counts(evs)),
    decreases evs.len(),
{
    if evs.len() > 0 {
        let d = evs.drop_last();
        let e = evs.last();
        lemma_out_of_scope_by_file(d);
        let c = path_counts(d);
        if out_of_scope(e) {
            let i = find_path(c, e.file_path@, 0);
            lemma_find_path(c, e.file_path@, 0);
            if i >= 0 {
                lemma_count_sum_bump(c, i);
            } else {
                assert(c.push((e.file_path@, 1nat)).drop_last() =~= c);
            }
        }
    }
}

/// The weekly totals count every event of the week's scopes by what it was, not by
/// what was decided about it: the out-of-scope touches are all events that touched a
/// file out of scope without being blocked, and they add up to the counts of the
/// files touched out of scope; the blocked attempts are all blocked events; the
/// completed tasks are the completed scopes (each as a `usize` holds it).
pub proof fn lemma_weekly_totals_count_every_event(t: WeeklyTally, db: Database, start: i64)
    requires
        tally_of(t, db, start),
    ensures
        ({
            let s = week_scopes(db, start);
            let evs = scopes_events(db.event_rows(), s);
            &&& t.total_out_of_scope == capped(evs.filter(touched_out_of_scope()).len())
            &&& t.total_out_of_scope == capped(count_sum(path_counts(evs)))
            &&& t.total_blocked_attempts == capped(evs.filter(was_blocked()).len())
            &&& t.completed_tasks == s.filter(|x: Scope| x.status == ScopeStatus::Completed).len()
        }),
{
    let s = week_scopes(db, start);
    let evs = scopes_events(db.event_rows(), s);
    lemma_counts_are_filters(evs);
    lemma_out_of_scope_by_file(evs);
    lemma_completed_is_filter(s);
}

/// Builds weekly reports from a store.
pub struct ReportGenerator {
    db: Database,
}


/// The events of all `scopes` from the store, scope after scope.
fn gather_events(db: &Database, scopes: &[Scope]) -> (r: Vec<FileEvent>)
    ensures
        r@ == scopes_events(db.event_rows(), scopes@),
{
    let ghost rows = db.event_rows();
    let mut out: Vec<FileEvent> = Vec::new();
    let mut i: usize = 0;
    assert(scopes@.take(0) =~= Seq::<Scope>::empty());
    while i < scopes.len()
        invariant
            i <= scopes.len(),
            rows == db.event_rows(),
            out@ == scopes_events(rows, scopes@.take(i as int)),
        decreases scopes.len() - i,
    {
        proof {
            crate::patterns::lemma_scopes_events_step(rows, scopes@, i as int);
        }
        let evs = match db.get_events(scopes[i].id.as_str()) {
            Ok(v) => v,
            Err(_) => Vec::new(),
        };
        let ghost before = out@;
        let mut j: usize = 0;
        while j < evs.len()
            invariant
                j <= evs.len(),
                out@ == before + evs@.take(j as int),
            decreases evs.len() - j,
        {
            out.push(evs[j].clone());
            j = j + 1;
            assert(before + evs@.take(j as int) =~= (before + evs@.take((j - 1) as int)).push(evs@[j - 1]));
        }
        assert(evs@.take(evs.len() as int) =~= evs@);
        i = i + 1;
    }
    assert(scopes@.take(scopes.len() as int) =~= scopes@);
    out
}

/// How many of `evs` were blocked, and how many touched files out of scope.
fn count_flags(evs: &[FileEvent]) -> (r: (usize, usize))
    ensures
        r.0 == capped(count_blocked(evs@)),
        r.1 == capped(count_out_of_scope(evs@)),
{
    let mut blocked: usize = 0;
    let mut outside: usize = 0;
    let mut i: usize = 0;
    assert(evs@.take(0) =~= Seq::<FileEvent>::empty());
    while i < evs.len()
        invariant
            i <= evs.len(),
            blocked == capped(count_blocked(evs@.take(i as int))),
            outside == capped(count_out_of_scope(evs@.take(i as int))),
        decreases evs.len() - i,
    {
        assert(evs@.take(i + 1).drop_last() =~= evs@.take(i as int));
        assert(evs@.take(i + 1).last() == evs@[i as int]);
        if evs[i].is_blocked && blocked < usize::MAX {
            blocked = blocked + 1;
        }
        if !evs[i].in_scope && !evs[i].is_blocked && outside < usize::MAX {
            outside = outside + 1;
        }
        i = i + 1;
    }
    assert(evs@.take(evs.len() as int) =~= evs@);
    (blocked, outside)
}

/// How many of `scopes` are completed.
fn completed_count(scopes: &[Scope]) -> (r: usize)
    ensures
        r == count_completed(scopes@),
{
    let mut n: usize = 0;
    let mut i: usize = 0;
    assert(scopes@.take(0) =~= Seq::<Scope>::empty());
    while i < scopes.len()
        invariant
            i <= scopes.len(),
            n == count_completed(scopes@.take(i as int)),
            n <= i,
        decreases scopes.len() - i,
    {
        assert(scopes@.take(i + 1).drop_last() =~= scopes@.take(i as int));
        assert(scopes@.take(i + 1).last() == scopes@[i as int]);
        if scopes[i].status == ScopeStatus::Completed {
            n = n + 1;
        }
        i = i + 1;
    }
    assert(scopes@.take(scopes.len() as int) =~= scopes@);
    n
}

/// The paths of `c`.
pub open spec fn paths_of(c: Seq<(Seq<char>, nat)>) -> Seq<Seq<char>> {
    c.map_values(|x: (Seq<char>, nat)| x.0)
}

/// How often each file was touched out of scope, in order of first touch.
fn path_counts_exec(evs: &[FileEvent]) -> (r: (Vec<Vec<char>>, Vec<usize>))
    ensures
        crate::patterns::views(r.0@) == paths_of(path_counts(evs@)),
        r.1@.len() == path_counts(evs@).len(),
        forall|i: int| 0 <= i < r.1@.len() ==> #[trigger] r.1@[i] == capped(path_counts(evs@)[i].1),
{
    let mut paths: Vec<Vec<char>> = Vec::new();
    let mut counts: Vec<usize> = Vec::new();
    let mut i: usize = 0;
    assert(evs@.take(0) =~= Seq::<FileEvent>::empty());
    assert(crate::patterns::views(paths@) =~= paths_of(path_counts(evs@.take(0))));
    while i < evs.len()
        invariant
            i <= evs.len(),
            crate::patterns::views(paths@) == paths_of(path_counts(evs@.take(i as int))),
            counts@.len() == path_counts(evs@.take(i as int)).len(),
            forall|q: int|
                0 <= q < counts@.len() ==> #[trigger] counts@[q] == capped(
                    path_counts(evs@.take(i as int))[q].1,
                ),
        decreases evs.len() - i,
    {
        let ghost c = path_counts(evs@.take(i as int));
        assert(evs@.take(i + 1).drop_last() =~= evs@.take(i as int));
        assert(evs@.take(i + 1).last() == evs@[i as int]);
        let e = &evs[i];
        if !e.in_scope && !e.is_blocked {
            let p = crate::text::chars_of(e.file_path.as_str());
            let mut j: usize = 0;
            assert(crate::patterns::views(paths@).len() == paths@.len());
            while j < paths.len() && !crate::text::slice_eq(&paths[j], &p)
                invariant
                    j <= paths@.len(),
                    paths@.len() == c.len(),
                    crate::patterns::views(paths@) == paths_of(c),
                    p@ == e.file_path@,
                    find_path(c, p@, 0) == find_path(c, p@, j as int),
                decreases paths.len() - j,
            {
                assert(paths_of(c)[j as int] == paths@[j as int]@);
                j = j + 1;
            }
            if j < paths.len() {
                assert(paths_of(c)[j as int] == paths@[j as int]@);
                assert(find_path(c, p@, j as int) == j);
                let n = counts[j];
                let m = if n < usize::MAX {
                    n + 1
                } else {
                    n
                };
                counts.set(j, m);
                assert(paths_of(c.update(j as int, (c[j as int].0, c[j as int].1 + 1))) =~= paths_of(c));
            } else {
                assert(find_path(c, p@, j as int) == -1);
                let ghost before = paths@;
                paths.push(p);
                counts.push(1);
                assert(crate::patterns::views(paths@) =~= crate::patterns::views(before).push(e.file_path@));
                assert(paths_of(c.push((e.file_path@, 1nat))) =~= paths_of(c).push(e.file_path@));
            }
        }
        i = i + 1;
    }
    assert(evs@.take(evs.len() as int) =~= evs@);
    (paths, counts)
}


/// The five files most often touched out of scope, with their counts.
fn offending_files(evs: &[FileEvent]) -> (r: Vec<(String, usize)>)
    ensures
        ({
            let top = top5(file_ranking(evs@));
            &&& r@.len() == top.len()
            &&& forall|i: int|
                0 <= i < top.len() ==> {
                    &&& (#[trigger] r@[i]).0@ == path_counts(evs@)[top[i].0 as int].0
                    &&& r@[i].1 == top[i].1
                }
        }),
{
    let (paths, counts) = path_counts_exec(evs);
    let ghost c = path_counts(evs@);
    let ghost full = Seq::new(c.len(), |i: int| (i as usize, capped(c[i].1) as usize));
    let mut cands: Vec<(usize, usize)> = Vec::new();
    let mut i: usize = 0;
    while i < counts.len()
        invariant
            i <= counts@.len(),
            c == path_counts(evs@),
            full == Seq::new(c.len(), |i: int| (i as usize, capped(c[i].1) as usize)),
            counts@.len() == c.len(),
            forall|q: int| 0 <= q < counts@.len() ==> #[trigger] counts@[q] == capped(c[q].1),
            cands@ == full.take(i as int),
        decreases counts.len() - i,
    {
        assert(full[i as int] == (i, counts@[i as int]));
        cands.push((i, counts[i]));
        i = i + 1;
        assert(cands@ =~= full.take(i as int));
    }
    assert(full.take(c.len() as int) =~= full);
    let mut ranked: Vec<(usize, usize)> = Vec::new();
    let mut m: usize = 0;
    while m < cands.len()
        invariant
            m <= cands.len(),
            ranked@ == sort_by(cands@.take(m as int), crate::patterns::ranks_before()),
        decreases cands.len() - m,
    {
        proof {
            crate::order::lemma_sort_step(cands@, m as int, crate::patterns::ranks_before());
        }
        crate::patterns::insert_ranked(&mut ranked, cands[m]);
        m = m + 1;
    }
    assert(cands@.take(cands.len() as int) =~= cands@);
    proof {
        crate::order::lemma_sort_members(cands@, crate::patterns::ranks_before());
        assert forall|q: int| 0 <= q < ranked@.len() implies (ranked@[q].0 as int) < c.len() by {
            crate::order::lemma_sort_contains(cands@, crate::patterns::ranks_before(), q);
            let k = choose|k: int| 0 <= k < cands@.len() && #[trigger] cands@[k] == ranked@[q];
            assert(cands@[k] == full[k]);
        }
    }
    let limit = if ranked.len() > 5 {
        5
    } else {
        ranked.len()
    };
    let ghost top = top5(file_ranking(evs@));
    assert(top =~= ranked@.take(limit as int));
    let mut out: Vec<(String, usize)> = Vec::new();
    let mut n: usize = 0;
    while n < limit
        invariant
            n <= limit <= ranked@.len(),
            top == ranked@.take(limit as int),
            crate::patterns::views(paths@) == paths_of(c),
            c == path_counts(evs@),
            forall|q: int| 0 <= q < ranked@.len() ==> (ranked@[q].0 as int) < c.len(),
            out@.len() == n,
            forall|q: int|
                0 <= q < n ==> {
                    &&& (#[trigger] out@[q]).0@ == c[top[q].0 as int].0
                    &&& out@[q].1 == top[q].1
                },
        decreases limit - n,
    {
        let (idx, count) = ranked[n];
        assert(crate::patterns::views(paths@).len() == paths@.len());
        assert(paths_of(c)[idx as int] == c[idx as int].0);
        assert(crate::patterns::views(paths@)[idx as int] == paths@[idx as int]@);
        let name = crate::text::string_of(&paths[idx]);
        out.push((name, count));
        n = n + 1;
    }
    out
}

/// The scores of each of `scopes`.
fn scope_tallies(db: &Database, scopes: &[Scope]) -> (r: Vec<ScopeTally>)
    ensures
        r@.len() == scopes@.len(),
        forall|i: int|
            0 <= i < scopes@.len() ==> {
                &&& (#[trigger] r@[i]).owner@ == scopes@[i].owner@
                &&& r@[i].credit_halves == total_credit(events_for(db.event_rows(), scopes@[i].id@))
                &&& r@[i].events == events_for(db.event_rows(), scopes@[i].id@).len()
            },
{
    let mut out: Vec<ScopeTally> = Vec::new();
    let mut i: usize = 0;
    while i < scopes.len()
        invariant
            i <= scopes.len(),
            out@.len() == i,
            forall|q: int|
                0 <= q < i ==> {
                    &&& (#[trigger] out@[q]).owner@ == scopes@[q].owner@
                    &&& out@[q].credit_halves == total_credit(
                        events_for(db.event_rows(), scopes@[q].id@),
                    )
                    &&& out@[q].events == events_for(db.event_rows(), scopes@[q].id@).len()
                },
        decreases scopes.len() - i,
    {
        let evs = match db.get_events(scopes[i].id.as_str()) {
            Ok(v) => v,
            Err(_) => Vec::new(),
        };
        let credit = score_credit(&evs);
        out.push(ScopeTally { owner: scopes[i].owner.clone(), credit_halves: credit, events: evs.len() });
        i = i + 1;
    }
    out
}

/// The tally of the week that starts at `start` (seconds since the epoch) in `db`:
/// the scopes created in that week (comparing RFC 3339 texts, as the store does),
/// the counts of their events, their scores, their five most frequent kinds of
/// out-of-scope behaviour and their five files most often touched out of scope.
pub fn tally_week_of(db: &Database, patterns: &PatternAnalyzer, start: i64) -> (t: WeeklyTally)
    requires
        calendar_min() <= start,
        start + week_secs() <= calendar_max(),
    ensures
        tally_of(t, *db, start),
{
    let end: i64 = start + 604800;
    let start_text = rfc3339_at(start, 0);
    let end_text = rfc3339_at(end, 0);
    let scopes = match db.list_scopes_in_window(start_text.as_str(), end_text.as_str()) {
        Ok(v) => v,
        Err(_) => Vec::new(),
    };
    let evs = gather_events(db, &scopes);
    let (blocked, outside) = count_flags(&evs);
    let total_files = evs.len();
    let mut kinds = patterns.analyze_scope_violations_from_scopes(&scopes, db);
    if kinds.len() > 5 {
        kinds.truncate(5);
    }
    let ghost all_kinds = ranking(db.event_rows(), scopes@);
    assert(lists(kinds@, top5(all_kinds)));
    WeeklyTally {
        week_start: ymd_at(start),
        week_end: ymd_at(end - 1),
        total_tasks: scopes.len(),
        completed_tasks: completed_count(&scopes),
        scopes: scope_tallies(db, &scopes),
        top_violations: kinds,
        top_offending_files: offending_files(&evs),
        total_files_tracked: total_files,
        total_blocked_attempts: blocked,
        total_out_of_scope: outside,
    }
}

/// `t` is the tally of the week that holds some instant `now` of the calendar in `db`.
pub open spec fn tally_of_current_week(t: WeeklyTally, db: Database) -> bool {
    exists|now: i64|
        calendar_min() <= now <= calendar_max() && #[trigger] tally_of(
            t,
            db,
            current_week_start_spec(now),
        )
}

/// The week that holds `now` can be written: `now` and the whole week lie in the
/// calendar.
pub open spec fn week_in_calendar(now: i64) -> bool {
    &&& calendar_min() <= now <= calendar_max()
    &&& calendar_min() <= current_week_start_spec(now)
    &&& current_week_start_spec(now) + week_secs() <= calendar_max()
}

/// The tally of the week (Monday 00:00 UTC on) that holds the instant `now` (seconds
/// since the epoch) in `db`, or an `Io` error when that week does not lie in the
/// calendar.
pub fn weekly_at(db: &Database, patterns: &PatternAnalyzer, now: i64) -> (r: Result<WeeklyTally, Error>)
    ensures
        week_in_calendar(now) ==> (r matches Ok(t) && tally_of(t, *db, current_week_start_spec(now))),
        !week_in_calendar(now) ==> r matches Err(Error::Io(_)),
{
    if now < -8_334_601_315_200 || now > 8_210_266_876_799 {
        return Err(Error::Io(String::from_str("the clock reads a time outside the calendar")));
    }
    let start = current_week_start(now);
    if start < -8_334_601_315_200 || start > 8_210_266_876_799 - 604800 {
        return Err(Error::Io(String::from_str("the week lies outside the calendar")));
    }
    Ok(tally_week_of(db, patterns, start))
}

/// The tally of the current week (Monday 00:00 UTC on) in `db`, or an error when the
/// clock reads a time outside the calendar; see `weekly_at`.
pub fn weekly_of(db: &Database, patterns: &PatternAnalyzer) -> (r: Result<WeeklyTally, Error>)
    ensures
        r matches Ok(t) ==> tally_of_current_week(t, *db),
        r matches Err(e) ==> e is Io,
{
    let now = match now_instant() {
        Some((s, _)) => s,
        None => {
            return Err(Error::Io(String::from_str("the clock reads a time outside the calendar")));
        },
    };
    let r = weekly_at(db, patterns, now);
    proof {
        if r is Ok {
            assert(tally_of(r->Ok_0, *db, current_week_start_spec(now)));
        }
    }
    r
}

impl ReportGenerator {
    /// The store this generator reads.
    pub closed spec fn store(&self) -> Database {
        self.db
    }

    /// A generator reading `db`.
    pub fn with_db(db: Database) -> (r: ReportGenerator)
        ensures
            r.store() == db,
    {
        ReportGenerator { db }
    }

    /// The tally of the week that starts at `start`; see `tally_week_of`.
    pub fn tally_week(&self, patterns: &PatternAnalyzer, start: i64) -> (t: WeeklyTally)
        requires
            calendar_min() <= start,
            start + week_secs() <= calendar_max(),
        ensures
            tally_of(t, self.store(), start),
    {
        tally_week_of(&self.db, patterns, start)
    }

    /// The tally of the current week (Monday 00:00 UTC on), or an error when the
    /// clock reads a time outside the calendar.
    pub fn generate_weekly(&self, patterns: &PatternAnalyzer) -> (r: Result<WeeklyTally, Error>)
        ensures
            r matches Ok(t) ==> tally_of_current_week(t, self.store()),
            r matches Err(e) ==> e is Io,
    {
        weekly_of(&self.db, patterns)
    }
}

// ---------------------------------------------------------------------------
// Recommendations
// ---------------------------------------------------------------------------

/// The advice to keep blocked files out of an agent's reach.
pub open spec fn blocked_advice(n: nat) -> Seq<char> {
    "Add the "@ + decimal(n) + " blocked file(s) to your agent's system prompt as 'do not touch'."@
}

/// The advice on a low average score.
pub open spec fn low_score_advice() -> Seq<char> {
    "Avg scope score < 80%. Consider tighter file patterns and stronger exclude rules."@
}

/// The advice to exclude the file most often touched out of scope.
pub open spec fn exclude_advice(path: Seq<char>) -> Seq<char> {
    "Most-touched out-of-scope file is '"@ + path + "'. Add it to your --exclude patterns."@
}

/// The advice when there is nothing to improve.
pub open spec fn keep_up_advice() -> Seq<char> {
    "Scope discipline is on point. Keep it up."@
}

/// The advice at the end of a weekly report on `t`, where `low_average` says whether
/// the average scope score is below 80%.
pub open spec fn advice(t: WeeklyTally, low_average: bool) -> Seq<Seq<char>> {
    let a = if t.total_blocked_attempts > 0 {
        seq![blocked_advice(t.total_blocked_attempts as nat)]
    } else {
        Seq::<Seq<char>>::empty()
    };
    let b = if low_average && t.total_tasks > 0 {
        a.push(low_score_advice())
    } else {
        a
    };
    let c = if t.top_offending_files@.len() > 0 {
        b.push(exclude_advice(t.top_offending_files@[0].0@))
    } else {
        b
    };
    if c.len() == 0 {
        seq![keep_up_advice()]
    } else {
        c
    }
}

/// Each piece of advice is given exactly when its condition holds: the blocked files
/// when there were blocked attempts, the low score when the average is below 80% in a
/// week with tasks, the most-touched file when files were touched out of scope, and
/// the praise alone when none of these holds.
pub proof fn lemma_advice_when_due(t: WeeklyTally, low_average: bool)
    ensures
        advice(t, low_average).len() >= 1,
        advice(t, low_average).contains(blocked_advice(t.total_blocked_attempts as nat))
            <==> t.total_blocked_attempts > 0,
        advice(t, low_average).contains(low_score_advice()) <==> (low_average && t.total_tasks > 0),
        t.top_offending_files@.len() > 0 ==> advice(t, low_average).contains(
            exclude_advice(t.top_offending_files@[0].0@),
        ),
        t.top_offending_files@.len() == 0 ==> forall|p: Seq<char>|
            !advice(t, low_average).contains(#[trigger] exclude_advice(p)),
        advice(t, low_average) == seq![keep_up_advice()] <==> (t.total_blocked_attempts == 0 && !(
        low_average && t.total_tasks > 0) && t.top_offending_files@.len() == 0),
{
    reveal_strlit("Add the ");
    reveal_strlit("Avg scope score < 80%. Consider tighter file patterns and stronger exclude rules.");
    reveal_strlit("Most-touched out-of-scope file is '");
    reveal_strlit("Scope discipline is on point. Keep it up.");
    let a = advice(t, low_average);
    let n = t.total_blocked_attempts as nat;
    assert(blocked_advice(n)[1] == 'd');
    assert(low_score_advice()[1] == 'v');
    assert forall|p: Seq<char>| #[trigger] exclude_advice(p)[1] == 'o' by {}
    assert(keep_up_advice()[1] == 'c');
    assert forall|i: int| 0 <= i < a.len() implies {
        ||| a[i] == blocked_advice(n) && t.total_blocked_attempts > 0
        ||| a[i] == low_score_advice() && low_average && t.total_tasks > 0
        ||| (t.top_offending_files@.len() > 0 && a[i] == exclude_advice(t.top_offending_files@[0].0@))
        ||| a[i] == keep_up_advice()
    } by {}
    if t.total_blocked_attempts > 0 {
        assert(a[0] == blocked_advice(n));
    }
    if low_average && t.total_tasks > 0 {
        let i = if t.total_blocked_attempts > 0 { 1int } else { 0int };
        assert(a[i] == low_score_advice());
    }
    if t.top_offending_files@.len() > 0 {
        assert(a[a.len() - 1] == exclude_advice(t.top_offending_files@[0].0@));
    }
    if a == seq![keep_up_advice()] {
        assert(a[0] == keep_up_advice());
    }
}

/// The advice at the end of a weekly report on `t`, where `low_average` says whether
/// the average scope score is below 80%: name the blocked files, tighten the
/// patterns, exclude the most-touched file, or keep it up.
pub fn recommendations(t: &WeeklyTally, low_average: bool) -> (r: Vec<String>)
    ensures
        r@.map_values(|s: String| s@) == advice(*t, low_average),
{
    let mut recs: Vec<String> = Vec::new();
    if t.total_blocked_attempts > 0 {
        let mut m = String::from_str("Add the ");
        push_decimal(t.total_blocked_attempts as u128, &mut m);
        m.append(" blocked file(s) to your agent's system prompt as 'do not touch'.");
        recs.push(m);
    }
    if low_average && t.total_tasks > 0 {
        recs.push(
            String::from_str(
                "Avg scope score < 80%. Consider tighter file patterns and stronger exclude rules.",
            ),
        );
    }
    if t.top_offending_files.len() > 0 {
        let mut m = String::from_str("Most-touched out-of-scope file is '");
        m.append(t.top_offending_files[0].0.as_str());
        m.append("'. Add it to your --exclude patterns.");
        recs.push(m);
    }
    if recs.len() == 0 {
        recs.push(String::from_str("Scope discipline is on point. Keep it up."));
    }
    proof {
        reveal_strlit("Add the ");
    }
    assert(recs@.map_values(|s: String| s@) =~= advice(*t, low_average));
    recs
}

} // verus!
