//! Recurring kinds of out-of-scope behaviour across scopes.
use vstd::prelude::*;

use crate::db::{events_for, Database};
use crate::error::Error;
use crate::order::{
    insert_by, keys_distinct, lemma_insert_past, lemma_insert_start, lemma_insert_stop,
    lemma_sort_contains, lemma_sort_keys_distinct, lemma_sort_sorted, sort_by, sorted_by,
};
use crate::scope::Scope;
use crate::text::{
    chars_of, contains, contains_exec, copy_range, ends_with, ends_with_exec, slice_eq,
    split_on, split_ranges, starts_with, starts_with_exec, str_eq, string_of, trim, trim_bounds,
};
use crate::tracker::FileEvent;

verus! {

/// What `str::to_lowercase` makes of `s` (Unicode lower case, which can change the
/// length of the text).
pub uninterp spec fn lowercase(s: Seq<char>) -> Seq<char>;

/// `s` in lower case, by `str::to_lowercase`. The contract claims only that the
/// result depends on `s` alone; the Unicode case tables are not restated.
#[verifier::external_body]
pub(crate) fn to_lowercase(s: &str) -> (r: String)
    ensures
        r@ == lowercase(s@),
{
    s.to_lowercase()
}

/// A recurring kind of out-of-scope behaviour and how often it occurred.
#[derive(Debug, Clone, PartialEq)]
pub struct ViolationPattern {
    pub pattern: String,
    pub occurrences: usize,
    pub description: String,
}

/// Finds recurring out-of-scope behaviour.
pub struct PatternAnalyzer {}

// ---------------------------------------------------------------------------
// The detection rules
// ---------------------------------------------------------------------------

/// An event that touched a file outside its scope without being blocked.
pub open spec fn out_of_scope(e: FileEvent) -> bool {
    !e.in_scope && !e.is_blocked
}

/// `s` with every trailing `suf` removed.
pub open spec fn strip_suffix_all(s: Seq<char>, suf: Seq<char>) -> Seq<char>
    decreases s.len(),
{
    if suf.len() > 0 && ends_with(s, suf) {
        strip_suffix_all(s.take(s.len() - suf.len()), suf)
    } else {
        s
    }
}

/// The directory a file pattern names: trimmed, then without trailing `/*`, then
/// without trailing `/*.go`.
pub open spec fn dir_of(pat: Seq<char>) -> Seq<char> {
    strip_suffix_all(strip_suffix_all(trim(pat), "/*"@), "/*.go"@)
}

/// The non-empty directories named by `pieces`.
pub open spec fn dirs_of_pieces(pieces: Seq<Seq<char>>) -> Seq<Seq<char>>
    decreases pieces.len(),
{
    if pieces.len() == 0 {
        Seq::<Seq<char>>::empty()
    } else {
        let rest = dirs_of_pieces(pieces.drop_last());
        let d = dir_of(pieces.last());
        if d.len() > 0 {
            rest.push(d)
        } else {
            rest
        }
    }
}

/// The directories named by the file patterns of `scopes`, in order.
pub open spec fn scope_dirs(scopes: Seq<Scope>) -> Seq<Seq<char>>
    decreases scopes.len(),
{
    if scopes.len() == 0 {
        Seq::<Seq<char>>::empty()
    } else {
        scope_dirs(scopes.drop_last()) + match scopes.last().files {
            Some(f) => dirs_of_pieces(split_on(f@, ',')),
            None => Seq::<Seq<char>>::empty(),
        }
    }
}

/// The first `/`-separated segment of `s`.
pub open spec fn first_segment(s: Seq<char>) -> Seq<char> {
    split_on(s, '/')[0]
}

/// The lower-cased path `l` lies beside the directory `d`: outside it, but under the
/// same top-level directory.
pub open spec fn beside(l: Seq<char>, d: Seq<char>) -> bool {
    &&& d.len() > 0
    &&& !starts_with(l, lowercase(d))
    &&& first_segment(l).len() > 0
    &&& first_segment(d) == first_segment(l)
}

/// Whether the lower-cased path `l` shows behaviour of kind `k` (0 to 5), given the
/// scope directories `dirs`.
pub open spec fn shows(k: int, l: Seq<char>, dirs: Seq<Seq<char>>) -> bool {
    if k == 0 {
        contains(l, "env"@) || ends_with(l, ".env"@)
    } else if k == 1 {
        ends_with(l, "package.json"@) || ends_with(l, "cargo.toml"@) || ends_with(l, "go.mod"@)
            || ends_with(l, "requirements.txt"@) || ends_with(l, "pyproject.toml"@)
    } else if k == 2 {
        ends_with(l, ".yaml"@) || ends_with(l, ".yml"@) || ends_with(l, ".toml"@) || ends_with(
            l,
            ".ini"@,
        ) || ends_with(l, ".conf"@)
    } else if k == 3 {
        contains(l, "/log"@) || contains(l, "logger"@)
    } else if k == 4 {
        ends_with(l, "readme.md"@) || ends_with(l, "docs/"@)
    } else {
        exists|i: int| 0 <= i < dirs.len() && #[trigger] beside(l, dirs[i])
    }
}

/// The name of kind `k` (0 to 6, where 6 is a blocked secret file).
pub open spec fn kind_name(k: int) -> Seq<char> {
    if k == 0 {
        "secrets / .env touch"@
    } else if k == 1 {
        "dependency change"@
    } else if k == 2 {
        "config change"@
    } else if k == 3 {
        "add logging"@
    } else if k == 4 {
        "docs / readme edit"@
    } else if k == 5 {
        "refactor adjacent code"@
    } else {
        "blocked secret file"@
    }
}

/// The description attached to a pattern name.
pub open spec fn description_of(p: Seq<char>) -> Seq<char> {
    if p == "secrets / .env touch"@ {
        "Agent reached for environment or secrets files."@
    } else if p == "dependency change"@ {
        "Agent touched dependency manifests."@
    } else if p == "config change"@ {
        "Agent modified configuration files."@
    } else if p == "add logging"@ {
        "Agent added logging or telemetry code."@
    } else if p == "docs / readme edit"@ {
        "Agent edited documentation without being asked."@
    } else if p == "refactor adjacent code"@ {
        "Agent refactored code adjacent to the scope's target directory."@
    } else if p == "blocked secret file"@ {
        "Agent attempted to modify a secret/key/credential file."@
    } else {
        "Repeated out-of-scope behaviour."@
    }
}

/// The events of all `scopes`, each scope's oldest first, scope after scope.
pub open spec fn scopes_events(rows: Seq<FileEvent>, scopes: Seq<Scope>) -> Seq<FileEvent>
    decreases scopes.len(),
{
    if scopes.len() == 0 {
        Seq::<FileEvent>::empty()
    } else {
        scopes_events(rows, scopes.drop_last()) + events_for(rows, scopes.last().id@)
    }
}

/// Whether event `e` counts toward kind `k` (0 to 6).
pub open spec fn counts_toward(e: FileEvent, k: int, dirs: Seq<Seq<char>>) -> bool {
    if k == 6 {
        e.is_blocked
    } else {
        out_of_scope(e) && shows(k, lowercase(e.file_path@), dirs)
    }
}

/// How many of `evs` count toward kind `k`.
pub open spec fn tally(evs: Seq<FileEvent>, k: int, dirs: Seq<Seq<char>>) -> nat
    decreases evs.len(),
{
    if evs.len() == 0 {
        0
    } else {
        tally(evs.drop_last(), k, dirs) + if counts_toward(evs.last(), k, dirs) {
            1nat
        } else {
            0nat
        }
    }
}

/// A count as a `usize` can hold it.
pub open spec fn capped(n: nat) -> nat {
    if n > usize::MAX {
        usize::MAX as nat
    } else {
        n
    }
}

/// The kinds from `k` on (up to 6) that occurred, with their counts, in kind order.
pub open spec fn occurred_from(evs: Seq<FileEvent>, dirs: Seq<Seq<char>>, k: int) -> Seq<(usize, usize)>
    decreases 7 - k,
{
    if k >= 7 || k < 0 {
        Seq::<(usize, usize)>::empty()
    } else {
        let rest = occurred_from(evs, dirs, k + 1);
        let n = capped(tally(evs, k, dirs));
        if n > 0 {
            seq![(k as usize, n as usize)] + rest
        } else {
            rest
        }
    }
}

/// `a` stays before `b` in a ranking: it occurred at least as often.
pub open spec fn ranks_before() -> spec_fn((usize, usize), (usize, usize)) -> bool {
    |a: (usize, usize), b: (usize, usize)| a.1 >= b.1
}

/// The ranking of kinds found in the events of `scopes`: most frequent first, ties in
/// kind order.
pub open spec fn ranking(rows: Seq<FileEvent>, scopes: Seq<Scope>) -> Seq<(usize, usize)> {
    sort_by(occurred_from(scopes_events(rows, scopes), scope_dirs(scopes), 0), ranks_before())
}

/// `v` lists the kinds of `ranked` with their names, counts and descriptions.
pub open spec fn lists(v: Seq<ViolationPattern>, ranked: Seq<(usize, usize)>) -> bool {
    &&& v.len() == ranked.len()
    &&& forall|i: int|
        0 <= i < v.len() ==> {
            &&& (#[trigger] v[i]).pattern@ == kind_name(ranked[i].0 as int)
            &&& v[i].occurrences == ranked[i].1
            &&& v[i].description@ == description_of(kind_name(ranked[i].0 as int))
        }
}


/// The views of a list of character vectors.
pub open spec fn views(s: Seq<Vec<char>>) -> Seq<Seq<char>> {
    s.map_values(|x: Vec<char>| x@)
}

/// `split_on` always gives at least one piece.
pub proof fn lemma_split_nonempty(s: Seq<char>, sep: char)
    ensures
        split_on(s, sep).len() >= 1,
    decreases s.len(),
{
    if s.len() > 0 {
        lemma_split_nonempty(s.drop_last(), sep);
    }
}

// ---------------------------------------------------------------------------
// Executable code
// ---------------------------------------------------------------------------

/// The description attached to the pattern name `p`.
pub fn description_for(p: &str) -> (r: String)
    ensures
        r@ == description_of(p@),
{
    if str_eq(p, "secrets / .env touch") {
        String::from_str("Agent reached for environment or secrets files.")
    } else if str_eq(p, "dependency change") {
        String::from_str("Agent touched dependency manifests.")
    } else if str_eq(p, "config change") {
        String::from_str("Agent modified configuration files.")
    } else if str_eq(p, "add logging") {
        String::from_str("Agent added logging or telemetry code.")
    } else if str_eq(p, "docs / readme edit") {
        String::from_str("Agent edited documentation without being asked.")
    } else if str_eq(p, "refactor adjacent code") {
        String::from_str("Agent refactored code adjacent to the scope's target directory.")
    } else if str_eq(p, "blocked secret file") {
        String::from_str("Agent attempted to modify a secret/key/credential file.")
    } else {
        String::from_str("Repeated out-of-scope behaviour.")
    }
}

/// The name of kind `k`.
fn kind_name_exec(k: usize) -> (r: &'static str)
    requires
        k < 7,
    ensures
        r@ == kind_name(k as int),
{
    if k == 0 {
        "secrets / .env touch"
    } else if k == 1 {
        "dependency change"
    } else if k == 2 {
        "config change"
    } else if k == 3 {
        "add logging"
    } else if k == 4 {
        "docs / readme edit"
    } else if k == 5 {
        "refactor adjacent code"
    } else {
        "blocked secret file"
    }
}

/// The end of `v[lo..hi]` once every trailing `suf` is removed.
fn strip_suffix_end(v: &[char], lo: usize, hi: usize, suf: &[char]) -> (r: usize)
    requires
        lo <= hi <= v.len(),
    ensures
        lo <= r <= hi,
        v@.subrange(lo as int, r as int) == strip_suffix_all(v@.subrange(lo as int, hi as int), suf@),
{
    let mut h = hi;
    loop
        invariant
            lo <= h <= hi <= v.len(),
            strip_suffix_all(v@.subrange(lo as int, hi as int), suf@) == strip_suffix_all(
                v@.subrange(lo as int, h as int),
                suf@,
            ),
        ensures
            lo <= h <= hi,
            strip_suffix_all(v@.subrange(lo as int, hi as int), suf@) == v@.subrange(
                lo as int,
                h as int,
            ),
        decreases h - lo,
    {
        if suf.len() == 0 {
            break;
        }
        let cur = copy_range(v, lo, h);
        if !ends_with_exec(&cur, suf) {
            break;
        }
        assert(v@.subrange(lo as int, h as int).take(h - lo - suf.len()) =~= v@.subrange(
            lo as int,
            h - suf.len(),
        ));
        h = h - suf.len();
    }
    h
}

/// Appends to `out` the non-empty directories named by the comma-separated `f`.
fn push_dirs(f: &str, out: &mut Vec<Vec<char>>)
    ensures
        views(final(out)@) == views(old(out)@) + dirs_of_pieces(split_on(f@, ',')),
{
    let v = chars_of(f);
    let ranges = split_ranges(&v, ',');
    let ghost pieces = split_on(f@, ',');
    let star = chars_of("/*");
    let star_go = chars_of("/*.go");
    let mut k: usize = 0;
    assert(pieces.take(0) =~= Seq::<Seq<char>>::empty());
    assert(views(out@) =~= views(old(out)@) + dirs_of_pieces(pieces.take(0)));
    while k < ranges.len()
        invariant
            v@ == f@,
            pieces == split_on(f@, ','),
            star@ == "/*"@,
            star_go@ == "/*.go"@,
            ranges@.len() == pieces.len(),
            forall|j: int|
                0 <= j < ranges@.len() ==> {
                    &&& (#[trigger] ranges@[j]).0 <= ranges@[j].1 <= v.len()
                    &&& v@.subrange(ranges@[j].0 as int, ranges@[j].1 as int) == pieces[j]
                },
            k <= ranges.len(),
            views(out@) == views(old(out)@) + dirs_of_pieces(pieces.take(k as int)),
        decreases ranges.len() - k,
    {
        let (lo, hi) = ranges[k];
        let (a, b) = trim_bounds(&v, lo, hi);
        let b1 = strip_suffix_end(&v, a, b, &star);
        let b2 = strip_suffix_end(&v, a, b1, &star_go);
        let ghost before = out@;
        assert(pieces.take(k + 1).drop_last() =~= pieces.take(k as int));
        assert(pieces.take(k + 1).last() == pieces[k as int]);
        assert(v@.subrange(a as int, b2 as int) == dir_of(pieces[k as int]));
        if b2 > a {
            let d = copy_range(&v, a, b2);
            out.push(d);
            assert(views(out@) =~= views(before).push(d@));
        }
        k = k + 1;
    }
    assert(pieces.take(ranges.len() as int) =~= pieces);
}

/// The directories named by the file patterns of `scopes`.
fn scope_dirs_exec(scopes: &[Scope]) -> (r: Vec<Vec<char>>)
    ensures
        views(r@) == scope_dirs(scopes@),
{
    let mut out: Vec<Vec<char>> = Vec::new();
    let mut i: usize = 0;
    assert(views(out@) =~= scope_dirs(scopes@.take(0)));
    while i < scopes.len()
        invariant
            i <= scopes.len(),
            views(out@) == scope_dirs(scopes@.take(i as int)),
        decreases scopes.len() - i,
    {
        assert(scopes@.take(i + 1).drop_last() =~= scopes@.take(i as int));
        assert(scopes@.take(i + 1).last() == scopes@[i as int]);
        match &scopes[i].files {
            Some(f) => {
                push_dirs(f.as_str(), &mut out);
            },
            None => {
                assert(views(out@) =~= scope_dirs(scopes@.take(i as int)) + Seq::<Seq<char>>::empty());
            },
        }
        i = i + 1;
    }
    assert(scopes@.take(scopes.len() as int) =~= scopes@);
    out
}

/// The first `/`-separated segment of `v`.
fn first_segment_exec(v: &[char]) -> (r: Vec<char>)
    ensures
        r@ == first_segment(v@),
{
    proof {
        lemma_split_nonempty(v@, '/');
    }
    let ranges = split_ranges(v, '/');
    let (lo, hi) = ranges[0];
    copy_range(v, lo, hi)
}

/// Whether the lower-cased path `l` lies beside the directory `d`.
fn beside_exec(l: &[char], d: &[char]) -> (r: bool)
    ensures
        r == beside(l@, d@),
{
    if d.len() == 0 {
        return false;
    }
    let ds = string_of(d);
    let ld = chars_of(to_lowercase(ds.as_str()).as_str());
    if starts_with_exec(l, &ld) {
        return false;
    }
    let fl = first_segment_exec(l);
    if fl.len() == 0 {
        return false;
    }
    let fd = first_segment_exec(d);
    slice_eq(&fd, &fl)
}

/// Whether the lower-cased path `l` shows behaviour of kind `k` (0 to 5).
fn shows_exec(k: usize, l: &[char], dirs: &Vec<Vec<char>>) -> (r: bool)
    requires
        k < 6,
    ensures
        r == shows(k as int, l@, views(dirs@)),
{
    if k == 0 {
        contains_exec(l, &chars_of("env")) || ends_with_exec(l, &chars_of(".env"))
    } else if k == 1 {
        ends_with_exec(l, &chars_of("package.json")) || ends_with_exec(l, &chars_of("cargo.toml"))
            || ends_with_exec(l, &chars_of("go.mod")) || ends_with_exec(
            l,
            &chars_of("requirements.txt"),
        ) || ends_with_exec(l, &chars_of("pyproject.toml"))
    } else if k == 2 {
        ends_with_exec(l, &chars_of(".yaml")) || ends_with_exec(l, &chars_of(".yml"))
            || ends_with_exec(l, &chars_of(".toml")) || ends_with_exec(l, &chars_of(".ini"))
            || ends_with_exec(l, &chars_of(".conf"))
    } else if k == 3 {
        contains_exec(l, &chars_of("/log")) || contains_exec(l, &chars_of("logger"))
    } else if k == 4 {
        ends_with_exec(l, &chars_of("readme.md")) || ends_with_exec(l, &chars_of("docs/"))
    } else {
        let mut i: usize = 0;
        assert(views(dirs@).len() == dirs@.len());
        while i < dirs.len()
            invariant
                k == 5,
                i <= dirs.len(),
                views(dirs@).len() == dirs@.len(),
                forall|j: int| 0 <= j < i ==> !beside(l@, #[trigger] views(dirs@)[j]),
            decreases dirs.len() - i,
        {
            assert(views(dirs@)[i as int] == dirs@[i as int]@);
            if beside_exec(l, &dirs[i]) {
                assert(beside(l@, views(dirs@)[i as int]));
                return true;
            }
            i = i + 1;
        }
        false
    }
}

/// `n` plus one, held at `usize::MAX`.
fn bump(n: usize) -> (r: usize)
    ensures
        r == if n == usize::MAX {
            n
        } else {
            (n + 1) as usize
        },
{
    if n == usize::MAX {
        n
    } else {
        n + 1
    }
}

/// Inserts `e` into `v` after every entry that occurred at least as often.
pub(crate) fn insert_ranked(v: &mut Vec<(usize, usize)>, e: (usize, usize))
    ensures
        final(v)@ == insert_by(old(v)@, e, ranks_before()),
{
    let ghost s = v@;
    let mut j = v.len();
    proof {
        lemma_insert_start(s, e, ranks_before());
    }
    while j > 0 && v[j - 1].1 < e.1
        invariant
            v@ == s,
            j <= s.len(),
            insert_by(s, e, ranks_before()) == insert_by(s.take(j as int), e, ranks_before())
                + s.skip(j as int),
        decreases j,
    {
        proof {
            lemma_insert_past(s, e, ranks_before(), j as int);
        }
        j = j - 1;
    }
    proof {
        lemma_insert_stop(s, e, ranks_before(), j as int);
    }
    v.insert(j, e);
}


/// `n` raised by one when `b`, held at `usize::MAX`.
pub open spec fn bumped(n: usize, b: bool) -> usize {
    if b && n < usize::MAX {
        (n + 1) as usize
    } else {
        n
    }
}

/// The kinds listed from `k` on lie between `k` and 6.
pub proof fn lemma_occurred_kinds(evs: Seq<FileEvent>, dirs: Seq<Seq<char>>, k: int)
    requires
        0 <= k,
    ensures
        forall|x: (usize, usize)| occurred_from(evs, dirs, k).contains(x) ==> k <= x.0 < 7,
    decreases 7 - k,
{
    if k < 7 {
        lemma_occurred_kinds(evs, dirs, k + 1);
        let rest = occurred_from(evs, dirs, k + 1);
        let n = capped(tally(evs, k, dirs));
        if n > 0 {
            let all = seq![(k as usize, n as usize)] + rest;
            assert forall|x: (usize, usize)| all.contains(x) implies k <= x.0 < 7 by {
                let i = choose|i: int| 0 <= i < all.len() && #[trigger] all[i] == x;
                if i > 0 {
                    assert(rest[i - 1] == x);
                    assert(rest.contains(x));
                }
            }
        }
    }
}

/// Every kind listed from `k` on occurred at least once.
proof fn lemma_occurred_counted(evs: Seq<FileEvent>, dirs: Seq<Seq<char>>, k: int)
    ensures
        forall|x: (usize, usize)| occurred_from(evs, dirs, k).contains(x) ==> x.1 > 0,
    decreases 7 - k,
{
    if 0 <= k < 7 {
        lemma_occurred_counted(evs, dirs, k + 1);
        let rest = occurred_from(evs, dirs, k + 1);
        let n = capped(tally(evs, k, dirs));
        if n > 0 {
            let all = seq![(k as usize, n as usize)] + rest;
            assert forall|x: (usize, usize)| all.contains(x) implies x.1 > 0 by {
                let i = choose|i: int| 0 <= i < all.len() && #[trigger] all[i] == x;
                if i > 0 {
                    assert(rest[i - 1] == x);
                    assert(rest.contains(x));
                }
            }
        }
    }
}

/// The kind of a ranked entry.
pub open spec fn kind_key() -> spec_fn((usize, usize)) -> usize {
    |x: (usize, usize)| x.0
}

/// Each kind listed from `k` on is listed once.
proof fn lemma_occurred_distinct(evs: Seq<FileEvent>, dirs: Seq<Seq<char>>, k: int)
    requires
        0 <= k,
    ensures
        keys_distinct(occurred_from(evs, dirs, k), kind_key()),
    decreases 7 - k,
{
    if k < 7 {
        lemma_occurred_distinct(evs, dirs, k + 1);
        lemma_occurred_kinds(evs, dirs, k + 1);
        let rest = occurred_from(evs, dirs, k + 1);
        let n = capped(tally(evs, k, dirs));
        if n > 0 {
            let all = seq![(k as usize, n as usize)] + rest;
            assert forall|i: int, j: int| 0 <= i < j < all.len() implies kind_key()(
                #[trigger] all[i],
            ) != kind_key()(#[trigger] all[j]) by {
                assert(all[j] == rest[j - 1]);
                assert(rest.contains(rest[j - 1]));
                if i > 0 {
                    assert(all[i] == rest[i - 1]);
                }
            }
        }
    }
}

/// Kinds are reported most frequent first, and only kinds that occurred: each
/// listed kind is one of the seven, listed once, with a count above zero.
pub proof fn lemma_ranking_most_frequent_first(rows: Seq<FileEvent>, scopes: Seq<Scope>)
    ensures
        sorted_by(ranking(rows, scopes), ranks_before()),
        forall|i: int, j: int|
            0 <= i < j < ranking(rows, scopes).len() ==> (#[trigger] ranking(rows, scopes)[i]).0
                != (#[trigger] ranking(rows, scopes)[j]).0,
        forall|i: int|
            0 <= i < ranking(rows, scopes).len() ==> {
                &&& (#[trigger] ranking(rows, scopes)[i]).1 > 0
                &&& ranking(rows, scopes)[i].0 < 7
            },
{
    let occ = occurred_from(scopes_events(rows, scopes), scope_dirs(scopes), 0);
    lemma_sort_sorted(occ, ranks_before());
    lemma_occurred_counted(scopes_events(rows, scopes), scope_dirs(scopes), 0);
    lemma_occurred_kinds(scopes_events(rows, scopes), scope_dirs(scopes), 0);
    lemma_occurred_distinct(scopes_events(rows, scopes), scope_dirs(scopes), 0);
    lemma_sort_keys_distinct(occ, ranks_before(), kind_key());
    assert forall|i: int| 0 <= i < ranking(rows, scopes).len() implies {
        &&& (#[trigger] ranking(rows, scopes)[i]).1 > 0
        &&& ranking(rows, scopes)[i].0 < 7
    } by {
        lemma_sort_contains(occ, ranks_before(), i);
    }
}

/// One of `scopes` has the id `id`.
pub open spec fn has_scope(scopes: Seq<Scope>, id: Seq<char>) -> bool {
    exists|i: int| 0 <= i < scopes.len() && (#[trigger] scopes[i]).id@ == id
}

/// The events of `rows` that an analysis of `scopes` can count: those of one of the
/// scopes that touched a file out of scope or were blocked, in stored order.
pub open spec fn analysed_rows(rows: Seq<FileEvent>, scopes: Seq<Scope>) -> Seq<FileEvent>
    decreases rows.len(),
{
    if rows.len() == 0 {
        Seq::<FileEvent>::empty()
    } else {
        let rest = analysed_rows(rows.drop_last(), scopes);
        let e = rows.last();
        if (!e.in_scope || e.is_blocked) && has_scope(scopes, e.scope_id@) {
            rest.push(e)
        } else {
            rest
        }
    }
}

/// Counting over two sequences one after the other.
proof fn lemma_tally_concat(a: Seq<FileEvent>, b: Seq<FileEvent>, k: int, dirs: Seq<Seq<char>>)
    ensures
        tally(a + b, k, dirs) == tally(a, k, dirs) + tally(b, k, dirs),
    decreases b.len(),
{
    if b.len() == 0 {
        assert(a + b =~= a);
    } else {
        lemma_tally_concat(a, b.drop_last(), k, dirs);
        assert((a + b).drop_last() =~= a + b.drop_last());
        assert((a + b).last() == b.last());
    }
}

/// Inserting one event adds what it counts.
proof fn lemma_tally_insert(
    s: Seq<FileEvent>,
    e: FileEvent,
    before: spec_fn(FileEvent, FileEvent) -> bool,
    k: int,
    dirs: Seq<Seq<char>>,
)
    ensures
        tally(insert_by(s, e, before), k, dirs) == tally(s, k, dirs) + if counts_toward(e, k, dirs) {
            1nat
        } else {
            0nat
        },
    decreases s.len(),
{
    if s.len() == 0 {
        assert(seq![e].drop_last() =~= s);
        assert(seq![e].last() == e);
    } else if before(s.last(), e) {
        assert(s.push(e).drop_last() =~= s);
    } else {
        lemma_tally_insert(s.drop_last(), e, before, k, dirs);
        let i = insert_by(s.drop_last(), e, before);
        assert(i.push(s.last()).drop_last() =~= i);
    }
}

/// Sorting does not change what is counted.
proof fn lemma_tally_sort(s: Seq<FileEvent>, before: spec_fn(FileEvent, FileEvent) -> bool, k: int, dirs: Seq<Seq<char>>)
    ensures
        tally(sort_by(s, before), k, dirs) == tally(s, k, dirs),
    decreases s.len(),
{
    if s.len() > 0 {
        lemma_tally_sort(s.drop_last(), before, k, dirs);
        lemma_tally_insert(sort_by(s.drop_last(), before), s.last(), before, k, dirs);
    }
}

/// The events of one of `scopes` count the same among `rows` as among the rows
/// that an analysis of `scopes` can count.
proof fn lemma_tally_select(rows: Seq<FileEvent>, scopes: Seq<Scope>, id: Seq<char>, k: int, dirs: Seq<Seq<char>>)
    requires
        has_scope(scopes, id),
    ensures
        tally(crate::db::select_scope(rows, id), k, dirs) == tally(
            crate::db::select_scope(analysed_rows(rows, scopes), id),
            k,
            dirs,
        ),
    decreases rows.len(),
{
    if rows.len() > 0 {
        let d = rows.drop_last();
        let e = rows.last();
        lemma_tally_select(d, scopes, id, k, dirs);
        let a = analysed_rows(d, scopes);
        let sd = crate::db::select_scope(d, id);
        if (!e.in_scope || e.is_blocked) && has_scope(scopes, e.scope_id@) {
            assert(a.push(e).drop_last() =~= a);
            assert(a.push(e).last() == e);
        }
        if e.scope_id@ == id {
            assert(sd.push(e).drop_last() =~= sd);
            assert(sd.push(e).last() == e);
            let sa = crate::db::select_scope(a, id);
            assert(sa.push(e).drop_last() =~= sa);
            assert(sa.push(e).last() == e);
        }
    }
}

/// The events of scopes `t`, all among `scopes`, count the same among `rows` as
/// among the rows that an analysis of `scopes` can count.
proof fn lemma_tally_scopes(rows: Seq<FileEvent>, scopes: Seq<Scope>, t: Seq<Scope>, k: int, dirs: Seq<Seq<char>>)
    requires
        forall|i: int| 0 <= i < t.len() ==> has_scope(scopes, (#[trigger] t[i]).id@),
    ensures
        tally(scopes_events(rows, t), k, dirs) == tally(scopes_events(analysed_rows(rows, scopes), t), k, dirs),
    decreases t.len(),
{
    if t.len() > 0 {
        let d = t.drop_last();
        let id = t.last().id@;
        assert(forall|i: int| 0 <= i < d.len() ==> #[trigger] d[i] == t[i]);
        lemma_tally_scopes(rows, scopes, d, k, dirs);
        assert(t.last() == t[t.len() - 1]);
        let ar = analysed_rows(rows, scopes);
        lemma_tally_concat(scopes_events(rows, d), events_for(rows, id), k, dirs);
        lemma_tally_concat(scopes_events(ar, d), events_for(ar, id), k, dirs);
        lemma_tally_sort(crate::db::select_scope(rows, id), crate::db::ts_before(), k, dirs);
        lemma_tally_sort(crate::db::select_scope(ar, id), crate::db::ts_before(), k, dirs);
        lemma_tally_select(rows, scopes, id, k, dirs);
    }
}

/// Kinds listed from `k` on depend on the counts alone.
proof fn lemma_occurred_same(a: Seq<FileEvent>, b: Seq<FileEvent>, dirs: Seq<Seq<char>>, k: int)
    requires
        forall|j: int| 0 <= j < 7 ==> #[trigger] tally(a, j, dirs) == tally(b, j, dirs),
    ensures
        occurred_from(a, dirs, k) == occurred_from(b, dirs, k),
    decreases 7 - k,
{
    if 0 <= k < 7 {
        lemma_occurred_same(a, b, dirs, k + 1);
        assert(tally(a, k, dirs) == tally(b, k, dirs));
    }
}

/// Only what the analysis can count matters: events that stayed in scope without
/// being blocked, and events of other scopes, leave the ranking of `scopes`
/// unchanged, wherever they stand among the stored events.
pub proof fn lemma_ranking_counts_only_analysed(rows: Seq<FileEvent>, other: Seq<FileEvent>, scopes: Seq<Scope>)
    requires
        analysed_rows(other, scopes) == analysed_rows(rows, scopes),
    ensures
        ranking(other, scopes) == ranking(rows, scopes),
{
    let dirs = scope_dirs(scopes);
    assert forall|i: int| 0 <= i < scopes.len() implies has_scope(scopes, (#[trigger] scopes[i]).id@) by {}
    assert forall|j: int| 0 <= j < 7 implies #[trigger] tally(scopes_events(other, scopes), j, dirs)
        == tally(scopes_events(rows, scopes), j, dirs) by {
        lemma_tally_scopes(other, scopes, scopes, j, dirs);
        lemma_tally_scopes(rows, scopes, scopes, j, dirs);
    }
    lemma_occurred_same(scopes_events(other, scopes), scopes_events(rows, scopes), dirs, 0);
}

/// Events appended to the store that stayed in scope without being blocked, or
/// that belong to none of `scopes`, leave the ranking of `scopes` unchanged.
pub proof fn lemma_ranking_ignores_extra(rows: Seq<FileEvent>, extra: Seq<FileEvent>, scopes: Seq<Scope>)
    requires
        forall|i: int|
            0 <= i < extra.len() ==> (#[trigger] extra[i]).in_scope && !extra[i].is_blocked
                || !has_scope(scopes, extra[i].scope_id@),
    ensures
        ranking(rows + extra, scopes) == ranking(rows, scopes),
{
    lemma_analysed_append(rows, extra, scopes);
    lemma_ranking_counts_only_analysed(rows, rows + extra, scopes);
}

/// Appending events that an analysis of `scopes` cannot count.
proof fn lemma_analysed_append(rows: Seq<FileEvent>, extra: Seq<FileEvent>, scopes: Seq<Scope>)
    requires
        forall|i: int|
            0 <= i < extra.len() ==> (#[trigger] extra[i]).in_scope && !extra[i].is_blocked
                || !has_scope(scopes, extra[i].scope_id@),
    ensures
        analysed_rows(rows + extra, scopes) == analysed_rows(rows, scopes),
    decreases extra.len(),
{
    if extra.len() == 0 {
        assert(rows + extra =~= rows);
    } else {
        let d = extra.drop_last();
        assert(forall|i: int| 0 <= i < d.len() ==> #[trigger] d[i] == extra[i]);
        lemma_analysed_append(rows, d, scopes);
        assert((rows + extra).drop_last() =~= rows + d);
        assert((rows + extra).last() == extra[extra.len() - 1]);
    }
}

/// The kinds found in the lower-cased path `l` of an out-of-scope touch, as the
/// analysis documents them: a secrets touch holds `env` (or ends in `.env`); a
/// dependency change ends in `package.json`, `cargo.toml`, `go.mod`,
/// `requirements.txt` or `pyproject.toml`; a config change ends in `.yaml`, `.yml`,
/// `.toml`, `.ini` or `.conf`; added logging holds `/log` or `logger`; a docs edit
/// ends in `readme.md` or `docs/`; an adjacent refactor lies outside some scope
/// directory (compared lower-cased) but shares its first segment.
pub proof fn lemma_kind_rules(l: Seq<char>, dirs: Seq<Seq<char>>)
    ensures
        shows(0, l, dirs) <==> contains(l, "env"@) || ends_with(l, ".env"@),
        shows(1, l, dirs) <==> {
            ||| ends_with(l, "package.json"@)
            ||| ends_with(l, "cargo.toml"@)
            ||| ends_with(l, "go.mod"@)
            ||| ends_with(l, "requirements.txt"@)
            ||| ends_with(l, "pyproject.toml"@)
        },
        shows(2, l, dirs) <==> {
            ||| ends_with(l, ".yaml"@)
            ||| ends_with(l, ".yml"@)
            ||| ends_with(l, ".toml"@)
            ||| ends_with(l, ".ini"@)
            ||| ends_with(l, ".conf"@)
        },
        shows(3, l, dirs) <==> contains(l, "/log"@) || contains(l, "logger"@),
        shows(4, l, dirs) <==> ends_with(l, "readme.md"@) || ends_with(l, "docs/"@),
        shows(5, l, dirs) <==> exists|i: int|
            0 <= i < dirs.len() && (#[trigger] dirs[i]).len() > 0 && !starts_with(l, lowercase(dirs[i]))
                && split_on(l, '/')[0].len() > 0 && split_on(dirs[i], '/')[0] == split_on(l, '/')[0],
{
    if shows(5, l, dirs) {
        let i = choose|i: int| 0 <= i < dirs.len() && #[trigger] beside(l, dirs[i]);
        assert(dirs[i].len() > 0);
    }
    if exists|i: int|
        0 <= i < dirs.len() && (#[trigger] dirs[i]).len() > 0 && !starts_with(l, lowercase(dirs[i]))
            && split_on(l, '/')[0].len() > 0 && split_on(dirs[i], '/')[0] == split_on(l, '/')[0] {
        let i = choose|i: int|
            0 <= i < dirs.len() && (#[trigger] dirs[i]).len() > 0 && !starts_with(l, lowercase(dirs[i]))
                && split_on(l, '/')[0].len() > 0 && split_on(dirs[i], '/')[0] == split_on(l, '/')[0];
        assert(beside(l, dirs[i]));
    }
}

/// The two kinds of a single scope's analysis, by the lower-cased path `l`: a
/// secrets touch holds `env`; a dependency change ends in `package.json`,
/// `cargo.toml` or `go.mod`.
pub proof fn lemma_single_kind_rules(l: Seq<char>)
    ensures
        shows_single(0, l) <==> contains(l, "env"@),
        shows_single(1, l) <==> {
            ||| ends_with(l, "package.json"@)
            ||| ends_with(l, "cargo.toml"@)
            ||| ends_with(l, "go.mod"@)
        },
{
}

/// What each kind of a single scope's analysis counts: the events that touched a
/// file out of scope without being blocked and whose lower-cased path shows the kind.
pub proof fn lemma_single_tally_counts(evs: Seq<FileEvent>, k: int)
    ensures
        single_tally(evs, k) == evs.filter(
            |e: FileEvent| !e.in_scope && !e.is_blocked && shows_single(k, lowercase(e.file_path@)),
        ).len(),
    decreases evs.len(),
{
    reveal(Seq::filter);
    if evs.len() > 0 {
        lemma_single_tally_counts(evs.drop_last(), k);
    }
}

/// What each kind counts: blocked secret files count every blocked event; the other
/// kinds count the events that touched a file out of scope without being blocked
/// and whose lower-cased path shows the kind.
pub proof fn lemma_tally_counts(evs: Seq<FileEvent>, k: int, dirs: Seq<Seq<char>>)
    requires
        0 <= k < 7,
    ensures
        k == 6 ==> tally(evs, k, dirs) == evs.filter(|e: FileEvent| e.is_blocked).len(),
        k < 6 ==> tally(evs, k, dirs) == evs.filter(
            |e: FileEvent| !e.in_scope && !e.is_blocked && shows(k, lowercase(e.file_path@), dirs),
        ).len(),
    decreases evs.len(),
{
    reveal(Seq::filter);
    if evs.len() > 0 {
        lemma_tally_counts(evs.drop_last(), k, dirs);
    }
}

/// Counting one more event.
pub proof fn lemma_tally_step(base: Seq<FileEvent>, evs: Seq<FileEvent>, j: int, k: int, dirs: Seq<Seq<char>>)
    requires
        0 <= j < evs.len(),
    ensures
        tally(base + evs.take(j + 1), k, dirs) == tally(base + evs.take(j), k, dirs) + if counts_toward(evs[j], k, dirs) {
            1nat
        } else {
            0nat
        },
        capped(tally(base + evs.take(j + 1), k, dirs)) == bumped(
            capped(tally(base + evs.take(j), k, dirs)) as usize,
            counts_toward(evs[j], k, dirs),
        ),
{
    assert((base + evs.take(j + 1)).drop_last() =~= base + evs.take(j));
    assert((base + evs.take(j + 1)).last() == evs[j]);
}

/// The events of one more scope.
pub proof fn lemma_scopes_events_step(rows: Seq<FileEvent>, scopes: Seq<Scope>, i: int)
    requires
        0 <= i < scopes.len(),
    ensures
        scopes_events(rows, scopes.take(i + 1)) == scopes_events(rows, scopes.take(i)) + events_for(
            rows,
            scopes[i].id@,
        ),
{
    assert(scopes.take(i + 1).drop_last() =~= scopes.take(i));
    assert(scopes.take(i + 1).last() == scopes[i]);
}

/// Adds event `e` to the counts of the kinds it shows.
fn count_event(e: &FileEvent, dirs: &Vec<Vec<char>>, counts: &mut Vec<usize>)
    requires
        old(counts)@.len() == 7,
    ensures
        final(counts)@.len() == 7,
        forall|k: int|
            0 <= k < 7 ==> #[trigger] final(counts)@[k] == bumped(
                old(counts)@[k],
                counts_toward(*e, k, views(dirs@)),
            ),
{
    let lower = to_lowercase(e.file_path.as_str());
    let l = chars_of(lower.as_str());
    let oos = !e.in_scope && !e.is_blocked;
    let mut k: usize = 0;
    while k < 6
        invariant
            k <= 6,
            counts@.len() == 7,
            l@ == lowercase(e.file_path@),
            oos == out_of_scope(*e),
            forall|q: int|
                0 <= q < k ==> #[trigger] counts@[q] == bumped(
                    old(counts)@[q],
                    counts_toward(*e, q, views(dirs@)),
                ),
            forall|q: int| k <= q < 7 ==> #[trigger] counts@[q] == old(counts)@[q],
        decreases 6 - k,
    {
        if oos && shows_exec(k, &l, dirs) {
            let n = bump(counts[k]);
            counts.set(k, n);
        }
        k = k + 1;
    }
    if e.is_blocked {
        let n = bump(counts[6]);
        counts.set(6, n);
    }
}

/// The kinds a single scope's analysis finds (0 for secrets, 1 for dependency
/// manifests) whose count is above zero, in kind order, with their counts.
pub open spec fn single_found(evs: Seq<FileEvent>) -> Seq<(int, nat)> {
    Seq::new(2, single_entry(evs)).filter(seen())
}

/// Kind `k` with its count among `evs`.
pub open spec fn single_entry(evs: Seq<FileEvent>) -> spec_fn(int) -> (int, nat) {
    |k: int| (k, capped(single_tally(evs, k)))
}

/// An entry whose count is above zero.
pub open spec fn seen() -> spec_fn((int, nat)) -> bool {
    |x: (int, nat)| x.1 > 0
}

/// `v` lists what a single scope's analysis of `evs` finds, with names, counts and
/// descriptions.
pub open spec fn single_lists(v: Seq<ViolationPattern>, evs: Seq<FileEvent>) -> bool {
    let found = single_found(evs);
    &&& v.len() == found.len()
    &&& forall|i: int|
        0 <= i < v.len() ==> {
            &&& (#[trigger] v[i]).pattern@ == single_name(found[i].0)
            &&& v[i].occurrences == found[i].1
            &&& v[i].description@ == description_of(single_name(found[i].0))
        }
}

/// A single scope's analysis lists each of its two kinds exactly when some
/// out-of-scope event shows it, once, with the number of such events (as a `usize`
/// holds it): secrets touches first, then dependency changes.
pub proof fn lemma_single_analysis(v: Seq<ViolationPattern>, evs: Seq<FileEvent>)
    requires
        single_lists(v, evs),
    ensures
        v.len() <= 2,
        forall|i: int, j: int| 0 <= i < j < v.len() ==> (#[trigger] v[i]).pattern@ != (
        #[trigger] v[j]).pattern@,
        forall|i: int|
            0 <= i < v.len() ==> exists|k: int|
                0 <= k < 2 && (#[trigger] v[i]).pattern@ == single_name(k) && v[i].occurrences
                    == capped(single_tally(evs, k)) && v[i].occurrences >= 1,
        forall|k: int|
            0 <= k < 2 && capped(single_tally(evs, k)) > 0 ==> exists|i: int|
                0 <= i < v.len() && (#[trigger] v[i]).pattern@ == single_name(k),
{
    reveal_strlit("secrets touch");
    reveal_strlit("dependency change");
    let p = seen();
    let all = Seq::new(2, single_entry(evs));
    let a = capped(single_tally(evs, 0));
    let b = capped(single_tally(evs, 1));
    reveal_with_fuel(Seq::filter, 3);
    let e = Seq::<(int, nat)>::empty();
    let one = seq![(0int, a)];
    assert(all.drop_last() =~= one);
    assert(one.drop_last() =~= e);
    assert(e.filter(p) == e);
    assert(one.last() == (0int, a));
    let first = one.filter(p);
    assert(first == if a > 0 { e.push((0int, a)) } else { e });
    assert(all.last() == (1int, b));
    let found = single_found(evs);
    assert(found == all.filter(p));
    assert(found == if b > 0 { first.push((1int, b)) } else { first });
    assert("secrets touch"@[0] != "dependency change"@[0]);
    if a > 0 {
        assert(found[0] == (0int, a));
        assert(v[0].pattern@ == single_name(0));
    }
    if b > 0 {
        assert(found[found.len() - 1] == (1int, b));
        assert(v[v.len() - 1].pattern@ == single_name(1));
    }
}

impl PatternAnalyzer {
    /// A new analyzer.
    pub fn new() -> (r: Result<PatternAnalyzer, Error>)
        ensures
            r is Ok,
    {
        Ok(PatternAnalyzer {})
    }

    /// The kinds of out-of-scope behaviour found in the events of `scopes`, most
    /// frequent first (ties in kind order): touches of environment or secrets files,
    /// dependency manifests, configuration files, logging code, documentation, code
    /// beside a scope's directory, and blocked secret files.
    pub fn analyze_scope_violations_from_scopes(&self, scopes: &[Scope], db: &Database) -> (r: Vec<
        ViolationPattern,
    >)
        ensures
            lists(r@, ranking(db.event_rows(), scopes@)),
    {
        let dirs = scope_dirs_exec(scopes);
        let ghost rows = db.event_rows();
        let ghost gd = scope_dirs(scopes@);
        let mut counts: Vec<usize> = Vec::new();
        counts.push(0);
        counts.push(0);
        counts.push(0);
        counts.push(0);
        counts.push(0);
        counts.push(0);
        counts.push(0);
        let mut i: usize = 0;
        assert(scopes@.take(0) =~= Seq::<Scope>::empty());
        while i < scopes.len()
            invariant
                i <= scopes.len(),
                rows == db.event_rows(),
                gd == scope_dirs(scopes@),
                views(dirs@) == gd,
                counts@.len() == 7,
                forall|k: int|
                    0 <= k < 7 ==> #[trigger] counts@[k] == capped(
                        tally(scopes_events(rows, scopes@.take(i as int)), k, gd),
                    ),
            decreases scopes.len() - i,
        {
            let evs = match db.get_events(scopes[i].id.as_str()) {
                Ok(v) => v,
                Err(_) => Vec::new(),
            };
            let ghost base = scopes_events(rows, scopes@.take(i as int));
            proof {
                lemma_scopes_events_step(rows, scopes@, i as int);
            }
            let mut j: usize = 0;
            assert(base + evs@.take(0) =~= base);
            while j < evs.len()
                invariant
                    j <= evs.len(),
                    views(dirs@) == gd,
                    counts@.len() == 7,
                    forall|k: int|
                        0 <= k < 7 ==> #[trigger] counts@[k] == capped(
                            tally(base + evs@.take(j as int), k, gd),
                        ),
                decreases evs.len() - j,
            {
                let ghost before = counts@;
                count_event(&evs[j], &dirs, &mut counts);
                assert forall|k: int| 0 <= k < 7 implies #[trigger] counts@[k] == capped(
                    tally(base + evs@.take(j + 1), k, gd),
                ) by {
                    lemma_tally_step(base, evs@, j as int, k, gd);
                }
                j = j + 1;
            }
            assert(evs@.take(evs.len() as int) =~= evs@);
            i = i + 1;
        }
        assert(scopes@.take(scopes.len() as int) =~= scopes@);
        let ghost all = scopes_events(rows, scopes@);
        let mut cands: Vec<(usize, usize)> = Vec::new();
        let mut k: usize = 7;
        while k > 0
            invariant
                k <= 7,
                counts@.len() == 7,
                forall|q: int| 0 <= q < 7 ==> #[trigger] counts@[q] == capped(tally(all, q, gd)),
                cands@ == occurred_from(all, gd, k as int),
            decreases k,
        {
            k = k - 1;
            if counts[k] > 0 {
                cands.insert(0, (k, counts[k]));
                assert(cands@ =~= seq![(k, counts@[k as int])] + occurred_from(all, gd, k + 1));
            }
        }
        let mut ranked: Vec<(usize, usize)> = Vec::new();
        let mut m: usize = 0;
        while m < cands.len()
            invariant
                m <= cands.len(),
                ranked@ == sort_by(cands@.take(m as int), ranks_before()),
            decreases cands.len() - m,
        {
            proof {
                crate::order::lemma_sort_step(cands@, m as int, ranks_before());
            }
            insert_ranked(&mut ranked, cands[m]);
            m = m + 1;
        }
        assert(cands@.take(cands.len() as int) =~= cands@);
        proof {
            lemma_occurred_kinds(all, gd, 0);
            crate::order::lemma_sort_members(cands@, ranks_before());
            assert forall|q: int| 0 <= q < ranked@.len() implies ranked@[q].0 < 7 by {
                crate::order::lemma_sort_contains(cands@, ranks_before(), q);
            }
        }
        let mut out: Vec<ViolationPattern> = Vec::new();
        let mut n: usize = 0;
        while n < ranked.len()
            invariant
                n <= ranked.len(),
                forall|q: int| 0 <= q < ranked@.len() ==> ranked@[q].0 < 7,
                lists(out@, ranked@.take(n as int)),
            decreases ranked.len() - n,
        {
            let (kind, count) = ranked[n];
            let name = kind_name_exec(kind);
            out.push(
                ViolationPattern {
                    pattern: String::from_str(name),
                    occurrences: count,
                    description: description_for(name),
                },
            );
            n = n + 1;
        }
        assert(ranked@.take(ranked.len() as int) =~= ranked@);
        out
    }
}


/// Whether the lower-cased path `l` shows kind `k` of the single-scope analysis:
/// 0 for a secrets touch, 1 for a dependency change.
pub open spec fn shows_single(k: int, l: Seq<char>) -> bool {
    if k == 0 {
        contains(l, "env"@)
    } else {
        ends_with(l, "package.json"@) || ends_with(l, "cargo.toml"@) || ends_with(l, "go.mod"@)
    }
}

/// The name of kind `k` of the single-scope analysis.
pub open spec fn single_name(k: int) -> Seq<char> {
    if k == 0 {
        "secrets touch"@
    } else {
        "dependency change"@
    }
}

/// How many out-of-scope events of `evs` show kind `k` of the single-scope analysis.
pub open spec fn single_tally(evs: Seq<FileEvent>, k: int) -> nat
    decreases evs.len(),
{
    if evs.len() == 0 {
        0
    } else {
        single_tally(evs.drop_last(), k) + if out_of_scope(evs.last()) && shows_single(
            k,
            lowercase(evs.last().file_path@),
        ) {
            1nat
        } else {
            0nat
        }
    }
}

impl PatternAnalyzer {
    /// The kinds found among the out-of-scope events of one scope: secrets touches
    /// (the path mentions `env`) and dependency changes, in that order, each listed
    /// when it occurred.
    pub fn analyze_scope_violations(&self, events: &[FileEvent]) -> (r: Vec<ViolationPattern>)
        ensures
            single_lists(r@, events@),
    {
        let mut secrets: usize = 0;
        let mut deps: usize = 0;
        let env = chars_of("env");
        let pkg = chars_of("package.json");
        let cargo = chars_of("cargo.toml");
        let gomod = chars_of("go.mod");
        let mut j: usize = 0;
        assert(events@.take(0) =~= Seq::<FileEvent>::empty());
        while j < events.len()
            invariant
                j <= events.len(),
                env@ == "env"@,
                pkg@ == "package.json"@,
                cargo@ == "cargo.toml"@,
                gomod@ == "go.mod"@,
                secrets == capped(single_tally(events@.take(j as int), 0)),
                deps == capped(single_tally(events@.take(j as int), 1)),
            decreases events.len() - j,
        {
            assert(events@.take(j + 1).drop_last() =~= events@.take(j as int));
            assert(events@.take(j + 1).last() == events@[j as int]);
            let e = &events[j];
            if !e.in_scope && !e.is_blocked {
                let lower = to_lowercase(e.file_path.as_str());
                let l = chars_of(lower.as_str());
                if contains_exec(&l, &env) {
                    secrets = bump(secrets);
                }
                if ends_with_exec(&l, &pkg) || ends_with_exec(&l, &cargo) || ends_with_exec(&l, &gomod) {
                    deps = bump(deps);
                }
            }
            j = j + 1;
        }
        assert(events@.take(events.len() as int) =~= events@);
        let ghost found = Seq::new(2, |k: int| (k, capped(single_tally(events@, k)))).filter(
            |x: (int, nat)| x.1 > 0,
        );
        proof {
            reveal_with_fuel(Seq::filter, 3);
            let base = Seq::new(2, |k: int| (k, capped(single_tally(events@, k))));
            assert(base.drop_last().drop_last() =~= Seq::<(int, nat)>::empty());
            assert(base.drop_last() =~= seq![(0int, capped(single_tally(events@, 0)))]);
        }
        let mut out: Vec<ViolationPattern> = Vec::new();
        if secrets > 0 {
            out.push(
                ViolationPattern {
                    pattern: String::from_str("secrets touch"),
                    occurrences: secrets,
                    description: description_for("secrets touch"),
                },
            );
        }
        if deps > 0 {
            out.push(
                ViolationPattern {
                    pattern: String::from_str("dependency change"),
                    occurrences: deps,
                    description: description_for("dependency change"),
                },
            );
        }
        out
    }
}


/// Different kinds have different names.
proof fn lemma_kind_names_differ(a: int, b: int)
    requires
        0 <= a < 7,
        0 <= b < 7,
        a != b,
    ensures
        kind_name(a) != kind_name(b),
{
    reveal_strlit("secrets / .env touch");
    reveal_strlit("dependency change");
    reveal_strlit("config change");
    reveal_strlit("add logging");
    reveal_strlit("docs / readme edit");
    reveal_strlit("refactor adjacent code");
    reveal_strlit("blocked secret file");
    if kind_name(a) == kind_name(b) {
        assert(kind_name(a)[0] == kind_name(b)[0]);
        assert(kind_name(a)[1] == kind_name(b)[1]);
    }
}

/// The patterns an analysis of `scopes` lists come most frequent first, each named
/// once, each one of the seven kinds with its description, and each seen at least
/// once.
pub proof fn lemma_listed_patterns(v: Seq<ViolationPattern>, rows: Seq<FileEvent>, scopes: Seq<Scope>)
    requires
        lists(v, ranking(rows, scopes)),
    ensures
        forall|i: int, j: int| 0 <= i < j < v.len() ==> (#[trigger] v[i]).occurrences >= (
        #[trigger] v[j]).occurrences && v[i].pattern@ != v[j].pattern@,
        forall|i: int|
            0 <= i < v.len() ==> {
                &&& (#[trigger] v[i]).occurrences >= 1
                &&& exists|k: int| 0 <= k < 7 && v[i].pattern@ == #[trigger] kind_name(k)
                &&& v[i].description@ == description_of(v[i].pattern@)
            },
{
    let r = ranking(rows, scopes);
    lemma_ranking_most_frequent_first(rows, scopes);
    assert forall|i: int, j: int| 0 <= i < j < v.len() implies (#[trigger] v[i]).occurrences >= (
    #[trigger] v[j]).occurrences && v[i].pattern@ != v[j].pattern@ by {
        assert(ranks_before()(r[i], r[j]));
        lemma_kind_names_differ(r[i].0 as int, r[j].0 as int);
    }
    assert forall|i: int| 0 <= i < v.len() implies {
        &&& (#[trigger] v[i]).occurrences >= 1
        &&& exists|k: int| 0 <= k < 7 && v[i].pattern@ == #[trigger] kind_name(k)
        &&& v[i].description@ == description_of(v[i].pattern@)
    } by {
        assert(v[i].pattern@ == kind_name(r[i].0 as int));
    }
}

} // verus!
