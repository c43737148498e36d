//! Stable insertion order, the order in which sorted query results come out.
use vstd::prelude::*;

verus! {

/// `e` inserted into `s` just after the last element that stays before it.
pub open spec fn insert_by<T>(s: Seq<T>, e: T, before: spec_fn(T, T) -> bool) -> Seq<T>
    decreases s.len(),
{
    if s.len() == 0 {
        seq![e]
    } else if before(s.last(), e) {
        s.push(e)
    } else {
        insert_by(s.drop_last(), e, before).push(s.last())
    }
}

/// `s` in stable order by `before`: each element inserted in turn.
pub open spec fn sort_by<T>(s: Seq<T>, before: spec_fn(T, T) -> bool) -> Seq<T>
    decreases s.len(),
{
    if s.len() == 0 {
        Seq::<T>::empty()
    } else {
        insert_by(sort_by(s.drop_last(), before), s.last(), before)
    }
}

/// Inserting from the back: past an element that does not stay before `e`.
pub proof fn lemma_insert_past<T>(s: Seq<T>, e: T, before: spec_fn(T, T) -> bool, j: int)
    requires
        0 < j <= s.len(),
        !before(s[j - 1], e),
        insert_by(s, e, before) == insert_by(s.take(j), e, before) + s.skip(j),
    ensures
        insert_by(s, e, before) == insert_by(s.take(j - 1), e, before) + s.skip(j - 1),
{
    let t = s.take(j);
    assert(t.drop_last() =~= s.take(j - 1));
    assert(t.last() == s[j - 1]);
    assert(insert_by(t, e, before) == insert_by(s.take(j - 1), e, before).push(s[j - 1]));
    assert(insert_by(s.take(j - 1), e, before).push(s[j - 1]) + s.skip(j) =~= insert_by(
        s.take(j - 1),
        e,
        before,
    ) + s.skip(j - 1));
}

/// Inserting from the back: stopping at an element that stays before `e`, or at the front.
pub proof fn lemma_insert_stop<T>(s: Seq<T>, e: T, before: spec_fn(T, T) -> bool, j: int)
    requires
        0 <= j <= s.len(),
        j == 0 || before(s[j - 1], e),
        insert_by(s, e, before) == insert_by(s.take(j), e, before) + s.skip(j),
    ensures
        insert_by(s, e, before) == s.insert(j, e),
{
    let t = s.take(j);
    if j == 0 {
        assert(t.len() == 0);
        assert(insert_by(t, e, before) == seq![e]);
    } else {
        assert(t.last() == s[j - 1]);
        assert(insert_by(t, e, before) == t.push(e));
    }
    assert(insert_by(t, e, before) + s.skip(j) =~= s.insert(j, e));
}

/// The start of the search from the back.
pub proof fn lemma_insert_start<T>(s: Seq<T>, e: T, before: spec_fn(T, T) -> bool)
    ensures
        insert_by(s, e, before) == insert_by(s.take(s.len() as int), e, before) + s.skip(
            s.len() as int,
        ),
{
    assert(s.take(s.len() as int) =~= s);
    assert(insert_by(s, e, before) + s.skip(s.len() as int) =~= insert_by(s, e, before));
}

/// Sorting a sequence one more element at a time.
pub proof fn lemma_sort_step<T>(s: Seq<T>, i: int, before: spec_fn(T, T) -> bool)
    requires
        0 <= i < s.len(),
    ensures
        sort_by(s.take(i + 1), before) == insert_by(sort_by(s.take(i), before), s[i], before),
{
    assert(s.take(i + 1).drop_last() =~= s.take(i));
}


/// Inserting adds exactly one element: `e`.
pub proof fn lemma_insert_members<T>(s: Seq<T>, e: T, before: spec_fn(T, T) -> bool)
    ensures
        insert_by(s, e, before).len() == s.len() + 1,
        insert_by(s, e, before).to_multiset() == s.to_multiset().insert(e),
    decreases s.len(),
{
    broadcast use vstd::seq_lib::group_seq_properties;
    broadcast use vstd::multiset::group_multiset_axioms;
    if s.len() == 0 {
        assert(insert_by(s, e, before) =~= seq![e]);
        assert(seq![e] =~= Seq::<T>::empty().push(e));
    } else if before(s.last(), e) {
    } else {
        lemma_insert_members(s.drop_last(), e, before);
        assert(s =~= s.drop_last().push(s.last()));
        assert(s.to_multiset() =~= s.drop_last().to_multiset().insert(s.last()));
        assert(insert_by(s.drop_last(), e, before).push(s.last()).to_multiset() =~= insert_by(
            s.drop_last(),
            e,
            before,
        ).to_multiset().insert(s.last()));
        assert(s.drop_last().to_multiset().insert(e).insert(s.last()) =~= s.drop_last().to_multiset().insert(
            s.last(),
        ).insert(e));
    }
}

/// Sorting rearranges: the same elements, as often as before.
pub proof fn lemma_sort_members<T>(s: Seq<T>, before: spec_fn(T, T) -> bool)
    ensures
        sort_by(s, before).len() == s.len(),
        sort_by(s, before).to_multiset() == s.to_multiset(),
    decreases s.len(),
{
    broadcast use vstd::seq_lib::group_seq_properties;
    broadcast use vstd::multiset::group_multiset_axioms;
    if s.len() > 0 {
        lemma_sort_members(s.drop_last(), before);
        lemma_insert_members(sort_by(s.drop_last(), before), s.last(), before);
        assert(s =~= s.drop_last().push(s.last()));
        assert(s.to_multiset() =~= s.drop_last().to_multiset().insert(s.last()));
    }
}

/// Every element of a sorted sequence comes from the sequence before sorting.
pub proof fn lemma_sort_contains<T>(s: Seq<T>, before: spec_fn(T, T) -> bool, i: int)
    requires
        0 <= i < sort_by(s, before).len(),
    ensures
        s.contains(sort_by(s, before)[i]),
{
    broadcast use vstd::seq_lib::group_seq_properties;
    broadcast use vstd::multiset::group_multiset_axioms;
    lemma_sort_members(s, before);
    let x = sort_by(s, before)[i];
    assert(sort_by(s, before).contains(x));
    assert(sort_by(s, before).to_multiset().count(x) > 0);
    assert(s.to_multiset().count(x) > 0);
}


/// `before` orders any two elements one way or the other.
pub open spec fn total<T>(before: spec_fn(T, T) -> bool) -> bool {
    forall|a: T, b: T| #[trigger] before(a, b) || before(b, a)
}

/// `before` is transitive.
pub open spec fn transitive<T>(before: spec_fn(T, T) -> bool) -> bool {
    forall|a: T, b: T, c: T| #[trigger] before(a, b) && #[trigger] before(b, c) ==> before(a, c)
}

/// Every element stays before every later one.
pub open spec fn sorted_by<T>(s: Seq<T>, before: spec_fn(T, T) -> bool) -> bool {
    forall|i: int, j: int| 0 <= i < j < s.len() ==> before(#[trigger] s[i], #[trigger] s[j])
}

/// Inserting into a sorted sequence keeps it sorted.
pub proof fn lemma_insert_sorted<T>(s: Seq<T>, e: T, before: spec_fn(T, T) -> bool)
    requires
        total(before),
        transitive(before),
        sorted_by(s, before),
    ensures
        sorted_by(insert_by(s, e, before), before),
        insert_by(s, e, before).len() == s.len() + 1,
        forall|i: int|
            0 <= i < insert_by(s, e, before).len() ==> #[trigger] insert_by(s, e, before)[i] == e
                || s.contains(insert_by(s, e, before)[i]),
    decreases s.len(),
{
    if s.len() == 0 {
    } else if before(s.last(), e) {
        let r = s.push(e);
        assert forall|i: int, j: int| 0 <= i < j < r.len() implies before(#[trigger] r[i], #[trigger] r[j]) by {
            if j == r.len() - 1 {
                if i < s.len() - 1 {
                    assert(before(s[i], s[s.len() - 1]));
                }
            }
        }
        assert forall|i: int| 0 <= i < r.len() implies #[trigger] r[i] == e || s.contains(r[i]) by {
            if i < s.len() {
                assert(s[i] == r[i]);
            }
        }
    } else {
        let d = s.drop_last();
        assert(sorted_by(d, before)) by {
            assert forall|i: int, j: int| 0 <= i < j < d.len() implies before(#[trigger] d[i], #[trigger] d[j]) by {
                assert(d[i] == s[i] && d[j] == s[j]);
            }
        }
        lemma_insert_sorted(d, e, before);
        let q = insert_by(d, e, before);
        let r = q.push(s.last());
        assert(before(e, s.last()));
        assert forall|i: int| 0 <= i < q.len() implies before(#[trigger] q[i], s.last()) by {
            if q[i] != e {
                assert(d.contains(q[i]));
                let k = choose|k: int| 0 <= k < d.len() && d[k] == q[i];
                assert(s[k] == d[k]);
                assert(before(s[k], s[s.len() - 1]));
            }
        }
        assert forall|i: int, j: int| 0 <= i < j < r.len() implies before(#[trigger] r[i], #[trigger] r[j]) by {
            if j == r.len() - 1 {
                assert(r[j] == s.last());
                assert(r[i] == q[i]);
            } else {
                assert(r[i] == q[i] && r[j] == q[j]);
            }
        }
        assert forall|i: int| 0 <= i < r.len() implies #[trigger] r[i] == e || s.contains(r[i]) by {
            if i < q.len() {
                assert(r[i] == q[i]);
                if q[i] != e {
                    assert(d.contains(q[i]));
                    let k = choose|k: int| 0 <= k < d.len() && d[k] == q[i];
                    assert(s[k] == d[k]);
                }
            } else {
                assert(s[s.len() - 1] == r[i]);
            }
        }
    }
}

/// Sorting by a total, transitive order gives a sorted sequence.
pub proof fn lemma_sort_sorted<T>(s: Seq<T>, before: spec_fn(T, T) -> bool)
    requires
        total(before),
        transitive(before),
    ensures
        sorted_by(sort_by(s, before), before),
    decreases s.len(),
{
    if s.len() > 0 {
        lemma_sort_sorted(s.drop_last(), before);
        lemma_insert_sorted(sort_by(s.drop_last(), before), s.last(), before);
    }
}


/// The keys of the elements of `s` differ pairwise.
pub open spec fn keys_distinct<T, K>(s: Seq<T>, key: spec_fn(T) -> K) -> bool {
    forall|i: int, j: int| 0 <= i < j < s.len() ==> key(#[trigger] s[i]) != key(#[trigger] s[j])
}

/// Inserting an element whose key no element has keeps the keys distinct.
proof fn lemma_insert_keys<T, K>(s: Seq<T>, e: T, before: spec_fn(T, T) -> bool, key: spec_fn(T) -> K)
    requires
        keys_distinct(s, key),
        forall|i: int| 0 <= i < s.len() ==> key(#[trigger] s[i]) != key(e),
    ensures
        keys_distinct(insert_by(s, e, before), key),
        forall|i: int|
            0 <= i < insert_by(s, e, before).len() ==> #[trigger] insert_by(s, e, before)[i] == e
                || s.contains(insert_by(s, e, before)[i]),
        insert_by(s, e, before).len() == s.len() + 1,
    decreases s.len(),
{
    if s.len() == 0 {
    } else if before(s.last(), e) {
        let r = s.push(e);
        assert forall|i: int| 0 <= i < r.len() implies #[trigger] r[i] == e || s.contains(r[i]) by {
            if i < s.len() {
                assert(r[i] == s[i]);
            }
        }
        assert forall|i: int, j: int| 0 <= i < j < r.len() implies key(#[trigger] r[i]) != key(
            #[trigger] r[j],
        ) by {
            assert(r[i] == s[i]);
            if j < s.len() {
                assert(r[j] == s[j]);
            }
        }
    } else {
        let d = s.drop_last();
        assert forall|i: int, j: int| 0 <= i < j < d.len() implies key(#[trigger] d[i]) != key(
            #[trigger] d[j],
        ) by {
            assert(d[i] == s[i] && d[j] == s[j]);
        }
        assert forall|i: int| 0 <= i < d.len() implies key(#[trigger] d[i]) != key(e) by {
            assert(d[i] == s[i]);
        }
        lemma_insert_keys(d, e, before, key);
        let q = insert_by(d, e, before);
        let l = s[s.len() - 1];
        assert(s.last() == l);
        let r = q.push(l);
        assert forall|i: int| 0 <= i < q.len() implies key(#[trigger] q[i]) != key(l) by {
            if q[i] != e {
                assert(d.contains(q[i]));
                let k = choose|k: int| 0 <= k < d.len() && d[k] == q[i];
                assert(d[k] == s[k]);
            }
        }
        assert forall|i: int, j: int| 0 <= i < j < r.len() implies key(#[trigger] r[i]) != key(
            #[trigger] r[j],
        ) by {
            assert(r[i] == q[i]);
            if j < q.len() {
                assert(r[j] == q[j]);
            }
        }
        assert forall|i: int| 0 <= i < r.len() implies #[trigger] r[i] == e || s.contains(r[i]) by {
            if i < q.len() {
                assert(r[i] == q[i]);
                if q[i] != e {
                    assert(d.contains(q[i]));
                    let k = choose|k: int| 0 <= k < d.len() && d[k] == q[i];
                    assert(s[k] == d[k]);
                }
            } else {
                assert(s[s.len() - 1] == r[i]);
            }
        }
    }
}

/// Sorting keeps the keys of the elements distinct.
pub proof fn lemma_sort_keys_distinct<T, K>(s: Seq<T>, before: spec_fn(T, T) -> bool, key: spec_fn(T) -> K)
    requires
        keys_distinct(s, key),
    ensures
        keys_distinct(sort_by(s, before), key),
    decreases s.len(),
{
    if s.len() > 0 {
        let d = s.drop_last();
        assert forall|i: int, j: int| 0 <= i < j < d.len() implies key(#[trigger] d[i]) != key(
            #[trigger] d[j],
        ) by {
            assert(d[i] == s[i] && d[j] == s[j]);
        }
        lemma_sort_keys_distinct(d, before, key);
        let sd = sort_by(d, before);
        assert forall|i: int| 0 <= i < sd.len() implies key(#[trigger] sd[i]) != key(s.last()) by {
            lemma_sort_contains(d, before, i);
            let k = choose|k: int| 0 <= k < d.len() && d[k] == sd[i];
            assert(d[k] == s[k]);
            assert(s.last() == s[s.len() - 1]);
        }
        lemma_insert_keys(sd, s.last(), before, key);
    }
}


/// Every element of a sequence stays in it once sorted.
pub proof fn lemma_sort_keeps<T>(s: Seq<T>, before: spec_fn(T, T) -> bool, x: T)
    requires
        s.contains(x),
    ensures
        sort_by(s, before).contains(x),
{
    broadcast use vstd::seq_lib::group_seq_properties;
    broadcast use vstd::multiset::group_multiset_axioms;
    lemma_sort_members(s, before);
    assert(s.to_multiset().count(x) > 0);
    assert(sort_by(s, before).to_multiset().count(x) > 0);
}

} // verus!
