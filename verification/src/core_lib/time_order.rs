//! Stable ordering of timestamped entries, newest first or oldest first.
//! Entries with equal times keep the order they came in.

use vstd::prelude::*;
use vstd::multiset::Multiset;

verus! {

/// An entry stamped `new_time` goes before one stamped `time`: when the
/// newest come first, it is newer; otherwise it is older.
pub open spec fn goes_before(time: i64, new_time: i64, newest_first: bool) -> bool {
    if newest_first {
        time < new_time
    } else {
        time > new_time
    }
}

/// Whether an entry stamped `new_time` goes before one stamped `time`.
pub fn time_goes_before(time: i64, new_time: i64, newest_first: bool) -> (b: bool)
    ensures
        b == goes_before(time, new_time, newest_first),
{
    if newest_first {
        time < new_time
    } else {
        time > new_time
    }
}

/// `x` inserted into the ordered sequence `s`: after every entry it does
/// not go before.
pub open spec fn insert_by_time<T>(s: Seq<(i64, T)>, x: (i64, T), newest_first: bool) -> Seq<(i64, T)>
    decreases s.len(),
{
    if s.len() == 0 {
        seq![x]
    } else if goes_before(s[0].0, x.0, newest_first) {
        seq![x] + s
    } else {
        seq![s[0]] + insert_by_time(s.drop_first(), x, newest_first)
    }
}

/// `s` ordered by time, newest or oldest first; entries with equal times
/// keep their order.
pub open spec fn by_time<T>(s: Seq<(i64, T)>, newest_first: bool) -> Seq<(i64, T)>
    decreases s.len(),
{
    if s.len() == 0 {
        s
    } else {
        insert_by_time(by_time(s.drop_last(), newest_first), s.last(), newest_first)
    }
}

/// `s` is ordered: no entry goes before an earlier one.
pub open spec fn is_ordered_by_time<T>(s: Seq<(i64, T)>, newest_first: bool) -> bool {
    forall|i: int, j: int| 0 <= i < j < s.len() ==> !goes_before(#[trigger] s[i].0, #[trigger] s[j].0, newest_first)
}

proof fn lemma_insert_at<T>(s: Seq<(i64, T)>, x: (i64, T), newest_first: bool, p: int)
    requires
        0 <= p <= s.len(),
        forall|q: int| 0 <= q < p ==> !goes_before(#[trigger] s[q].0, x.0, newest_first),
        p < s.len() ==> goes_before(s[p].0, x.0, newest_first),
    ensures
        insert_by_time(s, x, newest_first) == s.insert(p, x),
    decreases s.len(),
{
    if s.len() == 0 {
        assert(s.insert(p, x) =~= seq![x]);
    } else if goes_before(s[0].0, x.0, newest_first) {
        assert(p == 0);
        assert(s.insert(p, x) =~= seq![x] + s);
    } else {
        let t = s.drop_first();
        assert forall|q: int| 0 <= q < p - 1 implies !goes_before(#[trigger] t[q].0, x.0, newest_first) by {
            assert(t[q] == s[q + 1]);
        }
        lemma_insert_at(t, x, newest_first, p - 1);
        assert(s.insert(p, x) =~= seq![s[0]] + t.insert(p - 1, x));
    }
}

/// Inserting into an ordered sequence keeps it ordered and adds the entry.
proof fn lemma_insert_keeps_order<T>(s: Seq<(i64, T)>, x: (i64, T), newest_first: bool)
    requires
        is_ordered_by_time(s, newest_first),
    ensures
        is_ordered_by_time(insert_by_time(s, x, newest_first), newest_first),
        insert_by_time(s, x, newest_first).to_multiset() == s.to_multiset().insert(x),
    decreases s.len(),
{
    broadcast use vstd::seq_lib::group_seq_properties, vstd::multiset::group_multiset_axioms;

    let r = insert_by_time(s, x, newest_first);
    if s.len() == 0 {
        assert(r =~= seq![x]);
        assert(seq![x].to_multiset() =~= Multiset::<(i64, T)>::empty().insert(x));
        assert(s.to_multiset() =~= Multiset::<(i64, T)>::empty());
    } else if goes_before(s[0].0, x.0, newest_first) {
        assert(r == seq![x] + s);
        assert forall|i: int, j: int| 0 <= i < j < r.len() implies !goes_before(#[trigger] r[i].0, #[trigger] r[j].0, newest_first) by {
            if i > 0 {
                assert(r[i] == s[i - 1] && r[j] == s[j - 1]);
            } else {
                assert(r[j] == s[j - 1]);
                if j > 1 {
                    assert(!goes_before(s[0].0, s[j - 1].0, newest_first));
                }
            }
        }
        vstd::seq_lib::lemma_multiset_commutative(seq![x], s);
        assert(seq![x].to_multiset() =~= Multiset::<(i64, T)>::empty().insert(x));
    } else {
        let t = s.drop_first();
        assert(is_ordered_by_time(t, newest_first)) by {
            assert forall|i: int, j: int| 0 <= i < j < t.len() implies !goes_before(#[trigger] t[i].0, #[trigger] t[j].0, newest_first) by {
                assert(t[i] == s[i + 1] && t[j] == s[j + 1]);
            }
        }
        lemma_insert_keeps_order(t, x, newest_first);
        let rt = insert_by_time(t, x, newest_first);
        assert(r == seq![s[0]] + rt);
        assert forall|i: int, j: int| 0 <= i < j < r.len() implies !goes_before(#[trigger] r[i].0, #[trigger] r[j].0, newest_first) by {
            if i > 0 {
                assert(r[i] == rt[i - 1] && r[j] == rt[j - 1]);
            } else {
                assert(r[j] == rt[j - 1]);
                assert(rt.to_multiset().count(rt[j - 1]) > 0) by {
                    assert(rt.contains(rt[j - 1]));
                }
                let e = rt[j - 1];
                assert(t.to_multiset().insert(x).count(e) > 0);
                if e != x {
                    assert(t.to_multiset().count(e) > 0);
                    assert(t.contains(e));
                    let k = choose|k: int| 0 <= k < t.len() && t[k] == e;
                    assert(s[k + 1] == e);
                    assert(!goes_before(s[0].0, s[k + 1].0, newest_first));
                }
            }
        }
        vstd::seq_lib::lemma_multiset_commutative(seq![s[0]], rt);
        vstd::seq_lib::lemma_multiset_commutative(seq![s[0]], t);
        assert(s =~= seq![s[0]] + t);
        assert(seq![s[0]].to_multiset() =~= Multiset::<(i64, T)>::empty().insert(s[0]));
        assert(r.to_multiset() =~= s.to_multiset().insert(x));
    }
}

/// Ordering by time orders the entries and keeps each of them: the result
/// is ordered, and holds the same entries as many times.
pub proof fn lemma_by_time_orders<T>(s: Seq<(i64, T)>, newest_first: bool)
    ensures
        is_ordered_by_time(by_time(s, newest_first), newest_first),
        by_time(s, newest_first).to_multiset() == s.to_multiset(),
    decreases s.len(),
{
    broadcast use vstd::seq_lib::group_seq_properties;

    if s.len() == 0 {
    } else {
        lemma_by_time_orders(s.drop_last(), newest_first);
        lemma_insert_keeps_order(by_time(s.drop_last(), newest_first), s.last(), newest_first);
        assert(s =~= s.drop_last().push(s.last()));
        assert(s.drop_last().push(s.last()).to_multiset() == s.drop_last().to_multiset().insert(s.last()));
    }
}

/// Ordering by time keeps the number of entries.
pub proof fn lemma_by_time_len<T>(s: Seq<(i64, T)>, newest_first: bool)
    ensures
        by_time(s, newest_first).len() == s.len(),
{
    broadcast use vstd::seq_lib::group_seq_properties;

    lemma_by_time_orders(s, newest_first);
    assert(by_time(s, newest_first).to_multiset().len() == by_time(s, newest_first).len());
    assert(s.to_multiset().len() == s.len());
}

/// The entries `v` ordered by time: see [`by_time`].
pub fn sort_by_time<T>(v: Vec<(i64, T)>, newest_first: bool) -> (r: Vec<(i64, T)>)
    ensures
        r@ == by_time(v@, newest_first),
{
    let ghost s0 = v@;
    let mut v = v;
    let mut r: Vec<(i64, T)> = Vec::new();
    let ghost mut k: int = 0;
    proof {
        assert(s0.take(0) =~= Seq::<(i64, T)>::empty());
        assert(s0.skip(0) =~= s0);
    }
    while v.len() > 0
        invariant
            0 <= k <= s0.len(),
            v@ == s0.skip(k),
            r@ == by_time(s0.take(k), newest_first),
        decreases v@.len(),
    {
        let x = v.remove(0);
        let mut p: usize = 0;
        while p < r.len() && !time_goes_before(r[p].0, x.0, newest_first)
            invariant
                p <= r@.len(),
                forall|q: int| 0 <= q < p ==> !goes_before(#[trigger] r@[q].0, x.0, newest_first),
            decreases r@.len() - p,
        {
            p = p + 1;
        }
        proof {
            lemma_insert_at(r@, x, newest_first, p as int);
            assert(s0.take(k + 1).drop_last() =~= s0.take(k));
            assert(s0.take(k + 1).last() == x);
            assert(v@ =~= s0.skip(k + 1));
        }
        r.insert(p, x);
        proof {
            k = k + 1;
        }
    }
    proof {
        assert(s0.take(k) =~= s0);
    }
    r
}

/// The at most `max` newest entries of `v`, newest first; entries with
/// equal times keep their order, and the newest of them are kept.
pub fn keep_newest<T>(v: Vec<(i64, T)>, max: usize) -> (r: Vec<(i64, T)>)
    ensures
        r@ == by_time(v@, true).take(if max < v@.len() { max as int } else { v@.len() as int }),
        r@.len() == (if max < v@.len() { max as int } else { v@.len() as int }),
        is_ordered_by_time(r@, true),
{
    let ghost s = v@;
    proof {
        lemma_by_time_len(s, true);
        lemma_by_time_orders(s, true);
    }
    let mut r = sort_by_time(v, true);
    let n: usize = if max < r.len() { max } else { r.len() };
    r.truncate(n);
    proof {
        let o = by_time(s, true);
        assert(r@ =~= o.take(n as int));
        assert forall|i: int, j: int| 0 <= i < j < r@.len() implies !goes_before(#[trigger] r@[i].0, #[trigger] r@[j].0, true) by {
            assert(r@[i] == o[i] && r@[j] == o[j]);
        }
    }
    r
}

} // verus!
