//! Stable sorting of keyed items.
//!
//! An item is a pair of a `u64` key and a payload. Sorting orders the items
//! by key and keeps items of equal key in the order in which they came.

use vstd::prelude::*;

verus! {

/// The keys of `s` never decrease from front to back.
pub open spec fn sorted<T>(s: Seq<(u64, T)>) -> bool {
    forall|i: int, j: int| 0 <= i <= j < s.len() ==> s[i].0 <= s[j].0
}

/// The predicate "this item has key `k`".
pub open spec fn key_is<T>(k: u64) -> spec_fn((u64, T)) -> bool {
    |e: (u64, T)| e.0 == k
}

/// The items of `s` that have key `k`, in the order in which they stand in `s`.
pub open spec fn with_key<T>(s: Seq<(u64, T)>, k: u64) -> Seq<(u64, T)> {
    s.filter(key_is(k))
}

/// `out` is `inp` sorted by key, stably: its keys never decrease, and for
/// every key the items that carry it are the same in both, in the same order.
pub open spec fn stable_sort_of<T>(out: Seq<(u64, T)>, inp: Seq<(u64, T)>) -> bool {
    &&& sorted(out)
    &&& forall|k: u64| #[trigger] with_key(out, k) == with_key(inp, k)
}

/// The payloads of `s`, keys dropped.
pub open spec fn payloads<T>(s: Seq<(u64, T)>) -> Seq<T> {
    Seq::new(s.len(), |i: int| s[i].1)
}

proof fn lemma_with_key_absent<T>(s: Seq<(u64, T)>, k: u64)
    requires
        forall|i: int| 0 <= i < s.len() ==> s[i].0 != k,
    ensures
        with_key(s, k) == Seq::<(u64, T)>::empty(),
    decreases s.len(),
{
    reveal(Seq::filter);
    if s.len() > 0 {
        lemma_with_key_absent(s.drop_last(), k);
    }
}

proof fn lemma_with_key_push<T>(s: Seq<(u64, T)>, e: (u64, T), k: u64)
    ensures
        with_key(s.push(e), k) == if e.0 == k {
            with_key(s, k).push(e)
        } else {
            with_key(s, k)
        },
{
    s.lemma_filter_push(e, key_is(k));
}

/// Every item of `s` with key `k` has the same count in `s` as among the
/// items of key `k` alone.
proof fn lemma_count_by_key<T>(s: Seq<(u64, T)>, e: (u64, T))
    ensures
        s.to_multiset().count(e) == with_key(s, e.0).to_multiset().count(e),
    decreases s.len(),
{
    broadcast use vstd::seq_lib::group_to_multiset_ensures;

    if s.len() == 0 {
        lemma_with_key_absent(s, e.0);
    } else {
        let rest = s.drop_last();
        let last = s.last();
        assert(s == rest.push(last));
        lemma_count_by_key(rest, e);
        lemma_with_key_push(rest, last, e.0);
    }
}

/// A stable sort rearranges: every item occurs as often after as before.
pub proof fn lemma_stable_sort_permutes<T>(out: Seq<(u64, T)>, inp: Seq<(u64, T)>)
    requires
        stable_sort_of(out, inp),
    ensures
        out.to_multiset() == inp.to_multiset(),
        out.len() == inp.len(),
{
    broadcast use vstd::seq_lib::group_to_multiset_ensures;

    assert forall|e: (u64, T)| out.to_multiset().count(e) == inp.to_multiset().count(e) by {
        lemma_count_by_key(out, e);
        lemma_count_by_key(inp, e);
        assert(with_key(out, e.0) == with_key(inp, e.0));
    }
    assert(out.to_multiset() =~= inp.to_multiset());
    vstd::seq_lib::to_multiset_len(out);
    vstd::seq_lib::to_multiset_len(inp);
}

/// If some item of `s` has key `k`, the items of key `k` are not empty.
proof fn lemma_with_key_present<T>(s: Seq<(u64, T)>, k: u64, i: int)
    requires
        0 <= i < s.len(),
        s[i].0 == k,
    ensures
        with_key(s, k).len() > 0,
    decreases s.len(),
{
    let rest = s.drop_last();
    assert(s == rest.push(s.last()));
    lemma_with_key_push(rest, s.last(), k);
    if i < s.len() - 1 {
        lemma_with_key_present(rest, k, i);
    }
}

/// No two items of `s` share a key.
pub open spec fn distinct_keys<T>(s: Seq<(u64, T)>) -> bool {
    forall|i: int, j: int| 0 <= i < j < s.len() ==> s[i].0 != s[j].0
}

/// Where no two items share a key, the items of one key are a single item.
proof fn lemma_with_key_single<T>(s: Seq<(u64, T)>, i: int)
    requires
        distinct_keys(s),
        0 <= i < s.len(),
    ensures
        with_key(s, s[i].0) == seq![s[i]],
    decreases s.len(),
{
    let rest = s.drop_last();
    let k = s[i].0;
    assert(s == rest.push(s.last()));
    lemma_with_key_push(rest, s.last(), k);
    if i == s.len() - 1 {
        lemma_with_key_absent(rest, k);
        assert(with_key(s, k) =~= seq![s[i]]);
    } else {
        assert(distinct_keys(rest)) by {
            assert forall|p: int, q: int| 0 <= p < q < rest.len() implies rest[p].0
                != rest[q].0 by {
                assert(s[p].0 != s[q].0);
            }
        }
        lemma_with_key_single(rest, i);
    }
}

/// Rearranging neither adds nor loses an item.
proof fn lemma_rearranged_contains<T>(a: Seq<(u64, T)>, b: Seq<(u64, T)>, x: (u64, T))
    requires
        a.to_multiset() == b.to_multiset(),
        a.contains(x),
    ensures
        b.contains(x),
{
    vstd::seq_lib::to_multiset_contains(a, x);
    vstd::seq_lib::to_multiset_contains(b, x);
}

/// A rearrangement of items with distinct keys has distinct keys.
proof fn lemma_distinct_keys_rearranged<T>(a: Seq<(u64, T)>, b: Seq<(u64, T)>)
    requires
        distinct_keys(a),
        a.to_multiset() == b.to_multiset(),
    ensures
        distinct_keys(b),
{
    assert(a.no_duplicates());
    a.lemma_multiset_has_no_duplicates();
    b.lemma_multiset_has_no_duplicates_conv();
    assert forall|i: int, j: int| 0 <= i < j < b.len() implies b[i].0 != b[j].0 by {
        assert(b.contains(b[i]));
        assert(b.contains(b[j]));
        lemma_rearranged_contains(b, a, b[i]);
        lemma_rearranged_contains(b, a, b[j]);
        let p = choose|p: int| 0 <= p < a.len() && a[p] == b[i];
        let q = choose|q: int| 0 <= q < a.len() && a[q] == b[j];
        assert(b[i] != b[j]);
        if p < q {
            assert(a[p].0 != a[q].0);
        } else {
            assert(a[q].0 != a[p].0);
        }
    }
}

/// Sorting undoes any rearrangement of items with distinct keys: if `a` is
/// sorted and has distinct keys, it is the stable sort of each of its
/// rearrangements.
pub proof fn lemma_sorted_distinct_is_sort_of<T>(a: Seq<(u64, T)>, b: Seq<(u64, T)>)
    requires
        sorted(a),
        distinct_keys(a),
        a.to_multiset() == b.to_multiset(),
    ensures
        stable_sort_of(a, b),
{
    lemma_distinct_keys_rearranged(a, b);
    assert forall|k: u64| #[trigger] with_key(a, k) == with_key(b, k) by {
        if exists|i: int| 0 <= i < a.len() && a[i].0 == k {
            let i = choose|i: int| 0 <= i < a.len() && a[i].0 == k;
            assert(a.contains(a[i]));
            lemma_rearranged_contains(a, b, a[i]);
            let j = choose|j: int| 0 <= j < b.len() && b[j] == a[i];
            lemma_with_key_single(a, i);
            lemma_with_key_single(b, j);
        } else {
            assert forall|j: int| 0 <= j < b.len() implies b[j].0 != k by {
                assert(b.contains(b[j]));
                lemma_rearranged_contains(b, a, b[j]);
                let i = choose|i: int| 0 <= i < a.len() && a[i] == b[j];
            }
            lemma_with_key_absent(a, k);
            lemma_with_key_absent(b, k);
        }
    }
}

/// A sequence has only one stable sort: two that sort the same input are
/// equal.
pub proof fn lemma_stable_sort_unique<T>(a: Seq<(u64, T)>, b: Seq<(u64, T)>, inp: Seq<(u64, T)>)
    requires
        stable_sort_of(a, inp),
        stable_sort_of(b, inp),
    ensures
        a == b,
{
    assert forall|k: u64| #[trigger] with_key(a, k) == with_key(b, k) by {
        assert(with_key(a, k) == with_key(inp, k));
        assert(with_key(b, k) == with_key(inp, k));
    }
    lemma_stable_sort_permutes(a, inp);
    lemma_stable_sort_permutes(b, inp);
    lemma_sorted_same_groups(a, b);
}

/// Two sorted sequences of one length that agree, for every key, on the
/// items of that key and their order are equal.
proof fn lemma_sorted_same_groups<T>(a: Seq<(u64, T)>, b: Seq<(u64, T)>)
    requires
        sorted(a),
        sorted(b),
        a.len() == b.len(),
        forall|k: u64| #[trigger] with_key(a, k) == with_key(b, k),
    ensures
        a == b,
    decreases a.len(),
{
    if a.len() == 0 {
        assert(a =~= b);
    } else {
        let n = a.len() - 1;
        let x = a.last();
        let y = b.last();
        let a0 = a.drop_last();
        let b0 = b.drop_last();
        assert(a == a0.push(x));
        assert(b == b0.push(y));
        // The last keys agree: each sequence holds the other's last key, and
        // the last key of a sorted sequence is its largest.
        lemma_with_key_present(a, x.0, n);
        lemma_with_key_present(b, y.0, n);
        assert(with_key(b, x.0).len() > 0);
        assert(with_key(a, y.0).len() > 0);
        if x.0 != y.0 {
            if x.0 < y.0 {
                assert forall|i: int| 0 <= i < a.len() implies a[i].0 != y.0 by {
                    assert(a[i].0 <= a[n].0);
                }
                lemma_with_key_absent(a, y.0);
            } else {
                assert forall|i: int| 0 <= i < b.len() implies b[i].0 != x.0 by {
                    assert(b[i].0 <= b[n].0);
                }
                lemma_with_key_absent(b, x.0);
            }
            assert(false);
        }
        lemma_with_key_push(a0, x, x.0);
        lemma_with_key_push(b0, y, x.0);
        assert(with_key(a, x.0) == with_key(b, x.0));
        assert(with_key(a0, x.0).push(x).last() == x);
        assert(with_key(b0, x.0).push(y).last() == y);
        assert(x == y);
        assert forall|k: u64| #[trigger] with_key(a0, k) == with_key(b0, k) by {
            lemma_with_key_push(a0, x, k);
            lemma_with_key_push(b0, y, k);
            assert(with_key(a, k) == with_key(b, k));
            if k == x.0 {
                assert(with_key(a0, k) == with_key(a0, k).push(x).drop_last());
                assert(with_key(b0, k) == with_key(b0, k).push(y).drop_last());
            }
        }
        assert(sorted(a0)) by {
            assert forall|i: int, j: int| 0 <= i <= j < a0.len() implies a0[i].0 <= a0[j].0 by {
                assert(a[i].0 <= a[j].0);
            }
        }
        assert(sorted(b0)) by {
            assert forall|i: int, j: int| 0 <= i <= j < b0.len() implies b0[i].0 <= b0[j].0 by {
                assert(b[i].0 <= b[j].0);
            }
        }
        lemma_sorted_same_groups(a0, b0);
    }
}

/// Merges two sorted runs into one; on equal keys the items of `a` come first.
fn merge<T: Copy>(a: &Vec<(u64, T)>, b: &Vec<(u64, T)>) -> (out: Vec<(u64, T)>)
    requires
        sorted(a@),
        sorted(b@),
        a.len() + b.len() <= usize::MAX,
    ensures
        sorted(out@),
        out.len() == a.len() + b.len(),
        forall|k: u64| #[trigger] with_key(out@, k) == with_key(a@, k) + with_key(b@, k),
{
    let mut out: Vec<(u64, T)> = Vec::new();
    let mut i: usize = 0;
    let mut j: usize = 0;
    proof {
        assert forall|k: u64| #[trigger]
            with_key(out@, k) == with_key(a@.take(0), k) + with_key(b@.take(0), k) by {
            lemma_with_key_absent(out@, k);
            lemma_with_key_absent(a@.take(0), k);
            lemma_with_key_absent(b@.take(0), k);
        }
    }
    while i < a.len() || j < b.len()
        invariant
            i <= a.len(),
            j <= b.len(),
            out.len() == i + j,
            a.len() + b.len() <= usize::MAX,
            sorted(a@),
            sorted(b@),
            sorted(out@),
            forall|p: int| 0 <= p < out.len() && i < a.len() ==> out[p].0 <= a[i as int].0,
            forall|p: int| 0 <= p < out.len() && j < b.len() ==> out[p].0 <= b[j as int].0,
            forall|q: int| 0 <= q < j && i < a.len() ==> b[q].0 < a[i as int].0,
            forall|k: u64| #[trigger]
                with_key(out@, k) == with_key(a@.take(i as int), k) + with_key(
                    b@.take(j as int),
                    k,
                ),
        decreases a.len() - i + b.len() - j,
    {
        let ghost before = out@;
        if i < a.len() && (j >= b.len() || a[i].0 <= b[j].0) {
            let e = a[i];
            out.push(e);
            proof {
                assert(a@.take(i + 1) == a@.take(i as int).push(e));
                assert forall|k: u64| #[trigger]
                    with_key(out@, k) == with_key(a@.take(i + 1), k) + with_key(
                        b@.take(j as int),
                        k,
                    ) by {
                    lemma_with_key_push(before, e, k);
                    lemma_with_key_push(a@.take(i as int), e, k);
                    assert(with_key(before, k) == with_key(a@.take(i as int), k) + with_key(
                        b@.take(j as int),
                        k,
                    ));
                    if e.0 == k {
                        lemma_with_key_absent(b@.take(j as int), k);
                    }
                }
            }
            i = i + 1;
        } else {
            let e = b[j];
            out.push(e);
            proof {
                assert(b@.take(j + 1) == b@.take(j as int).push(e));
                assert forall|k: u64| #[trigger]
                    with_key(out@, k) == with_key(a@.take(i as int), k) + with_key(
                        b@.take(j + 1),
                        k,
                    ) by {
                    lemma_with_key_push(before, e, k);
                    lemma_with_key_push(b@.take(j as int), e, k);
                    assert(with_key(before, k) == with_key(a@.take(i as int), k) + with_key(
                        b@.take(j as int),
                        k,
                    ));
                }
            }
            j = j + 1;
        }
    }
    proof {
        assert(a@.take(i as int) == a@);
        assert(b@.take(j as int) == b@);
    }
    out
}

/// Sorts the items `v[lo..hi]` into a new vector.
fn sort_range<T: Copy>(v: &Vec<(u64, T)>, lo: usize, hi: usize) -> (out: Vec<(u64, T)>)
    requires
        lo <= hi <= v.len(),
    ensures
        stable_sort_of(out@, v@.subrange(lo as int, hi as int)),
        out.len() == hi - lo,
    decreases hi - lo,
{
    let ghost part = v@.subrange(lo as int, hi as int);
    if hi - lo <= 1 {
        let mut out: Vec<(u64, T)> = Vec::new();
        if lo < hi {
            out.push(v[lo]);
        }
        proof {
            assert(out@ == part);
        }
        out
    } else {
        let mid: usize = lo + (hi - lo) / 2;
        let left = sort_range(v, lo, mid);
        let right = sort_range(v, mid, hi);
        let out = merge(&left, &right);
        proof {
            let l = v@.subrange(lo as int, mid as int);
            let r = v@.subrange(mid as int, hi as int);
            assert(part == l + r);
            assert forall|k: u64| #[trigger] with_key(out@, k) == with_key(part, k) by {
                Seq::filter_distributes_over_add(l, r, key_is(k));
                assert(with_key(left@, k) == with_key(l, k));
                assert(with_key(right@, k) == with_key(r, k));
            }
        }
        out
    }
}

/// Returns the items of `items` sorted by key. Items of equal key keep the
/// order in which they stand in `items`.
pub fn sort_by_key<T: Copy>(items: &Vec<(u64, T)>) -> (out: Vec<(u64, T)>)
    ensures
        stable_sort_of(out@, items@),
        out.len() == items.len(),
        out@.to_multiset() == items@.to_multiset(),
{
    let out = sort_range(items, 0, items.len());
    proof {
        assert(items@.subrange(0, items.len() as int) == items@);
        lemma_stable_sort_permutes(out@, items@);
    }
    out
}

} // verus!
