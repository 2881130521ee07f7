//! Ascending order of numbers, and ranks in it.

use vstd::prelude::*;
use vstd::relations::{sorted_by, total_ordering};
use vstd::seq_lib::lemma_sorted_unique;

verus! {

/// The elements of `s` in ascending order.
pub open spec fn ascending(s: Seq<u64>) -> Seq<u64> {
    s.sort_by(|x: u64, y: u64| x <= y)
}

/// Whether no element of `s` is followed by a smaller one.
pub open spec fn is_ascending(s: Seq<u64>) -> bool {
    forall|i: int, j: int| 0 <= i <= j < s.len() ==> s[i] <= s[j]
}

/// `ascending(s)` is in ascending order and holds the elements of `s`, each as
/// often; and it is the only such sequence.
pub proof fn law_ascending(s: Seq<u64>)
    ensures
        is_ascending(ascending(s)),
        ascending(s).to_multiset() == s.to_multiset(),
        ascending(s).len() == s.len(),
        forall|t: Seq<u64>|
            is_ascending(t) && #[trigger] t.to_multiset() == s.to_multiset() ==> t == ascending(s),
{
    let leq = |x: u64, y: u64| x <= y;
    assert(total_ordering(leq));
    s.lemma_sort_by_ensures(leq);
    let a = ascending(s);
    assert(is_ascending(a)) by {
        assert forall|i: int, j: int| 0 <= i <= j < a.len() implies a[i] <= a[j] by {
            if i < j {
                assert(leq(a[i], a[j]));
            }
        }
    }
    assert(a.len() == s.len()) by {
        vstd::seq_lib::to_multiset_len(a);
        vstd::seq_lib::to_multiset_len(s);
    }
    assert forall|t: Seq<u64>|
        is_ascending(t) && #[trigger] t.to_multiset() == s.to_multiset() implies t == a by {
        assert(sorted_by(t, leq));
        lemma_sorted_unique(t, a, leq);
    }
}

/// Every element of the ascending order stands somewhere in `s`.
pub proof fn lemma_ascending_from(s: Seq<u64>, i: int)
    requires
        0 <= i < s.len(),
    ensures
        s.contains(ascending(s)[i]),
{
    law_ascending(s);
    let leq = |x: u64, y: u64| x <= y;
    s.lemma_sort_by_ensures(leq);
    assert(ascending(s).contains(ascending(s)[i]));
}

/// Sorts numbers.
///
/// Claims of `<[u64]>::sort_unstable` that it leaves the same numbers, each as
/// often as before, in ascending order.
#[verifier::external_body]
fn sort_unstable(v: &mut Vec<u64>)
    ensures
        final(v)@.to_multiset() == old(v)@.to_multiset(),
        is_ascending(final(v)@),
{
    v.sort_unstable()
}

/// Brings numbers into ascending order.
pub fn sort(v: &mut Vec<u64>)
    ensures
        final(v)@ == ascending(old(v)@),
{
    proof {
        law_ascending(v@);
    }
    sort_unstable(v);
}

proof fn lemma_filter_range<A>(s: Seq<A>, p: spec_fn(A) -> bool, lo: int, hi: int)
    requires
        0 <= lo <= hi,
        forall|i: int| 0 <= i < s.len() && #[trigger] p(s[i]) ==> lo <= i < hi,
    ensures
        s.filter(p).len() <= hi - lo,
        s.filter(p).len() <= s.len(),
    decreases s.len(),
{
    reveal_with_fuel(Seq::filter, 1);
    if s.len() > 0 {
        let t = s.drop_last();
        assert forall|i: int| 0 <= i < t.len() && #[trigger] p(t[i]) implies lo <= i < hi by {
            assert(p(s[i]));
        }
        if p(s.last()) {
            let last = s.len() - 1;
            assert(p(s[last]));
            assert forall|i: int| 0 <= i < t.len() && #[trigger] p(t[i]) implies lo <= i < last by {
                assert(p(s[i]));
            }
            lemma_filter_range(t, p, lo, last);
        } else {
            lemma_filter_range(t, p, lo, hi);
        }
    }
}

proof fn lemma_filter_multiset(s: Seq<u64>, p: spec_fn(u64) -> bool)
    ensures
        s.filter(p).to_multiset() =~= s.to_multiset().filter(p),
    decreases s.len(),
{
    broadcast use vstd::seq_lib::group_to_multiset_ensures;
    broadcast use vstd::multiset::group_multiset_axioms;

    reveal_with_fuel(Seq::filter, 1);
    if s.len() > 0 {
        let t = s.drop_last();
        lemma_filter_multiset(t, p);
        assert(t.push(s.last()) =~= s);
        assert(s.to_multiset() =~= t.to_multiset().insert(s.last()));
        if p(s.last()) {
            assert(s.filter(p) =~= t.filter(p).push(s.last()));
            assert(s.filter(p).to_multiset() =~= t.filter(p).to_multiset().insert(s.last()));
        }
        assert(s.filter(p).to_multiset() =~= s.to_multiset().filter(p));
    } else {
        assert(s.to_multiset() =~= vstd::multiset::Multiset::empty());
        assert(s.filter(p) =~= s);
    }
}

/// No more numbers lie above the one at a rank than ranks do, and no more below.
pub proof fn lemma_around_rank(l: Seq<u64>, k: int, v: u64)
    requires
        0 <= k < l.len(),
        v == ascending(l)[k],
    ensures
        l.filter(|x: u64| x > v).len() <= l.len() - 1 - k,
        l.filter(|x: u64| x < v).len() <= k,
{
    let a = ascending(l);
    law_ascending(l);
    let above = |x: u64| x > v;
    let below = |x: u64| x < v;
    lemma_filter_multiset(l, above);
    lemma_filter_multiset(a, above);
    lemma_filter_multiset(l, below);
    lemma_filter_multiset(a, below);
    vstd::seq_lib::to_multiset_len(l.filter(above));
    vstd::seq_lib::to_multiset_len(a.filter(above));
    vstd::seq_lib::to_multiset_len(l.filter(below));
    vstd::seq_lib::to_multiset_len(a.filter(below));
    assert forall|i: int| 0 <= i < a.len() && #[trigger] above(a[i]) implies k + 1 <= i
        < a.len() by {
        if i <= k {
            assert(a[i] <= a[k]);
        }
    }
    assert forall|i: int| 0 <= i < a.len() && #[trigger] below(a[i]) implies 0 <= i < k by {
        if k <= i {
            assert(a[k] <= a[i]);
        }
    }
    lemma_filter_range(a, above, k + 1, a.len() as int);
    lemma_filter_range(a, below, 0, k);
}

}
