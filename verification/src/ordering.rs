//! Stable sorting by a rank, and sets of texts listed in ascending order.

use vstd::prelude::*;

use crate::text;

verus! {

/// A type whose values are sorted by a strict weak order.
pub trait Ranked: Sized {
    /// Whether `self` is sorted strictly before `other`.
    spec fn ranks_before(&self, other: &Self) -> bool;

    /// Two values are never before each other.
    proof fn lemma_rank_asymmetric(a: &Self, b: &Self)
        requires
            a.ranks_before(b),
        ensures
            !b.ranks_before(a),
    ;

    /// Not being before is transitive.
    proof fn lemma_rank_negatively_transitive(a: &Self, b: &Self, c: &Self)
        requires
            !a.ranks_before(b),
            !b.ranks_before(c),
        ensures
            !a.ranks_before(c),
    ;

    /// Computes `ranks_before`.
    fn is_before(&self, other: &Self) -> (result: bool)
        ensures
            result == self.ranks_before(other),
    ;
}

/// No value is sorted before an earlier one.
pub open spec fn in_order<T: Ranked>(s: Seq<T>) -> bool {
    forall|i: int, j: int|
        #![trigger s[i], s[j]]
        0 <= i < j < s.len() ==> !s[j].ranks_before(&s[i])
}

/// How many leading values of `s` are before `x`.
pub open spec fn insertion_point<T: Ranked>(s: Seq<T>, x: T) -> int
    decreases s.len(),
{
    if s.len() == 0 || !s[0].ranks_before(&x) {
        0
    } else {
        1 + insertion_point(s.drop_first(), x)
    }
}

/// `s` sorted by rank, values of equal rank staying in their order.
pub open spec fn stable_sorted<T: Ranked>(s: Seq<T>) -> Seq<T>
    decreases s.len(),
{
    if s.len() == 0 {
        s
    } else {
        let rest = stable_sorted(s.drop_first());
        rest.insert(insertion_point(rest, s[0]), s[0])
    }
}

proof fn lemma_insertion_point<T: Ranked>(s: Seq<T>, x: T, p: int)
    requires
        0 <= p <= s.len(),
        forall|i: int| 0 <= i < p ==> (#[trigger] s[i]).ranks_before(&x),
        p < s.len() ==> !s[p].ranks_before(&x),
    ensures
        insertion_point(s, x) == p,
    decreases p,
{
    if p > 0 {
        assert(s[0].ranks_before(&x));
        let t = s.drop_first();
        assert forall|i: int| 0 <= i < p - 1 implies (#[trigger] t[i]).ranks_before(&x) by {
            assert(t[i] == s[i + 1]);
        }
        lemma_insertion_point(t, x, p - 1);
    }
}

/// The insertion point lies inside the sequence, after what is before the value.
pub proof fn lemma_insertion_point_bounds<T: Ranked>(s: Seq<T>, x: T)
    ensures
        0 <= insertion_point(s, x) <= s.len(),
        forall|i: int| 0 <= i < insertion_point(s, x) ==> (#[trigger] s[i]).ranks_before(&x),
        insertion_point(s, x) < s.len() ==> !s[insertion_point(s, x)].ranks_before(&x),
    decreases s.len(),
{
    if s.len() != 0 && s[0].ranks_before(&x) {
        let t = s.drop_first();
        lemma_insertion_point_bounds(t, x);
        assert forall|i: int| 0 <= i < insertion_point(s, x) implies (#[trigger] s[i]).ranks_before(
            &x,
        ) by {
            if i > 0 {
                assert(t[i - 1] == s[i]);
            }
        }
    }
}

/// Putting a value at its insertion point keeps a sequence in order.
proof fn lemma_insertion_in_order<T: Ranked>(s: Seq<T>, x: T)
    requires
        in_order(s),
    ensures
        in_order(s.insert(insertion_point(s, x), x)),
        0 <= insertion_point(s, x) <= s.len(),
{
    lemma_insertion_point_bounds(s, x);
    let p = insertion_point(s, x);
    let t = s.insert(p, x);
    assert forall|i: int, j: int|
        #![trigger t[i], t[j]]
        0 <= i < j < t.len() implies !t[j].ranks_before(&t[i]) by {
        if j == p {
            assert(t[i] == s[i]);
            T::lemma_rank_asymmetric(&s[i], &x);
        } else if i == p {
            assert(t[j] == s[j - 1]);
            if j - 1 > p {
                assert(!s[j - 1].ranks_before(&s[p]));
                T::lemma_rank_negatively_transitive(&s[j - 1], &s[p], &x);
            }
        } else {
            let a = if i < p { i } else { i - 1 };
            let b = if j < p { j } else { j - 1 };
            assert(t[i] == s[a] && t[j] == s[b]);
        }
    }
}

/// A sorted sequence is in order.
pub proof fn lemma_stable_sorted_in_order<T: Ranked>(s: Seq<T>)
    ensures
        in_order(stable_sorted(s)),
        stable_sorted(s).len() == s.len(),
    decreases s.len(),
{
    if s.len() > 0 {
        lemma_stable_sorted_in_order(s.drop_first());
        lemma_insertion_in_order(stable_sorted(s.drop_first()), s[0]);
    }
}

/// Sorting neither adds nor drops nor changes a value.
pub proof fn lemma_stable_sorted_permutes<T: Ranked>(s: Seq<T>)
    ensures
        stable_sorted(s).to_multiset() == s.to_multiset(),
    decreases s.len(),
{
    if s.len() > 0 {
        let rest = stable_sorted(s.drop_first());
        lemma_stable_sorted_permutes(s.drop_first());
        lemma_insertion_point_bounds(rest, s[0]);
        vstd::seq_lib::to_multiset_insert(rest, insertion_point(rest, s[0]), s[0]);
        vstd::seq_lib::to_multiset_insert(s.drop_first(), 0, s[0]);
        assert(s =~= s.drop_first().insert(0, s[0]));
    }
}

/// Sorting what is in order changes nothing, so sorting twice is sorting once.
pub proof fn lemma_stable_sorted_fixed<T: Ranked>(s: Seq<T>)
    requires
        in_order(s),
    ensures
        stable_sorted(s) == s,
    decreases s.len(),
{
    if s.len() > 0 {
        let t = s.drop_first();
        assert forall|i: int, j: int|
        #![trigger t[i], t[j]]
        0 <= i < j < t.len() implies !t[j].ranks_before(&t[i]) by {
            assert(t[i] == s[i + 1] && t[j] == s[j + 1]);
        }
        lemma_stable_sorted_fixed(t);
        if t.len() > 0 {
            assert(!s[1].ranks_before(&s[0]));
        }
        lemma_insertion_point(t, s[0], 0);
        assert(t.insert(0, s[0]) =~= s);
    }
}

/// Membership survives sorting, both ways.
pub proof fn lemma_stable_sorted_contains<T: Ranked>(s: Seq<T>, x: T)
    ensures
        stable_sorted(s).contains(x) <==> s.contains(x),
{
    lemma_stable_sorted_permutes(s);
    vstd::seq_lib::to_multiset_contains(s, x);
    vstd::seq_lib::to_multiset_contains(stable_sorted(s), x);
}

/// Values that differ in some respect still do once they are sorted.
pub proof fn lemma_stable_sorted_distinct<T: Ranked, U>(s: Seq<T>, f: spec_fn(T) -> U)
    requires
        forall|i: int, j: int|
            #![trigger s[i], s[j]]
            0 <= i < j < s.len() ==> f(s[i]) != f(s[j]),
    ensures
        forall|i: int, j: int|
            #![trigger stable_sorted(s)[i], stable_sorted(s)[j]]
            0 <= i < j < stable_sorted(s).len() ==> f(stable_sorted(s)[i]) != f(
                stable_sorted(s)[j],
            ),
    decreases s.len(),
{
    if s.len() > 0 {
        let t = s.drop_first();
        assert forall|i: int, j: int|
            #![trigger t[i], t[j]]
            0 <= i < j < t.len() implies f(t[i]) != f(t[j]) by {
            assert(t[i] == s[i + 1] && t[j] == s[j + 1]);
        }
        lemma_stable_sorted_distinct(t, f);
        let rest = stable_sorted(t);
        let p = insertion_point(rest, s[0]);
        lemma_insertion_point_bounds(rest, s[0]);
        assert forall|i: int| 0 <= i < rest.len() implies f(#[trigger] rest[i]) != f(s[0]) by {
            lemma_stable_sorted_contains(t, rest[i]);
            assert(rest.contains(rest[i]));
            let k = t.index_of(rest[i]);
            assert(t[k] == s[k + 1]);
        }
        let all = rest.insert(p, s[0]);
        assert forall|i: int, j: int|
            #![trigger all[i], all[j]]
            0 <= i < j < all.len() implies f(all[i]) != f(all[j]) by {
            let a = if i < p {
                i
            } else {
                i - 1
            };
            let b = if j < p {
                j
            } else {
                j - 1
            };
            if i != p {
                assert(all[i] == rest[a]);
            }
            if j != p {
                assert(all[j] == rest[b]);
            }
        }
    }
}

/// Where no two values are of equal rank, the order in which they came does not
/// show in the sorted sequence.
pub proof fn lemma_in_order_unique<T: Ranked>(a: Seq<T>, b: Seq<T>)
    requires
        in_order(b),
        forall|i: int, j: int|
            #![trigger a[i], a[j]]
            0 <= i < j < a.len() ==> a[i].ranks_before(&a[j]),
        a.to_multiset() == b.to_multiset(),
    ensures
        a == b,
    decreases a.len(),
{
    broadcast use vstd::seq_lib::group_to_multiset_ensures;

    assert(a.len() == a.to_multiset().len());
    assert(b.len() == b.to_multiset().len());
    if a.len() == 0 {
        assert(a =~= b);
    } else {
        vstd::seq_lib::to_multiset_contains(a, b[0]);
        vstd::seq_lib::to_multiset_contains(b, b[0]);
        vstd::seq_lib::to_multiset_contains(b, a[0]);
        vstd::seq_lib::to_multiset_contains(a, a[0]);
        assert(b.contains(b[0]));
        assert(a.contains(a[0]));
        let m = a.index_of(b[0]);
        let k = b.index_of(a[0]);
        assert(a[m] == b[0] && b[k] == a[0]);
        if m > 0 && k > 0 {
            assert(a[0].ranks_before(&a[m]));
            assert(!b[k].ranks_before(&b[0]));
        }
        assert(a[0] == b[0]);
        let s = a.drop_first();
        let t = b.drop_first();
        vstd::seq_lib::to_multiset_remove(a, 0);
        vstd::seq_lib::to_multiset_remove(b, 0);
        assert(a.remove(0) =~= s);
        assert(b.remove(0) =~= t);
        assert forall|i: int, j: int|
            #![trigger s[i], s[j]]
            0 <= i < j < s.len() implies s[i].ranks_before(&s[j]) by {
            assert(s[i] == a[i + 1] && s[j] == a[j + 1]);
        }
        assert forall|i: int, j: int|
            #![trigger t[i], t[j]]
            0 <= i < j < t.len() implies !t[j].ranks_before(&t[i]) by {
            assert(t[i] == b[i + 1] && t[j] == b[j + 1]);
        }
        lemma_in_order_unique(s, t);
        assert(a =~= seq![a[0]] + s);
        assert(b =~= seq![b[0]] + t);
    }
}

/// Whether no value of a sequence is before one that stands earlier.
pub open spec fn sorted_by<T>(s: Seq<T>, before: spec_fn(T, T) -> bool) -> bool {
    forall|i: int, j: int|
        #![trigger s[i], s[j]]
        0 <= i < j < s.len() ==> !before(s[j], s[i])
}

/// Where values of equal rank are equal, there is one sorted sequence of them.
pub proof fn lemma_sorted_unique<T>(a: Seq<T>, b: Seq<T>, before: spec_fn(T, T) -> bool)
    requires
        sorted_by(a, before),
        sorted_by(b, before),
        a.to_multiset() == b.to_multiset(),
        forall|i: int, j: int|
            #![trigger a[i], a[j]]
            0 <= i < a.len() && 0 <= j < a.len() && !before(a[i], a[j]) && !before(a[j], a[i])
                ==> a[i] == a[j],
    ensures
        a == b,
    decreases a.len(),
{
    broadcast use vstd::seq_lib::group_to_multiset_ensures;

    assert(a.len() == a.to_multiset().len());
    assert(b.len() == b.to_multiset().len());
    if a.len() > 0 {
        assert(a.contains(a[0]));
        assert(b.contains(b[0]));
        assert(b.to_multiset().count(a[0]) > 0);
        assert(a.to_multiset().count(b[0]) > 0);
        let p = b.index_of(a[0]);
        let q = a.index_of(b[0]);
        assert(b[p] == a[0] && a[q] == b[0]);
        if p > 0 && q > 0 {
            assert(!before(b[p], b[0]));
            assert(!before(a[q], a[0]));
        }
        assert(a[0] == b[0]);
        let c = a.remove(0);
        let d = b.remove(0);
        assert forall|i: int, j: int|
            #![trigger c[i], c[j]]
            0 <= i < j < c.len() implies !before(c[j], c[i]) by {
            assert(c[i] == a[i + 1] && c[j] == a[j + 1]);
        }
        assert forall|i: int, j: int|
            #![trigger d[i], d[j]]
            0 <= i < j < d.len() implies !before(d[j], d[i]) by {
            assert(d[i] == b[i + 1] && d[j] == b[j + 1]);
        }
        assert forall|i: int, j: int|
            #![trigger c[i], c[j]]
            0 <= i < c.len() && 0 <= j < c.len() && !before(c[i], c[j]) && !before(
                c[j],
                c[i],
            ) implies c[i] == c[j] by {
            assert(c[i] == a[i + 1] && c[j] == a[j + 1]);
        }
        lemma_sorted_unique(c, d, before);
        assert(a =~= seq![a[0]] + c);
        assert(b =~= seq![b[0]] + d);
    } else {
        assert(a =~= b);
    }
}

/// Two sequences of the same values still hold the same values when each is
/// replaced by what it stands for.
pub proof fn lemma_mapped_alike<T, U>(a: Seq<T>, b: Seq<T>, f: spec_fn(T) -> U)
    requires
        a.to_multiset() == b.to_multiset(),
    ensures
        a.map_values(f).to_multiset() == b.map_values(f).to_multiset(),
    decreases a.len(),
{
    broadcast use vstd::seq_lib::group_to_multiset_ensures;

    assert(a.len() == a.to_multiset().len());
    assert(b.len() == b.to_multiset().len());
    if a.len() > 0 {
        assert(a.contains(a[0]));
        assert(b.to_multiset().count(a[0]) > 0);
        let p = b.index_of(a[0]);
        assert(b[p] == a[0]);
        lemma_mapped_alike(a.remove(0), b.remove(p), f);
        assert(a.remove(0).map_values(f) =~= a.map_values(f).remove(0));
        assert(b.remove(p).map_values(f) =~= b.map_values(f).remove(p));
        assert(a.map_values(f) =~= a.map_values(f).remove(0).insert(0, f(a[0])));
        assert(b.map_values(f) =~= b.map_values(f).remove(p).insert(p, f(a[0])));
        vstd::seq_lib::to_multiset_insert(a.map_values(f).remove(0), 0, f(a[0]));
        vstd::seq_lib::to_multiset_insert(b.map_values(f).remove(p), p, f(a[0]));
    } else {
        assert(a.map_values(f) =~= b.map_values(f));
    }
}

/// The first problem of a list of findings.
pub open spec fn first_problem<E>(findings: Seq<Option<E>>) -> Option<E>
    decreases findings.len(),
{
    if findings.len() == 0 {
        None
    } else if findings[0] is Some {
        findings[0]
    } else {
        first_problem(findings.drop_first())
    }
}

/// After findings without a problem, the next problem is the first.
pub proof fn lemma_first_problem<E>(findings: Seq<Option<E>>, n: int)
    requires
        0 <= n <= findings.len(),
        forall|i: int| 0 <= i < n ==> (#[trigger] findings[i]) is None,
        n < findings.len() ==> findings[n] is Some,
    ensures
        first_problem(findings) == (if n < findings.len() {
            findings[n]
        } else {
            None
        }),
    decreases n,
{
    if n > 0 {
        assert(findings[0] is None);
        let rest = findings.drop_first();
        assert forall|i: int| 0 <= i < n - 1 implies (#[trigger] rest[i]) is None by {
            assert(rest[i] == findings[i + 1]);
        }
        lemma_first_problem(rest, n - 1);
    }
}

/// No finding is a problem exactly where there is no first problem.
pub proof fn lemma_no_first_problem<E>(findings: Seq<Option<E>>)
    requires
        first_problem(findings) is None,
    ensures
        forall|i: int| 0 <= i < findings.len() ==> (#[trigger] findings[i]) is None,
    decreases findings.len(),
{
    if findings.len() > 0 {
        let rest = findings.drop_first();
        lemma_no_first_problem(rest);
        assert forall|i: int| 0 <= i < findings.len() implies (#[trigger] findings[i]) is None by {
            if i > 0 {
                assert(rest[i - 1] == findings[i]);
            }
        }
    }
}

/// Sorts by rank, keeping values of equal rank in their order.
pub fn stable_sort<T: Ranked>(values: Vec<T>) -> (result: Vec<T>)
    ensures
        result@ == stable_sorted(values@),
{
    let ghost all = values@;
    let mut rest = values;
    let mut result: Vec<T> = Vec::new();
    assert(all.skip(all.len() as int) =~= Seq::<T>::empty());
    while rest.len() > 0
        invariant
            rest@ == all.take(rest@.len() as int),
            rest@.len() <= all.len(),
            result@ == stable_sorted(all.skip(rest@.len() as int)),
        decreases rest@.len(),
    {
        let ghost n = rest@.len() as int;
        let x = rest.pop().unwrap();
        let mut low: usize = 0;
        let mut high: usize = result.len();
        proof {
            lemma_stable_sorted_in_order(all.skip(n));
        }
        while low < high
            invariant
                low <= high <= result@.len(),
                in_order(result@),
                forall|i: int| 0 <= i < low ==> (#[trigger] result@[i]).ranks_before(&x),
                forall|i: int| high <= i < result@.len() ==> !(#[trigger] result@[i]).ranks_before(&x),
            decreases high - low,
        {
            let middle: usize = low + (high - low) / 2;
            if result[middle].is_before(&x) {
                proof {
                    assert forall|i: int| 0 <= i <= middle implies (#[trigger] result@[i]).ranks_before(
                        &x,
                    ) by {
                        if i < middle && !result@[i].ranks_before(&x) {
                            assert(!result@[middle as int].ranks_before(&result@[i]));
                            T::lemma_rank_negatively_transitive(
                                &result@[middle as int],
                                &result@[i],
                                &x,
                            );
                        }
                    }
                }
                low = middle + 1;
            } else {
                proof {
                    assert forall|i: int| middle <= i < result@.len() implies !(
                    #[trigger] result@[i]).ranks_before(&x) by {
                        if i > middle {
                            assert(!result@[i].ranks_before(&result@[middle as int]));
                            T::lemma_rank_negatively_transitive(
                                &result@[i],
                                &result@[middle as int],
                                &x,
                            );
                        }
                    }
                }
                high = middle;
            }
        }
        proof {
            lemma_insertion_point(result@, x, low as int);
            assert(all.skip(n - 1).drop_first() =~= all.skip(n));
            assert(all.skip(n - 1)[0] == x);
            assert(rest@ =~= all.take(n - 1));
        }
        result.insert(low, x);
    }
    assert(all.skip(0) =~= all);
    result
}

/// A type whose values can say the same.
pub trait Alike: Sized {
    /// Whether two values say the same.
    spec fn alike(&self, other: &Self) -> bool;

    /// Computes `alike`.
    fn is_alike(&self, other: &Self) -> (result: bool)
        ensures
            result == self.alike(other),
    ;
}

/// A sequence without the values that say the same as the one kept before them.
pub open spec fn deduplicated<T: Alike>(s: Seq<T>) -> Seq<T>
    decreases s.len(),
{
    if s.len() == 0 {
        s
    } else {
        let kept = deduplicated(s.drop_last());
        if kept.len() > 0 && kept.last().alike(&s.last()) {
            kept
        } else {
            kept.push(s.last())
        }
    }
}

/// The values in reverse order.
pub fn reversed<T>(values: Vec<T>) -> (result: Vec<T>)
    ensures
        result@ == values@.reverse(),
{
    let ghost all = values@;
    let mut forward = values;
    let mut backward: Vec<T> = Vec::new();
    while forward.len() > 0
        invariant
            forward@.len() + backward@.len() == all.len(),
            forward@ == all.take(forward@.len() as int),
            forall|i: int|
                0 <= i < backward@.len() ==> #[trigger] backward@[i] == all[all.len() - 1 - i],
        decreases forward@.len(),
    {
        let ghost n = forward@.len() as int;
        let value = forward.pop().unwrap();
        assert(value == all[n - 1]);
        backward.push(value);
        assert(forward@ =~= all.take(n - 1));
    }
    assert(backward@ =~= all.reverse());
    backward
}

/// Computes `deduplicated`.
pub fn deduplicate<T: Alike>(values: Vec<T>) -> (result: Vec<T>)
    ensures
        result@ == deduplicated(values@),
{
    let ghost all = values@;
    let mut backward = reversed(values);
    let mut result: Vec<T> = Vec::new();
    assert(deduplicated(all.take(0)) =~= Seq::<T>::empty());
    while backward.len() > 0
        invariant
            backward@.len() <= all.len(),
            forall|i: int|
                0 <= i < backward@.len() ==> #[trigger] backward@[i] == all[all.len() - 1 - i],
            result@ == deduplicated(all.take(all.len() - backward@.len())),
        decreases backward@.len(),
    {
        let ghost done = all.len() - backward@.len();
        let value = backward.pop().unwrap();
        proof {
            assert(value == all[done]);
            assert(all.take(done + 1).drop_last() =~= all.take(done));
            assert(all.take(done + 1).last() == value);
        }
        let kept: usize = result.len();
        if kept == 0 || !result[kept - 1].is_alike(&value) {
            result.push(value);
        }
    }
    assert(all.take(all.len() as int) =~= all);
    result
}

/// What is left of a sequence was in it.
pub proof fn lemma_deduplicated_contains<T: Alike>(s: Seq<T>, x: T)
    requires
        deduplicated(s).contains(x),
    ensures
        s.contains(x),
    decreases s.len(),
{
    if s.len() > 0 {
        let kept = deduplicated(s.drop_last());
        if kept.contains(x) {
            lemma_deduplicated_contains(s.drop_last(), x);
            let i = s.drop_last().index_of(x);
            assert(s[i] == x);
        } else {
            let k = deduplicated(s).index_of(x);
            assert(x == s.last());
            assert(s[s.len() - 1] == x);
        }
    }
}

/// Strictly ascending in the order of texts.
pub open spec fn ascending(s: Seq<Seq<char>>) -> bool {
    forall|i: int, j: int| 0 <= i < j < s.len() ==> text::text_lt(#[trigger] s[i], #[trigger] s[j])
}

/// The texts of a finite set, each once, in ascending order.
pub open spec fn sorted_texts(texts: Set<Seq<char>>) -> Seq<Seq<char>> {
    choose|s: Seq<Seq<char>>| ascending(s) && #[trigger] s.to_set() == texts
}

/// At most one ascending sequence holds a given set of texts.
pub proof fn lemma_ascending_unique(a: Seq<Seq<char>>, b: Seq<Seq<char>>)
    requires
        ascending(a),
        ascending(b),
        a.to_set() == b.to_set(),
    ensures
        a == b,
    decreases a.len(),
{
    if a.len() == 0 {
        if b.len() > 0 {
            assert(b.to_set().contains(b[0]));
            assert(a.to_set().contains(b[0]));
        }
        assert(a =~= b);
    } else {
        assert(a.to_set().contains(a[0]));
        assert(b.to_set().contains(a[0]));
        let k = choose|k: int| 0 <= k < b.len() && b[k] == a[0];
        assert(b.to_set().contains(b[0]));
        assert(a.to_set().contains(b[0]));
        let m = choose|m: int| 0 <= m < a.len() && a[m] == b[0];
        if k > 0 {
            assert(text::text_lt(b[0], b[k]));
            if m > 0 {
                assert(text::text_lt(a[0], a[m]));
                text::lemma_text_lt_asymmetric(a[0], b[0]);
            } else {
                text::lemma_text_lt_irreflexive(a[0]);
            }
        }
        assert(a[0] == b[0]);
        let x = a.drop_first();
        let y = b.drop_first();
        assert forall|i: int, j: int| 0 <= i < j < x.len() implies text::text_lt(
            #[trigger] x[i],
            #[trigger] x[j],
        ) by {
            assert(x[i] == a[i + 1] && x[j] == a[j + 1]);
        }
        assert forall|i: int, j: int| 0 <= i < j < y.len() implies text::text_lt(
            #[trigger] y[i],
            #[trigger] y[j],
        ) by {
            assert(y[i] == b[i + 1] && y[j] == b[j + 1]);
        }
        assert forall|t: Seq<char>| x.to_set().contains(t) implies y.to_set().contains(t) by {
            let i = choose|i: int| 0 <= i < x.len() && x[i] == t;
            assert(a[i + 1] == t);
            assert(text::text_lt(a[0], a[i + 1]));
            text::lemma_text_lt_irreflexive(a[0]);
            assert(a.to_set().contains(t));
            assert(b.to_set().contains(t));
            let j = choose|j: int| 0 <= j < b.len() && b[j] == t;
            assert(y[j - 1] == t);
        }
        assert forall|t: Seq<char>| y.to_set().contains(t) implies x.to_set().contains(t) by {
            let i = choose|i: int| 0 <= i < y.len() && y[i] == t;
            assert(b[i + 1] == t);
            assert(text::text_lt(b[0], b[i + 1]));
            text::lemma_text_lt_irreflexive(b[0]);
            assert(b.to_set().contains(t));
            assert(a.to_set().contains(t));
            let j = choose|j: int| 0 <= j < a.len() && a[j] == t;
            assert(x[j - 1] == t);
        }
        assert(x.to_set() =~= y.to_set());
        lemma_ascending_unique(x, y);
        assert(a =~= seq![a[0]] + x);
        assert(b =~= seq![b[0]] + y);
    }
}

spec fn insert_text(s: Seq<Seq<char>>, t: Seq<char>) -> Seq<Seq<char>>
    decreases s.len(),
{
    if s.len() == 0 || text::text_lt(t, s[0]) {
        seq![t] + s
    } else {
        seq![s[0]] + insert_text(s.drop_first(), t)
    }
}

proof fn lemma_insert_text(s: Seq<Seq<char>>, t: Seq<char>)
    requires
        ascending(s),
        !s.contains(t),
    ensures
        ascending(insert_text(s, t)),
        insert_text(s, t).to_set() == s.to_set().insert(t),
    decreases s.len(),
{
    let r = insert_text(s, t);
    if s.len() == 0 || text::text_lt(t, s[0]) {
        assert(r[0] == t);
        assert(forall|i: int| 0 <= i < s.len() ==> r[i + 1] == s[i]);
        assert forall|i: int, j: int| 0 <= i < j < r.len() implies text::text_lt(
            #[trigger] r[i],
            #[trigger] r[j],
        ) by {
            if i == 0 {
                if j > 1 {
                    text::lemma_text_lt_transitive(t, s[0], s[j - 1]);
                }
            } else {
                assert(text::text_lt(s[i - 1], s[j - 1]));
            }
        }
        assert forall|x: Seq<char>| r.to_set().contains(x) == s.to_set().insert(t).contains(x) by {
            if r.contains(x) {
                let i = r.index_of(x);
                if i > 0 {
                    assert(s[i - 1] == x);
                }
            }
            if s.contains(x) {
                let i = s.index_of(x);
                assert(r[i + 1] == x);
            }
        }
    } else {
        let rest = s.drop_first();
        assert forall|i: int, j: int| 0 <= i < j < rest.len() implies text::text_lt(
            #[trigger] rest[i],
            #[trigger] rest[j],
        ) by {
            assert(rest[i] == s[i + 1] && rest[j] == s[j + 1]);
        }
        if rest.contains(t) {
            let i = rest.index_of(t);
            assert(s[i + 1] == t);
        }
        lemma_insert_text(rest, t);
        let tail = insert_text(rest, t);
        assert(s.contains(s[0]));
        text::lemma_text_lt_total(t, s[0]);
        assert(forall|i: int| 0 <= i < tail.len() ==> r[i + 1] == tail[i]);
        assert forall|i: int, j: int| 0 <= i < j < r.len() implies text::text_lt(
            #[trigger] r[i],
            #[trigger] r[j],
        ) by {
            if i == 0 {
                assert(tail.to_set().contains(tail[j - 1]));
                if tail[j - 1] != t {
                    assert(rest.to_set().contains(tail[j - 1]));
                    let k = rest.index_of(tail[j - 1]);
                    assert(text::text_lt(s[0], s[k + 1]));
                }
            } else {
                assert(text::text_lt(tail[i - 1], tail[j - 1]));
            }
        }
        assert forall|x: Seq<char>| r.to_set().contains(x) == s.to_set().insert(t).contains(x) by {
            if r.contains(x) {
                let i = r.index_of(x);
                if i > 0 {
                    assert(tail.to_set().contains(tail[i - 1]));
                    if x != t {
                        assert(rest.to_set().contains(x));
                        let k = rest.index_of(x);
                        assert(s[k + 1] == x);
                    }
                }
            }
            if s.contains(x) || x == t {
                if x == s[0] {
                    assert(r[0] == x);
                } else {
                    if x != t {
                        let k = s.index_of(x);
                        assert(rest[k - 1] == x);
                        assert(rest.to_set().contains(x));
                    }
                    assert(tail.to_set().contains(x));
                    let k = tail.index_of(x);
                    assert(r[k + 1] == x);
                }
            }
        }
    }
    assert(r.to_set() =~= s.to_set().insert(t));
}

/// Every finite set of texts has its sorted list.
pub proof fn lemma_sorted_texts(texts: Set<Seq<char>>)
    requires
        texts.finite(),
    ensures
        ascending(sorted_texts(texts)),
        sorted_texts(texts).to_set() == texts,
    decreases texts.len(),
{
    if texts.len() == 0 {
        let none = Seq::<Seq<char>>::empty();
        assert(none.to_set() =~= texts);
        assert(ascending(none) && none.to_set() == texts);
    } else {
        let t = texts.choose();
        let rest = texts.remove(t);
        lemma_sorted_texts(rest);
        let s = sorted_texts(rest);
        assert(!s.to_set().contains(t));
        lemma_insert_text(s, t);
        assert(rest.insert(t) =~= texts);
        assert(ascending(insert_text(s, t)) && insert_text(s, t).to_set() == texts);
    }
}

/// An ascending sequence is the sorted list of its own set.
pub proof fn lemma_ascending_is_sorted(s: Seq<Seq<char>>)
    requires
        ascending(s),
    ensures
        sorted_texts(s.to_set()) == s,
{
    let t = sorted_texts(s.to_set());
    assert(ascending(s) && s.to_set() == s.to_set());
    lemma_ascending_unique(t, s);
}

/// Whether `kept` are the values of `all` at ascending positions.
pub open spec fn picks<T>(all: Seq<T>, kept: Seq<T>, positions: Seq<int>) -> bool {
    &&& positions.len() == kept.len()
    &&& forall|i: int|
        0 <= i < kept.len() ==> 0 <= #[trigger] positions[i] < all.len() && kept[i]
            == all[positions[i]]
    &&& forall|i: int, j: int|
        #![trigger positions[i], positions[j]]
        0 <= i < j < positions.len() ==> positions[i] < positions[j]
}

/// Where the values that a filter keeps stand: they keep their order, and every
/// one that passes is there.
pub proof fn lemma_filter_positions<T>(s: Seq<T>, f: spec_fn(T) -> bool) -> (positions: Seq<int>)
    ensures
        picks(s, s.filter(f), positions),
        forall|i: int| 0 <= i < positions.len() ==> f(s[#[trigger] positions[i]]),
        forall|k: int|
            #![trigger s[k]]
            0 <= k < s.len() && f(s[k]) ==> positions.contains(k) && s.filter(f).contains(s[k]),
        forall|i: int|
            0 <= i < s.filter(f).len() ==> f(#[trigger] s.filter(f)[i]) && s.contains(
                s.filter(f)[i],
            ),
    decreases s.len(),
{
    reveal(Seq::filter);
    if s.len() == 0 {
        Seq::empty()
    } else {
        let n = s.len() - 1;
        let rest = s.drop_last();
        let before = lemma_filter_positions(rest, f);
        let kept = s.filter(f);
        let positions = if f(s[n]) {
            before.push(n)
        } else {
            before
        };
        assert forall|i: int| 0 <= i < kept.len() implies 0 <= #[trigger] positions[i] < s.len()
            && kept[i] == s[positions[i]] && f(s[positions[i]]) by {
            if i < before.len() {
                assert(positions[i] == before[i]);
                assert(rest[before[i]] == s[before[i]]);
            }
        }
        assert forall|i: int| 0 <= i < kept.len() implies f(#[trigger] kept[i]) && s.contains(
            kept[i],
        ) by {
            assert(kept[i] == s[positions[i]]);
        }
        assert forall|k: int|
            #![trigger s[k]]
            0 <= k < s.len() && f(s[k]) implies positions.contains(k) && kept.contains(s[k]) by {
            if k < n {
                assert(rest[k] == s[k]);
                let i = before.index_of(k);
                assert(positions[i] == k);
                assert(kept[i] == s[k]);
            } else {
                assert(positions[before.len() as int] == n);
                assert(kept[before.len() as int] == s[n]);
            }
        }
        assert forall|i: int, j: int|
            #![trigger positions[i], positions[j]]
            0 <= i < j < positions.len() implies positions[i] < positions[j] by {
            assert(positions[i] == before[i]);
            if j < before.len() {
                assert(positions[j] == before[j]);
            }
        }
        positions
    }
}

/// A filter keeps a value that passes as often as it is there.
pub proof fn lemma_filter_counts<T>(s: Seq<T>, f: spec_fn(T) -> bool, x: T)
    ensures
        s.filter(f).to_multiset().count(x) == (if f(x) {
            s.to_multiset().count(x)
        } else {
            0
        }),
    decreases s.len(),
{
    broadcast use vstd::seq_lib::group_to_multiset_ensures;

    reveal(Seq::filter);
    if s.len() > 0 {
        let rest = s.drop_last();
        lemma_filter_counts(rest, f, x);
        assert(s =~= rest.push(s.last()));
    }
}

} // verus!
