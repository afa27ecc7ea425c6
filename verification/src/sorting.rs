//! What sorting and collapsing a sequence mean, and what follows from it.
//!
//! An order is given as a relation `before`: `before(a, b)` says that `a`
//! must stand in front of `b`. Elements that neither stand before the other
//! rank alike and keep the order they came in.
use vstd::prelude::*;

verus! {

/// `before` is a strict order in which ranking alike is transitive.
pub open spec fn is_ranking<T>(before: spec_fn(T, T) -> bool) -> bool {
    &&& forall|a: T, b: T| #[trigger] before(a, b) ==> !before(b, a)
    &&& forall|a: T, b: T, c: T|
        !#[trigger] before(a, b) && !#[trigger] before(b, c) ==> !before(a, c)
}

/// No element of `s` stands behind one that must come after it.
pub open spec fn is_sorted<T>(s: Seq<T>, before: spec_fn(T, T) -> bool) -> bool {
    forall|i: int, j: int| 0 <= i < j < s.len() ==> !before(s[j], s[i])
}

/// The sorted sequence `t` with `x` added behind every element that does not
/// have to come after it.
pub open spec fn insert_sorted<T>(t: Seq<T>, x: T, before: spec_fn(T, T) -> bool) -> Seq<T>
    decreases t.len(),
{
    if t.len() > 0 && before(x, t.last()) {
        insert_sorted(t.drop_last(), x, before).push(t.last())
    } else {
        t.push(x)
    }
}

/// The elements of `s` in sorted order, those that rank alike in the order in
/// which they stand in `s`.
pub open spec fn stable_sort<T>(s: Seq<T>, before: spec_fn(T, T) -> bool) -> Seq<T>
    decreases s.len(),
{
    if s.len() == 0 {
        s
    } else {
        insert_sorted(stable_sort(s.drop_last(), before), s.last(), before)
    }
}

/// `s` with every run of equal neighbours reduced to its first element.
pub open spec fn collapse<T>(s: Seq<T>) -> Seq<T>
    decreases s.len(),
{
    if s.len() == 0 {
        s
    } else {
        let front = collapse(s.drop_last());
        if front.len() > 0 && front.last() == s.last() {
            front
        } else {
            front.push(s.last())
        }
    }
}

/// No two neighbours in `s` are equal.
pub open spec fn no_equal_neighbours<T>(s: Seq<T>) -> bool {
    forall|i: int, j: int| 0 <= i && j == i + 1 && j < s.len() ==> s[i] != s[j]
}

/// Inserting adds one element and loses none.
pub proof fn lemma_insert_multiset<T>(t: Seq<T>, x: T, before: spec_fn(T, T) -> bool)
    ensures
        insert_sorted(t, x, before).to_multiset() == t.to_multiset().insert(x),
        insert_sorted(t, x, before).len() == t.len() + 1,
    decreases t.len(),
{
    broadcast use vstd::seq_lib::group_to_multiset_ensures;

    if t.len() > 0 && before(x, t.last()) {
        lemma_insert_multiset(t.drop_last(), x, before);
        assert(t.drop_last().push(t.last()) =~= t);
        assert(insert_sorted(t, x, before).to_multiset() =~= t.to_multiset().insert(x));
    }
}

/// Sorting rearranges: every element occurs as often as before.
pub proof fn lemma_sort_multiset<T>(s: Seq<T>, before: spec_fn(T, T) -> bool)
    ensures
        stable_sort(s, before).to_multiset() == s.to_multiset(),
        stable_sort(s, before).len() == s.len(),
    decreases s.len(),
{
    broadcast use vstd::seq_lib::group_to_multiset_ensures;

    if s.len() > 0 {
        lemma_sort_multiset(s.drop_last(), before);
        lemma_insert_multiset(stable_sort(s.drop_last(), before), s.last(), before);
        assert(s.drop_last().push(s.last()) =~= s);
    }
}

/// Two sequences with the same elements, each as often, have the same set of
/// elements.
pub proof fn lemma_multiset_set<T>(a: Seq<T>, b: Seq<T>)
    requires
        a.to_multiset() == b.to_multiset(),
    ensures
        a.to_set() == b.to_set(),
{
    broadcast use vstd::seq_lib::group_to_multiset_ensures;

    assert forall|x: T| a.to_set().contains(x) == b.to_set().contains(x) by {
        assert(a.contains(x) == (a.to_multiset().count(x) > 0));
        assert(b.contains(x) == (b.to_multiset().count(x) > 0));
    }
    assert(a.to_set() =~= b.to_set());
}

/// Inserting into a sorted sequence leaves it sorted.
pub proof fn lemma_insert_sorted<T>(t: Seq<T>, x: T, before: spec_fn(T, T) -> bool)
    requires
        is_ranking(before),
        is_sorted(t, before),
    ensures
        is_sorted(insert_sorted(t, x, before), before),
        forall|e: T| #[trigger]
            insert_sorted(t, x, before).contains(e) ==> e == x || t.contains(e),
    decreases t.len(),
{
    let r = insert_sorted(t, x, before);
    if t.len() > 0 && before(x, t.last()) {
        let front = insert_sorted(t.drop_last(), x, before);
        lemma_insert_sorted(t.drop_last(), x, before);
        assert forall|i: int, j: int| 0 <= i < j < r.len() implies !before(r[j], r[i]) by {
            if j == r.len() - 1 {
                assert(front.contains(front[i]));
                if front[i] != x {
                    let k = choose|k: int| 0 <= k < t.drop_last().len() && t.drop_last()[k] == front[i];
                    assert(!before(t[t.len() - 1], t[k]));
                }
            } else {
                assert(r[i] == front[i] && r[j] == front[j]);
            }
        }
        assert forall|e: T| #[trigger] r.contains(e) implies e == x || t.contains(e) by {
            let k = choose|k: int| 0 <= k < r.len() && r[k] == e;
            if k == r.len() - 1 {
                assert(t[t.len() - 1] == e);
            } else {
                assert(front.contains(front[k]));
                if e != x {
                    let m = choose|m: int| 0 <= m < t.drop_last().len() && t.drop_last()[m] == e;
                    assert(t[m] == e);
                }
            }
        }
    } else {
        assert forall|i: int, j: int| 0 <= i < j < r.len() implies !before(r[j], r[i]) by {
            if j == r.len() - 1 {
                if i < t.len() - 1 {
                    assert(!before(t[t.len() - 1], t[i]));
                }
            }
        }
        assert forall|e: T| #[trigger] r.contains(e) implies e == x || t.contains(e) by {
            let k = choose|k: int| 0 <= k < r.len() && r[k] == e;
            if k < t.len() {
                assert(t[k] == e);
            }
        }
    }
}

/// What sorting gives is sorted.
pub proof fn lemma_sort_sorted<T>(s: Seq<T>, before: spec_fn(T, T) -> bool)
    requires
        is_ranking(before),
    ensures
        is_sorted(stable_sort(s, before), before),
    decreases s.len(),
{
    if s.len() > 0 {
        lemma_sort_sorted(s.drop_last(), before);
        lemma_insert_sorted(stable_sort(s.drop_last(), before), s.last(), before);
    }
}

/// Sorting a sorted sequence changes nothing.
pub proof fn lemma_sort_of_sorted<T>(s: Seq<T>, before: spec_fn(T, T) -> bool)
    requires
        is_sorted(s, before),
    ensures
        stable_sort(s, before) == s,
    decreases s.len(),
{
    if s.len() > 0 {
        let front = s.drop_last();
        assert(is_sorted(front, before)) by {
            assert forall|i: int, j: int| 0 <= i < j < front.len() implies !before(
                front[j],
                front[i],
            ) by {
                assert(!before(s[j], s[i]));
            }
        }
        lemma_sort_of_sorted(front, before);
        if front.len() > 0 {
            assert(!before(s[s.len() - 1], s[front.len() - 1]));
        }
        assert(front.push(s.last()) =~= s);
    }
}

/// Collapsing keeps every element at least once and adds none; it shortens
/// or keeps the length.
pub proof fn lemma_collapse_set<T>(s: Seq<T>)
    ensures
        collapse(s).to_set() == s.to_set(),
        collapse(s).len() <= s.len(),
        s.len() > 0 ==> collapse(s).len() > 0 && collapse(s).last() == s.last(),
    decreases s.len(),
{
    if s.len() > 0 {
        let front = collapse(s.drop_last());
        lemma_collapse_set(s.drop_last());
        let c = collapse(s);
        assert forall|x: T| c.to_set().contains(x) == s.to_set().contains(x) by {
            if c.contains(x) {
                let k = choose|k: int| 0 <= k < c.len() && c[k] == x;
                if k < front.len() {
                    assert(front.contains(x));
                    assert(s.drop_last().to_set().contains(x));
                    let m = choose|m: int| 0 <= m < s.drop_last().len() && s.drop_last()[m] == x;
                    assert(s[m] == x);
                } else {
                    assert(s[s.len() - 1] == x);
                }
            }
            if s.contains(x) {
                let k = choose|k: int| 0 <= k < s.len() && s[k] == x;
                if k < s.len() - 1 {
                    assert(s.drop_last()[k] == x);
                    assert(s.drop_last().contains(x));
                    assert(front.to_set().contains(x));
                    let m = choose|m: int| 0 <= m < front.len() && front[m] == x;
                    assert(c[m] == x);
                } else {
                    assert(c[c.len() - 1] == x);
                }
            }
        }
        assert(c.to_set() =~= s.to_set());
    } else {
        assert(collapse(s).to_set() =~= s.to_set());
    }
}

/// After collapsing, no two neighbours are equal.
pub proof fn lemma_collapse_neighbours<T>(s: Seq<T>)
    ensures
        no_equal_neighbours(collapse(s)),
    decreases s.len(),
{
    if s.len() > 0 {
        lemma_collapse_neighbours(s.drop_last());
    }
}

/// Collapsing a sequence without equal neighbours changes nothing.
pub proof fn lemma_collapse_of_collapsed<T>(s: Seq<T>)
    requires
        no_equal_neighbours(s),
    ensures
        collapse(s) == s,
    decreases s.len(),
{
    if s.len() > 0 {
        let front = s.drop_last();
        assert(no_equal_neighbours(front)) by {
            assert forall|i: int, j: int| 0 <= i && j == i + 1 && j < front.len() implies front[i]
                != front[j] by {
                assert(s[i] != s[j]);
            }
        }
        lemma_collapse_of_collapsed(front);
        if front.len() > 0 {
            assert(s[s.len() - 2] != s[s.len() - 1]);
        }
        assert(front.push(s.last()) =~= s);
    }
}

/// Collapsing a sorted sequence leaves it sorted.
pub proof fn lemma_collapse_sorted<T>(s: Seq<T>, before: spec_fn(T, T) -> bool)
    requires
        is_sorted(s, before),
    ensures
        is_sorted(collapse(s), before),
    decreases s.len(),
{
    if s.len() > 0 {
        let front = s.drop_last();
        assert(is_sorted(front, before)) by {
            assert forall|i: int, j: int| 0 <= i < j < front.len() implies !before(
                front[j],
                front[i],
            ) by {
                assert(!before(s[j], s[i]));
            }
        }
        lemma_collapse_sorted(front, before);
        lemma_collapse_set(front);
        let cf = collapse(front);
        let c = collapse(s);
        assert forall|i: int, j: int| 0 <= i < j < c.len() implies !before(c[j], c[i]) by {
            if j < cf.len() {
                assert(!before(cf[j], cf[i]));
            } else {
                assert(cf.contains(cf[i]));
                assert(cf.to_set().contains(cf[i]));
                assert(front.contains(cf[i]));
                let m = choose|m: int| 0 <= m < front.len() && front[m] == cf[i];
                assert(!before(s[s.len() - 1], s[m]));
            }
        }
    }
}

/// A sequence of copies of one element collapses to that element.
pub proof fn lemma_collapse_of_copies<T>(s: Seq<T>, x: T)
    requires
        s.len() > 0,
        forall|i: int| 0 <= i < s.len() ==> #[trigger] s[i] == x,
    ensures
        collapse(s) == seq![x],
    decreases s.len(),
{
    if s.len() > 1 {
        lemma_collapse_of_copies(s.drop_last(), x);
    } else {
        assert(collapse(s.drop_last()) =~= Seq::<T>::empty());
        assert(collapse(s) =~= seq![x]);
    }
}

/// Every element of `s` stands before every later one.
pub open spec fn is_ascending<T>(s: Seq<T>, before: spec_fn(T, T) -> bool) -> bool {
    forall|i: int, j: int| 0 <= i < j < s.len() ==> before(s[i], s[j])
}

/// Where every element stands before its right neighbour, it stands before
/// every later element.
pub proof fn lemma_ascending<T>(s: Seq<T>, before: spec_fn(T, T) -> bool)
    requires
        is_ranking(before),
        forall|i: int, j: int| 0 <= i && j == i + 1 && j < s.len() ==> before(s[i], s[j]),
    ensures
        is_ascending(s, before),
    decreases s.len(),
{
    if s.len() > 1 {
        let front = s.drop_last();
        assert forall|i: int, j: int| 0 <= i && j == i + 1 && j < front.len() implies before(
            front[i],
            front[j],
        ) by {
            assert(before(s[i], s[j]));
        }
        lemma_ascending(front, before);
        let last = s.len() - 1;
        assert forall|i: int, j: int| 0 <= i < j < s.len() implies before(s[i], s[j]) by {
            if j < last {
                assert(before(front[i], front[j]));
            } else if i == last - 1 {
                assert(before(s[i], s[j]));
            } else {
                assert(before(front[i], front[last - 1]));
                assert(before(s[last - 1], s[last]));
                let a = s[i];
                let b = s[last - 1];
                let c = s[last];
                if !before(a, c) {
                    assert(!before(c, b));
                    assert(!before(a, b));
                }
            }
        }
    }
}

/// What a filter leaves: members of `s` that meet `pred`, every one of
/// them, and in ascending order where `s` is.
pub proof fn lemma_filter_ascending<T>(
    s: Seq<T>,
    pred: spec_fn(T) -> bool,
    before: spec_fn(T, T) -> bool,
)
    ensures
        forall|i: int|
            0 <= i < s.filter(pred).len() ==> s.contains(#[trigger] s.filter(pred)[i]) && pred(
                s.filter(pred)[i],
            ),
        forall|k: int| 0 <= k < s.len() && pred(s[k]) ==> s.filter(pred).contains(#[trigger] s[k]),
        is_ascending(s, before) ==> is_ascending(s.filter(pred), before),
    decreases s.len(),
{
    reveal(Seq::filter);
    let out = s.filter(pred);
    if s.len() > 0 {
        let front = s.drop_last();
        let kept = front.filter(pred);
        lemma_filter_ascending(front, pred, before);
        assert forall|i: int| 0 <= i < out.len() implies s.contains(#[trigger] out[i]) && pred(
            out[i],
        ) by {
            if i < kept.len() {
                assert(out[i] == kept[i]);
                assert(front.contains(kept[i]));
                let m = choose|m: int| 0 <= m < front.len() && front[m] == kept[i];
                assert(s[m] == out[i]);
            } else {
                assert(out[i] == s[s.len() - 1]);
            }
        }
        assert forall|k: int| 0 <= k < s.len() && pred(s[k]) implies out.contains(
            #[trigger] s[k],
        ) by {
            if k < front.len() {
                assert(front[k] == s[k]);
                assert(kept.contains(front[k]));
                let m = choose|m: int| 0 <= m < kept.len() && kept[m] == s[k];
                assert(out[m] == s[k]);
            } else {
                assert(out[out.len() - 1] == s[k]);
            }
        }
        if is_ascending(s, before) {
            assert(is_ascending(front, before)) by {
                assert forall|i: int, j: int| 0 <= i < j < front.len() implies before(
                    front[i],
                    front[j],
                ) by {
                    assert(before(s[i], s[j]));
                }
            }
            assert forall|i: int, j: int| 0 <= i < j < out.len() implies before(out[i], out[j]) by {
                if j < kept.len() {
                    assert(before(kept[i], kept[j]));
                } else {
                    assert(out[i] == kept[i]);
                    assert(front.contains(kept[i]));
                    let m = choose|m: int| 0 <= m < front.len() && front[m] == kept[i];
                    assert(before(s[m], s[s.len() - 1]));
                }
            }
        }
    }
}

} // verus!
