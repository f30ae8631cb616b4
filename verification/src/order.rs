//! A stable sort.

use vstd::prelude::*;

verus! {

/// `x` put behind everything that may stand before it.
pub open spec fn inserted<T>(s: Seq<T>, x: T, le: spec_fn(T, T) -> bool) -> Seq<T>
    decreases s.len(),
{
    if s.len() == 0 || le(s.last(), x) {
        s.push(x)
    } else {
        inserted(s.drop_last(), x, le).push(s.last())
    }
}

/// The items in the order of `le`; among items that `le` does not tell apart, the first stays
/// first.
pub open spec fn sorted<T>(s: Seq<T>, le: spec_fn(T, T) -> bool) -> Seq<T>
    decreases s.len(),
{
    if s.len() == 0 {
        s
    } else {
        inserted(sorted(s.drop_last(), le), s.last(), le)
    }
}

/// Any two items can be compared, and comparisons chain.
pub open spec fn is_order<T>(le: spec_fn(T, T) -> bool) -> bool {
    &&& forall|a: T, b: T| #[trigger] le(a, b) || le(b, a)
    &&& forall|a: T, b: T, c: T| #[trigger] le(a, b) && #[trigger] le(b, c) ==> le(a, c)
}

pub open spec fn is_sorted<T>(s: Seq<T>, le: spec_fn(T, T) -> bool) -> bool {
    forall|i: int, j: int| 0 <= i < j < s.len() ==> le(#[trigger] s[i], #[trigger] s[j])
}

/// Whether `le` tells two items apart.
pub open spec fn tied<T>(le: spec_fn(T, T) -> bool, a: T, b: T) -> bool {
    le(a, b) && le(b, a)
}

pub proof fn lemma_inserted_at<T>(s: Seq<T>, x: T, le: spec_fn(T, T) -> bool, at: int)
    requires
        0 <= at <= s.len(),
        at == 0 || le(s[at - 1], x),
        forall|i: int| at <= i < s.len() ==> !le(#[trigger] s[i], x),
    ensures
        inserted(s, x, le) == s.insert(at, x),
    decreases s.len(),
{
    if s.len() > 0 && at < s.len() {
        assert(!le(s[s.len() - 1], x));
        lemma_inserted_at(s.drop_last(), x, le, at);
        assert(inserted(s, x, le) =~= s.insert(at, x));
    } else {
        assert(s.insert(at, x) =~= s.push(x));
    }
}

/// Sorts items by a comparison, keeping the order of items that compare the same.
pub fn sort_by<T, F: Fn(&T, &T) -> bool>(
    items: Vec<T>,
    before: F,
    Ghost(le): Ghost<spec_fn(T, T) -> bool>,
) -> (r: Vec<T>)
    requires
        forall|a: &T, b: &T| #[trigger] call_requires(before, (a, b)),
        forall|a: &T, b: &T, r: bool| #[trigger]
            call_ensures(before, (a, b), r) ==> r == le(*a, *b),
    ensures
        r@ == sorted(items@, le),
{
    let ghost all = items@;
    let mut out: Vec<T> = Vec::new();
    proof {
        assert(all.take(0) =~= seq![]);
    }
    for x in it: items
        invariant
            it.seq() == all,
            out@ == sorted(all.take(it.index() as int), le),
            forall|a: &T, b: &T| #[trigger] call_requires(before, (a, b)),
            forall|a: &T, b: &T, r: bool| #[trigger]
                call_ensures(before, (a, b), r) ==> r == le(*a, *b),
    {
        let mut at: usize = out.len();
        while at > 0 && !before(&out[at - 1], &x)
            invariant
                at <= out@.len(),
                forall|i: int| at <= i < out@.len() ==> !le(#[trigger] out@[i], x),
                forall|a: &T, b: &T| #[trigger] call_requires(before, (a, b)),
                forall|a: &T, b: &T, r: bool| #[trigger]
                    call_ensures(before, (a, b), r) ==> r == le(*a, *b),
            decreases at,
        {
            at -= 1;
        }
        proof {
            let n = it.index() as int;
            assert(all.take(n + 1).drop_last() =~= all.take(n));
            lemma_inserted_at(out@, x, le, at as int);
        }
        out.insert(at, x);
    }
    assert(all.take(all.len() as int) =~= all);
    out
}

proof fn lemma_inserted_multiset<T>(s: Seq<T>, x: T, le: spec_fn(T, T) -> bool)
    ensures
        inserted(s, x, le).to_multiset() == s.to_multiset().insert(x),
        inserted(s, x, le).len() == s.len() + 1,
    decreases s.len(),
{
    broadcast use vstd::seq_lib::group_to_multiset_ensures;

    if s.len() == 0 || le(s.last(), x) {
    } else {
        lemma_inserted_multiset(s.drop_last(), x, le);
        assert(s.drop_last().push(s.last()) =~= s);
        assert(inserted(s, x, le).to_multiset() =~= s.to_multiset().insert(x));
    }
}

/// Sorting neither adds nor loses an item.
pub proof fn sorting_keeps_every_item<T>(s: Seq<T>, le: spec_fn(T, T) -> bool)
    ensures
        sorted(s, le).to_multiset() == s.to_multiset(),
        sorted(s, le).len() == s.len(),
    decreases s.len(),
{
    broadcast use vstd::seq_lib::group_to_multiset_ensures;

    if s.len() > 0 {
        sorting_keeps_every_item(s.drop_last(), le);
        lemma_inserted_multiset(sorted(s.drop_last(), le), s.last(), le);
        assert(s.drop_last().push(s.last()) =~= s);
    }
}

proof fn lemma_inserted_sorted<T>(s: Seq<T>, x: T, le: spec_fn(T, T) -> bool)
    requires
        is_order(le),
        is_sorted(s, le),
    ensures
        is_sorted(inserted(s, x, le), le),
        forall|i: int|
            0 <= i < inserted(s, x, le).len() ==> #[trigger] inserted(s, x, le)[i] == x || exists|
                j: int,
            |
                0 <= j < s.len() && s[j] == inserted(s, x, le)[i],
    decreases s.len(),
{
    let r = inserted(s, x, le);
    if s.len() == 0 {
    } else if le(s.last(), x) {
        assert forall|i: int, j: int| 0 <= i < j < r.len() implies le(#[trigger] r[i], #[trigger] r[j]) by {
            if j == s.len() {
                assert(le(s[i], s.last()) || i == s.len() - 1);
            }
        }
    } else {
        let front = s.drop_last();
        assert forall|i: int, j: int| 0 <= i < j < front.len() implies le(
            #[trigger] front[i],
            #[trigger] front[j],
        ) by {
            assert(front[i] == s[i] && front[j] == s[j]);
        }
        lemma_inserted_sorted(front, x, le);
        let rest = inserted(front, x, le);
        assert(le(x, s.last()));
        assert forall|i: int, j: int| 0 <= i < j < r.len() implies le(#[trigger] r[i], #[trigger] r[j]) by {
            if j < rest.len() {
                assert(rest[i] == r[i] && rest[j] == r[j]);
            } else if rest[i] != x {
                let k = choose|k: int| 0 <= k < front.len() && front[k] == rest[i];
                assert(s[k] == rest[i] && le(s[k], s[s.len() - 1]));
            }
        }
        assert forall|i: int| 0 <= i < r.len() implies #[trigger] r[i] == x || exists|j: int|
            0 <= j < s.len() && s[j] == r[i] by {
            if i < rest.len() {
                assert(r[i] == rest[i]);
                if rest[i] != x {
                    let k = choose|k: int| 0 <= k < front.len() && front[k] == rest[i];
                    assert(s[k] == r[i]);
                }
            } else {
                assert(s[s.len() - 1] == r[i]);
            }
        }
    }
}

/// Sorting puts the items in order.
pub proof fn sorting_sorts<T>(s: Seq<T>, le: spec_fn(T, T) -> bool)
    requires
        is_order(le),
    ensures
        is_sorted(sorted(s, le), le),
    decreases s.len(),
{
    if s.len() > 0 {
        sorting_sorts(s.drop_last(), le);
        lemma_inserted_sorted(sorted(s.drop_last(), le), s.last(), le);
    }
}

proof fn lemma_inserted_tied<T>(s: Seq<T>, x: T, le: spec_fn(T, T) -> bool, a: T)
    requires
        is_order(le),
        is_sorted(s, le),
    ensures
        inserted(s, x, le).filter(|y: T| tied(le, a, y)) == s.push(x).filter(|y: T| tied(le, a, y)),
    decreases s.len(),
{
    reveal(Seq::filter);
    let p = |y: T| tied(le, a, y);
    if s.len() == 0 || le(s.last(), x) {
    } else {
        let front = s.drop_last();
        let last = s.last();
        assert forall|i: int, j: int| 0 <= i < j < front.len() implies le(
            #[trigger] front[i],
            #[trigger] front[j],
        ) by {
            assert(front[i] == s[i] && front[j] == s[j]);
        }
        lemma_inserted_tied(front, x, le, a);
        assert(front.push(x).drop_last() =~= front);
        assert(s.push(x).drop_last() =~= s);
        assert(inserted(s, x, le).drop_last() =~= inserted(front, x, le));
        // The two cannot both be tied with `a`, so they do not swap places among those that are.
        assert(!(p(x) && p(last)));
        let kept = front.filter(p);
        assert(front.push(x).filter(p) == if p(x) { kept.push(x) } else { kept });
        assert(s.filter(p) == if p(last) { kept.push(last) } else { kept });
        assert(s.push(x).filter(p) == if p(x) { s.filter(p).push(x) } else { s.filter(p) });
        assert(inserted(s, x, le).filter(p) == if p(last) {
            front.push(x).filter(p).push(last)
        } else {
            front.push(x).filter(p)
        });
    }
}

/// Items that the order does not tell apart stay in the order in which they came.
pub proof fn sorting_is_stable<T>(s: Seq<T>, le: spec_fn(T, T) -> bool, a: T)
    requires
        is_order(le),
    ensures
        sorted(s, le).filter(|y: T| tied(le, a, y)) == s.filter(|y: T| tied(le, a, y)),
    decreases s.len(),
{
    reveal(Seq::filter);
    if s.len() > 0 {
        let front = sorted(s.drop_last(), le);
        sorting_sorts(s.drop_last(), le);
        sorting_is_stable(s.drop_last(), le, a);
        lemma_inserted_tied(front, s.last(), le, a);
        assert(front.push(s.last()).drop_last() =~= front);
    }
}

proof fn lemma_inserted_map<A, B>(
    s: Seq<A>,
    x: A,
    le: spec_fn(A, A) -> bool,
    f: spec_fn(A) -> B,
    rel: spec_fn(B, B) -> bool,
)
    requires
        forall|a: A, b: A| #[trigger] le(a, b) == rel(f(a), f(b)),
    ensures
        inserted(s, x, le).map_values(f) == inserted(s.map_values(f), f(x), rel),
    decreases s.len(),
{
    if s.len() == 0 {
        assert(s.push(x).map_values(f) =~= s.map_values(f).push(f(x)));
    } else {
        assert(s.map_values(f).last() == f(s.last()));
        assert(le(s.last(), x) == rel(f(s.last()), f(x)));
        if le(s.last(), x) {
            assert(s.push(x).map_values(f) =~= s.map_values(f).push(f(x)));
        } else {
            lemma_inserted_map(s.drop_last(), x, le, f, rel);
            assert(s.map_values(f).drop_last() =~= s.drop_last().map_values(f));
            assert(inserted(s, x, le).map_values(f) =~= inserted(s.drop_last(), x, le).map_values(
                f,
            ).push(f(s.last())));
        }
    }
}

/// Sorting by what a function says of the items, and taking what it says of them, can be done in
/// either order.
pub proof fn sorting_a_view<A, B>(
    s: Seq<A>,
    le: spec_fn(A, A) -> bool,
    f: spec_fn(A) -> B,
    rel: spec_fn(B, B) -> bool,
)
    requires
        forall|a: A, b: A| #[trigger] le(a, b) == rel(f(a), f(b)),
    ensures
        sorted(s, le).map_values(f) == sorted(s.map_values(f), rel),
    decreases s.len(),
{
    if s.len() == 0 {
        assert(sorted(s, le).map_values(f) =~= sorted(s.map_values(f), rel));
    } else {
        sorting_a_view(s.drop_last(), le, f, rel);
        lemma_inserted_map(sorted(s.drop_last(), le), s.last(), le, f, rel);
        assert(s.map_values(f).drop_last() =~= s.drop_last().map_values(f));
    }
}

/// Sorting neither adds nor loses an item.
pub proof fn sorting_holds_the_same_items<T>(s: Seq<T>, le: spec_fn(T, T) -> bool, x: T)
    ensures
        sorted(s, le).contains(x) <==> s.contains(x),
        sorted(s, le).len() == s.len(),
{
    broadcast use vstd::seq_lib::group_to_multiset_ensures;

    sorting_keeps_every_item(s, le);
    vstd::seq_lib::to_multiset_contains(s, x);
    vstd::seq_lib::to_multiset_contains(sorted(s, le), x);
    assert(sorted(s, le).to_multiset().len() == s.to_multiset().len());
}

} // verus!
