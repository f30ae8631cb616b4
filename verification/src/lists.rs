//! Facts about filtering sequences, and sequences without repetitions.

use vstd::prelude::*;

verus! {

pub proof fn lemma_filter_step<T>(s: Seq<T>, p: spec_fn(T) -> bool, i: int)
    requires
        0 <= i < s.len(),
    ensures
        s.take(i + 1).filter(p) == if p(s[i]) {
            s.take(i).filter(p).push(s[i])
        } else {
            s.take(i).filter(p)
        },
{
    reveal(Seq::filter);
    assert(s.take(i + 1).drop_last() =~= s.take(i));
}

pub proof fn lemma_filter_ends<T>(s: Seq<T>, p: spec_fn(T) -> bool)
    ensures
        s.take(0).filter(p) == Seq::<T>::empty(),
        s.take(s.len() as int).filter(p) == s.filter(p),
{
    reveal(Seq::filter);
    assert(s.take(0) =~= seq![]);
    assert(s.take(s.len() as int) =~= s);
}

/// A filter leaves what it is meant to leave.
pub proof fn lemma_filter_keeps<T>(s: Seq<T>, p: spec_fn(T) -> bool, i: int)
    requires
        0 <= i < s.len(),
        p(s[i]),
    ensures
        s.filter(p).contains(s[i]),
    decreases s.len(),
{
    reveal(Seq::filter);
    let front = s.drop_last().filter(p);
    if i < s.len() - 1 {
        lemma_filter_keeps(s.drop_last(), p, i);
        let a = choose|a: int| 0 <= a < front.len() && front[a] == s[i];
        assert(s.filter(p)[a] == s[i]);
    } else {
        assert(s.filter(p).last() == s[i]);
    }
}

/// What a filter leaves stood in the sequence, in the same order.
pub proof fn lemma_filter_positions<T>(s: Seq<T>, p: spec_fn(T) -> bool)
    ensures
        s.filter(p).len() <= s.len(),
        forall|i: int, j: int|
            0 <= i < j < s.filter(p).len() ==> exists|a: int, b: int|
                0 <= a < b < s.len() && s[a] == #[trigger] s.filter(p)[i] && s[b]
                    == #[trigger] s.filter(p)[j],
        forall|i: int|
            0 <= i < s.filter(p).len() ==> p(#[trigger] s.filter(p)[i]) && exists|a: int|
                0 <= a < s.len() && s[a] == s.filter(p)[i],
    decreases s.len(),
{
    reveal(Seq::filter);
    if s.len() > 0 {
        let front = s.drop_last();
        lemma_filter_positions(front, p);
        let kept = front.filter(p);
        let r = s.filter(p);
        assert forall|i: int| 0 <= i < r.len() implies p(#[trigger] r[i]) && exists|a: int|
            0 <= a < s.len() && s[a] == r[i] by {
            if i < kept.len() {
                assert(r[i] == kept[i]);
                let a = choose|a: int| 0 <= a < front.len() && front[a] == kept[i];
                assert(s[a] == r[i]);
            } else {
                assert(s[s.len() - 1] == r[i]);
            }
        }
        assert forall|i: int, j: int| 0 <= i < j < r.len() implies exists|a: int, b: int|
            0 <= a < b < s.len() && s[a] == #[trigger] r[i] && s[b] == #[trigger] r[j] by {
            assert(r[i] == kept[i]);
            if j < kept.len() {
                assert(r[j] == kept[j]);
                let (a, b) = choose|a: int, b: int|
                    0 <= a < b < front.len() && front[a] == kept[i] && front[b] == kept[j];
                assert(s[a] == r[i] && s[b] == r[j]);
            } else {
                let a = choose|a: int| 0 <= a < front.len() && front[a] == kept[i];
                assert(s[a] == r[i] && s[s.len() - 1] == r[j]);
            }
        }
    }
}

/// Every item once, where it first occurs.
pub open spec fn first_seen<T>(s: Seq<T>) -> Seq<T>
    decreases s.len(),
{
    if s.len() == 0 {
        s
    } else {
        let before = first_seen(s.drop_last());
        if before.contains(s.last()) {
            before
        } else {
            before.push(s.last())
        }
    }
}

/// Leaving out repetitions keeps every item, once.
pub proof fn first_seen_keeps_each_item_once<T>(s: Seq<T>, x: T)
    ensures
        first_seen(s).contains(x) <==> s.contains(x),
        forall|i: int, j: int|
            0 <= i < j < first_seen(s).len() ==> #[trigger] first_seen(s)[i]
                != #[trigger] first_seen(s)[j],
    decreases s.len(),
{
    if s.len() > 0 {
        let front = s.drop_last();
        let before = first_seen(front);
        first_seen_keeps_each_item_once(front, x);
        if s.contains(x) {
            let i = choose|i: int| 0 <= i < s.len() && s[i] == x;
            if i < front.len() {
                assert(front[i] == x);
                let k = choose|k: int| 0 <= k < before.len() && before[k] == x;
                assert(first_seen(s)[k] == x);
            } else if !before.contains(x) {
                assert(first_seen(s)[before.len() as int] == x);
            }
        }
        if first_seen(s).contains(x) {
            let k = choose|k: int| 0 <= k < first_seen(s).len() && first_seen(s)[k] == x;
            if k < before.len() {
                assert(before[k] == x);
                let i = choose|i: int| 0 <= i < front.len() && front[i] == x;
                assert(s[i] == x);
            } else {
                assert(s[s.len() - 1] == x);
            }
        }
    }
}

/// Filtering keeps exactly the items that are picked.
pub proof fn filtering_keeps_what_is_picked<T>(s: Seq<T>, p: spec_fn(T) -> bool, x: T)
    ensures
        s.filter(p).contains(x) <==> s.contains(x) && p(x),
    decreases s.len(),
{
    reveal(Seq::filter);
    if s.len() > 0 {
        let front = s.drop_last();
        let before = front.filter(p);
        let after = s.filter(p);
        filtering_keeps_what_is_picked(front, p, x);
        if after.contains(x) {
            let k = choose|k: int| 0 <= k < after.len() && after[k] == x;
            if k < before.len() {
                assert(before[k] == x);
                let i = choose|i: int| 0 <= i < front.len() && front[i] == x;
                assert(s[i] == x);
            } else {
                assert(s[s.len() - 1] == x);
            }
        }
        if s.contains(x) && p(x) {
            let i = choose|i: int| 0 <= i < s.len() && s[i] == x;
            if i < front.len() {
                assert(front[i] == x);
                let k = choose|k: int| 0 <= k < before.len() && before[k] == x;
                assert(after[k] == x);
            } else {
                assert(after[before.len() as int] == x);
            }
        }
    }
}

} // verus!
