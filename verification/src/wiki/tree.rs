//! The order of the wiki's pages: every page before the pages under it, siblings by their order
//! and then their title.

use vstd::prelude::*;

use crate::order;
use crate::text;

verus! {

/// What decides where a page stands.
pub ghost struct Key {
    pub order: int,
    pub title: Seq<char>,
    pub slug: Seq<char>,
}

// ---------------------------------------------------------------------------------------------
// Parents
// ---------------------------------------------------------------------------------------------

/// The position of the last slash, or -1.
pub open spec fn last_slash(s: Seq<char>) -> int
    decreases s.len(),
{
    if s.len() == 0 {
        -1
    } else if s.last() == '/' {
        s.len() - 1
    } else {
        last_slash(s.drop_last())
    }
}

/// The slug of the page above; the root has none.
pub open spec fn parent_of(slug: Seq<char>) -> Option<Seq<char>> {
    if slug.len() == 0 {
        None
    } else if last_slash(slug) < 0 {
        Some(seq![])
    } else {
        Some(slug.take(last_slash(slug)))
    }
}

proof fn lemma_last_slash(s: Seq<char>)
    ensures
        -1 <= last_slash(s) < s.len(),
    decreases s.len(),
{
    if s.len() > 0 && s.last() != '/' {
        lemma_last_slash(s.drop_last());
    }
}

/// A page's slug is longer than that of the page above it.
pub proof fn parents_are_shorter(slug: Seq<char>)
    requires
        slug.len() > 0,
    ensures
        parent_of(slug) is Some,
        parent_of(slug)->Some_0.len() < slug.len(),
{
    lemma_last_slash(slug);
}

pub fn parent(slug: &str) -> (r: Option<String>)
    ensures
        text::opt_view(r) == parent_of(slug@),
{
    let chars = text::chars(slug);
    if chars.len() == 0 {
        return None;
    }
    let mut i: usize = chars.len();
    assert(chars@.take(i as int) =~= chars@);
    while i > 0
        invariant
            i <= chars@.len(),
            0 < chars@.len(),
            chars@ == slug@,
            last_slash(chars@) == last_slash(chars@.take(i as int)),
        decreases i,
    {
        assert(chars@.take(i as int).drop_last() =~= chars@.take(i - 1));
        assert(chars@.take(i as int).last() == chars@[i - 1]);
        if chars[i - 1] == '/' {
            let above = vstd::slice::slice_subrange(chars.as_slice(), 0, i - 1);
            assert(above@ =~= chars@.take(i - 1));
            return Some(text::string(above));
        }
        i -= 1;
    }
    let none = String::new();
    assert(none@ =~= seq![]);
    Some(none)
}

// ---------------------------------------------------------------------------------------------
// Order
// ---------------------------------------------------------------------------------------------

/// Whether a page stands before a sibling, or is that sibling.
pub open spec fn key_le(a: Key, b: Key) -> bool {
    if a.order != b.order {
        a.order < b.order
    } else if a.title != b.title {
        text::at_or_before(a.title, b.title)
    } else {
        text::at_or_before(a.slug, b.slug)
    }
}

pub open spec fn index_le(keys: Seq<Key>) -> spec_fn(int, int) -> bool {
    |a: int, b: int| key_le(keys[a], keys[b])
}

pub open spec fn is_child(keys: Seq<Key>, slug: Seq<char>, i: int) -> bool {
    0 <= i < keys.len() && parent_of(keys[i].slug) == Some(slug)
}

/// The pages before position `n` that stand directly under a page.
pub open spec fn children_upto(keys: Seq<Key>, slug: Seq<char>, n: int) -> Seq<int>
    decreases n,
{
    if n <= 0 {
        seq![]
    } else if is_child(keys, slug, n - 1) {
        children_upto(keys, slug, n - 1).push(n - 1)
    } else {
        children_upto(keys, slug, n - 1)
    }
}

/// The pages directly under a page, in their order.
pub open spec fn children_of(keys: Seq<Key>, slug: Seq<char>) -> Seq<int> {
    order::sorted(children_upto(keys, slug, keys.len() as int), index_le(keys))
}

/// The first page from position `i` on with a slug, or the number of pages.
pub open spec fn page_at(keys: Seq<Key>, slug: Seq<char>, i: int) -> int
    decreases keys.len() - i,
{
    if i >= keys.len() {
        keys.len() as int
    } else if keys[i].slug == slug {
        i
    } else {
        page_at(keys, slug, i + 1)
    }
}

/// The length of the longest slug.
pub open spec fn longest(keys: Seq<Key>) -> nat
    decreases keys.len(),
{
    if keys.len() == 0 {
        0
    } else if keys.last().slug.len() > longest(keys.drop_last()) {
        keys.last().slug.len()
    } else {
        longest(keys.drop_last())
    }
}

proof fn lemma_longest(keys: Seq<Key>, i: int)
    requires
        0 <= i < keys.len(),
    ensures
        keys[i].slug.len() <= longest(keys),
    decreases keys.len(),
{
    if i < keys.len() - 1 {
        lemma_longest(keys.drop_last(), i);
    }
}

/// The page with a slug, if there is one, and then every page under it, depth first.
pub open spec fn listed(keys: Seq<Key>, slug: Seq<char>) -> Seq<int>
    decreases longest(keys) - slug.len(), children_of(keys, slug).len() + 1,
{
    (if page_at(keys, slug, 0) < keys.len() {
        seq![page_at(keys, slug, 0)]
    } else {
        seq![]
    }) + listed_all(keys, slug, children_of(keys, slug))
}

/// The given pages under a page, each followed by those under it.
pub open spec fn listed_all(keys: Seq<Key>, slug: Seq<char>, list: Seq<int>) -> Seq<int>
    decreases longest(keys) - slug.len(), list.len(),
    via listed_all_decreases
{
    if list.len() == 0 {
        seq![]
    } else if is_child(keys, slug, list.last()) {
        listed_all(keys, slug, list.drop_last()) + listed(keys, keys[list.last()].slug)
    } else {
        listed_all(keys, slug, list.drop_last())
    }
}

#[via_fn]
proof fn listed_all_decreases(keys: Seq<Key>, slug: Seq<char>, list: Seq<int>) {
    if list.len() > 0 && is_child(keys, slug, list.last()) {
        lemma_child(keys, slug, list.last());
    }
}

pub proof fn lemma_child(keys: Seq<Key>, slug: Seq<char>, i: int)
    requires
        is_child(keys, slug, i),
    ensures
        slug.len() < keys[i].slug.len() <= longest(keys),
{
    parents_are_shorter(keys[i].slug);
    lemma_longest(keys, i);
}

// ---------------------------------------------------------------------------------------------
// Every page once
// ---------------------------------------------------------------------------------------------

/// Whether no two pages share a slug.
pub open spec fn unique(keys: Seq<Key>) -> bool {
    forall|i: int, j: int|
        0 <= i < j < keys.len() ==> (#[trigger] keys[i]).slug != (#[trigger] keys[j]).slug
}

/// Whether a page has a slug.
pub open spec fn has_slug(keys: Seq<Key>, slug: Seq<char>) -> bool {
    exists|i: int| 0 <= i < keys.len() && (#[trigger] keys[i]).slug == slug
}

/// Whether every page stands under a page, but for the root.
pub open spec fn parents_exist(keys: Seq<Key>) -> bool {
    forall|i: int|
        0 <= i < keys.len() ==> match parent_of((#[trigger] keys[i]).slug) {
            Some(above) => has_slug(keys, above),
            None => true,
        }
}

/// Whether a slug is `s` or belongs to a page above it.
pub open spec fn is_above(a: Seq<char>, s: Seq<char>) -> bool
    decreases s.len(),
    via is_above_decreases
{
    a == s || (s.len() > 0 && is_above(a, parent_of(s)->Some_0))
}

#[via_fn]
proof fn is_above_decreases(a: Seq<char>, s: Seq<char>) {
    if s.len() > 0 {
        parents_are_shorter(s);
    }
}

proof fn lemma_above_is_shorter(a: Seq<char>, s: Seq<char>)
    requires
        is_above(a, s),
    ensures
        a.len() <= s.len(),
    decreases s.len(),
{
    if a != s {
        parents_are_shorter(s);
        lemma_above_is_shorter(a, parent_of(s)->Some_0);
    }
}

proof fn lemma_root_is_above(s: Seq<char>)
    ensures
        is_above(seq![], s),
    decreases s.len(),
{
    if s.len() == 0 {
        assert(s =~= seq![]);
    } else {
        parents_are_shorter(s);
        lemma_root_is_above(parent_of(s)->Some_0);
    }
}

/// No page stands under two siblings.
proof fn lemma_siblings(a: Seq<char>, b: Seq<char>, s: Seq<char>)
    requires
        is_above(a, s),
        is_above(b, s),
        parent_of(a) is Some,
        parent_of(a) == parent_of(b),
    ensures
        a == b,
    decreases s.len(),
{
    parents_are_shorter(a);
    parents_are_shorter(b);
    if a != b {
        if s == a {
            lemma_above_is_shorter(b, parent_of(a)->Some_0);
        } else if s == b {
            lemma_above_is_shorter(a, parent_of(b)->Some_0);
        } else {
            parents_are_shorter(s);
            lemma_siblings(a, b, parent_of(s)->Some_0);
        }
    }
}

pub proof fn lemma_page_at(keys: Seq<Key>, slug: Seq<char>, i: int)
    requires
        0 <= i,
    ensures
        page_at(keys, slug, i) < keys.len() ==> i <= page_at(keys, slug, i) && keys[page_at(
            keys,
            slug,
            i,
        )].slug == slug,
        page_at(keys, slug, i) >= keys.len() ==> forall|k: int|
            i <= k < keys.len() ==> (#[trigger] keys[k]).slug != slug,
    decreases keys.len() - i,
{
    if i < keys.len() && keys[i].slug != slug {
        lemma_page_at(keys, slug, i + 1);
    }
}

pub proof fn lemma_children_upto(keys: Seq<Key>, slug: Seq<char>, n: int, i: int)
    ensures
        children_upto(keys, slug, n).contains(i) <==> (i < n && is_child(keys, slug, i)),
        children_upto(keys, slug, n).no_duplicates(),
        forall|a: int|
            0 <= a < children_upto(keys, slug, n).len() ==> #[trigger] children_upto(
                keys,
                slug,
                n,
            )[a] < n,
    decreases n,
{
    if n > 0 {
        lemma_children_upto(keys, slug, n - 1, i);
        let before = children_upto(keys, slug, n - 1);
        let after = children_upto(keys, slug, n);
        if before.contains(i) {
            let k = choose|k: int| 0 <= k < before.len() && before[k] == i;
            assert(after[k] == i);
        }
        if is_child(keys, slug, n - 1) {
            assert(after[before.len() as int] == n - 1);
        }
        if after.contains(i) && i != n - 1 {
            let k = choose|k: int| 0 <= k < after.len() && after[k] == i;
            assert(before[k] == i);
        }
    }
}

pub proof fn lemma_children_of(keys: Seq<Key>, slug: Seq<char>, i: int)
    ensures
        children_of(keys, slug).contains(i) <==> is_child(keys, slug, i),
        children_of(keys, slug).no_duplicates(),
{
    let plain = children_upto(keys, slug, keys.len() as int);
    lemma_children_upto(keys, slug, keys.len() as int, i);
    order::sorting_keeps_every_item(plain, index_le(keys));
    let sorted = children_of(keys, slug);
    assert(sorted.to_multiset() =~= plain.to_multiset());
    plain.lemma_multiset_has_no_duplicates();
    sorted.lemma_multiset_has_no_duplicates_conv();
    vstd::seq_lib::to_multiset_contains(plain, i);
    vstd::seq_lib::to_multiset_contains(sorted, i);
}

/// Only pages that stand under a page are listed under it, each once.
proof fn lemma_listed(keys: Seq<Key>, slug: Seq<char>)
    requires
        unique(keys),
    ensures
        listed(keys, slug).no_duplicates(),
        forall|k: int|
            0 <= k < listed(keys, slug).len() ==> 0 <= #[trigger] listed(keys, slug)[k]
                < keys.len() && is_above(slug, keys[listed(keys, slug)[k]].slug),
    decreases longest(keys) - slug.len(), children_of(keys, slug).len() + 1,
{
    let children = children_of(keys, slug);
    lemma_children_of(keys, slug, 0);
    lemma_listed_all(keys, slug, children);
    lemma_page_at(keys, slug, 0);
    let own = page_at(keys, slug, 0);
    let under = listed_all(keys, slug, children);
    let all = listed(keys, slug);
    let at: int = if own < keys.len() {
        1
    } else {
        0
    };
    assert(forall|k: int| at <= k < all.len() ==> #[trigger] all[k] == under[k - at]);
    assert forall|k: int| 0 <= k < all.len() implies 0 <= #[trigger] all[k] < keys.len()
        && is_above(slug, keys[all[k]].slug) by {
        if k >= at {
            assert(all[k] == under[k - at]);
            let c = choose|c: int|
                0 <= c < children.len() && is_child(keys, slug, #[trigger] children[c])
                    && is_above(keys[children[c]].slug, keys[under[k - at]].slug);
            lemma_above_chains(slug, keys[children[c]].slug, keys[under[k - at]].slug);
        }
    }
    assert forall|i: int, j: int| 0 <= i < j < all.len() implies all[i] != all[j] by {
        if i < at {
            assert(all[j] == under[j - at]);
            let c = choose|c: int|
                0 <= c < children.len() && is_child(keys, slug, #[trigger] children[c])
                    && is_above(keys[children[c]].slug, keys[under[j - at]].slug);
            lemma_child(keys, slug, children[c]);
            lemma_above_is_shorter(keys[children[c]].slug, keys[under[j - at]].slug);
        } else {
            assert(all[i] == under[i - at] && all[j] == under[j - at]);
        }
    }
}

proof fn lemma_above_chains(slug: Seq<char>, child: Seq<char>, s: Seq<char>)
    requires
        parent_of(child) == Some(slug),
        is_above(child, s),
    ensures
        is_above(slug, s),
    decreases s.len(),
{
    if child == s {
        assert(is_above(slug, slug));
    } else {
        parents_are_shorter(s);
        lemma_above_chains(slug, child, parent_of(s)->Some_0);
    }
}

proof fn lemma_listed_all(keys: Seq<Key>, slug: Seq<char>, list: Seq<int>)
    requires
        unique(keys),
        list.no_duplicates(),
    ensures
        listed_all(keys, slug, list).no_duplicates(),
        forall|k: int|
            0 <= k < listed_all(keys, slug, list).len() ==> 0 <= #[trigger] listed_all(
                keys,
                slug,
                list,
            )[k] < keys.len() && exists|c: int|
                0 <= c < list.len() && is_child(keys, slug, #[trigger] list[c]) && is_above(
                    keys[list[c]].slug,
                    keys[listed_all(keys, slug, list)[k]].slug,
                ),
    decreases longest(keys) - slug.len(), list.len(),
{
    if list.len() > 0 {
        let front = list.drop_last();
        assert(front.no_duplicates());
        lemma_listed_all(keys, slug, front);
        let before = listed_all(keys, slug, front);
        let all = listed_all(keys, slug, list);
        if is_child(keys, slug, list.last()) {
            let child = keys[list.last()].slug;
            lemma_child(keys, slug, list.last());
            lemma_listed(keys, child);
            let last = listed(keys, child);
            assert(all =~= before + last);
            assert forall|k: int| 0 <= k < all.len() implies 0 <= #[trigger] all[k] < keys.len()
                && exists|c: int|
                0 <= c < list.len() && is_child(keys, slug, #[trigger] list[c]) && is_above(
                    keys[list[c]].slug,
                    keys[all[k]].slug,
                ) by {
                if k < before.len() {
                    assert(all[k] == before[k]);
                    let c = choose|c: int|
                        0 <= c < front.len() && is_child(keys, slug, #[trigger] front[c])
                            && is_above(keys[front[c]].slug, keys[before[k]].slug);
                    assert(list[c] == front[c]);
                } else {
                    assert(all[k] == last[k - before.len()]);
                    assert(list[list.len() - 1] == list.last());
                }
            }
            assert forall|i: int, j: int| 0 <= i < j < all.len() implies all[i] != all[j] by {
                if i < before.len() && j >= before.len() {
                    assert(all[i] == before[i]);
                    assert(all[j] == last[j - before.len()]);
                    let c = choose|c: int|
                        0 <= c < front.len() && is_child(keys, slug, #[trigger] front[c])
                            && is_above(keys[front[c]].slug, keys[before[i]].slug);
                    if all[i] == all[j] {
                        lemma_siblings(keys[front[c]].slug, child, keys[all[i]].slug);
                        assert(list[c] == front[c]);
                        assert(list[c] != list[list.len() - 1]);
                        if list[c] < list.last() {
                            assert(keys[list[c]].slug != keys[list.last()].slug);
                        } else {
                            assert(keys[list.last()].slug != keys[list[c]].slug);
                        }
                    }
                } else if j < before.len() {
                    assert(all[i] == before[i] && all[j] == before[j]);
                } else {
                    assert(all[i] == last[i - before.len()] && all[j] == last[j - before.len()]);
                }
            }
        } else {
            assert forall|k: int| 0 <= k < all.len() implies 0 <= #[trigger] all[k] < keys.len()
                && exists|c: int|
                0 <= c < list.len() && is_child(keys, slug, #[trigger] list[c]) && is_above(
                    keys[list[c]].slug,
                    keys[all[k]].slug,
                ) by {
                let c = choose|c: int|
                    0 <= c < front.len() && is_child(keys, slug, #[trigger] front[c]) && is_above(
                        keys[front[c]].slug,
                        keys[before[k]].slug,
                    );
                assert(list[c] == front[c]);
            }
        }
    }
}

/// A page above another is that page, or a page directly under it is above the other.
proof fn lemma_step_down(keys: Seq<Key>, slug: Seq<char>, i: int) -> (c: int)
    requires
        parents_exist(keys),
        0 <= i < keys.len(),
        is_above(slug, keys[i].slug),
        slug != keys[i].slug,
    ensures
        is_child(keys, slug, c),
        is_above(keys[c].slug, keys[i].slug),
    decreases keys[i].slug.len(),
{
    let above = parent_of(keys[i].slug)->Some_0;
    parents_are_shorter(keys[i].slug);
    if above == slug {
        i
    } else {
        let j = choose|j: int| 0 <= j < keys.len() && (#[trigger] keys[j]).slug == above;
        lemma_step_down(keys, slug, j)
    }
}

proof fn lemma_listed_all_has(keys: Seq<Key>, slug: Seq<char>, list: Seq<int>, c: int, i: int)
    requires
        0 <= c < list.len(),
        is_child(keys, slug, list[c]),
        listed(keys, keys[list[c]].slug).contains(i),
    ensures
        listed_all(keys, slug, list).contains(i),
    decreases list.len(),
{
    let front = listed_all(keys, slug, list.drop_last());
    let all = listed_all(keys, slug, list);
    if c == list.len() - 1 {
        let last = listed(keys, keys[list[c]].slug);
        let k = choose|k: int| 0 <= k < last.len() && last[k] == i;
        assert(all[front.len() + k] == i);
    } else {
        lemma_listed_all_has(keys, slug, list.drop_last(), c, i);
        let k = choose|k: int| 0 <= k < front.len() && front[k] == i;
        assert(all[k] == i);
    }
}

proof fn lemma_listed_has(keys: Seq<Key>, slug: Seq<char>, i: int)
    requires
        unique(keys),
        parents_exist(keys),
        0 <= i < keys.len(),
        is_above(slug, keys[i].slug),
    ensures
        listed(keys, slug).contains(i),
    decreases longest(keys) - slug.len(),
{
    lemma_page_at(keys, slug, 0);
    let all = listed(keys, slug);
    let children = children_of(keys, slug);
    let under = listed_all(keys, slug, children);
    if keys[i].slug == slug {
        let own = page_at(keys, slug, 0);
        assert(own == i) by {
            if own < i {
                assert(keys[own].slug != keys[i].slug);
            } else if i < own && own < keys.len() {
                assert(keys[i].slug != keys[own].slug);
            }
        }
        assert(all[0] == i);
    } else {
        let c = lemma_step_down(keys, slug, i);
        lemma_child(keys, slug, c);
        lemma_children_of(keys, slug, c);
        let at = choose|at: int| 0 <= at < children.len() && children[at] == c;
        lemma_listed_has(keys, keys[c].slug, i);
        lemma_listed_all_has(keys, slug, children, at, i);
        let k = choose|k: int| 0 <= k < under.len() && under[k] == i;
        if page_at(keys, slug, 0) < keys.len() {
            assert(all[k + 1] == i);
        } else {
            assert(all[k] == i);
        }
    }
}

/// Where no two pages share a slug and every page but the root stands under a page, the tree
/// lists every page exactly once.
pub proof fn every_page_is_listed_once(keys: Seq<Key>)
    requires
        unique(keys),
        parents_exist(keys),
    ensures
        listed(keys, seq![]).no_duplicates(),
        forall|k: int|
            0 <= k < listed(keys, seq![]).len() ==> 0 <= #[trigger] listed(keys, seq![])[k]
                < keys.len(),
        forall|i: int| 0 <= i < keys.len() ==> #[trigger] listed(keys, seq![]).contains(i),
        listed(keys, seq![]).len() == keys.len(),
{
    let all = listed(keys, seq![]);
    lemma_listed(keys, seq![]);
    assert forall|i: int| 0 <= i < keys.len() implies #[trigger] all.contains(i) by {
        lemma_root_is_above(keys[i].slug);
        lemma_listed_has(keys, seq![], i);
    }
    all.unique_seq_to_set();
    vstd::set_lib::lemma_int_range(0, keys.len() as int);
    assert(all.to_set() =~= vstd::set_lib::set_int_range(0, keys.len() as int));
}

/// Pages under one parent are listed by their order number, then by title, then by slug.
pub proof fn pages_are_listed_by_their_order(a: Key, b: Key)
    ensures
        a.order < b.order ==> key_le(a, b) && !key_le(b, a),
        a.order == b.order && a.title != b.title ==> (key_le(a, b) <==> text::at_or_before(
            a.title,
            b.title,
        )),
        a.order == b.order && a.title == b.title ==> (key_le(a, b) <==> text::at_or_before(
            a.slug,
            b.slug,
        )),
{
}

/// The parent of a page is what stands before the last slash of its slug.
pub proof fn a_page_stands_below_its_parent(parent: Seq<char>, name: Seq<char>)
    requires
        name.len() > 0,
        !name.contains('/'),
    ensures
        parent_of(parent.push('/') + name) == Some(parent),
        parent_of(name) == Some(Seq::<char>::empty()),
        parent_of(Seq::<char>::empty()) is None,
{
    lemma_slash_before(parent.push('/'), name);
    lemma_slash_before(seq![], name);
    assert(Seq::<char>::empty() + name =~= name);
    assert((parent.push('/') + name).take(parent.len() as int) =~= parent);
    assert(parent.push('/').last() == '/');
}

proof fn lemma_slash_before(before: Seq<char>, name: Seq<char>)
    requires
        !name.contains('/'),
        before.len() > 0 ==> before.last() == '/',
    ensures
        last_slash(before + name) == before.len() - 1,
    decreases name.len(),
{
    let s = before + name;
    if name.len() > 0 {
        let shorter = name.drop_last();
        assert forall|k: int| 0 <= k < shorter.len() implies #[trigger] shorter[k] != '/' by {
            assert(name.contains(name[k]));
        }
        lemma_slash_before(before, shorter);
        assert(s.drop_last() =~= before + shorter);
        assert(name.contains(name.last()));
        assert(s.last() == name.last());
    } else {
        assert(s =~= before);
    }
}

} // verus!
