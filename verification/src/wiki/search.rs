//! Searching the wiki: words, where they occur, and the piece of text shown for a hit.

use vstd::prelude::*;

use crate::text;

verus! {

// ---------------------------------------------------------------------------------------------
// Words
// ---------------------------------------------------------------------------------------------

/// The lower case of a character, or the first character of it.
pub open spec fn fold_char(c: char) -> char {
    if c as u32 <= 127 {
        text::lower_char(c)
    } else {
        text::char_lowercase(c)[0]
    }
}

/// Lower case one character at a time, so positions in the result are positions in the text.
pub open spec fn folded(s: Seq<char>) -> Seq<char> {
    s.map_values(|c: char| fold_char(c))
}

/// The characters that words are made of.
pub open spec fn is_word_char(c: char) -> bool {
    if c as u32 <= 127 {
        text::is_ascii_alphanumeric(c)
    } else {
        text::alphanumeric(c)
    }
}

pub fn fold(s: &str) -> (r: Vec<char>)
    ensures
        r@ == folded(s@),
{
    let s = text::chars(s);
    fold_chars(s.as_slice())
}

fn fold_chars(s: &[char]) -> (r: Vec<char>)
    ensures
        r@ == folded(s@),
{
    let mut out: Vec<char> = Vec::new();
    let mut i: usize = 0;
    while i < s.len()
        invariant
            i <= s@.len(),
            out@.len() == i,
            forall|j: int| 0 <= j < i ==> #[trigger] out@[j] == fold_char(s@[j]),
        decreases s.len() - i,
    {
        let small = text::char_to_lowercase(s[i]);
        out.push(small[0]);
        i += 1;
    }
    assert(out@ =~= folded(s@));
    out
}

/// The words of a text that end before its end, and the word that has not ended yet.
pub open spec fn words_upto(s: Seq<char>) -> (Seq<Seq<char>>, Seq<char>)
    decreases s.len(),
{
    if s.len() == 0 {
        (seq![], seq![])
    } else {
        let (words, word) = words_upto(s.drop_last());
        if is_word_char(s.last()) {
            (words, word.push(s.last()))
        } else {
            (with_word(words, word), seq![])
        }
    }
}

pub open spec fn with_word(words: Seq<Seq<char>>, word: Seq<char>) -> Seq<Seq<char>> {
    if word.len() == 0 || words.contains(folded(word)) {
        words
    } else {
        words.push(folded(word))
    }
}

/// The different words of a query, in lower case, in the order they first occur.
pub open spec fn terms_of(query: Seq<char>) -> Seq<Seq<char>> {
    with_word(words_upto(query).0, words_upto(query).1)
}

pub open spec fn term_views(terms: Seq<Vec<char>>) -> Seq<Seq<char>> {
    terms.map_values(|term: Vec<char>| term@)
}

fn add_word(terms: &mut Vec<Vec<char>>, word: &Vec<char>)
    ensures
        term_views(final(terms)@) == with_word(term_views(old(terms)@), word@),
{
    let ghost before = term_views(terms@);
    if word.len() == 0 {
        return;
    }
    let term = fold_chars(word.as_slice());
    let mut i: usize = 0;
    while i < terms.len()
        invariant
            i <= terms@.len(),
            before == term_views(terms@),
            term@ == folded(word@),
            word@.len() > 0,
            *terms == *old(terms),
            forall|j: int| 0 <= j < i ==> #[trigger] before[j] != term@,
        decreases terms.len() - i,
    {
        if text::slices_equal(terms[i].as_slice(), term.as_slice()) {
            assert(before[i as int] == term@);
            return;
        }
        i += 1;
    }
    terms.push(term);
    assert(term_views(terms@) =~= before.push(term@));
}

pub fn terms(query: &str) -> (r: Vec<Vec<char>>)
    ensures
        term_views(r@) == terms_of(query@),
{
    let query = text::chars(query);
    let mut terms: Vec<Vec<char>> = Vec::new();
    let mut word: Vec<char> = Vec::new();
    let mut i: usize = 0;
    assert(query@.take(0) =~= seq![]);
    assert(term_views(terms@) =~= seq![]);
    while i < query.len()
        invariant
            i <= query@.len(),
            term_views(terms@) == words_upto(query@.take(i as int)).0,
            word@ == words_upto(query@.take(i as int)).1,
        decreases query.len() - i,
    {
        assert(query@.take(i + 1).drop_last() =~= query@.take(i as int));
        if text::char_is_alphanumeric(query[i]) {
            word.push(query[i]);
        } else {
            add_word(&mut terms, &word);
            word = Vec::new();
        }
        i += 1;
    }
    assert(query@.take(i as int) =~= query@);
    add_word(&mut terms, &word);
    terms
}

/// The words of a text that end before its end, as they are written and as often as they come,
/// and the word that has not ended yet.
pub open spec fn runs_upto(s: Seq<char>) -> (Seq<Seq<char>>, Seq<char>)
    decreases s.len(),
{
    if s.len() == 0 {
        (seq![], seq![])
    } else {
        let (runs, run) = runs_upto(s.drop_last());
        if is_word_char(s.last()) {
            (runs, run.push(s.last()))
        } else {
            (with_spelling(runs, run), seq![])
        }
    }
}

pub open spec fn with_spelling(runs: Seq<Seq<char>>, run: Seq<char>) -> Seq<Seq<char>> {
    if run.len() == 0 {
        runs
    } else {
        runs.push(run)
    }
}

/// The words of a query as they are written, as often as they come.
pub open spec fn runs_of(query: Seq<char>) -> Seq<Seq<char>> {
    with_spelling(runs_upto(query).0, runs_upto(query).1)
}

/// Whether a word comes among others, whatever its case.
pub open spec fn comes_in(runs: Seq<Seq<char>>, term: Seq<char>) -> bool {
    exists|k: int| 0 <= k < runs.len() && folded(#[trigger] runs[k]) == term
}

proof fn lemma_with_word(words: Seq<Seq<char>>, runs: Seq<Seq<char>>, word: Seq<char>, term: Seq<char>)
    requires
        words.no_duplicates(),
        words.contains(term) <==> comes_in(runs, term),
    ensures
        with_word(words, word).no_duplicates(),
        with_word(words, word).contains(term) <==> comes_in(with_spelling(runs, word), term),
{
    let after = with_spelling(runs, word);
    if word.len() > 0 {
        assert(after[runs.len() as int] == word);
        if comes_in(runs, term) {
            let k = choose|k: int| 0 <= k < runs.len() && folded(#[trigger] runs[k]) == term;
            assert(after[k] == runs[k]);
        }
        if comes_in(after, term) {
            let k = choose|k: int| 0 <= k < after.len() && folded(#[trigger] after[k]) == term;
            if k < runs.len() {
                assert(runs[k] == after[k]);
            }
        }
        let added = words.push(folded(word));
        assert(added[words.len() as int] == folded(word));
        if words.contains(term) {
            let k = choose|k: int| 0 <= k < words.len() && words[k] == term;
            assert(added[k] == term);
        }
    }
}

proof fn lemma_words_upto(s: Seq<char>, term: Seq<char>)
    ensures
        words_upto(s).1 == runs_upto(s).1,
        words_upto(s).0.no_duplicates(),
        words_upto(s).0.contains(term) <==> comes_in(runs_upto(s).0, term),
    decreases s.len(),
{
    if s.len() > 0 {
        let front = s.drop_last();
        lemma_words_upto(front, term);
        lemma_with_word(words_upto(front).0, runs_upto(front).0, words_upto(front).1, term);
    }
}

/// A query is searched for by its different words, in lower case.
pub proof fn terms_are_the_different_words(query: Seq<char>, term: Seq<char>)
    ensures
        terms_of(query).no_duplicates(),
        terms_of(query).contains(term) <==> comes_in(runs_of(query), term),
{
    lemma_words_upto(query, term);
    lemma_with_word(words_upto(query).0, runs_upto(query).0, words_upto(query).1, term);
}

proof fn lemma_case(s: Seq<char>)
    ensures
        folded(text::upper(s)) == folded(s),
        words_upto(text::upper(s)).0 == words_upto(s).0,
        words_upto(text::upper(s)).1 == text::upper(words_upto(s).1),
    decreases s.len(),
{
    assert(folded(text::upper(s)) =~= folded(s));
    if s.len() > 0 {
        let front = s.drop_last();
        lemma_case(front);
        assert(text::upper(s).drop_last() =~= text::upper(front));
        assert(text::upper(s).last() == text::upper_char(s.last()));
        let word = words_upto(front).1;
        assert(folded(text::upper(word)) =~= folded(word));
        assert(text::upper(word.push(s.last())) =~= text::upper(word).push(
            text::upper_char(s.last()),
        ));
        assert(text::upper(Seq::<char>::empty()) =~= seq![]);
    } else {
        assert(text::upper(s) =~= s);
    }
}

/// Upper-casing a query asks for the same words.
pub proof fn the_case_of_a_query_does_not_matter(query: Seq<char>)
    ensures
        terms_of(text::upper(query)) == terms_of(query),
{
    lemma_case(query);
    let word = words_upto(query).1;
    assert(folded(text::upper(word)) =~= folded(word));
}

// ---------------------------------------------------------------------------------------------
// Occurrences
// ---------------------------------------------------------------------------------------------

/// Whether a word stands at position `i`.
pub open spec fn occurs_at(haystack: Seq<char>, needle: Seq<char>, i: int) -> bool {
    needle.len() > 0 && 0 <= i && i + needle.len() <= haystack.len() && haystack.subrange(
        i,
        i + needle.len(),
    ) == needle
}

/// The positions before `n` at which a word stands.
pub open spec fn positions(haystack: Seq<char>, needle: Seq<char>, n: int) -> Seq<int>
    decreases n,
{
    if n <= 0 {
        seq![]
    } else {
        let before = positions(haystack, needle, n - 1);
        if occurs_at(haystack, needle, n - 1) {
            before.push(n - 1)
        } else {
            before
        }
    }
}

pub open spec fn occurrences_of(haystack: Seq<char>, needle: Seq<char>) -> Seq<int> {
    positions(haystack, needle, haystack.len() as int)
}

pub open spec fn occurs(haystack: Seq<char>, needle: Seq<char>) -> bool {
    occurrences_of(haystack, needle).len() > 0
}

fn stands_at(haystack: &[char], needle: &[char], i: usize) -> (r: bool)
    requires
        i <= haystack@.len(),
    ensures
        r == occurs_at(haystack@, needle@, i as int),
{
    let total: usize = haystack.len();
    if needle.len() == 0 || needle.len() > total - i {
        return false;
    }
    let piece = vstd::slice::slice_subrange(haystack, i, i + needle.len());
    assert(piece@ =~= haystack@.subrange(i as int, i + needle@.len()));
    text::slices_equal(piece, needle)
}

pub open spec fn as_ints(s: Seq<usize>) -> Seq<int> {
    s.map_values(|i: usize| i as int)
}

pub fn occurrences(haystack: &[char], needle: &[char]) -> (r: Vec<usize>)
    ensures
        as_ints(r@) == occurrences_of(haystack@, needle@),
{
    let mut found: Vec<usize> = Vec::new();
    let mut i: usize = 0;
    let total: usize = haystack.len();
    assert(as_ints(found@) =~= seq![]);
    while i < total
        invariant
            i <= total,
            total == haystack@.len(),
            as_ints(found@) == positions(haystack@, needle@, i as int),
        decreases total - i,
    {
        if stands_at(haystack, needle, i) {
            let ghost before = as_ints(found@);
            found.push(i);
            assert(as_ints(found@) =~= before.push(i as int));
        }
        i += 1;
    }
    found
}

fn found_in(haystack: &[char], needle: &[char]) -> (r: bool)
    ensures
        r == occurs(haystack@, needle@),
{
    let found = occurrences(haystack, needle);
    assert(as_ints(found@).len() == found@.len());
    found.len() > 0
}

/// A position is listed exactly when the word stands there, and the list ascends.
pub proof fn occurrences_are_all_of_them(haystack: Seq<char>, needle: Seq<char>, i: int)
    ensures
        occurrences_of(haystack, needle).contains(i) <==> occurs_at(haystack, needle, i),
        forall|a: int, b: int|
            0 <= a < b < occurrences_of(haystack, needle).len() ==> #[trigger] occurrences_of(
                haystack,
                needle,
            )[a] < #[trigger] occurrences_of(haystack, needle)[b],
{
    lemma_positions(haystack, needle, haystack.len() as int, i);
}

proof fn lemma_positions(haystack: Seq<char>, needle: Seq<char>, n: int, i: int)
    ensures
        positions(haystack, needle, n).contains(i) <==> (i < n && occurs_at(haystack, needle, i)),
        forall|a: int|
            0 <= a < positions(haystack, needle, n).len() ==> #[trigger] positions(
                haystack,
                needle,
                n,
            )[a] < n,
        forall|a: int, b: int|
            0 <= a < b < positions(haystack, needle, n).len() ==> #[trigger] positions(
                haystack,
                needle,
                n,
            )[a] < #[trigger] positions(haystack, needle, n)[b],
    decreases n,
{
    if n > 0 {
        lemma_positions(haystack, needle, n - 1, i);
        let before = positions(haystack, needle, n - 1);
        let after = positions(haystack, needle, n);
        if before.contains(i) {
            let k = choose|k: int| 0 <= k < before.len() && before[k] == i;
            assert(after[k] == i);
        }
        if occurs_at(haystack, needle, n - 1) {
            assert(after[before.len() as int] == n - 1);
        }
        if after.contains(i) && i != n - 1 {
            let k = choose|k: int| 0 <= k < after.len() && after[k] == i;
            assert(before[k] == i);
        }
    }
}

// ---------------------------------------------------------------------------------------------
// Scores
// ---------------------------------------------------------------------------------------------

/// How many of the words occur in a text.
pub open spec fn matched_in(s: Seq<char>, terms: Seq<Seq<char>>) -> int
    decreases terms.len(),
{
    if terms.len() == 0 {
        0
    } else {
        matched_in(s, terms.drop_last()) + if occurs(s, terms.last()) {
            1int
        } else {
            0
        }
    }
}

pub fn count_matched(s: &[char], terms: &Vec<Vec<char>>) -> (r: usize)
    ensures
        r == matched_in(s@, term_views(terms@)),
        r <= terms@.len(),
{
    let ghost all = term_views(terms@);
    let mut count: usize = 0;
    let mut i: usize = 0;
    assert(all.take(0) =~= seq![]);
    while i < terms.len()
        invariant
            i <= terms@.len(),
            all == term_views(terms@),
            count <= i,
            count == matched_in(s@, all.take(i as int)),
        decreases terms.len() - i,
    {
        assert(all.take(i + 1).drop_last() =~= all.take(i as int));
        if found_in(s, terms[i].as_slice()) {
            count += 1;
        }
        i += 1;
    }
    assert(all.take(i as int) =~= all);
    count
}

/// How often a word occurs in some texts altogether.
pub open spec fn times_in(texts: Seq<Seq<char>>, term: Seq<char>) -> int
    decreases texts.len(),
{
    if texts.len() == 0 {
        0
    } else {
        times_in(texts.drop_last(), term) + occurrences_of(texts.last(), term).len()
    }
}

pub open spec fn any_has(texts: Seq<Seq<char>>, term: Seq<char>) -> bool {
    exists|i: int| 0 <= i < texts.len() && occurs(#[trigger] texts[i], term)
}

/// What a word is worth on a page. Titles weigh most, then keywords, then headings, then how
/// often the word occurs in the text.
pub open spec fn term_score(
    title: Seq<char>,
    keywords: Seq<char>,
    headings: Seq<Seq<char>>,
    blocks: Seq<Seq<char>>,
    term: Seq<char>,
) -> int {
    let often = times_in(blocks, term);
    (if occurs(title, term) {
        8int
    } else {
        0
    }) + (if occurs(keywords, term) {
        5int
    } else {
        0
    }) + (if any_has(headings, term) {
        3int
    } else {
        0
    }) + (if often < 5 {
        often
    } else {
        5
    })
}

/// What all words are worth on a page, or `None` if one of them does not occur there.
pub open spec fn score_of(
    title: Seq<char>,
    keywords: Seq<char>,
    headings: Seq<Seq<char>>,
    blocks: Seq<Seq<char>>,
    terms: Seq<Seq<char>>,
) -> Option<int>
    decreases terms.len(),
{
    if terms.len() == 0 {
        Some(0)
    } else {
        let worth = term_score(title, keywords, headings, blocks, terms.last());
        match score_of(title, keywords, headings, blocks, terms.drop_last()) {
            Some(score) if worth != 0 => Some(score + worth),
            _ => None,
        }
    }
}

fn count_up_to_five(texts: &Vec<Vec<char>>, term: &[char]) -> (r: u64)
    ensures
        r == if times_in(term_views(texts@), term@) < 5 {
            times_in(term_views(texts@), term@)
        } else {
            5
        },
{
    let ghost all = term_views(texts@);
    let mut count: u64 = 0;
    let mut i: usize = 0;
    assert(all.take(0) =~= seq![]);
    while i < texts.len()
        invariant
            i <= texts@.len(),
            all == term_views(texts@),
            times_in(all.take(i as int), term@) >= 0,
            count == if times_in(all.take(i as int), term@) < 5 {
                times_in(all.take(i as int), term@)
            } else {
                5
            },
        decreases texts.len() - i,
    {
        assert(all.take(i + 1).drop_last() =~= all.take(i as int));
        let found = occurrences(texts[i].as_slice(), term);
        assert(as_ints(found@).len() == found@.len());
        if found.len() >= 5 {
            count = 5;
        } else {
            count = count + found.len() as u64;
            if count > 5 {
                count = 5;
            }
        }
        i += 1;
    }
    assert(all.take(i as int) =~= all);
    count
}

fn found_in_any(texts: &Vec<Vec<char>>, term: &[char]) -> (r: bool)
    ensures
        r == any_has(term_views(texts@), term@),
{
    let ghost all = term_views(texts@);
    let mut i: usize = 0;
    while i < texts.len()
        invariant
            i <= texts@.len(),
            all == term_views(texts@),
            forall|j: int| 0 <= j < i ==> !occurs(#[trigger] all[j], term@),
        decreases texts.len() - i,
    {
        if found_in(texts[i].as_slice(), term) {
            assert(occurs(all[i as int], term@));
            return true;
        }
        i += 1;
    }
    false
}

proof fn lemma_score_none(
    title: Seq<char>,
    keywords: Seq<char>,
    headings: Seq<Seq<char>>,
    blocks: Seq<Seq<char>>,
    terms: Seq<Seq<char>>,
    i: int,
)
    requires
        0 <= i < terms.len(),
        term_score(title, keywords, headings, blocks, terms[i]) == 0,
    ensures
        score_of(title, keywords, headings, blocks, terms) is None,
    decreases terms.len(),
{
    if i < terms.len() - 1 {
        lemma_score_none(title, keywords, headings, blocks, terms.drop_last(), i);
    }
}

proof fn lemma_times_in(texts: Seq<Seq<char>>, term: Seq<char>)
    ensures
        times_in(texts, term) >= 0,
        times_in(texts, term) > 0 <==> any_has(texts, term),
    decreases texts.len(),
{
    if texts.len() > 0 {
        let front = texts.drop_last();
        lemma_times_in(front, term);
        if any_has(front, term) {
            let i = choose|i: int| 0 <= i < front.len() && occurs(#[trigger] front[i], term);
            assert(occurs(texts[i], term));
        }
        if occurs(texts.last(), term) {
            assert(occurs(texts[texts.len() - 1], term));
        }
        if any_has(texts, term) && !occurs(texts.last(), term) {
            let i = choose|i: int| 0 <= i < texts.len() && occurs(#[trigger] texts[i], term);
            assert(occurs(front[i], term));
        }
    }
}

proof fn lemma_score_without(
    title: Seq<char>,
    keywords: Seq<char>,
    headings: Seq<Seq<char>>,
    blocks: Seq<Seq<char>>,
    terms: Seq<Seq<char>>,
    k: int,
)
    requires
        0 <= k < terms.len(),
    ensures
        ({
            let worth = term_score(title, keywords, headings, blocks, terms[k]);
            score_of(title, keywords, headings, blocks, terms) == match score_of(
                title,
                keywords,
                headings,
                blocks,
                terms.remove(k),
            ) {
                Some(score) if worth != 0 => Some(score + worth),
                _ => None,
            }
        }),
    decreases terms.len(),
{
    if k == terms.len() - 1 {
        assert(terms.remove(k) =~= terms.drop_last());
    } else {
        let front = terms.drop_last();
        lemma_score_without(title, keywords, headings, blocks, front, k);
        assert(terms.remove(k).drop_last() =~= front.remove(k));
        assert(terms.remove(k).last() == terms.last());
        assert(front[k] == terms[k]);
    }
}

/// What words are worth on a page does not depend on their order.
pub proof fn lemma_score_of_same(
    title: Seq<char>,
    keywords: Seq<char>,
    headings: Seq<Seq<char>>,
    blocks: Seq<Seq<char>>,
    a: Seq<Seq<char>>,
    b: Seq<Seq<char>>,
)
    requires
        a.no_duplicates(),
        b.no_duplicates(),
        forall|term: Seq<char>| #[trigger] a.contains(term) <==> b.contains(term),
    ensures
        score_of(title, keywords, headings, blocks, a) == score_of(
            title,
            keywords,
            headings,
            blocks,
            b,
        ),
        a.len() == b.len(),
    decreases a.len(),
{
    if a.len() == 0 {
        if b.len() > 0 {
            assert(b.contains(b[0]));
            assert(a.contains(b[0]));
        }
    } else {
        let x = a[a.len() - 1];
        assert(a.contains(x));
        assert(b.contains(x));
        let k = choose|k: int| 0 <= k < b.len() && b[k] == x;
        let front = a.drop_last();
        let rest = b.remove(k);
        assert forall|term: Seq<char>| #[trigger] front.contains(term) <==> rest.contains(term) by {
            if front.contains(term) {
                let i = choose|i: int| 0 <= i < front.len() && front[i] == term;
                assert(a[i] == term);
                assert(a.contains(term));
                let j = choose|j: int| 0 <= j < b.len() && b[j] == term;
                if j < k {
                    assert(rest[j] == term);
                } else {
                    assert(j != k);
                    assert(rest[j - 1] == term);
                }
            }
            if rest.contains(term) {
                let j = choose|j: int| 0 <= j < rest.len() && rest[j] == term;
                let at = if j < k {
                    j
                } else {
                    j + 1
                };
                assert(b[at] == term);
                assert(at != k);
                assert(b.contains(term));
                assert(a.contains(term));
                let i = choose|i: int| 0 <= i < a.len() && a[i] == term;
                assert(i != a.len() - 1);
                assert(front[i] == term);
            }
        }
        assert(rest.no_duplicates());
        lemma_score_of_same(title, keywords, headings, blocks, front, rest);
        lemma_score_without(title, keywords, headings, blocks, b, k);
    }
}

pub proof fn lemma_score_is_some(
    title: Seq<char>,
    keywords: Seq<char>,
    headings: Seq<Seq<char>>,
    blocks: Seq<Seq<char>>,
    terms: Seq<Seq<char>>,
)
    ensures
        score_of(title, keywords, headings, blocks, terms) is Some <==> forall|t: int|
            0 <= t < terms.len() ==> {
                ||| occurs(title, #[trigger] terms[t])
                ||| occurs(keywords, terms[t])
                ||| any_has(headings, terms[t])
                ||| any_has(blocks, terms[t])
            },
    decreases terms.len(),
{
    if terms.len() > 0 {
        let front = terms.drop_last();
        lemma_score_is_some(title, keywords, headings, blocks, front);
        lemma_times_in(blocks, terms.last());
        assert(forall|t: int| 0 <= t < front.len() ==> #[trigger] front[t] == terms[t]);
        assert(terms.last() == terms[terms.len() - 1]);
        if score_of(title, keywords, headings, blocks, terms) is Some {
            assert forall|t: int| 0 <= t < terms.len() implies {
                ||| occurs(title, #[trigger] terms[t])
                ||| occurs(keywords, terms[t])
                ||| any_has(headings, terms[t])
                ||| any_has(blocks, terms[t])
            } by {
                if t < front.len() {
                    assert(front[t] == terms[t]);
                }
            }
        }
    }
}

pub fn score(
    title: &Vec<char>,
    keywords: &Vec<char>,
    headings: &Vec<Vec<char>>,
    blocks: &Vec<Vec<char>>,
    terms: &Vec<Vec<char>>,
) -> (r: Option<u128>)
    ensures
        match (
            r,
            score_of(
                title@,
                keywords@,
                term_views(headings@),
                term_views(blocks@),
                term_views(terms@),
            ),
        ) {
            (Some(score), Some(shown)) => score == shown,
            (None, None) => true,
            _ => false,
        },
{
    let ghost h = term_views(headings@);
    let ghost b = term_views(blocks@);
    let ghost all = term_views(terms@);
    let mut score: u128 = 0;
    let mut i: usize = 0;
    assert(all.take(0) =~= seq![]);
    while i < terms.len()
        invariant
            i <= terms@.len(),
            h == term_views(headings@),
            b == term_views(blocks@),
            all == term_views(terms@),
            score <= 21 * i,
            score_of(title@, keywords@, h, b, all.take(i as int)) == Some(score as int),
        decreases terms.len() - i,
    {
        assert(all.take(i + 1).drop_last() =~= all.take(i as int));
        let term = terms[i].as_slice();
        let mut worth: u128 = count_up_to_five(blocks, term) as u128;
        if found_in(title.as_slice(), term) {
            worth += 8;
        }
        if found_in(keywords.as_slice(), term) {
            worth += 5;
        }
        if found_in_any(headings, term) {
            worth += 3;
        }
        assert(worth == term_score(title@, keywords@, h, b, all[i as int]));
        if worth == 0 {
            proof {
                lemma_score_none(title@, keywords@, h, b, all, i as int);
            }
            return None;
        }
        score += worth;
        i += 1;
    }
    assert(all.take(i as int) =~= all);
    Some(score)
}

/// The first of the headings that most words occur in, if any word occurs in one.
pub open spec fn best_heading(headings: Seq<Seq<char>>, terms: Seq<Seq<char>>) -> Option<int>
    decreases headings.len(),
{
    if headings.len() == 0 {
        None
    } else {
        let best = best_heading(headings.drop_last(), terms);
        let most = match best {
            Some(i) => matched_in(headings[i], terms),
            None => 0,
        };
        if matched_in(headings.last(), terms) > most {
            Some(headings.len() - 1)
        } else {
            best
        }
    }
}

pub fn pick_heading(headings: &Vec<Vec<char>>, terms: &Vec<Vec<char>>) -> (r: Option<usize>)
    ensures
        match (r, best_heading(term_views(headings@), term_views(terms@))) {
            (Some(i), Some(shown)) => i == shown && i < headings@.len(),
            (None, None) => true,
            _ => false,
        },
{
    let ghost all = term_views(headings@);
    let ghost t = term_views(terms@);
    let mut best: Option<usize> = None;
    let mut most: usize = 0;
    let mut i: usize = 0;
    assert(all.take(0) =~= seq![]);
    while i < headings.len()
        invariant
            i <= headings@.len(),
            all == term_views(headings@),
            t == term_views(terms@),
            match (best, best_heading(all.take(i as int), t)) {
                (Some(k), Some(shown)) => k == shown && k < i && most == matched_in(
                    all[k as int],
                    t,
                ),
                (None, None) => most == 0,
                _ => false,
            },
        decreases headings.len() - i,
    {
        assert(all.take(i + 1).drop_last() =~= all.take(i as int));
        let matched = count_matched(headings[i].as_slice(), terms);
        if matched > most {
            best = Some(i);
            most = matched;
        }
        i += 1;
    }
    assert(all.take(i as int) =~= all);
    best
}

/// Blocks shorter than this, such as a table cell, make a poor snippet when a sentence matches
/// as well.
pub const SNIPPET_MIN_BLOCK: usize = 40;

/// Whether `a` makes a better snippet than `b`.
pub open spec fn shows_more(a: Seq<char>, b: Seq<char>, terms: Seq<Seq<char>>) -> bool {
    matched_in(a, terms) > matched_in(b, terms) || (matched_in(a, terms) == matched_in(b, terms)
        && a.len() >= SNIPPET_MIN_BLOCK && b.len() < SNIPPET_MIN_BLOCK)
}

/// The first of the blocks that make the best snippet.
pub open spec fn best_block(blocks: Seq<Seq<char>>, terms: Seq<Seq<char>>) -> int
    decreases blocks.len(),
{
    if blocks.len() <= 1 {
        0
    } else {
        let best = best_block(blocks.drop_last(), terms);
        if shows_more(blocks.last(), blocks[best], terms) {
            blocks.len() - 1
        } else {
            best
        }
    }
}

pub fn pick_block(blocks: &Vec<Vec<char>>, terms: &Vec<Vec<char>>) -> (r: usize)
    requires
        blocks@.len() > 0,
    ensures
        r == best_block(term_views(blocks@), term_views(terms@)),
        r < blocks@.len(),
{
    let ghost all = term_views(blocks@);
    let ghost t = term_views(terms@);
    let mut best: usize = 0;
    let mut most: usize = count_matched(blocks[0].as_slice(), terms);
    let mut i: usize = 1;
    while i < blocks.len()
        invariant
            1 <= i <= blocks@.len(),
            all == term_views(blocks@),
            t == term_views(terms@),
            best < i,
            best == best_block(all.take(i as int), t),
            most == matched_in(all[best as int], t),
        decreases blocks.len() - i,
    {
        assert(all.take(i + 1).drop_last() =~= all.take(i as int));
        assert(all[best as int] == blocks@[best as int]@);
        let matched = count_matched(blocks[i].as_slice(), terms);
        if matched > most || (matched == most && blocks[i].len() >= SNIPPET_MIN_BLOCK
            && blocks[best].len() < SNIPPET_MIN_BLOCK) {
            best = i;
            most = matched;
        }
        i += 1;
    }
    assert(all.take(i as int) =~= all);
    best
}

// ---------------------------------------------------------------------------------------------
// Snippets
// ---------------------------------------------------------------------------------------------

/// Characters of context kept before the first match.
pub const SNIPPET_LEAD: usize = 60;

pub const SNIPPET_LENGTH: usize = 200;

/// A run of snippet text, marked when it matched a search word.
#[derive(Debug, PartialEq, Eq)]
pub struct Snip {
    pub text: String,
    pub mark: bool,
}

impl Snip {
    pub open spec fn shown(self) -> (Seq<char>, bool) {
        (self.text@, self.mark)
    }
}

pub open spec fn shown_snips(snips: Seq<Snip>) -> Seq<(Seq<char>, bool)> {
    snips.map_values(|snip: Snip| snip.shown())
}

/// Whether one of the words stands at position `i`.
pub open spec fn any_at(folded: Seq<char>, terms: Seq<Seq<char>>, i: int) -> bool {
    exists|t: int| 0 <= t < terms.len() && occurs_at(folded, #[trigger] terms[t], i)
}

/// The first position from `i` on at which one of the words stands, or 0.
pub open spec fn first_match(folded: Seq<char>, terms: Seq<Seq<char>>, i: int) -> int
    decreases folded.len() - i,
{
    if i < 0 || i >= folded.len() {
        0
    } else if any_at(folded, terms, i) {
        i
    } else {
        first_match(folded, terms, i + 1)
    }
}

/// The first position from `i` on, before `first`, that follows a space, or `fallback`.
pub open spec fn after_space(chars: Seq<char>, i: int, first: int, fallback: int) -> int
    decreases first - i,
{
    if i >= first {
        fallback
    } else if text::is_space(chars[i - 1]) {
        i
    } else {
        after_space(chars, i + 1, first, fallback)
    }
}

/// The last position before `i`, from `low` on, that holds a space, or `fallback`.
pub open spec fn last_space(chars: Seq<char>, i: int, low: int, fallback: int) -> int
    decreases i - low,
{
    if i <= low {
        fallback
    } else if text::is_space(chars[i - 1]) {
        i - 1
    } else {
        last_space(chars, i - 1, low, fallback)
    }
}

/// Where a snippet starts.
pub open spec fn snippet_start(chars: Seq<char>, first: int) -> int {
    let start = first - SNIPPET_LEAD;
    if start > 0 {
        after_space(chars, start, first, start)
    } else {
        0
    }
}

/// Where a snippet ends.
pub open spec fn snippet_end(chars: Seq<char>, first: int, start: int) -> int {
    if start + SNIPPET_LENGTH < chars.len() {
        let low = if first > start + 1 {
            first
        } else {
            start + 1
        };
        last_space(chars, start + SNIPPET_LENGTH, low, start + SNIPPET_LENGTH)
    } else {
        chars.len() as int
    }
}

/// Whether a match that begins at position `at` covers position `i`.
pub open spec fn covers(folded: Seq<char>, term: Seq<char>, at: int, i: int) -> bool {
    occurs_at(folded, term, at) && at <= i < at + term.len()
}

/// Whether a position belongs to a match.
pub open spec fn is_marked(folded: Seq<char>, terms: Seq<Seq<char>>, i: int) -> bool {
    exists|t: int, at: int| 0 <= t < terms.len() && #[trigger] covers(folded, terms[t], at, i)
}

/// A character joins the last run if that is marked alike, and else begins one.
pub open spec fn with_char(snips: Seq<(Seq<char>, bool)>, c: char, mark: bool) -> Seq<
    (Seq<char>, bool),
> {
    if snips.len() > 0 && snips.last().1 == mark {
        snips.drop_last().push((snips.last().0.push(c), mark))
    } else {
        snips.push((seq![c], mark))
    }
}

/// The runs of the characters from `start` up to `end`, after what stands before them.
pub open spec fn with_run(
    before: Seq<(Seq<char>, bool)>,
    chars: Seq<char>,
    folded: Seq<char>,
    terms: Seq<Seq<char>>,
    start: int,
    end: int,
) -> Seq<(Seq<char>, bool)>
    decreases end - start,
{
    if end <= start {
        before
    } else {
        with_char(
            with_run(before, chars, folded, terms, start, end - 1),
            chars[end - 1],
            is_marked(folded, terms, end - 1),
        )
    }
}

/// About `SNIPPET_LENGTH` characters of a text around the first match, cut at spaces, with every
/// match marked.
pub open spec fn snippet_of(chars: Seq<char>, terms: Seq<Seq<char>>) -> Seq<(Seq<char>, bool)> {
    let folded = folded(chars);
    let first = first_match(folded, terms, 0);
    let start = snippet_start(chars, first);
    let end = snippet_end(chars, first, start);
    let lead = if start > 0 {
        with_char(seq![], '\u{2026}', false)
    } else {
        seq![]
    };
    let middle = with_run(lead, chars, folded, terms, start, end);
    if end < chars.len() {
        with_char(middle, '\u{2026}', false)
    } else {
        middle
    }
}

fn stands_any(folded: &Vec<char>, terms: &Vec<Vec<char>>, i: usize) -> (r: bool)
    requires
        i <= folded@.len(),
    ensures
        r == any_at(folded@, term_views(terms@), i as int),
{
    let ghost all = term_views(terms@);
    let mut t: usize = 0;
    while t < terms.len()
        invariant
            t <= terms@.len(),
            i <= folded@.len(),
            all == term_views(terms@),
            forall|j: int| 0 <= j < t ==> !occurs_at(folded@, #[trigger] all[j], i as int),
        decreases terms.len() - t,
    {
        if stands_at(folded.as_slice(), terms[t].as_slice(), i) {
            assert(occurs_at(folded@, all[t as int], i as int));
            return true;
        }
        t += 1;
    }
    false
}

fn find_first(folded: &Vec<char>, terms: &Vec<Vec<char>>) -> (r: usize)
    ensures
        r == first_match(folded@, term_views(terms@), 0),
        r < folded@.len() || r == 0,
{
    let mut i: usize = 0;
    while i < folded.len()
        invariant
            i <= folded@.len(),
            first_match(folded@, term_views(terms@), 0) == first_match(
                folded@,
                term_views(terms@),
                i as int,
            ),
        decreases folded.len() - i,
    {
        if stands_any(folded, terms, i) {
            return i;
        }
        i += 1;
    }
    0
}

fn find_start(chars: &Vec<char>, first: usize) -> (r: usize)
    requires
        first < chars@.len() || first == 0,
    ensures
        r == snippet_start(chars@, first as int),
        r <= first,
        first - r <= SNIPPET_LEAD,
{
    if first <= SNIPPET_LEAD {
        return 0;
    }
    let start: usize = first - SNIPPET_LEAD;
    let mut i: usize = start;
    while i < first
        invariant
            1 <= start <= i <= first <= chars@.len(),
            after_space(chars@, start as int, first as int, start as int) == after_space(
                chars@,
                i as int,
                first as int,
                start as int,
            ),
            start == first - SNIPPET_LEAD,
        decreases first - i,
    {
        if text::char_is_space(chars[i - 1]) {
            return i;
        }
        i += 1;
    }
    start
}

fn find_end(chars: &Vec<char>, first: usize, start: usize) -> (r: usize)
    requires
        start <= chars@.len(),
    ensures
        r == snippet_end(chars@, first as int, start as int),
        start <= r <= chars@.len(),
{
    let total: usize = chars.len();
    if total - start <= SNIPPET_LENGTH {
        return total;
    }
    let fallback: usize = start + SNIPPET_LENGTH;
    let low: usize = if first > start + 1 {
        first
    } else {
        start + 1
    };
    let mut i: usize = fallback;
    while i > low
        invariant
            start < low,
            i <= fallback < chars@.len(),
            start < fallback,
            last_space(chars@, fallback as int, low as int, fallback as int) == last_space(
                chars@,
                i as int,
                low as int,
                fallback as int,
            ),
            fallback == start + SNIPPET_LENGTH,
            low == if first > start + 1 {
                first
            } else {
                (start + 1) as usize
            },
        decreases i,
    {
        if text::char_is_space(chars[i - 1]) {
            return i - 1;
        }
        i -= 1;
    }
    fallback
}

/// Whether a word covers a position.
fn term_covers(folded: &Vec<char>, term: &Vec<char>, i: usize) -> (r: bool)
    requires
        i < folded@.len(),
    ensures
        r == exists|at: int| #[trigger] covers(folded@, term@, at, i as int),
{
    let mut at: usize = if i < term.len() {
        0
    } else {
        i - term.len()
    };
    let low: usize = at;
    let total: usize = folded.len();
    while at <= i
        invariant
            low <= at <= i + 1,
            i < total == folded@.len(),
            low == 0 || low + term@.len() <= i,
            forall|j: int| low <= j < at ==> !#[trigger] covers(folded@, term@, j, i as int),
        decreases i + 1 - at,
    {
        if stands_at(folded.as_slice(), term.as_slice(), at) && i - at < term.len() {
            assert(covers(folded@, term@, at as int, i as int));
            return true;
        }
        at += 1;
    }
    assert forall|j: int| !#[trigger] covers(folded@, term@, j, i as int) by {
    }
    false
}

fn marks(folded: &Vec<char>, terms: &Vec<Vec<char>>, i: usize) -> (r: bool)
    requires
        i < folded@.len(),
    ensures
        r == is_marked(folded@, term_views(terms@), i as int),
{
    let ghost all = term_views(terms@);
    let mut t: usize = 0;
    while t < terms.len()
        invariant
            t <= terms@.len(),
            i < folded@.len(),
            all == term_views(terms@),
            forall|j: int, at: int|
                0 <= j < t ==> !#[trigger] covers(folded@, all[j], at, i as int),
        decreases terms.len() - t,
    {
        if term_covers(folded, &terms[t], i) {
            proof {
                let at = choose|at: int| #[trigger]
                    covers(folded@, terms@[t as int]@, at, i as int);
                assert(covers(folded@, all[t as int], at, i as int));
            }
            return true;
        }
        assert forall|j: int, at: int| 0 <= j < t + 1 implies !#[trigger] covers(
            folded@,
            all[j],
            at,
            i as int,
        ) by {
            if j == t {
                assert(all[j] == terms@[t as int]@);
            }
        }
        t += 1;
    }
    false
}

fn push_char(snips: &mut Vec<Snip>, c: char, mark: bool)
    ensures
        shown_snips(final(snips)@) == with_char(shown_snips(old(snips)@), c, mark),
{
    let ghost before = shown_snips(snips@);
    let count: usize = snips.len();
    if count > 0 && snips[count - 1].mark == mark {
        assert(before.last() == snips@.last().shown());
        snips[count - 1].text.push(c);
        assert(shown_snips(snips@) =~= with_char(before, c, mark));
    } else {
        assert(count > 0 ==> before.last() == snips@.last().shown());
        let mut run = String::new();
        run.push(c);
        assert(run@ =~= seq![c]);
        snips.push(Snip { text: run, mark });
        assert(shown_snips(snips@) =~= with_char(before, c, mark));
    }
}

/// About `SNIPPET_LENGTH` characters of `text` around the first match, cut at spaces, with every
/// match marked.
pub fn snippet(text: &str, terms: &Vec<Vec<char>>) -> (r: Vec<Snip>)
    ensures
        shown_snips(r@) == snippet_of(text@, term_views(terms@)),
{
    let chars = text::chars(text);
    let folded = fold_chars(chars.as_slice());
    let first = find_first(&folded, terms);
    let start = find_start(&chars, first);
    let end = find_end(&chars, first, start);
    let mut snips: Vec<Snip> = Vec::new();
    assert(shown_snips(snips@) =~= seq![]);
    if start > 0 {
        push_char(&mut snips, '\u{2026}', false);
    }
    let ghost lead = shown_snips(snips@);
    let mut i: usize = start;
    while i < end
        invariant
            start <= i <= end <= chars@.len(),
            chars@.len() == folded@.len(),
            shown_snips(snips@) == with_run(
                lead,
                chars@,
                folded@,
                term_views(terms@),
                start as int,
                i as int,
            ),
        decreases end - i,
    {
        let mark = marks(&folded, terms, i);
        push_char(&mut snips, chars[i], mark);
        i += 1;
    }
    if end < chars.len() {
        push_char(&mut snips, '\u{2026}', false);
    }
    snips
}

/// The text of some runs.
pub open spec fn joined(snips: Seq<(Seq<char>, bool)>) -> Seq<char>
    decreases snips.len(),
{
    if snips.len() == 0 {
        seq![]
    } else {
        joined(snips.drop_last()) + snips.last().0
    }
}

/// Whether no two neighbouring runs are marked alike.
pub open spec fn alternates(snips: Seq<(Seq<char>, bool)>) -> bool {
    forall|i: int| 1 <= i < snips.len() ==> (#[trigger] snips[i]).1 != snips[i - 1].1
}

/// A snippet quotes the text as it is, from where it starts up to where it ends, with an ellipsis
/// at each side on which something was left out; the marks alternate.
pub proof fn snippets_quote_the_text(chars: Seq<char>, terms: Seq<Seq<char>>)
    ensures
        ({
            let first = first_match(folded(chars), terms, 0);
            let start = snippet_start(chars, first);
            let end = snippet_end(chars, first, start);
            &&& 0 <= start <= end <= chars.len()
            &&& joined(snippet_of(chars, terms)) == (if start > 0 {
                seq!['\u{2026}']
            } else {
                seq![]
            }) + chars.subrange(start, end) + (if end < chars.len() {
                seq!['\u{2026}']
            } else {
                seq![]
            })
            &&& alternates(snippet_of(chars, terms))
        }),
{
    let folded = folded(chars);
    let first = first_match(folded, terms, 0);
    let start = snippet_start(chars, first);
    let end = snippet_end(chars, first, start);
    lemma_first_match(folded, terms, 0);
    lemma_after_space(chars, first - SNIPPET_LEAD, first, first - SNIPPET_LEAD);
    let low = if first > start + 1 {
        first
    } else {
        start + 1
    };
    lemma_last_space(chars, start + SNIPPET_LENGTH, low, start + SNIPPET_LENGTH);
    let none = Seq::<(Seq<char>, bool)>::empty();
    assert(joined(none) =~= seq![]);
    lemma_with_char(none, '\u{2026}', false);
    let lead = if start > 0 {
        with_char(none, '\u{2026}', false)
    } else {
        none
    };
    lemma_with_run(lead, chars, folded, terms, start, end);
    let middle = with_run(lead, chars, folded, terms, start, end);
    lemma_with_char(middle, '\u{2026}', false);
    assert(joined(snippet_of(chars, terms)) =~= (if start > 0 {
        seq!['\u{2026}']
    } else {
        seq![]
    }) + chars.subrange(start, end) + (if end < chars.len() {
        seq!['\u{2026}']
    } else {
        seq![]
    }));
}

proof fn lemma_first_match(folded: Seq<char>, terms: Seq<Seq<char>>, i: int)
    ensures
        first_match(folded, terms, i) == 0 || 0 <= i <= first_match(folded, terms, i)
            < folded.len(),
    decreases folded.len() - i,
{
    if 0 <= i < folded.len() && !any_at(folded, terms, i) {
        lemma_first_match(folded, terms, i + 1);
    }
}

proof fn lemma_after_space(chars: Seq<char>, i: int, first: int, fallback: int)
    requires
        fallback <= i,
        fallback <= first,
    ensures
        fallback <= after_space(chars, i, first, fallback) <= first,
    decreases first - i,
{
    if i < first && !text::is_space(chars[i - 1]) {
        lemma_after_space(chars, i + 1, first, fallback);
    }
}

proof fn lemma_last_space(chars: Seq<char>, i: int, low: int, fallback: int)
    requires
        i <= fallback,
    ensures
        last_space(chars, i, low, fallback) == fallback || low <= last_space(
            chars,
            i,
            low,
            fallback,
        ) <= fallback,
    decreases i - low,
{
    if i > low && !text::is_space(chars[i - 1]) {
        lemma_last_space(chars, i - 1, low, fallback);
    }
}

proof fn lemma_with_char(snips: Seq<(Seq<char>, bool)>, c: char, mark: bool)
    ensures
        joined(with_char(snips, c, mark)) == joined(snips).push(c),
        alternates(snips) ==> alternates(with_char(snips, c, mark)),
{
    let after = with_char(snips, c, mark);
    if snips.len() > 0 && snips.last().1 == mark {
        assert(after.drop_last() =~= snips.drop_last());
        assert(joined(after) =~= joined(snips).push(c));
        if alternates(snips) {
            assert forall|i: int| 1 <= i < after.len() implies (#[trigger] after[i]).1
                != after[i - 1].1 by {
                assert(snips[i].1 != snips[i - 1].1);
            }
        }
    } else {
        assert(after.drop_last() =~= snips);
        assert(joined(after) =~= joined(snips).push(c));
        if alternates(snips) {
            assert forall|i: int| 1 <= i < after.len() implies (#[trigger] after[i]).1
                != after[i - 1].1 by {
                if i < snips.len() {
                    assert(snips[i].1 != snips[i - 1].1);
                }
            }
        }
    }
}

proof fn lemma_with_run(
    before: Seq<(Seq<char>, bool)>,
    chars: Seq<char>,
    folded: Seq<char>,
    terms: Seq<Seq<char>>,
    start: int,
    end: int,
)
    requires
        0 <= start <= end <= chars.len(),
        alternates(before),
    ensures
        joined(with_run(before, chars, folded, terms, start, end)) == joined(before)
            + chars.subrange(start, end),
        alternates(with_run(before, chars, folded, terms, start, end)),
    decreases end - start,
{
    if start < end {
        lemma_with_run(before, chars, folded, terms, start, end - 1);
        let most = with_run(before, chars, folded, terms, start, end - 1);
        lemma_with_char(most, chars[end - 1], is_marked(folded, terms, end - 1));
        assert(chars.subrange(start, end) =~= chars.subrange(start, end - 1).push(chars[end - 1]));
        assert(joined(before) + chars.subrange(start, end) =~= (joined(before) + chars.subrange(
            start,
            end - 1,
        )).push(chars[end - 1]));
    } else {
        assert(joined(before) + chars.subrange(start, end) =~= joined(before));
    }
}

/// A word in the title counts 8, in the keywords 5, in a heading 3, and each time that it occurs in
/// the text 1, up to 5.
pub proof fn a_word_counts_by_where_it_is(
    title: Seq<char>,
    keywords: Seq<char>,
    headings: Seq<Seq<char>>,
    blocks: Seq<Seq<char>>,
    term: Seq<char>,
    other: Seq<char>,
)
    ensures
        ({
            let score = term_score(title, keywords, headings, blocks, term);
            &&& occurs(title, term) && !occurs(other, term) ==> score == 8 + term_score(
                other,
                keywords,
                headings,
                blocks,
                term,
            )
            &&& occurs(keywords, term) && !occurs(other, term) ==> score == 5 + term_score(
                title,
                other,
                headings,
                blocks,
                term,
            )
            &&& any_has(headings, term) ==> score == 3 + term_score(
                title,
                keywords,
                seq![],
                blocks,
                term,
            )
            &&& times_in(blocks, term) <= 5 ==> score == times_in(blocks, term) + term_score(
                title,
                keywords,
                headings,
                seq![],
                term,
            )
            &&& times_in(blocks, term) > 5 ==> score == 5 + term_score(
                title,
                keywords,
                headings,
                seq![],
                term,
            )
        }),
{
    assert(times_in(seq![], term) == 0);
}

/// A page counts what its words count together.
pub proof fn the_words_of_a_page_add_up(
    title: Seq<char>,
    keywords: Seq<char>,
    headings: Seq<Seq<char>>,
    blocks: Seq<Seq<char>>,
    terms: Seq<Seq<char>>,
    term: Seq<char>,
)
    ensures
        ({
            let before = score_of(title, keywords, headings, blocks, terms);
            let after = score_of(title, keywords, headings, blocks, terms.push(term));
            let worth = term_score(title, keywords, headings, blocks, term);
            match (before, after) {
                (Some(a), Some(b)) => worth > 0 && b == a + worth,
                (_, b) => b is None && (before is None || worth <= 0),
            }
        }),
{
    assert(terms.push(term).drop_last() =~= terms);
    lemma_times_are_counts(blocks, term);
}

proof fn lemma_times_are_counts(texts: Seq<Seq<char>>, term: Seq<char>)
    ensures
        times_in(texts, term) >= 0,
    decreases texts.len(),
{
    if texts.len() > 0 {
        lemma_times_are_counts(texts.drop_last(), term);
    }
}

/// The heading that a result leads to has the most of the words, and is the first such.
pub proof fn a_result_leads_to_the_best_heading(
    headings: Seq<Seq<char>>,
    terms: Seq<Seq<char>>,
    k: int,
)
    requires
        0 <= k < headings.len(),
    ensures
        match best_heading(headings, terms) {
            Some(i) => 0 <= i < headings.len() && matched_in(headings[i], terms) > 0 && matched_in(
                headings[k],
                terms,
            ) <= matched_in(headings[i], terms) && (k < i ==> matched_in(headings[k], terms)
                < matched_in(headings[i], terms)),
            None => matched_in(headings[k], terms) <= 0,
        },
    decreases headings.len(),
{
    let front = headings.drop_last();
    if front.len() > 0 {
        a_result_leads_to_the_best_heading(front, terms, if k < front.len() { k } else { 0 });
    } else {
        assert(best_heading(front, terms) is None);
    }
}

} // verus!
