//! The help wiki's pages and search.

use vstd::prelude::*;

use crate::text;
use crate::web::error::AppError;
use crate::wiki::markdown::Section;
use crate::wiki::search::{self, Snip};
use crate::wiki::tree;
use crate::wiki::{self, Hit, Page, Wiki};

verus! {

#[derive(Debug)]
pub struct WikiPage<'a> {
    pub nav: Vec<NavItem>,
    pub home: Link,
    pub query: String,
    pub crumbs: Vec<Link>,
    pub title: &'a String,
    pub body: &'a Vec<Section>,
    pub children: Vec<Child>,
}

#[derive(Debug)]
pub struct SearchPage {
    pub nav: Vec<NavItem>,
    pub home: Link,
    pub query: String,
    pub hits: Vec<HitRow>,
}

/// A page in the navigation tree. `open` is set on the current page and its ancestors, so the
/// reader's place stays expanded.
#[derive(Debug, PartialEq, Eq)]
pub struct NavItem {
    pub href: String,
    pub title: String,
    pub current: bool,
    pub open: bool,
    pub children: Vec<NavItem>,
}

#[derive(Debug, PartialEq, Eq)]
pub struct Link {
    pub href: String,
    pub title: String,
}

#[derive(Debug, PartialEq, Eq)]
pub struct Child {
    pub href: String,
    pub title: String,
    pub summary: String,
}

#[derive(Debug, PartialEq, Eq)]
pub struct HitRow {
    pub href: String,
    pub title: String,
    /// The page's sections above it, and the heading the link lands on.
    pub place: String,
    pub snippet: Vec<Snip>,
}

// ---------------------------------------------------------------------------------------------
// Navigation
// ---------------------------------------------------------------------------------------------

/// The pages directly under a page, in reading order.
pub open spec fn under(pages: Seq<Page>, slug: Seq<char>) -> Seq<int> {
    tree::children_upto(wiki::keys_of(pages), slug, pages.len() as int)
}

pub open spec fn any_open(items: Seq<NavItem>) -> bool {
    exists|k: int| 0 <= k < items.len() && (#[trigger] items[k]).open
}

impl NavItem {
    /// The page at position `i` with those under it.
    pub open spec fn shows(self, pages: Seq<Page>, i: int, current: Seq<char>) -> bool
        decreases self,
    {
        let below = under(pages, pages[i].slug@);
        &&& self.href@ == wiki::href_of(pages[i].slug@)
        &&& self.title@ == pages[i].title@
        &&& self.current == (pages[i].slug@ == current)
        &&& self.children@.len() == below.len()
        &&& forall|k: int|
            0 <= k < self.children@.len() ==> (#[trigger] self.children@[k]).shows(
                pages,
                below[k],
                current,
            )
        &&& self.open == (self.current || any_open(self.children@))
    }
}

pub open spec fn are_items(
    items: Seq<NavItem>,
    pages: Seq<Page>,
    positions: Seq<int>,
    current: Seq<char>,
) -> bool {
    items.len() == positions.len() && forall|k: int|
        0 <= k < items.len() ==> (#[trigger] items[k]).shows(pages, positions[k], current)
}

fn item(wiki: &Wiki, page: &Page, current: &str, Ghost(i): Ghost<int>) -> (r: NavItem)
    requires
        0 <= i < wiki.pages@.len(),
        *page == wiki.pages@[i],
    ensures
        r.shows(wiki.pages@, i, current@),
    decreases tree::longest(wiki::keys_of(wiki.pages@)) - page.slug@.len(), 1nat,
{
    let children = items(wiki, page.slug.as_str(), current);
    let is_current = text::same(page.slug.as_str(), current);
    let mut open: bool = is_current;
    let mut k: usize = 0;
    while k < children.len()
        invariant
            k <= children@.len(),
            open == (is_current || exists|j: int| 0 <= j < k && (#[trigger] children@[j]).open),
        decreases children.len() - k,
    {
        if children[k].open {
            open = true;
        }
        k += 1;
    }
    NavItem { href: page.href(), title: page.title.clone(), current: is_current, open, children }
}

fn items(wiki: &Wiki, slug: &str, current: &str) -> (r: Vec<NavItem>)
    ensures
        are_items(r@, wiki.pages@, under(wiki.pages@, slug@), current@),
    decreases tree::longest(wiki::keys_of(wiki.pages@)) - slug@.len(), 0nat,
{
    let ghost keys = wiki::keys_of(wiki.pages@);
    let ghost below = under(wiki.pages@, slug@);
    let pages = wiki.children(slug);
    let mut found: Vec<NavItem> = Vec::new();
    let mut k: usize = 0;
    while k < pages.len()
        invariant
            k <= pages@.len(),
            found@.len() == k,
            keys == wiki::keys_of(wiki.pages@),
            below == under(wiki.pages@, slug@),
            wiki::are_pages(pages@, wiki.pages@, below),
            forall|j: int|
                0 <= j < k ==> (#[trigger] found@[j]).shows(wiki.pages@, below[j], current@),
        decreases pages.len() - k,
    {
        proof {
            tree::lemma_children_upto(keys, slug@, keys.len() as int, below[k as int]);
            assert(below.contains(below[k as int]));
            tree::lemma_child(keys, slug@, below[k as int]);
            assert(keys[below[k as int]].slug == pages@[k as int].slug@);
        }
        found.push(item(wiki, pages[k], current, Ghost(below[k as int])));
        k += 1;
    }
    found
}

/// The root's children and their descendants; the root itself is `home`, above them.
pub fn nav(wiki: &Wiki, current: &str) -> (r: Vec<NavItem>)
    ensures
        are_items(r@, wiki.pages@, under(wiki.pages@, ""@), current@),
{
    items(wiki, "", current)
}

/// The child of a page that leads to a page below it.
proof fn lemma_step(keys: Seq<tree::Key>, slug: Seq<char>, s: Seq<char>) -> (i: int)
    requires
        tree::parents_exist(keys),
        tree::has_slug(keys, s),
        tree::is_above(slug, s),
        slug != s,
    ensures
        tree::is_child(keys, slug, i),
        tree::is_above(keys[i].slug, s),
    decreases s.len(),
{
    let at = choose|at: int| 0 <= at < keys.len() && (#[trigger] keys[at]).slug == s;
    tree::parents_are_shorter(s);
    let above = tree::parent_of(s)->Some_0;
    if above == slug {
        at
    } else {
        lemma_step(keys, slug, above)
    }
}

/// What is above a page is above the pages under it.
proof fn lemma_above_child(keys: Seq<tree::Key>, slug: Seq<char>, i: int, s: Seq<char>)
    requires
        tree::is_child(keys, slug, i),
        tree::is_above(keys[i].slug, s),
    ensures
        tree::is_above(slug, s),
    decreases s.len(),
{
    tree::parents_are_shorter(keys[i].slug);
    if s == keys[i].slug {
        assert(tree::is_above(slug, slug));
    } else {
        tree::parents_are_shorter(s);
        lemma_above_child(keys, slug, i, tree::parent_of(s)->Some_0);
    }
}

/// In the navigation the current page and those above it are open, and no others.
pub proof fn the_way_to_the_current_page_is_open(
    item: NavItem,
    pages: Seq<Page>,
    i: int,
    current: Seq<char>,
)
    requires
        0 <= i < pages.len(),
        item.shows(pages, i, current),
        tree::parents_exist(wiki::keys_of(pages)),
        tree::has_slug(wiki::keys_of(pages), current),
    ensures
        item.open <==> tree::is_above(pages[i].slug@, current),
    decreases item,
{
    let keys = wiki::keys_of(pages);
    let slug = pages[i].slug@;
    let below = under(pages, slug);
    assert forall|k: int| 0 <= k < item.children@.len() implies (
    #[trigger] item.children@[k]).open == tree::is_above(pages[below[k]].slug@, current)
        && tree::is_child(keys, slug, below[k]) by {
        tree::lemma_children_upto(keys, slug, keys.len() as int, below[k]);
        assert(below.contains(below[k]));
        the_way_to_the_current_page_is_open(item.children@[k], pages, below[k], current);
    }
    if item.open && !item.current {
        let k = choose|k: int| 0 <= k < item.children@.len() && (#[trigger] item.children@[k]).open;
        assert(keys[below[k]].slug == pages[below[k]].slug@);
        lemma_above_child(keys, slug, below[k], current);
    }
    if tree::is_above(slug, current) && slug != current {
        let at = lemma_step(keys, slug, current);
        tree::lemma_children_upto(keys, slug, keys.len() as int, at);
        let k = choose|k: int| 0 <= k < below.len() && below[k] == at;
        assert(item.children@[k].open);
    }
}

// ---------------------------------------------------------------------------------------------
// Pages
// ---------------------------------------------------------------------------------------------

impl Link {
    pub open spec fn leads_to(self, page: Page) -> bool {
        self.href@ == wiki::href_of(page.slug@) && self.title@ == page.title@
    }
}

impl Child {
    pub open spec fn leads_to(self, page: Page) -> bool {
        self.href@ == wiki::href_of(page.slug@) && self.title@ == page.title@ && self.summary@
            == page.summary@
    }
}

/// Where a page stands, or the number of pages.
pub open spec fn place_of(pages: Seq<Page>, slug: Seq<char>) -> int {
    tree::page_at(wiki::keys_of(pages), slug, 0)
}

pub fn home(wiki: &Wiki) -> (r: Result<Link, AppError>)
    ensures
        ({
            let at = place_of(wiki.pages@, ""@);
            if at < wiki.pages@.len() {
                r matches Ok(link) && link.leads_to(wiki.pages@[at])
            } else {
                r == Err::<Link, AppError>(AppError::NotFound)
            }
        }),
{
    match wiki.page("") {
        Some(root) => Ok(Link { href: root.href(), title: root.title.clone() }),
        None => Err(AppError::NotFound),
    }
}

impl<'a> WikiPage<'a> {
    pub open spec fn shows(self, pages: Seq<Page>, at: int) -> bool {
        let page = pages[at];
        let above = wiki::ancestors_of(wiki::keys_of(pages), page.slug@);
        let below = under(pages, page.slug@);
        &&& are_items(self.nav@, pages, under(pages, ""@), page.slug@)
        &&& self.home.leads_to(pages[place_of(pages, ""@)])
        &&& self.query@ == ""@
        &&& self.crumbs@.len() == above.len()
        &&& forall|k: int|
            0 <= k < above.len() ==> (#[trigger] self.crumbs@[k]).leads_to(pages[above[k]])
        &&& *self.title == page.title
        &&& *self.body == page.body
        &&& self.children@.len() == below.len()
        &&& forall|k: int|
            0 <= k < below.len() ==> (#[trigger] self.children@[k]).leads_to(pages[below[k]])
    }
}

/// A page of the wiki, by its path under `/wiki/`. Slashes at the end do not count.
pub fn show<'a>(wiki: &'a Wiki, path: &str) -> (r: Result<WikiPage<'a>, AppError>)
    ensures
        ({
            let at = place_of(wiki.pages@, text::drop_trailing(path@, '/'));
            if at < wiki.pages@.len() && place_of(wiki.pages@, ""@) < wiki.pages@.len() {
                r matches Ok(page) && page.shows(wiki.pages@, at)
            } else {
                r matches Err(error) && error == AppError::NotFound
            }
        }),
{
    let chars = text::chars(path);
    let slug = text::string(text::without_trailing(chars.as_slice(), '/'));
    let page = match wiki.page(slug.as_str()) {
        Some(page) => page,
        None => {
            return Err(AppError::NotFound);
        },
    };
    let home = match home(wiki) {
        Ok(home) => home,
        Err(error) => {
            return Err(error);
        },
    };
    let above = wiki.ancestors(page.slug.as_str());
    let mut crumbs: Vec<Link> = Vec::new();
    let mut k: usize = 0;
    while k < above.len()
        invariant
            k <= above@.len(),
            crumbs@.len() == k,
            forall|j: int| 0 <= j < k ==> (#[trigger] crumbs@[j]).leads_to(*above@[j]),
        decreases above.len() - k,
    {
        crumbs.push(Link { href: above[k].href(), title: above[k].title.clone() });
        k += 1;
    }
    let below = wiki.children(page.slug.as_str());
    let mut children: Vec<Child> = Vec::new();
    let mut k: usize = 0;
    while k < below.len()
        invariant
            k <= below@.len(),
            children@.len() == k,
            forall|j: int| 0 <= j < k ==> (#[trigger] children@[j]).leads_to(*below@[j]),
        decreases below.len() - k,
    {
        children.push(
            Child {
                href: below[k].href(),
                title: below[k].title.clone(),
                summary: below[k].summary.clone(),
            },
        );
        k += 1;
    }
    Ok(
        WikiPage {
            nav: nav(wiki, page.slug.as_str()),
            home,
            query: "".to_string(),
            crumbs,
            title: &page.title,
            body: &page.body,
            children,
        },
    )
}

// ---------------------------------------------------------------------------------------------
// Search
// ---------------------------------------------------------------------------------------------

#[derive(Debug, PartialEq, Eq)]
pub struct SearchQuery {
    pub q: String,
}

/// The titles of the pages from position `from` of a list on.
pub open spec fn titles_from(pages: Seq<Page>, positions: Seq<int>, from: int) -> Seq<Seq<char>> {
    Seq::new(
        if positions.len() < from {
            0
        } else {
            (positions.len() - from) as nat
        },
        |k: int| pages[positions[from + k]].title@,
    )
}

impl HitRow {
    pub open spec fn shows(self, pages: Seq<Page>, page: Page, terms: Seq<Seq<char>>) -> bool {
        let above = titles_from(
            pages,
            wiki::ancestors_of(wiki::keys_of(pages), page.slug@),
            1,
        );
        &&& self.title@ == page.title@
        &&& match page.anchor_for(terms) {
            Some(i) => {
                &&& self.href@ == wiki::href_of(page.slug@) + "#"@ + page.headings@[i].id@
                &&& self.place@ == text::join(
                    above.push(page.headings@[i].text@),
                    " \u{203a} "@,
                )
            },
            None => {
                &&& self.href@ == wiki::href_of(page.slug@)
                &&& self.place@ == text::join(above, " \u{203a} "@)
            },
        }
        &&& search::shown_snips(self.snippet@) == search::snippet_of(
            page.blocks@[search::best_block(page.folded_blocks(), terms)]@,
            terms,
        )
    }
}

fn hit_row(wiki: &Wiki, hit: Hit<'_>, Ghost(terms): Ghost<Seq<Seq<char>>>) -> (r: HitRow)
    requires
        hit.is(*hit.page, terms),
    ensures
        r.shows(wiki.pages@, *hit.page, terms),
{
    let above = wiki.ancestors(hit.page.slug.as_str());
    let ghost positions = wiki::ancestors_of(wiki::keys_of(wiki.pages@), hit.page.slug@);
    let mut place: Vec<String> = Vec::new();
    let mut k: usize = 1;
    while k < above.len()
        invariant
            1 <= k,
            k == 1 || k <= above@.len(),
            place@.len() == k - 1,
            wiki::are_pages(above@, wiki.pages@, positions),
            forall|j: int|
                0 <= j < k - 1 ==> (#[trigger] place@[j])@ == wiki.pages@[positions[1 + j]].title@,
        decreases above.len() - k,
    {
        place.push(above[k].title.clone());
        k += 1;
    }
    assert(text::views(place@) =~= titles_from(wiki.pages@, positions, 1));
    let ghost titles = text::views(place@);
    if let Some(heading) = hit.anchor {
        place.push(heading.text.clone());
        assert(text::views(place@) =~= titles.push(heading.text@));
    }
    HitRow {
        href: hit.href(),
        title: hit.page.title.clone(),
        place: text::join_strings(&place, " \u{203a} "),
        snippet: hit.snippet,
    }
}

impl SearchPage {
    pub open spec fn shows(self, pages: Seq<Page>, query: Seq<char>) -> bool {
        let found = wiki::ranking(pages, query);
        &&& are_items(self.nav@, pages, under(pages, ""@), ""@)
        &&& self.home.leads_to(pages[place_of(pages, ""@)])
        &&& self.query@ == query
        &&& self.hits@.len() == found.len()
        &&& forall|k: int|
            0 <= k < found.len() ==> (#[trigger] self.hits@[k]).shows(
                pages,
                pages[found[k].1],
                search::terms_of(query),
            )
    }
}

/// What the wiki says to a query, best first.
pub fn search(wiki: &Wiki, query: SearchQuery) -> (r: Result<SearchPage, AppError>)
    requires
        wiki.wf(),
    ensures
        if place_of(wiki.pages@, ""@) < wiki.pages@.len() {
            r matches Ok(page) && page.shows(wiki.pages@, query.q@)
        } else {
            r == Err::<SearchPage, AppError>(AppError::NotFound)
        },
{
    let home = match home(wiki) {
        Ok(home) => home,
        Err(error) => {
            return Err(error);
        },
    };
    let ghost terms = search::terms_of(query.q@);
    let ghost found = wiki::ranking(wiki.pages@, query.q@);
    let hits = wiki.search(query.q.as_str());
    let ghost all = hits@;
    let mut rows: Vec<HitRow> = Vec::new();
    for hit in it: hits
        invariant
            it.seq() == all,
            rows@.len() == it.index(),
            all.len() == found.len(),
            forall|k: int|
                0 <= k < all.len() ==> (#[trigger] all[k]).is(wiki.pages@[found[k].1], terms),
            forall|k: int|
                0 <= k < rows@.len() ==> (#[trigger] rows@[k]).shows(
                    wiki.pages@,
                    wiki.pages@[found[k].1],
                    terms,
                ),
    {
        assert(all[it.index() as int].is(wiki.pages@[found[it.index() as int].1], terms));
        rows.push(hit_row(wiki, hit, Ghost(terms)));
    }
    Ok(SearchPage { nav: nav(wiki, ""), home, query: query.q, hits: rows })
}

} // verus!
