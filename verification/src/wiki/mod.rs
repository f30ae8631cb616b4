//! The help wiki: Markdown pages, checked and rendered once, and searched in memory.
//!
//! A page's place in the tree is its slug: `filament/materials/pla` sits under
//! `filament/materials`, which must exist. The root page has the empty slug. Every internal
//! link and every image a page uses is checked when the wiki loads, so a broken one fails the
//! tests rather than a reader.

pub mod front;
pub mod images;
pub mod markdown;
pub mod search;
pub mod tree;

use vstd::prelude::*;

use crate::config;
use crate::order;
use crate::text;

pub use images::{image, Image};
pub use markdown::{Figure, Heading, Section};
pub use search::Snip;

verus! {

/// The slugs of the pages that are shipped. A page lies under its slug, with `.md` after it; one
/// that has pages under it lies in their directory, as `index.md`.
pub const SLUGS: [&'static str; 25] = [
    "",
    "printer",
    "printer/nozzle",
    "queue",
    "queue/upload",
    "queue/waiting",
    "queue/print-windows",
    "filament",
    "filament/spools",
    "filament/trays",
    "filament/weighing",
    "filament/materials",
    "filament/materials/pla",
    "filament/materials/pla-finishes",
    "filament/materials/petg",
    "filament/materials/abs",
    "filament/materials/asa",
    "filament/materials/pc",
    "filament/materials/nylon",
    "filament/materials/tpu",
    "filament/materials/fibre-filled",
    "filament/materials/drying",
    "stats",
    "stats/balances",
    "accounts",
];

#[derive(Debug, PartialEq, Eq)]
pub struct WikiError {
    pub slug: String,
    pub problem: String,
}

impl WikiError {
    pub fn message(&self) -> (r: String)
        ensures
            r@ == "wiki page "@ + config::quoted(self.slug@) + ": "@ + self.problem@,
    {
        let mut out = "wiki page ".to_string();
        out.append(config::quote(self.slug.as_str()).as_str());
        out.append(": ");
        out.append(self.problem.as_str());
        out
    }
}

#[derive(Debug, PartialEq, Eq)]
pub struct Page {
    pub slug: String,
    pub title: String,
    /// One sentence, shown under the page's link in its section and in search results.
    pub summary: String,
    pub body: Vec<Section>,
    pub headings: Vec<Heading>,
    /// Lower-cased, for search only.
    pub keywords: String,
    pub order: i64,
    /// The text of each paragraph, list item, table cell and heading.
    pub blocks: Vec<String>,
}

pub open spec fn href_of(slug: Seq<char>) -> Seq<char> {
    if slug.len() == 0 {
        "/wiki"@
    } else {
        "/wiki/"@ + slug
    }
}

pub fn href(slug: &str) -> (r: String)
    ensures
        r@ == href_of(slug@),
{
    if slug.is_empty() {
        "/wiki".to_string()
    } else {
        let mut out = "/wiki/".to_string();
        out.append(slug);
        out
    }
}

impl Page {
    pub fn href(&self) -> (r: String)
        ensures
            r@ == href_of(self.slug@),
    {
        href(self.slug.as_str())
    }

    pub open spec fn key(self) -> tree::Key {
        tree::Key { order: self.order as int, title: self.title@, slug: self.slug@ }
    }

    /// A page that was read from a file.
    pub open spec fn is_from(self, slug: Seq<char>, source: Seq<char>) -> bool {
        let (front, markdown) = front::front_of(source)->Ok_0;
        let events = markdown::events_of(markdown);
        let shown = markdown::plan_of(events)->Ok_0;
        &&& page_problem(slug, source) is None
        &&& self.slug@ == slug
        &&& self.title@ == front.title
        &&& self.summary@ == front.summary
        &&& markdown::is_body(self.body@, markdown, shown.sections)
        &&& markdown::shown_headings(self.headings@) == shown.headings
        &&& self.keywords@ == text::lowercase(front.keywords)
        &&& self.order == front.order
        &&& text::views(self.blocks@) == seq![front.summary] + markdown::blocks_upto(
            events,
            events.len() as int,
        ).0
    }
}

pub open spec fn keys_of(pages: Seq<Page>) -> Seq<tree::Key> {
    pages.map_values(|page: Page| page.key())
}

// ---------------------------------------------------------------------------------------------
// Problems
// ---------------------------------------------------------------------------------------------

/// Whether a route other than a page's own answers a slug.
pub open spec fn is_reserved(slug: Seq<char>) -> bool {
    slug == "search"@
}

/// What is wrong with a file.
pub open spec fn page_problem(slug: Seq<char>, source: Seq<char>) -> Option<Seq<char>> {
    if is_reserved(slug) {
        Some("the slug is taken by a route"@)
    } else {
        match front::front_of(source) {
            Err(problem) => Some(problem),
            Ok((_, markdown)) => match markdown::plan_of(markdown::events_of(markdown)) {
                Err(problem) => Some(problem),
                Ok(_) => None,
            },
        }
    }
}

/// Slugs and files.
pub type Sources = Seq<(Seq<char>, Seq<char>)>;

pub open spec fn source_views(sources: Seq<(&str, &str)>) -> Sources {
    sources.map_values(|source: (&str, &str)| (source.0@, source.1@))
}

pub open spec fn source_plan(source: Seq<char>) -> markdown::PlanShown {
    markdown::plan_of(markdown::events_of(front::front_of(source)->Ok_0.1))->Ok_0
}

pub open spec fn source_keys(sources: Sources) -> Seq<tree::Key> {
    sources.map_values(
        |source: (Seq<char>, Seq<char>)|
            {
                let front = front::front_of(source.1)->Ok_0.0;
                tree::Key { order: front.order, title: front.title, slug: source.0 }
            },
    )
}

/// What links can lead to: a page and its headings.
pub ghost struct Entry {
    pub slug: Seq<char>,
    pub headings: Seq<(Seq<char>, Seq<char>)>,
}

pub open spec fn source_entries(sources: Sources) -> Seq<Entry> {
    sources.map_values(
        |source: (Seq<char>, Seq<char>)|
            Entry { slug: source.0, headings: source_plan(source.1).headings },
    )
}

pub open spec fn page_entries(pages: Seq<Page>) -> Seq<Entry> {
    pages.map_values(
        |page: Page|
            Entry { slug: page.slug@, headings: markdown::shown_headings(page.headings@) },
    )
}

/// The links of the first `n` files, each with the page it stands on.
pub open spec fn links_upto(sources: Sources, n: int) -> Seq<(Seq<char>, Seq<char>)>
    decreases n,
{
    if n <= 0 {
        seq![]
    } else {
        links_upto(sources, n - 1) + source_plan(sources[n - 1].1).links.map_values(
            |link: Seq<char>| (sources[n - 1].0, link),
        )
    }
}

/// Where a link leads: its path, and the heading on it.
pub open spec fn link_parts(link: Seq<char>) -> (Seq<char>, Seq<char>) {
    match text::split_once(link, '#') {
        Some(parts) => parts,
        None => (link, seq![]),
    }
}

/// The page that a path names, or `None` if it names none.
pub open spec fn linked_slug(path: Seq<char>, from: Seq<char>) -> Option<Seq<char>> {
    if path.len() == 0 {
        Some(from)
    } else if path == "/wiki"@ {
        Some(seq![])
    } else if text::starts_with(path, "/wiki/"@) {
        Some(path.skip("/wiki/"@.len() as int))
    } else {
        None
    }
}

pub open spec fn has_entry(entries: Seq<Entry>, slug: Seq<char>, fragment: Seq<char>) -> bool {
    exists|i: int|
        0 <= i < entries.len() && (#[trigger] entries[i]).slug == slug && (fragment.len() == 0
            || markdown::has_heading(entries[i].headings, fragment))
}

/// Whether a link names a page, and a heading on it if it has a fragment. `from` resolves a bare
/// `#fragment`. Links that leave the wiki are not checked.
pub open spec fn leads(entries: Seq<Entry>, link: Seq<char>, from: Seq<char>) -> bool {
    let (path, fragment) = link_parts(link);
    match linked_slug(path, from) {
        Some(slug) => has_entry(entries, slug, fragment),
        None => leaves(path),
    }
}

/// Whether a path leads out of the wiki: to another page of the site, or by a scheme in front,
/// such as `https:`.
pub open spec fn leaves(path: Seq<char>) -> bool {
    path[0] == '/' || text::find(path, ':', 0) < text::find(path, '/', 0)
}

/// The first file from position `i` on that is broken by itself.
pub open spec fn bad_page(sources: Sources, i: int) -> Option<(Seq<char>, Seq<char>)>
    decreases sources.len() - i,
{
    if i < 0 || i >= sources.len() {
        None
    } else {
        match page_problem(sources[i].0, sources[i].1) {
            Some(problem) => Some((sources[i].0, problem)),
            None => bad_page(sources, i + 1),
        }
    }
}

/// The first page from position `i` on whose parent is missing.
pub open spec fn orphan(keys: Seq<tree::Key>, i: int) -> Option<(Seq<char>, Seq<char>)>
    decreases keys.len() - i,
{
    if i < 0 || i >= keys.len() {
        None
    } else {
        match tree::parent_of(keys[i].slug) {
            Some(above) if !tree::has_slug(keys, above) => Some(
                (keys[i].slug, "its parent "@ + config::quoted(above) + " does not exist"@),
            ),
            _ => orphan(keys, i + 1),
        }
    }
}

/// The first link from position `i` on that leads nowhere.
pub open spec fn dead_link(
    entries: Seq<Entry>,
    links: Seq<(Seq<char>, Seq<char>)>,
    i: int,
) -> Option<(Seq<char>, Seq<char>)>
    decreases links.len() - i,
{
    if i < 0 || i >= links.len() {
        None
    } else if !leads(entries, links[i].1, links[i].0) {
        Some((links[i].0, "the link "@ + config::quoted(links[i].1) + " leads nowhere"@))
    } else {
        dead_link(entries, links, i + 1)
    }
}

/// What is wrong with a wiki, if anything: the page, and the problem.
pub open spec fn wiki_problem(sources: Sources) -> Option<(Seq<char>, Seq<char>)> {
    let keys = source_keys(sources);
    if bad_page(sources, 0) is Some {
        bad_page(sources, 0)
    } else if !tree::unique(keys) {
        Some((seq![], "two pages share a slug"@))
    } else if orphan(keys, 0) is Some {
        orphan(keys, 0)
    } else {
        dead_link(source_entries(sources), links_upto(sources, sources.len() as int), 0)
    }
}

proof fn lemma_no_orphan(keys: Seq<tree::Key>, i: int)
    requires
        0 <= i,
        orphan(keys, i) is None,
    ensures
        forall|k: int|
            i <= k < keys.len() ==> match tree::parent_of((#[trigger] keys[k]).slug) {
                Some(above) => tree::has_slug(keys, above),
                None => true,
            },
    decreases keys.len() - i,
{
    if i < keys.len() {
        lemma_no_orphan(keys, i + 1);
    }
}

proof fn lemma_no_dead_link(
    entries: Seq<Entry>,
    links: Seq<(Seq<char>, Seq<char>)>,
    i: int,
    k: int,
)
    requires
        0 <= i <= k < links.len(),
        dead_link(entries, links, i) is None,
    ensures
        leads(entries, links[k].1, links[k].0),
    decreases links.len() - i,
{
    if i < k {
        lemma_no_dead_link(entries, links, i + 1, k);
    }
}

// ---------------------------------------------------------------------------------------------
// Loading
// ---------------------------------------------------------------------------------------------

#[derive(Debug, PartialEq, Eq)]
pub struct Wiki {
    /// Depth-first in reading order, so a position in this list is also the tree order.
    pub pages: Vec<Page>,
}

impl Wiki {
    /// No two pages share a slug, and every page has a block: its summary.
    pub open spec fn wf(self) -> bool {
        &&& tree::unique(keys_of(self.pages@))
        &&& forall|i: int|
            0 <= i < self.pages@.len() ==> (#[trigger] self.pages@[i]).blocks@.len() > 0
    }

    /// The pages of some files, in the order of the tree.
    pub open spec fn is_from(self, sources: Sources) -> bool {
        let order = tree::listed(source_keys(sources), seq![]);
        &&& self.pages@.len() == sources.len()
        &&& order.len() == sources.len()
        &&& forall|k: int|
            0 <= k < self.pages@.len() ==> (#[trigger] self.pages@[k]).is_from(
                sources[order[k]].0,
                sources[order[k]].1,
            )
    }
}

struct Link {
    from: String,
    to: String,
}

spec fn link_views(links: Seq<Link>) -> Seq<(Seq<char>, Seq<char>)> {
    links.map_values(|link: Link| (link.from@, link.to@))
}

fn push_links(links: &mut Vec<Link>, slug: &str, found: &Vec<String>)
    ensures
        link_views(final(links)@) == link_views(old(links)@) + text::views(found@).map_values(
            |link: Seq<char>| (slug@, link),
        ),
{
    let ghost before = links@;
    let mut i: usize = 0;
    while i < found.len()
        invariant
            i <= found@.len(),
            links@.len() == before.len() + i,
            forall|j: int| 0 <= j < before.len() ==> #[trigger] links@[j] == before[j],
            forall|j: int|
                before.len() <= j < links@.len() ==> (#[trigger] links@[j]).from@ == slug@
                    && links@[j].to@ == found@[j - before.len()]@,
        decreases found.len() - i,
    {
        links.push(Link { from: slug.to_string(), to: found[i].clone() });
        i += 1;
    }
    assert(link_views(links@) =~= link_views(before) + text::views(found@).map_values(
        |link: Seq<char>| (slug@, link),
    ));
}

/// Reads a file: the page, and its links.
fn read_page(slug: &str, source: &str) -> (r: Result<(Page, Vec<String>), String>)
    ensures
        match r {
            Ok((page, links)) => page.is_from(slug@, source@) && text::views(links@)
                == source_plan(source@).links,
            Err(problem) => page_problem(slug@, source@) == Some(problem@),
        },
{
    if text::same(slug, "search") {
        return Err("the slug is taken by a route".to_string());
    }
    let (front, markdown) = match front::front_matter(source) {
        Err(problem) => {
            return Err(problem);
        },
        Ok(read) => read,
    };
    let rendered = match markdown::render(markdown.as_str()) {
        Err(problem) => {
            return Err(problem);
        },
        Ok(rendered) => rendered,
    };
    let keywords = text::to_lowercase(front.keywords.as_str());
    let mut blocks = rendered.blocks;
    let ghost plain = text::views(blocks@);
    blocks.insert(0, front.summary.clone());
    assert(text::views(blocks@) =~= seq![front.summary@] + plain);
    let page = Page {
        slug: slug.to_string(),
        title: front.title,
        summary: front.summary,
        body: rendered.body,
        headings: rendered.headings,
        keywords,
        order: front.order,
        blocks,
    };
    Ok((page, rendered.links))
}

fn any_slug(pages: &Vec<Page>, slug: &str, end: usize) -> (r: bool)
    requires
        end <= pages@.len(),
    ensures
        r == tree::has_slug(keys_of(pages@).take(end as int), slug@),
{
    let ghost keys = keys_of(pages@).take(end as int);
    let mut i: usize = 0;
    while i < end
        invariant
            i <= end <= pages@.len(),
            keys == keys_of(pages@).take(end as int),
            forall|j: int| 0 <= j < i ==> (#[trigger] keys[j]).slug != slug@,
        decreases end - i,
    {
        if text::same(pages[i].slug.as_str(), slug) {
            assert(keys[i as int].slug == slug@);
            return true;
        }
        i += 1;
    }
    false
}

fn slugs_differ(pages: &Vec<Page>) -> (r: bool)
    ensures
        r == tree::unique(keys_of(pages@)),
{
    let ghost keys = keys_of(pages@);
    let mut i: usize = 0;
    while i < pages.len()
        invariant
            i <= pages@.len(),
            keys == keys_of(pages@),
            forall|a: int, b: int|
                0 <= a < b < i ==> (#[trigger] keys[a]).slug != (#[trigger] keys[b]).slug,
        decreases pages.len() - i,
    {
        if any_slug(pages, pages[i].slug.as_str(), i) {
            proof {
                let before = keys.take(i as int);
                let k = choose|k: int|
                    0 <= k < before.len() && (#[trigger] before[k]).slug == pages@[i as int].slug@;
                assert(keys[k].slug == keys[i as int].slug);
            }
            return false;
        }
        assert forall|a: int, b: int| 0 <= a < b < i + 1 implies (#[trigger] keys[a]).slug != (
        #[trigger] keys[b]).slug by {
            if b == i {
                assert(keys.take(i as int)[a].slug == keys[a].slug);
            }
        }
        i += 1;
    }
    true
}

fn find_orphan(pages: &Vec<Page>) -> (r: Option<WikiError>)
    ensures
        match (r, orphan(keys_of(pages@), 0)) {
            (Some(error), Some(shown)) => error.slug@ == shown.0 && error.problem@ == shown.1,
            (None, None) => true,
            _ => false,
        },
{
    let ghost keys = keys_of(pages@);
    let mut i: usize = 0;
    while i < pages.len()
        invariant
            i <= pages@.len(),
            keys == keys_of(pages@),
            orphan(keys, 0) == orphan(keys, i as int),
        decreases pages.len() - i,
    {
        assert(keys[i as int].slug == pages@[i as int].slug@);
        if let Some(above) = tree::parent(pages[i].slug.as_str()) {
            assert(keys.take(keys.len() as int) =~= keys);
            if !any_slug(pages, above.as_str(), pages.len()) {
                let mut problem = "its parent ".to_string();
                problem.append(config::quote(above.as_str()).as_str());
                problem.append(" does not exist");
                return Some(WikiError { slug: pages[i].slug.clone(), problem });
            }
        }
        i += 1;
    }
    None
}

fn any_entry(pages: &Vec<Page>, slug: &str, fragment: &str) -> (r: bool)
    ensures
        r == has_entry(page_entries(pages@), slug@, fragment@),
{
    let ghost entries = page_entries(pages@);
    let bare = fragment.is_empty();
    let mut i: usize = 0;
    while i < pages.len()
        invariant
            i <= pages@.len(),
            entries == page_entries(pages@),
            bare == (fragment@.len() == 0),
            forall|j: int|
                0 <= j < i ==> !((#[trigger] entries[j]).slug == slug@ && (fragment@.len() == 0
                    || markdown::has_heading(entries[j].headings, fragment@))),
        decreases pages.len() - i,
    {
        if text::same(pages[i].slug.as_str(), slug) && (bare || markdown::any_heading(
            &pages[i].headings,
            fragment,
        )) {
            assert(entries[i as int].slug == slug@);
            return true;
        }
        i += 1;
    }
    false
}

fn leads_in(pages: &Vec<Page>, link: &str, from: &str) -> (r: bool)
    ensures
        r == leads(page_entries(pages@), link@, from@),
{
    let ghost entries = page_entries(pages@);
    let link = text::chars(link);
    let (path, fragment) = match text::split_at_char(link.as_slice(), '#') {
        Some((path, fragment)) => (text::string(path), text::string(fragment)),
        None => {
            let none = String::new();
            assert(none@ =~= seq![]);
            (text::string(link.as_slice()), none)
        },
    };
    let path_chars = text::chars(path.as_str());
    let prefix = text::chars("/wiki/");
    let slug = if path.as_str().is_empty() {
        from.to_string()
    } else if text::same(path.as_str(), "/wiki") {
        let none = String::new();
        assert(none@ =~= seq![]);
        none
    } else if text::has_prefix(path_chars.as_slice(), prefix.as_slice()) {
        let rest = vstd::slice::slice_subrange(
            path_chars.as_slice(),
            prefix.len(),
            path_chars.len(),
        );
        assert(rest@ =~= path@.skip(prefix@.len() as int));
        text::string(rest)
    } else {
        return path_chars[0] == '/' || text::find_char(path_chars.as_slice(), ':', 0)
            < text::find_char(path_chars.as_slice(), '/', 0);
    };
    any_entry(pages, slug.as_str(), fragment.as_str())
}

fn find_dead_link(pages: &Vec<Page>, links: &Vec<Link>) -> (r: Option<WikiError>)
    ensures
        match (r, dead_link(page_entries(pages@), link_views(links@), 0)) {
            (Some(error), Some(shown)) => error.slug@ == shown.0 && error.problem@ == shown.1,
            (None, None) => true,
            _ => false,
        },
{
    let ghost entries = page_entries(pages@);
    let ghost all = link_views(links@);
    let mut i: usize = 0;
    while i < links.len()
        invariant
            i <= links@.len(),
            entries == page_entries(pages@),
            all == link_views(links@),
            dead_link(entries, all, 0) == dead_link(entries, all, i as int),
        decreases links.len() - i,
    {
        let link = &links[i];
        assert(all[i as int] == (link.from@, link.to@));
        if !leads_in(pages, link.to.as_str(), link.from.as_str()) {
            let mut problem = "the link ".to_string();
            problem.append(config::quote(link.to.as_str()).as_str());
            problem.append(" leads nowhere");
            return Some(WikiError { slug: link.from.clone(), problem });
        }
        i += 1;
    }
    None
}

// ---------------------------------------------------------------------------------------------
// Order
// ---------------------------------------------------------------------------------------------

fn page_before(pages: &Vec<Page>, a: usize, b: usize) -> (r: bool)
    requires
        a < pages@.len(),
        b < pages@.len(),
    ensures
        r == tree::key_le(keys_of(pages@)[a as int], keys_of(pages@)[b as int]),
{
    let a = &pages[a];
    let b = &pages[b];
    if a.order != b.order {
        return a.order < b.order;
    }
    let (first, second) = if text::same(a.title.as_str(), b.title.as_str()) {
        (text::chars(a.slug.as_str()), text::chars(b.slug.as_str()))
    } else {
        (text::chars(a.title.as_str()), text::chars(b.title.as_str()))
    };
    text::slice_at_or_before(first.as_slice(), second.as_slice())
}

spec fn position_le(keys: Seq<tree::Key>) -> spec_fn(usize, usize) -> bool {
    |a: usize, b: usize| tree::key_le(keys[a as int], keys[b as int])
}

fn under(page: &Page, slug: &str) -> (r: bool)
    ensures
        r == (tree::parent_of(page.slug@) == Some(slug@)),
{
    match tree::parent(page.slug.as_str()) {
        Some(above) => text::same(above.as_str(), slug),
        None => false,
    }
}

fn child_positions(pages: &Vec<Page>, slug: &str) -> (r: Vec<usize>)
    ensures
        search::as_ints(r@) == tree::children_upto(
            keys_of(pages@),
            slug@,
            pages@.len() as int,
        ),
        forall|k: int| 0 <= k < r@.len() ==> #[trigger] r@[k] < pages@.len(),
{
    let ghost keys = keys_of(pages@);
    let mut found: Vec<usize> = Vec::new();
    let mut i: usize = 0;
    assert(search::as_ints(found@) =~= seq![]);
    while i < pages.len()
        invariant
            i <= pages@.len(),
            keys == keys_of(pages@),
            search::as_ints(found@) == tree::children_upto(keys, slug@, i as int),
            forall|k: int| 0 <= k < found@.len() ==> #[trigger] found@[k] < pages@.len(),
        decreases pages.len() - i,
    {
        assert(keys[i as int].slug == pages@[i as int].slug@);
        if under(&pages[i], slug) {
            let ghost before = search::as_ints(found@);
            found.push(i);
            assert(search::as_ints(found@) =~= before.push(i as int));
        }
        i += 1;
    }
    found
}

/// Puts positions in the order of their pages.
fn sort_positions(pages: &Vec<Page>, found: Vec<usize>) -> (r: Vec<usize>)
    requires
        forall|k: int| 0 <= k < found@.len() ==> #[trigger] found@[k] < pages@.len(),
    ensures
        search::as_ints(r@) == order::sorted(
            search::as_ints(found@),
            tree::index_le(keys_of(pages@)),
        ),
        r@.len() == found@.len(),
{
    let ghost keys = keys_of(pages@);
    let ghost le = position_le(keys);
    let ghost all = found@;
    let mut sorted: Vec<usize> = Vec::new();
    let mut i: usize = 0;
    assert(all.take(0) =~= seq![]);
    while i < found.len()
        invariant
            i <= found@.len(),
            all == found@,
            keys == keys_of(pages@),
            le == position_le(keys),
            sorted@ == order::sorted(all.take(i as int), le),
            sorted@.len() == i,
            forall|k: int| 0 <= k < all.len() ==> #[trigger] all[k] < pages@.len(),
            forall|k: int| 0 <= k < sorted@.len() ==> #[trigger] sorted@[k] < pages@.len(),
        decreases found.len() - i,
    {
        assert(all.take(i + 1).drop_last() =~= all.take(i as int));
        let x: usize = found[i];
        assert(x == all[i as int]);
        let ghost before = sorted@;
        let mut at: usize = sorted.len();
        while at > 0 && !page_before(pages, sorted[at - 1], x)
            invariant
                at <= sorted@.len(),
                sorted@ == before,
                x < pages@.len(),
                keys == keys_of(pages@),
                le == position_le(keys),
                forall|k: int| 0 <= k < sorted@.len() ==> #[trigger] sorted@[k] < pages@.len(),
                forall|k: int| at <= k < sorted@.len() ==> !le(#[trigger] sorted@[k], x),
            decreases at,
        {
            at -= 1;
        }
        proof {
            order::lemma_inserted_at(before, x, le, at as int);
        }
        sorted.insert(at, x);
        i += 1;
    }
    assert(all.take(i as int) =~= all);
    proof {
        order::sorting_a_view(all, le, |i: usize| i as int, tree::index_le(keys));
    }
    sorted
}

/// The page with a slug, and then every page under it, depth first.
fn depth_first(pages: &Vec<Page>, slug: &str, out: &mut Vec<usize>)
    ensures
        search::as_ints(final(out)@) == search::as_ints(old(out)@) + tree::listed(
            keys_of(pages@),
            slug@,
        ),
    decreases tree::longest(keys_of(pages@)) - slug@.len(),
{
    let ghost keys = keys_of(pages@);
    let ghost before = search::as_ints(out@);
    let ghost children_spec = tree::children_of(keys, slug@);
    let at = find_page(pages, slug);
    let ghost own: Seq<int> = if at < pages@.len() {
        seq![at as int]
    } else {
        seq![]
    };
    if at < pages.len() {
        out.push(at);
    }
    assert(search::as_ints(out@) =~= before + own);
    let found = child_positions(pages, slug);
    let children = sort_positions(pages, found);
    assert(search::as_ints(children@) == children_spec);
    let mut i: usize = 0;
    assert(children_spec.take(0) =~= seq![]);
    assert(before + own + tree::listed_all(keys, slug@, seq![]) =~= before + own);
    while i < children.len()
        invariant
            i <= children@.len(),
            keys == keys_of(pages@),
            children_spec == tree::children_of(keys, slug@),
            search::as_ints(children@) == children_spec,
            search::as_ints(out@) == before + own + tree::listed_all(
                keys,
                slug@,
                children_spec.take(i as int),
            ),
        decreases children.len() - i,
    {
        let child: usize = children[i];
        proof {
            assert(children_spec[i as int] == child);
            tree::lemma_children_of(keys, slug@, child as int);
            assert(children_spec.contains(child as int));
            tree::lemma_child(keys, slug@, child as int);
            assert(children_spec.take(i + 1).drop_last() =~= children_spec.take(i as int));
            assert(keys[child as int].slug == pages@[child as int].slug@);
        }
        depth_first(pages, pages[child].slug.as_str(), out);
        assert(before + own + tree::listed_all(keys, slug@, children_spec.take(i as int))
            + tree::listed(keys, keys[child as int].slug) =~= before + own + tree::listed_all(
            keys,
            slug@,
            children_spec.take(i + 1),
        ));
        i += 1;
    }
    assert(children_spec.take(i as int) =~= children_spec);
    assert(before + own + tree::listed_all(keys, slug@, children_spec) =~= before + tree::listed(
        keys,
        slug@,
    ));
}

/// The position of the page with a slug, or the number of pages.
fn find_page(pages: &Vec<Page>, slug: &str) -> (r: usize)
    ensures
        r == tree::page_at(keys_of(pages@), slug@, 0),
        r <= pages@.len(),
{
    let ghost keys = keys_of(pages@);
    let mut i: usize = 0;
    while i < pages.len()
        invariant
            i <= pages@.len(),
            keys == keys_of(pages@),
            tree::page_at(keys, slug@, 0) == tree::page_at(keys, slug@, i as int),
        decreases pages.len() - i,
    {
        assert(keys[i as int].slug == pages@[i as int].slug@);
        if text::same(pages[i].slug.as_str(), slug) {
            return i;
        }
        i += 1;
    }
    i
}

/// The pages of some files that are all in order, before they are sorted.
spec fn are_read(pages: Seq<Page>, sources: Sources) -> bool {
    pages.len() == sources.len() && forall|k: int|
        0 <= k < pages.len() ==> (#[trigger] pages[k]).is_from(sources[k].0, sources[k].1)
}

proof fn lemma_read(pages: Seq<Page>, sources: Sources)
    requires
        are_read(pages, sources),
    ensures
        keys_of(pages) == source_keys(sources),
        page_entries(pages) == source_entries(sources),
{
    assert forall|k: int| 0 <= k < pages.len() implies keys_of(pages)[k] == source_keys(
        sources,
    )[k] && page_entries(pages)[k] == source_entries(sources)[k] by {
        assert(pages[k].is_from(sources[k].0, sources[k].1));
    }
    assert(keys_of(pages) =~= source_keys(sources));
    assert(page_entries(pages) =~= source_entries(sources));
}

/// Moves the pages into the given order, which holds every position once.
fn reorder(pages: Vec<Page>, positions: &Vec<usize>) -> (r: Vec<Page>)
    requires
        positions@.no_duplicates(),
        forall|k: int| 0 <= k < positions@.len() ==> #[trigger] positions@[k] < pages@.len(),
    ensures
        r@.len() == positions@.len(),
        forall|k: int| 0 <= k < r@.len() ==> #[trigger] r@[k] == pages@[positions@[k] as int],
{
    let ghost all = pages@;
    let mut remaining: Vec<Option<Page>> = Vec::new();
    let mut pages = pages;
    while pages.len() > 0
        invariant
            remaining@.len() + pages@.len() == all.len(),
            pages@ == all.skip(remaining@.len() as int),
            forall|k: int| 0 <= k < remaining@.len() ==> #[trigger] remaining@[k] == Some(all[k]),
        decreases pages.len(),
    {
        let page = pages.remove(0);
        assert(page == all[remaining@.len() as int]);
        remaining.push(Some(page));
        assert(pages@ =~= all.skip(remaining@.len() as int));
    }
    let mut ordered: Vec<Page> = Vec::new();
    let mut i: usize = 0;
    while i < positions.len()
        invariant
            i <= positions@.len(),
            remaining@.len() == all.len(),
            ordered@.len() == i,
            positions@.no_duplicates(),
            forall|k: int| 0 <= k < positions@.len() ==> #[trigger] positions@[k] < all.len(),
            forall|k: int| 0 <= k < i ==> #[trigger] ordered@[k] == all[positions@[k] as int],
            forall|j: int|
                0 <= j < all.len() && (forall|k: int| 0 <= k < i ==> positions@[k] != j)
                    ==> #[trigger] remaining@[j] == Some(all[j]),
        decreases positions.len() - i,
    {
        let at: usize = positions[i];
        let ghost before = remaining@;
        assert(remaining@[at as int] == Some(all[at as int])) by {
            assert forall|k: int| 0 <= k < i implies positions@[k] != at by {
                assert(positions@[k] != positions@[i as int]);
            }
        }
        let taken = remaining.remove(at);
        remaining.insert(at, None);
        assert forall|j: int|
            0 <= j < all.len() && (forall|k: int| 0 <= k < i + 1 ==> positions@[k] != j) implies
            #[trigger] remaining@[j] == Some(all[j]) by {
            assert(positions@[i as int] != j);
            assert(remaining@[j] == before[j]);
        }
        if let Some(page) = taken {
            ordered.push(page);
        }
        i += 1;
    }
    ordered
}

impl Wiki {
    /// Reads the files of a wiki, given with their slugs.
    pub fn load(sources: &[(&str, &str)]) -> (r: Result<Wiki, WikiError>)
        ensures
            match (r, wiki_problem(source_views(sources@))) {
                (Ok(wiki), None) => wiki.wf() && wiki.is_from(source_views(sources@)),
                (Err(error), Some(shown)) => error.slug@ == shown.0 && error.problem@ == shown.1,
                _ => false,
            },
    {
        let ghost files = source_views(sources@);
        let mut pages: Vec<Page> = Vec::new();
        let mut links: Vec<Link> = Vec::new();
        let mut i: usize = 0;
        assert(link_views(links@) =~= seq![]);
        while i < sources.len()
            invariant
                i <= sources@.len(),
                files == source_views(sources@),
                are_read(pages@, files.take(i as int)),
                link_views(links@) == links_upto(files, i as int),
                bad_page(files, 0) == bad_page(files, i as int),
            decreases sources.len() - i,
        {
            let (slug, source) = sources[i];
            assert(files[i as int] == (slug@, source@));
            match read_page(slug, source) {
                Err(problem) => {
                    return Err(WikiError { slug: slug.to_string(), problem });
                },
                Ok((page, found)) => {
                    push_links(&mut links, slug, &found);
                    let ghost earlier = pages@;
                    pages.push(page);
                    proof {
                        assert(source_plan(files[i as int].1).links.map_values(
                            |link: Seq<char>| (files[i as int].0, link),
                        ) =~= text::views(found@).map_values(|link: Seq<char>| (slug@, link)));
                        assert forall|k: int| 0 <= k < pages@.len() implies (
                        #[trigger] pages@[k]).is_from(
                            files.take(i + 1)[k].0,
                            files.take(i + 1)[k].1,
                        ) by {
                            if k < i {
                                assert(pages@[k] == earlier[k]);
                                assert(files.take(i as int)[k] == files.take(i + 1)[k]);
                            }
                        }
                    }
                },
            }
            i += 1;
        }
        assert(files.take(i as int) =~= files);
        proof {
            lemma_read(pages@, files);
        }
        let ghost keys = source_keys(files);
        if !slugs_differ(&pages) {
            let slug = String::new();
            assert(slug@ =~= seq![]);
            return Err(WikiError { slug, problem: "two pages share a slug".to_string() });
        }
        if let Some(error) = find_orphan(&pages) {
            return Err(error);
        }
        if let Some(error) = find_dead_link(&pages, &links) {
            return Err(error);
        }
        let mut positions: Vec<usize> = Vec::new();
        assert(search::as_ints(positions@) =~= seq![]);
        proof {
            reveal_strlit("");
            assert(""@ =~= seq![]);
        }
        depth_first(&pages, "", &mut positions);
        let ghost order = tree::listed(keys, seq![]);
        proof {
            assert(search::as_ints(positions@) =~= order);
            lemma_no_orphan(keys, 0);
            tree::every_page_is_listed_once(keys);
            assert forall|k: int| 0 <= k < positions@.len() implies #[trigger] positions@[k]
                < pages@.len() by {
                assert(order[k] == positions@[k]);
            }
            assert forall|a: int, b: int| 0 <= a < b < positions@.len() implies positions@[a]
                != positions@[b] by {
                assert(order[a] == positions@[a] && order[b] == positions@[b]);
            }
        }
        let ghost read = pages@;
        let ordered = reorder(pages, &positions);
        proof {
            assert forall|k: int| 0 <= k < ordered@.len() implies (#[trigger] ordered@[k]).is_from(
                files[order[k]].0,
                files[order[k]].1,
            ) && ordered@[k].blocks@.len() > 0 by {
                assert(order[k] == positions@[k]);
                assert(read[order[k]].is_from(files[order[k]].0, files[order[k]].1));
                assert(text::views(ordered@[k].blocks@).len() == ordered@[k].blocks@.len());
            }
            assert forall|a: int, b: int| 0 <= a < b < ordered@.len() implies (
            #[trigger] keys_of(ordered@)[a]).slug != (#[trigger] keys_of(ordered@)[b]).slug by {
                assert(ordered@[a] == read[positions@[a] as int]);
                assert(ordered@[b] == read[positions@[b] as int]);
                assert(order[a] == positions@[a] && order[b] == positions@[b]);
                assert(order[a] != order[b]);
                assert(keys[order[a]].slug == ordered@[a].slug@);
                assert(keys[order[b]].slug == ordered@[b].slug@);
                if order[a] < order[b] {
                    assert(keys[order[a]].slug != keys[order[b]].slug);
                } else {
                    assert(keys[order[b]].slug != keys[order[a]].slug);
                }
            }
        }
        Ok(Wiki { pages: ordered })
    }

    pub fn page(&self, slug: &str) -> (r: Option<&Page>)
        ensures
            ({
                let at = tree::page_at(keys_of(self.pages@), slug@, 0);
                match r {
                    Some(page) => at < self.pages@.len() && *page == self.pages@[at]
                        && page.slug@ == slug@,
                    None => at == self.pages@.len(),
                }
            }),
    {
        let at = find_page(&self.pages, slug);
        if at < self.pages.len() {
            proof {
                tree::lemma_page_at(keys_of(self.pages@), slug@, 0);
                assert(keys_of(self.pages@)[at as int].slug == self.pages@[at as int].slug@);
            }
            Some(&self.pages[at])
        } else {
            None
        }
    }

    /// The pages directly under a page, in reading order.
    pub fn children(&self, slug: &str) -> (r: Vec<&Page>)
        ensures
            are_pages(
                r@,
                self.pages@,
                tree::children_upto(keys_of(self.pages@), slug@, self.pages@.len() as int),
            ),
    {
        let positions = child_positions(&self.pages, slug);
        let ghost shown = search::as_ints(positions@);
        let mut found: Vec<&Page> = Vec::new();
        let mut i: usize = 0;
        while i < positions.len()
            invariant
                i <= positions@.len(),
                found@.len() == i,
                shown == search::as_ints(positions@),
                forall|k: int|
                    0 <= k < positions@.len() ==> #[trigger] positions@[k] < self.pages@.len(),
                forall|k: int|
                    0 <= k < i ==> *(#[trigger] found@[k]) == self.pages@[shown[k]],
            decreases positions.len() - i,
        {
            assert(shown[i as int] == positions@[i as int]);
            found.push(&self.pages[positions[i]]);
            i += 1;
        }
        found
    }

    /// From the root down to the page's parent.
    pub fn ancestors(&self, slug: &str) -> (r: Vec<&Page>)
        ensures
            are_pages(r@, self.pages@, ancestors_of(keys_of(self.pages@), slug@)),
        decreases slug@.len(),
    {
        match tree::parent(slug) {
            None => Vec::new(),
            Some(above) => {
                proof {
                    tree::parents_are_shorter(slug@);
                }
                let mut chain = self.ancestors(above.as_str());
                if let Some(page) = self.page(above.as_str()) {
                    chain.push(page);
                }
                chain
            },
        }
    }

    /// Whether `link` names a page, and a heading on it if it has a fragment. `from` resolves a
    /// bare `#fragment`. Links that leave the wiki are not checked.
    pub fn resolves(&self, link: &str, from: &str) -> (r: bool)
        ensures
            r == leads(page_entries(self.pages@), link@, from@),
    {
        leads_in(&self.pages, link, from)
    }
}

pub open spec fn are_pages(found: Seq<&Page>, pages: Seq<Page>, positions: Seq<int>) -> bool {
    found.len() == positions.len() && forall|k: int|
        0 <= k < found.len() ==> *(#[trigger] found[k]) == pages[positions[k]]
}

/// The pages above a slug, from the root down.
pub open spec fn ancestors_of(keys: Seq<tree::Key>, slug: Seq<char>) -> Seq<int>
    decreases slug.len(),
    via ancestors_of_decreases
{
    match tree::parent_of(slug) {
        None => seq![],
        Some(above) => {
            let at = tree::page_at(keys, above, 0);
            if at < keys.len() {
                ancestors_of(keys, above).push(at)
            } else {
                ancestors_of(keys, above)
            }
        },
    }
}

#[via_fn]
proof fn ancestors_of_decreases(keys: Seq<tree::Key>, slug: Seq<char>) {
    if slug.len() > 0 {
        tree::parents_are_shorter(slug);
    }
}

/// Every link on a page of a wiki that loaded leads somewhere in it.
pub proof fn a_loaded_wiki_has_no_dead_links(sources: Sources, wiki: Wiki, i: int)
    requires
        wiki_problem(sources) is None,
        wiki.is_from(sources),
        0 <= i < links_upto(sources, sources.len() as int).len(),
    ensures
        leads(
            page_entries(wiki.pages@),
            links_upto(sources, sources.len() as int)[i].1,
            links_upto(sources, sources.len() as int)[i].0,
        ),
{
    let keys = source_keys(sources);
    let links = links_upto(sources, sources.len() as int);
    let entries = source_entries(sources);
    let shown = page_entries(wiki.pages@);
    let order = tree::listed(keys, seq![]);
    lemma_no_dead_link(entries, links, 0, i);
    lemma_no_orphan(keys, 0);
    tree::every_page_is_listed_once(keys);
    let (path, fragment) = link_parts(links[i].1);
    match linked_slug(path, links[i].0) {
        Some(slug) => {
            let k = choose|k: int|
                0 <= k < entries.len() && (#[trigger] entries[k]).slug == slug && (fragment.len()
                    == 0 || markdown::has_heading(entries[k].headings, fragment));
            assert(order.contains(k));
            let at = choose|at: int| 0 <= at < order.len() && order[at] == k;
            assert(wiki.pages@[at].is_from(sources[order[at]].0, sources[order[at]].1));
            assert(shown[at] == entries[k]);
        },
        None => {},
    }
}

// ---------------------------------------------------------------------------------------------
// Search
// ---------------------------------------------------------------------------------------------

pub struct Hit<'a> {
    pub page: &'a Page,
    /// The heading that matched best, when the title alone does not explain the hit.
    pub anchor: Option<&'a Heading>,
    pub snippet: Vec<Snip>,
}

impl<'a> Hit<'a> {
    pub fn href(&self) -> (r: String)
        ensures
            r@ == match self.anchor {
                Some(heading) => href_of(self.page.slug@) + "#"@ + heading.id@,
                None => href_of(self.page.slug@),
            },
    {
        let mut out = self.page.href();
        if let Some(heading) = self.anchor {
            out.append("#");
            out.append(heading.id.as_str());
        }
        out
    }

    /// What is shown of a page that matches.
    pub open spec fn is(self, page: Page, terms: Seq<Seq<char>>) -> bool {
        &&& *self.page == page
        &&& match (self.anchor, page.anchor_for(terms)) {
            (Some(heading), Some(i)) => *heading == page.headings@[i],
            (None, None) => true,
            _ => false,
        }
        &&& search::shown_snips(self.snippet@) == search::snippet_of(
            page.blocks@[search::best_block(page.folded_blocks(), terms)]@,
            terms,
        )
    }
}

impl Page {
    pub open spec fn folded_headings(self) -> Seq<Seq<char>> {
        self.headings@.map_values(|heading: Heading| search::folded(heading.text@))
    }

    pub open spec fn folded_blocks(self) -> Seq<Seq<char>> {
        self.blocks@.map_values(|block: String| search::folded(block@))
    }

    /// What the page is worth to a search, or `None` if it lacks one of the words.
    pub open spec fn score_for(self, terms: Seq<Seq<char>>) -> Option<int> {
        search::score_of(
            search::folded(self.title@),
            search::folded(self.keywords@),
            self.folded_headings(),
            self.folded_blocks(),
            terms,
        )
    }

    /// The heading that matched best, when the title alone does not explain the hit.
    pub open spec fn anchor_for(self, terms: Seq<Seq<char>>) -> Option<int> {
        if search::matched_in(search::folded(self.title@), terms) == terms.len() {
            None
        } else {
            search::best_heading(self.folded_headings(), terms)
        }
    }

    fn fold_headings(&self) -> (r: Vec<Vec<char>>)
        ensures
            search::term_views(r@) == self.folded_headings(),
    {
        let mut out: Vec<Vec<char>> = Vec::new();
        let mut i: usize = 0;
        while i < self.headings.len()
            invariant
                i <= self.headings@.len(),
                out@.len() == i,
                forall|k: int|
                    0 <= k < i ==> (#[trigger] out@[k])@ == search::folded(
                        self.headings@[k].text@,
                    ),
            decreases self.headings.len() - i,
        {
            out.push(search::fold(self.headings[i].text.as_str()));
            i += 1;
        }
        assert(search::term_views(out@) =~= self.folded_headings());
        out
    }

    fn fold_blocks(&self) -> (r: Vec<Vec<char>>)
        ensures
            search::term_views(r@) == self.folded_blocks(),
    {
        let mut out: Vec<Vec<char>> = Vec::new();
        let mut i: usize = 0;
        while i < self.blocks.len()
            invariant
                i <= self.blocks@.len(),
                out@.len() == i,
                forall|k: int|
                    0 <= k < i ==> (#[trigger] out@[k])@ == search::folded(self.blocks@[k]@),
            decreases self.blocks.len() - i,
        {
            out.push(search::fold(self.blocks[i].as_str()));
            i += 1;
        }
        assert(search::term_views(out@) =~= self.folded_blocks());
        out
    }

    fn score(&self, terms: &Vec<Vec<char>>) -> (r: Option<u128>)
        ensures
            match (r, self.score_for(search::term_views(terms@))) {
                (Some(score), Some(shown)) => score == shown,
                (None, None) => true,
                _ => false,
            },
    {
        let title = search::fold(self.title.as_str());
        let keywords = search::fold(self.keywords.as_str());
        let headings = self.fold_headings();
        let blocks = self.fold_blocks();
        search::score(&title, &keywords, &headings, &blocks, terms)
    }

    fn hit(&self, terms: &Vec<Vec<char>>) -> (r: Hit<'_>)
        requires
            self.blocks@.len() > 0,
        ensures
            r.is(*self, search::term_views(terms@)),
    {
        let title = search::fold(self.title.as_str());
        let headings = self.fold_headings();
        let blocks = self.fold_blocks();
        assert(search::term_views(headings@).len() == headings@.len());
        assert(search::term_views(blocks@).len() == blocks@.len());
        assert(search::term_views(terms@).len() == terms@.len());
        let anchor = if search::count_matched(title.as_slice(), terms) == terms.len() {
            None
        } else {
            match search::pick_heading(&headings, terms) {
                Some(i) => Some(&self.headings[i]),
                None => None,
            }
        };
        let best = search::pick_block(&blocks, terms);
        let snippet = search::snippet(self.blocks[best].as_str(), terms);
        Hit { page: self, anchor, snippet }
    }
}

/// The pages among the first `n` that match, with what they are worth.
pub open spec fn matches_upto(pages: Seq<Page>, terms: Seq<Seq<char>>, n: int) -> Seq<(int, int)>
    decreases n,
{
    if n <= 0 {
        seq![]
    } else {
        match pages[n - 1].score_for(terms) {
            Some(score) => matches_upto(pages, terms, n - 1).push((score, n - 1)),
            None => matches_upto(pages, terms, n - 1),
        }
    }
}

/// Better pages come first, and of equally good ones those that stand first in the wiki.
pub open spec fn ranks_before() -> spec_fn((int, int), (int, int)) -> bool {
    |a: (int, int), b: (int, int)| a.0 > b.0 || (a.0 == b.0 && a.1 <= b.1)
}

/// The pages that match every word of a query, best first.
pub open spec fn ranking(pages: Seq<Page>, query: Seq<char>) -> Seq<(int, int)> {
    let terms = search::terms_of(query);
    if terms.len() == 0 {
        seq![]
    } else {
        order::sorted(matches_upto(pages, terms, pages.len() as int), ranks_before())
    }
}

spec fn ranks_first() -> spec_fn((u128, usize), (u128, usize)) -> bool {
    |a: (u128, usize), b: (u128, usize)| a.0 > b.0 || (a.0 == b.0 && a.1 <= b.1)
}

spec fn rank_ints(found: Seq<(u128, usize)>) -> Seq<(int, int)> {
    found.map_values(rank_int())
}

spec fn rank_int() -> spec_fn((u128, usize)) -> (int, int) {
    |p: (u128, usize)| (p.0 as int, p.1 as int)
}

impl Wiki {
    /// Pages matching every word of `query`, best first. Titles weigh most, then keywords, then
    /// headings, then how often the words occur in the text.
    pub fn search(&self, query: &str) -> (r: Vec<Hit<'_>>)
        requires
            self.wf(),
        ensures
            r@.len() == ranking(self.pages@, query@).len(),
            forall|k: int|
                0 <= k < r@.len() ==> (#[trigger] r@[k]).is(
                    self.pages@[ranking(self.pages@, query@)[k].1],
                    search::terms_of(query@),
                ),
    {
        let terms = search::terms(query);
        let ghost words = search::term_views(terms@);
        if terms.len() == 0 {
            return Vec::new();
        }
        let mut found: Vec<(u128, usize)> = Vec::new();
        let mut i: usize = 0;
        assert(rank_ints(found@) =~= seq![]);
        while i < self.pages.len()
            invariant
                i <= self.pages@.len(),
                words == search::term_views(terms@),
                rank_ints(found@) == matches_upto(self.pages@, words, i as int),
                forall|k: int| 0 <= k < found@.len() ==> (#[trigger] found@[k]).1 < i,
            decreases self.pages.len() - i,
        {
            if let Some(score) = self.pages[i].score(&terms) {
                let ghost before = rank_ints(found@);
                found.push((score, i));
                assert(rank_ints(found@) =~= before.push((score as int, i as int)));
            }
            i += 1;
        }
        let ghost all = found@;
        let before = |a: &(u128, usize), b: &(u128, usize)| -> (r: bool)
            ensures
                r == ranks_first()(*a, *b),
            { a.0 > b.0 || (a.0 == b.0 && a.1 <= b.1) };
        let ranked = order::sort_by(found, before, Ghost(ranks_first()));
        proof {
            order::sorting_a_view(all, ranks_first(), rank_int(), ranks_before());
            assert(rank_ints(ranked@) == ranking(self.pages@, query@));
            order::sorting_keeps_every_item(all, ranks_first());
            assert forall|k: int| 0 <= k < ranked@.len() implies (#[trigger] ranked@[k]).1
                < self.pages@.len() by {
                vstd::seq_lib::to_multiset_contains(ranked@, ranked@[k]);
                vstd::seq_lib::to_multiset_contains(all, ranked@[k]);
                assert(ranked@.contains(ranked@[k]));
                let j = choose|j: int| 0 <= j < all.len() && all[j] == ranked@[k];
            }
        }
        let ghost shown = rank_ints(ranked@);
        let mut hits: Vec<Hit> = Vec::new();
        let mut k: usize = 0;
        while k < ranked.len()
            invariant
                k <= ranked@.len(),
                hits@.len() == k,
                self.wf(),
                words == search::term_views(terms@),
                shown == rank_ints(ranked@),
                forall|j: int|
                    0 <= j < ranked@.len() ==> (#[trigger] ranked@[j]).1 < self.pages@.len(),
                forall|j: int|
                    0 <= j < k ==> (#[trigger] hits@[j]).is(self.pages@[shown[j].1], words),
            decreases ranked.len() - k,
        {
            let at: usize = ranked[k].1;
            assert(shown[k as int] == (ranked@[k as int].0 as int, at as int));
            assert(self.pages@[at as int].blocks@.len() > 0);
            hits.push(self.pages[at].hit(&terms));
            k += 1;
        }
        hits
    }
}

/// A page is found exactly when every word of the query occurs in its title, its keywords, its
/// headings or its text.
pub proof fn search_needs_every_word(page: Page, terms: Seq<Seq<char>>)
    ensures
        page.score_for(terms) is Some <==> forall|t: int|
            0 <= t < terms.len() ==> {
                ||| search::occurs(search::folded(page.title@), #[trigger] terms[t])
                ||| search::occurs(search::folded(page.keywords@), terms[t])
                ||| search::any_has(page.folded_headings(), terms[t])
                ||| search::any_has(page.folded_blocks(), terms[t])
            },
    decreases terms.len(),
{
    search::lemma_score_is_some(
        search::folded(page.title@),
        search::folded(page.keywords@),
        page.folded_headings(),
        page.folded_blocks(),
        terms,
    );
}

proof fn lemma_matches_of_same(pages: Seq<Page>, a: Seq<Seq<char>>, b: Seq<Seq<char>>, n: int)
    requires
        0 <= n <= pages.len(),
        a.no_duplicates(),
        b.no_duplicates(),
        forall|term: Seq<char>| #[trigger] a.contains(term) <==> b.contains(term),
    ensures
        matches_upto(pages, a, n) == matches_upto(pages, b, n),
    decreases n,
{
    if n > 0 {
        lemma_matches_of_same(pages, a, b, n - 1);
        let page = pages[n - 1];
        search::lemma_score_of_same(
            search::folded(page.title@),
            search::folded(page.keywords@),
            page.folded_headings(),
            page.folded_blocks(),
            a,
            b,
        );
    }
}

/// The order of the words of a query, how often they come and their case do not matter: queries
/// of the same words find the same pages in the same order.
pub proof fn a_query_is_a_set_of_words(pages: Seq<Page>, a: Seq<char>, b: Seq<char>)
    requires
        forall|term: Seq<char>| #[trigger]
            search::comes_in(search::runs_of(a), term) <==> search::comes_in(
                search::runs_of(b),
                term,
            ),
    ensures
        ranking(pages, a) == ranking(pages, b),
{
    let (x, y) = (search::terms_of(a), search::terms_of(b));
    search::terms_are_the_different_words(a, seq![]);
    search::terms_are_the_different_words(b, seq![]);
    assert forall|term: Seq<char>| #[trigger] x.contains(term) <==> y.contains(term) by {
        search::terms_are_the_different_words(a, term);
        search::terms_are_the_different_words(b, term);
        assert(search::comes_in(search::runs_of(a), term) <==> search::comes_in(
            search::runs_of(b),
            term,
        ));
    }
    search::lemma_score_of_same(seq![], seq![], seq![], seq![], x, y);
    lemma_matches_of_same(pages, x, y, pages.len() as int);
}

/// Upper-casing a query finds the same pages in the same order.
pub proof fn queries_ignore_case(pages: Seq<Page>, query: Seq<char>)
    ensures
        ranking(pages, text::upper(query)) == ranking(pages, query),
{
    search::the_case_of_a_query_does_not_matter(query);
}

proof fn lemma_matches_upto(pages: Seq<Page>, terms: Seq<Seq<char>>, n: int, i: int)
    requires
        0 <= n <= pages.len(),
    ensures
        matches_upto(pages, terms, n).no_duplicates(),
        forall|k: int|
            0 <= k < matches_upto(pages, terms, n).len() ==> 0 <= (#[trigger] matches_upto(
                pages,
                terms,
                n,
            )[k]).1 < n && pages[matches_upto(pages, terms, n)[k].1].score_for(terms) == Some(
                matches_upto(pages, terms, n)[k].0,
            ),
        0 <= i < n && pages[i].score_for(terms) is Some ==> matches_upto(pages, terms, n).contains(
            (pages[i].score_for(terms)->0, i),
        ),
    decreases n,
{
    if n > 0 {
        lemma_matches_upto(pages, terms, n - 1, i);
        let before = matches_upto(pages, terms, n - 1);
        let after = matches_upto(pages, terms, n);
        if pages[n - 1].score_for(terms) is Some {
            let entry = (pages[n - 1].score_for(terms)->0, n - 1);
            assert(after == before.push(entry));
            assert(after[before.len() as int] == entry);
            assert forall|k: int| 0 <= k < after.len() implies 0 <= (#[trigger] after[k]).1 < n
                && pages[after[k].1].score_for(terms) == Some(after[k].0) by {
                if k < before.len() {
                    assert(after[k] == before[k]);
                }
            }
            if i < n - 1 && pages[i].score_for(terms) is Some && 0 <= i {
                let sought = (pages[i].score_for(terms)->0, i);
                let k = choose|k: int| 0 <= k < before.len() && before[k] == sought;
                assert(after[k] == sought);
            }
        }
    }
}

/// A search finds every page that has all the words, once, and no other page; without words it
/// finds nothing.
pub proof fn a_search_finds_every_match_once(pages: Seq<Page>, query: Seq<char>, i: int)
    ensures
        search::terms_of(query).len() == 0 ==> ranking(pages, query).len() == 0,
        (exists|k: int|
            0 <= k < ranking(pages, query).len() && (#[trigger] ranking(pages, query)[k]).1 == i)
            <==> search::terms_of(query).len() > 0 && 0 <= i < pages.len() && pages[i].score_for(
            search::terms_of(query),
        ) is Some,
        forall|k: int, m: int|
            0 <= k < m < ranking(pages, query).len() ==> (#[trigger] ranking(pages, query)[k]).1
                != (#[trigger] ranking(pages, query)[m]).1,
{
    let terms = search::terms_of(query);
    if terms.len() > 0 {
        let all = matches_upto(pages, terms, pages.len() as int);
        let ranked = ranking(pages, query);
        lemma_matches_upto(pages, terms, pages.len() as int, i);
        order::sorting_keeps_every_item(all, ranks_before());
        all.lemma_multiset_has_no_duplicates();
        ranked.lemma_multiset_has_no_duplicates_conv();
        assert forall|k: int| 0 <= k < ranked.len() implies all.contains(#[trigger] ranked[k]) by {
            vstd::seq_lib::to_multiset_contains(ranked, ranked[k]);
            vstd::seq_lib::to_multiset_contains(all, ranked[k]);
            assert(ranked.contains(ranked[k]));
        }
        if 0 <= i < pages.len() && pages[i].score_for(terms) is Some {
            let sought = (pages[i].score_for(terms)->0, i);
            vstd::seq_lib::to_multiset_contains(ranked, sought);
            vstd::seq_lib::to_multiset_contains(all, sought);
            let k = choose|k: int| 0 <= k < ranked.len() && ranked[k] == sought;
            assert(ranked[k].1 == i);
        }
        assert forall|k: int, m: int| 0 <= k < m < ranked.len() implies (#[trigger] ranked[k]).1 != (
        #[trigger] ranked[m]).1 by {
            let x = choose|x: int| 0 <= x < all.len() && all[x] == ranked[k];
            let y = choose|y: int| 0 <= y < all.len() && all[y] == ranked[m];
            if ranked[k].1 == ranked[m].1 {
                assert(ranked[k] == ranked[m]);
            }
        }
    }
}

// ---------------------------------------------------------------------------------------------
// The way to a page
// ---------------------------------------------------------------------------------------------

/// In a wiki that loaded, every page but the root stands under a page.
pub proof fn a_loaded_wiki_has_every_parent(sources: Sources, wiki: Wiki)
    requires
        wiki_problem(sources) is None,
        wiki.is_from(sources),
    ensures
        tree::parents_exist(keys_of(wiki.pages@)),
{
    let keys = source_keys(sources);
    let shown = keys_of(wiki.pages@);
    let order = tree::listed(keys, seq![]);
    lemma_no_orphan(keys, 0);
    tree::every_page_is_listed_once(keys);
    assert forall|i: int| 0 <= i < shown.len() implies match tree::parent_of(
        (#[trigger] shown[i]).slug,
    ) {
        Some(above) => tree::has_slug(shown, above),
        None => true,
    } by {
        assert(wiki.pages@[i].is_from(sources[order[i]].0, sources[order[i]].1));
        assert(keys[order[i]].slug == shown[i].slug);
        match tree::parent_of(shown[i].slug) {
            Some(above) => {
                let k = choose|k: int| 0 <= k < keys.len() && (#[trigger] keys[k]).slug == above;
                assert(order.contains(k));
                let at = choose|at: int| 0 <= at < order.len() && order[at] == k;
                assert(wiki.pages@[at].is_from(sources[order[at]].0, sources[order[at]].1));
                assert(shown[at].slug == above);
            },
            None => {},
        }
    }
}

proof fn lemma_ancestors(keys: Seq<tree::Key>, slug: Seq<char>)
    requires
        tree::parents_exist(keys),
        tree::has_slug(keys, slug),
    ensures
        ({
            let chain = ancestors_of(keys, slug);
            &&& chain.len() == 0 <==> slug.len() == 0
            &&& slug.len() > 0 ==> keys[chain[0]].slug.len() == 0
            &&& slug.len() > 0 ==> tree::parent_of(slug) == Some(keys[chain.last()].slug)
            &&& forall|k: int|
                0 <= k < chain.len() ==> 0 <= #[trigger] chain[k] < keys.len()
                    && keys[chain[k]].slug.len() < slug.len()
            &&& forall|k: int|
                0 <= k < chain.len() - 1 ==> tree::is_child(
                    keys,
                    keys[#[trigger] chain[k]].slug,
                    chain[k + 1],
                )
        }),
    decreases slug.len(),
{
    if slug.len() > 0 {
        tree::parents_are_shorter(slug);
        let above = tree::parent_of(slug)->0;
        let i = choose|i: int| 0 <= i < keys.len() && (#[trigger] keys[i]).slug == slug;
        assert(tree::parent_of(keys[i].slug) == Some(above));
        assert(tree::has_slug(keys, above));
        tree::lemma_page_at(keys, above, 0);
        lemma_ancestors(keys, above);
        let before = ancestors_of(keys, above);
        let at = tree::page_at(keys, above, 0);
        let chain = ancestors_of(keys, slug);
        assert(chain == before.push(at));
        if before.len() > 0 {
            assert(chain[0] == before[0]);
        }
        assert forall|k: int| 0 <= k < chain.len() implies 0 <= #[trigger] chain[k] < keys.len()
            && keys[chain[k]].slug.len() < slug.len() by {
            if k < before.len() {
                assert(chain[k] == before[k]);
            }
        }
        assert forall|k: int| 0 <= k < chain.len() - 1 implies tree::is_child(
            keys,
            keys[#[trigger] chain[k]].slug,
            chain[k + 1],
        ) by {
            assert(chain[k] == before[k]);
            if k + 1 < before.len() {
                assert(chain[k + 1] == before[k + 1]);
            } else {
                assert(before[k] == before.last());
                assert(chain[k + 1] == at);
            }
        }
    }
}

/// In a wiki that loaded, the pages above a page lead from the root down to it: each is a child
/// of the one before it, the page itself is a child of the last, and it is not among them. Only
/// the root has none above it.
pub proof fn the_way_to_a_page_starts_at_the_root(sources: Sources, wiki: Wiki, slug: Seq<char>)
    requires
        wiki_problem(sources) is None,
        wiki.is_from(sources),
        tree::has_slug(keys_of(wiki.pages@), slug),
    ensures
        ({
            let keys = keys_of(wiki.pages@);
            let chain = ancestors_of(keys, slug);
            &&& chain.len() == 0 <==> slug.len() == 0
            &&& slug.len() > 0 ==> keys[chain[0]].slug.len() == 0
            &&& slug.len() > 0 ==> tree::parent_of(slug) == Some(keys[chain.last()].slug)
            &&& forall|k: int|
                0 <= k < chain.len() ==> 0 <= #[trigger] chain[k] < keys.len()
                    && keys[chain[k]].slug != slug
            &&& forall|k: int|
                0 <= k < chain.len() - 1 ==> tree::is_child(
                    keys,
                    keys[#[trigger] chain[k]].slug,
                    chain[k + 1],
                )
        }),
{
    a_loaded_wiki_has_every_parent(sources, wiki);
    lemma_ancestors(keys_of(wiki.pages@), slug);
}

/// How many slashes a slug has.
pub open spec fn slashes(slug: Seq<char>) -> nat
    decreases slug.len(),
{
    if slug.len() == 0 {
        0
    } else {
        slashes(slug.drop_last()) + if slug.last() == '/' {
            1nat
        } else {
            0
        }
    }
}

proof fn lemma_slashes(slug: Seq<char>)
    ensures
        tree::last_slash(slug) < slug.len(),
        tree::last_slash(slug) < 0 ==> slashes(slug) == 0,
        tree::last_slash(slug) >= 0 ==> slug[tree::last_slash(slug)] == '/' && slashes(slug)
            == slashes(slug.take(tree::last_slash(slug))) + 1,
    decreases slug.len(),
{
    if slug.len() > 0 {
        let front = slug.drop_last();
        if slug.last() == '/' {
            assert(slug.take(slug.len() - 1) =~= front);
        } else {
            lemma_slashes(front);
            let at = tree::last_slash(front);
            if at >= 0 {
                assert(front.take(at) =~= slug.take(at));
            }
        }
    }
}

/// A page is as deep in the wiki as its slug has parts. (A slug that starts with a slash has an
/// empty part, which is no page of its own.)
pub proof fn slugs_tell_how_deep_a_page_is(keys: Seq<tree::Key>, slug: Seq<char>)
    requires
        tree::parents_exist(keys),
        tree::has_slug(keys, slug),
        slug.len() > 0,
        slug[0] != '/',
    ensures
        ancestors_of(keys, slug).len() == 1 + slashes(slug),
    decreases slug.len(),
{
    tree::parents_are_shorter(slug);
    let above = tree::parent_of(slug)->0;
    let i = choose|i: int| 0 <= i < keys.len() && (#[trigger] keys[i]).slug == slug;
    assert(tree::parent_of(keys[i].slug) == Some(above));
    assert(tree::has_slug(keys, above));
    tree::lemma_page_at(keys, above, 0);
    lemma_slashes(slug);
    if above.len() > 0 {
        assert(above[0] == slug[0]);
        slugs_tell_how_deep_a_page_is(keys, above);
    } else {
        assert(ancestors_of(keys, above).len() == 0);
        if tree::last_slash(slug) >= 0 {
            assert(slug[0] == '/');
        }
    }
}

/// The best match comes first; of two that are as good, the one that comes first in the wiki.
pub proof fn the_best_match_comes_first(pages: Seq<Page>, query: Seq<char>)
    ensures
        forall|i: int, j: int|
            0 <= i < j < ranking(pages, query).len() ==> (#[trigger] ranking(pages, query)[i]).0 > (
            #[trigger] ranking(pages, query)[j]).0 || ranking(pages, query)[i].0 == ranking(
                pages,
                query,
            )[j].0 && ranking(pages, query)[i].1 <= ranking(pages, query)[j].1,
{
    let terms = search::terms_of(query);
    let found = matches_upto(pages, terms, pages.len() as int);
    let ranked = ranking(pages, query);
    if terms.len() > 0 {
        order::sorting_sorts(found, ranks_before());
        assert forall|i: int, j: int| 0 <= i < j < ranked.len() implies (#[trigger] ranked[i]).0 > (
        #[trigger] ranked[j]).0 || ranked[i].0 == ranked[j].0 && ranked[i].1 <= ranked[j].1 by {
            assert(ranks_before()(ranked[i], ranked[j]));
        }
    }
}

/// A link of the wiki leads to a page that is there; the address of a page leads to it.
pub proof fn pages_are_linked_by_their_address(slug: Seq<char>, from: Seq<char>)
    ensures
        linked_slug(href_of(slug), from) == Some(slug),
        linked_slug(seq![], from) == Some(from),
{
    reveal_strlit("/wiki");
    reveal_strlit("/wiki/");
    if slug.len() > 0 {
        let path = "/wiki/"@ + slug;
        assert(path.len() > 6);
        assert(path.take(6) =~= "/wiki/"@);
        assert(path.skip(6) =~= slug);
        assert("/wiki"@.len() == 5);
    } else {
        assert(slug =~= seq![]);
    }
}

} // verus!
