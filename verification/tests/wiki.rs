use printhub::web::error::AppError;
use printhub::web::help::{nav, search, show, SearchQuery};
use printhub::wiki::images::{image, nth_image, IMAGE_COUNT};
use printhub::wiki::markdown::anchor;
use printhub::wiki::search::{occurrences, snippet, terms, Snip};
use printhub::wiki::{href, Wiki, WikiError, SLUGS};

fn page(title: &str, body: &str) -> String {
    format!("---\ntitle: {title}\nsummary: About {title}.\n---\n{body}")
}

fn load(pages: &[(&'static str, String)]) -> Result<Wiki, WikiError> {
    let sources: Vec<(&str, &str)> = pages
        .iter()
        .map(|(slug, text)| (*slug, text.as_str()))
        .collect();
    Wiki::load(&sources)
}

#[test]
fn slugs_nest_at_most_three_deep() {
    // The navigation template has one loop per level.
    for slug in SLUGS {
        assert!(slug.split('/').count() <= 3, "{slug}");
    }
}

#[test]
fn a_wiki_with_a_page_under_every_slug_loads() {
    // A page under every slug that is served; links lead from each page to the first one.
    let pages: Vec<(&'static str, String)> = SLUGS
        .iter()
        .map(|slug| (*slug, page("A page", "[home](/wiki)")))
        .collect();
    let wiki = match load(&pages) {
        Ok(wiki) => wiki,
        Err(err) => panic!("{}", err.message()),
    };
    assert_eq!(wiki.pages.len(), SLUGS.len());
}

#[test]
fn pages_are_ordered_depth_first_by_order_then_title() {
    let wiki = load(&[
        ("", page("Home", "")),
        ("b", page("B", "")),
        (
            "a",
            "---\ntitle: A\nsummary: A.\norder: 2\n---\n".to_owned(),
        ),
        ("b/x", page("X", "")),
        (
            "c",
            "---\ntitle: C\nsummary: C.\norder: -1\n---\n".to_owned(),
        ),
    ])
    .unwrap();
    let slugs: Vec<&str> = wiki.pages.iter().map(|p| p.slug.as_str()).collect();
    assert_eq!(slugs, ["", "c", "b", "b/x", "a"]);
    let children: Vec<&str> = wiki.children("").iter().map(|p| p.slug.as_str()).collect();
    assert_eq!(children, ["c", "b", "a"]);
    let ancestors: Vec<&str> = wiki
        .ancestors("b/x")
        .iter()
        .map(|p| p.slug.as_str())
        .collect();
    assert_eq!(ancestors, ["", "b"]);
}

#[test]
fn broken_pages_are_refused() {
    let root = ("", page("Home", ""));
    let problem = |pages: &[(&'static str, String)]| load(pages).err().unwrap().problem;
    assert!(problem(&[root.clone(), ("a/b", page("B", ""))]).contains("parent"));
    assert!(problem(&[root.clone(), ("a", page("A", "[x](/wiki/nope)"))]).contains("nowhere"));
    assert!(problem(&[root.clone(), ("a", page("A", "[x](/wiki#nope)"))]).contains("nowhere"));
    assert!(problem(&[root.clone(), ("a", page("A", "<b>x</b>"))]).contains("HTML"));
    assert!(problem(&[root.clone(), ("a", page("A", "![x](missing.jpg)"))]).contains("image"));
    assert!(problem(&[
        root.clone(),
        ("a", page("A", "Look: ![x](pla-wood-benchy.jpg)"))
    ])
    .contains("alone"));
    assert!(problem(&[root.clone(), ("a", page("A", "## Same\n\n## Same"))]).contains("two"));
    assert!(problem(&[root.clone(), ("search", page("S", ""))]).contains("route"));
    assert!(problem(&[("", "title: no fences".to_owned())]).contains("front matter"));
    assert!(problem(&[root.clone(), root.clone()]).contains("share a slug"));
}

#[test]
fn headings_get_ids_and_links_resolve_to_them() {
    let wiki = load(&[
        (
            "",
            page(
                "Home",
                "## Print profile\n\n### Custom {#mine}\n\n[here](#print-profile)",
            ),
        ),
        (
            "a",
            page("A", "[home](/wiki#mine) and [out](https://example.com)"),
        ),
    ])
    .unwrap();
    let home = wiki.page("").unwrap();
    assert!(home.body[0].html.contains(r#"<h2 id="print-profile">"#));
    assert!(wiki.resolves("/wiki#mine", "a"));
    assert!(wiki.resolves("#print-profile", ""));
    assert!(!wiki.resolves("/wiki/a#print-profile", ""));
    assert_eq!(anchor("Bed, textured PEI (°C)"), "bed-textured-pei-c");
}

#[test]
fn image_paragraphs_become_galleries_between_the_text() {
    let wiki = load(&[(
        "",
        page(
            "Home",
            "Before.\n\n![A boat](pla-wood-benchy.jpg \"Wood PLA\")\n![Another](pla-benchy-black.jpg)\n\nAfter.",
        ),
    )])
    .unwrap();
    let body = &wiki.page("").unwrap().body;
    assert_eq!(body.len(), 2);
    assert!(body[0].html.contains("Before."));
    let captions: Vec<&str> = body[0].gallery.iter().map(|f| f.caption.as_str()).collect();
    assert_eq!(captions, ["Wood PLA", ""]);
    assert_eq!(body[0].gallery[0].alt, "A boat");
    assert!(body[1].html.contains("After.") && body[1].gallery.is_empty());
}

#[test]
fn search_needs_every_word_and_ranks_titles_first() {
    let wiki = load(&[
        ("", page("Home", "Nothing about spools here.")),
        ("spools", page("Spools", "A spool holds filament.")),
        (
            "trays",
            page("Trays", "## Binding a spool\n\nPut the spool in a tray."),
        ),
    ])
    .unwrap();
    let slugs = |query: &str| -> Vec<String> {
        wiki.search(query)
            .iter()
            .map(|hit| hit.page.slug.clone())
            .collect()
    };
    assert_eq!(slugs("spool"), ["spools", "trays", ""]);
    assert_eq!(slugs("SPOOL tray"), ["trays"]);
    assert!(slugs("").is_empty() && slugs("—").is_empty());

    let hits = wiki.search("binding");
    assert_eq!(hits[0].href(), "/wiki/trays#binding-a-spool");
    let spools = wiki.search("spools");
    assert_eq!(
        spools[0].href(),
        "/wiki/spools",
        "a title match needs no anchor"
    );
}

#[test]
fn snippets_mark_matches_and_cut_at_spaces() {
    let text = format!(
        "{} needle in the middle {}",
        "word ".repeat(30),
        "tail ".repeat(60)
    );
    let snips = snippet(&text, &terms("NEEDLE"));
    let joined: String = snips.iter().map(|s| s.text.as_str()).collect();
    assert!(joined.starts_with("…word"), "{joined}");
    assert!(joined.ends_with("tail…"), "{joined}");
    let marked: Vec<&str> = snips
        .iter()
        .filter(|s| s.mark)
        .map(|s| s.text.as_str())
        .collect();
    assert_eq!(marked, ["needle"]);

    let short = snippet("PLA and pla", &terms("pla"));
    assert_eq!(
        short,
        [
            Snip {
                text: "PLA".into(),
                mark: true
            },
            Snip {
                text: " and ".into(),
                mark: false
            },
            Snip {
                text: "pla".into(),
                mark: true
            },
        ]
    );
}

#[test]
fn photos_are_sorted_by_name_and_found_by_it() {
    let names: Vec<&str> = (0..IMAGE_COUNT).map(|i| nth_image(i).file).collect();
    let mut sorted = names.clone();
    sorted.sort();
    assert_eq!(names, sorted);
    assert_eq!(image("pla-wood-benchy.jpg").unwrap().file, "pla-wood-benchy.jpg");
    assert!(image("missing.jpg").is_none());
}

#[test]
fn help_pages_show_where_the_reader_is() {
    let wiki = load(&[
        ("", page("Home", "")),
        ("filament", page("Filament", "")),
        ("filament/materials", page("Materials", "")),
        ("filament/materials/pla", page("PLA", "## Drying\n\nKeep it dry.")),
        ("queue", page("Queue", "")),
    ])
    .unwrap();
    let shown = show(&wiki, "filament/materials/pla/").unwrap();
    let crumbs: Vec<&str> = shown.crumbs.iter().map(|link| link.title.as_str()).collect();
    assert_eq!(crumbs, ["Home", "Filament", "Materials"]);
    assert_eq!(shown.home.href, "/wiki");
    let filament = &shown.nav[0];
    assert!(filament.open && !filament.current);
    assert!(filament.children[0].children[0].current);
    assert!(!shown.nav[1].open);
    assert_eq!(show(&wiki, "no/such/page").err(), Some(AppError::NotFound));
    assert_eq!(nav(&wiki, "").len(), 2);
    assert_eq!(href(""), "/wiki");

    let found = search(&wiki, SearchQuery { q: "drying".to_string() }).unwrap();
    assert_eq!(found.hits.len(), 1);
    assert_eq!(found.hits[0].href, "/wiki/filament/materials/pla#drying");
    assert_eq!(found.hits[0].place, "Filament › Materials › Drying");
}

#[test]
fn words_are_found_wherever_they_stand() {
    let hay: Vec<char> = "aXaaX".chars().collect();
    let needle: Vec<char> = "aX".chars().collect();
    assert_eq!(occurrences(&hay, &needle).len(), 2);
}

#[test]
fn links_that_leave_the_wiki_are_not_checked() {
    let wiki = load(&[("", page("Home", "")), ("a", page("A", ""))]).unwrap();
    assert!(wiki.resolves("/jobs", ""));
    assert!(wiki.resolves("mailto:sam@example.com", ""));
    assert!(wiki.resolves("https://example.com/wiki/nope", ""));
    assert!(wiki.resolves("/wiki/a", ""));
    assert!(!wiki.resolves("/wiki/nope", ""));
    assert!(!wiki.resolves("nope", ""), "a relative path leads nowhere");
}

#[test]
fn a_query_is_its_different_words_whatever_their_case() {
    let wiki = load(&[
        ("", page("Home", "Nothing here.")),
        ("spools", page("Spools", "A spool holds filament for a tray.")),
        ("trays", page("Trays", "## Binding a spool\n\nPut the spool in a tray.")),
    ])
    .unwrap();
    let found = |query: &str| -> Vec<(String, String)> {
        wiki.search(query).iter().map(|hit| (hit.page.slug.clone(), hit.href())).collect()
    };
    let plain = found("spool tray");
    assert_eq!(plain.len(), 2);
    for query in ["tray spool", "SPOOL Tray", "spool tray spool", "tray, spool; TRAY"] {
        assert_eq!(found(query), plain, "{query}");
    }
}

#[test]
fn the_way_to_a_page_leads_from_the_root() {
    let wiki = load(&[
        ("", page("Home", "")),
        ("a", page("A", "")),
        ("a/b", page("B", "")),
        ("a/b/c", page("C", "")),
    ])
    .unwrap();
    let above = |slug: &str| -> Vec<String> {
        wiki.ancestors(slug).iter().map(|page| page.slug.clone()).collect()
    };
    assert_eq!(above("a/b/c"), ["", "a", "a/b"]);
    assert_eq!(above("a"), [""]);
    assert!(above("").is_empty());
}
