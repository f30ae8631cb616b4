//! From Markdown to what a page shows: sections of HTML with photos between them, headings that
//! links can lead to, and the text that is searched.

use pulldown_cmark::{html, Event as MarkdownEvent, Options, Parser, Tag};
use vstd::prelude::*;

use crate::config;
use crate::text;
use crate::wiki::images::{self, Image};

verus! {

// ---------------------------------------------------------------------------------------------
// Events
// ---------------------------------------------------------------------------------------------

/// A piece of a Markdown document.
#[derive(Debug, PartialEq, Eq)]
pub struct Event {
    /// `+` and the name of an element that starts, `-` and the name of one that ends, or what
    /// else it is, such as `SoftBreak`; what holds a text has it in brackets behind its name.
    pub kind: String,
    /// Where a link or an image leads, or the id that a heading was given.
    pub target: Option<String>,
    /// The title of a link or an image.
    pub title: String,
    /// The text of a text, of code or of HTML.
    pub text: String,
}

pub ghost struct Shown {
    pub kind: Seq<char>,
    pub target: Option<Seq<char>>,
    pub title: Seq<char>,
    pub text: Seq<char>,
}

impl Event {
    pub open spec fn shown(self) -> Shown {
        Shown {
            kind: self.kind@,
            target: text::opt_view(self.target),
            title: self.title@,
            text: self.text@,
        }
    }
}

pub open spec fn shown_events(events: Seq<Event>) -> Seq<Shown> {
    events.map_values(|event: Event| event.shown())
}

/// What kinds of events a document has, in order.
pub uninterp spec fn markdown_kinds(
    markdown: Seq<char>,
    tables: bool,
    heading_attributes: bool,
    smart_punctuation: bool,
) -> Seq<Seq<char>>;

/// What the events of a document lead to and what that is called, in order.
pub uninterp spec fn markdown_targets(
    markdown: Seq<char>,
    tables: bool,
    heading_attributes: bool,
    smart_punctuation: bool,
) -> Seq<(Option<Seq<char>>, Seq<char>)>;

/// What the events of a document say, in order.
pub uninterp spec fn markdown_texts(
    markdown: Seq<char>,
    tables: bool,
    heading_attributes: bool,
    smart_punctuation: bool,
) -> Seq<Seq<char>>;

pub open spec fn target_views(targets: Seq<(Option<String>, String)>) -> Seq<
    (Option<Seq<char>>, Seq<char>),
> {
    targets.map_values(|t: (Option<String>, String)| (text::opt_view(t.0), t.1@))
}

/// `pulldown_cmark::Parser` with the given extensions: what kinds of events it gives. An element
/// that starts or ends is called what the crate calls its end, with `+` or `-` before it; anything
/// else is written as its `std::fmt::Debug` implementation writes it.
#[verifier::external_body]
fn parse_kinds(markdown: &str, tables: bool, heading_attributes: bool, smart_punctuation: bool) -> (r:
    Vec<String>)
    ensures
        text::views(r@) == markdown_kinds(
            markdown@,
            tables,
            heading_attributes,
            smart_punctuation,
        ),
{
    let mut options = Options::empty();
    options.set(Options::ENABLE_TABLES, tables);
    options.set(Options::ENABLE_HEADING_ATTRIBUTES, heading_attributes);
    options.set(Options::ENABLE_SMART_PUNCTUATION, smart_punctuation);
    let name = |event: MarkdownEvent| match event {
        MarkdownEvent::Start(tag) => format!("+{:?}", tag.to_end()),
        MarkdownEvent::End(end) => format!("-{end:?}"),
        other => format!("{other:?}"),
    };
    Parser::new_ext(markdown, options).map(name).collect()
}

/// `pulldown_cmark::Parser` with the given extensions: for links and images where they lead and
/// their title, for headings the id they were given, for anything else nothing. There are as many
/// as there are kinds.
#[verifier::external_body]
fn parse_targets(markdown: &str, tables: bool, heading_attributes: bool, smart_punctuation: bool) -> (r:
    Vec<(Option<String>, String)>)
    ensures
        target_views(r@) == markdown_targets(
            markdown@,
            tables,
            heading_attributes,
            smart_punctuation,
        ),
        r@.len() == markdown_kinds(
            markdown@,
            tables,
            heading_attributes,
            smart_punctuation,
        ).len(),
{
    let mut options = Options::empty();
    options.set(Options::ENABLE_TABLES, tables);
    options.set(Options::ENABLE_HEADING_ATTRIBUTES, heading_attributes);
    options.set(Options::ENABLE_SMART_PUNCTUATION, smart_punctuation);
    let said = |event| match event {
        MarkdownEvent::Start(Tag::Link { dest_url, title, .. }) => (Some(dest_url), title),
        MarkdownEvent::Start(Tag::Image { dest_url, title, .. }) => (Some(dest_url), title),
        MarkdownEvent::Start(Tag::Heading { id, .. }) => (id, "".into()),
        _ => (None, "".into()),
    };
    let said = Parser::new_ext(markdown, options).map(said);
    said.map(|(target, title)| (target.map(String::from), title.to_string())).collect()
}

/// `pulldown_cmark::Parser` with the given extensions: the text of texts, of code and of HTML, and
/// nothing for anything else. There are as many as there are kinds.
#[verifier::external_body]
fn parse_texts(markdown: &str, tables: bool, heading_attributes: bool, smart_punctuation: bool) -> (r:
    Vec<String>)
    ensures
        text::views(r@) == markdown_texts(
            markdown@,
            tables,
            heading_attributes,
            smart_punctuation,
        ),
        r@.len() == markdown_kinds(
            markdown@,
            tables,
            heading_attributes,
            smart_punctuation,
        ).len(),
{
    let mut options = Options::empty();
    options.set(Options::ENABLE_TABLES, tables);
    options.set(Options::ENABLE_HEADING_ATTRIBUTES, heading_attributes);
    options.set(Options::ENABLE_SMART_PUNCTUATION, smart_punctuation);
    let said = |event| match event {
        MarkdownEvent::Text(t) => t.to_string(),
        MarkdownEvent::Code(t) => t.to_string(),
        MarkdownEvent::Html(t) => t.to_string(),
        MarkdownEvent::InlineHtml(t) => t.to_string(),
        _ => String::new(),
    };
    Parser::new_ext(markdown, options).map(said).collect()
}

/// An event of the document that goes into a section; a heading with the id it gets.
#[derive(Debug, PartialEq, Eq)]
pub struct Pick {
    pub index: usize,
    pub id: Option<String>,
}

impl Pick {
    pub open spec fn shown(self) -> (int, Option<Seq<char>>) {
        (self.index as int, text::opt_view(self.id))
    }
}

pub open spec fn shown_picks(picks: Seq<Pick>) -> Seq<(int, Option<Seq<char>>)> {
    picks.map_values(|pick: Pick| pick.shown())
}

/// The HTML of some events of a document.
pub uninterp spec fn html_of(
    markdown: Seq<char>,
    tables: bool,
    heading_attributes: bool,
    smart_punctuation: bool,
    picks: Seq<(int, Option<Seq<char>>)>,
) -> Seq<char>;

/// `pulldown_cmark::html::push_html` on some of the events that `pulldown_cmark::Parser` gives,
/// with the ids that headings get.
#[verifier::external_body]
fn render_html(
    markdown: &str,
    tables: bool,
    heading_attributes: bool,
    smart_punctuation: bool,
    picks: &Vec<Pick>,
) -> (r: String)
    requires
        forall|i: int|
            0 <= i < picks@.len() ==> (#[trigger] picks@[i]).index < markdown_kinds(
                markdown@,
                tables,
                heading_attributes,
                smart_punctuation,
            ).len(),
    ensures
        r@ == html_of(
            markdown@,
            tables,
            heading_attributes,
            smart_punctuation,
            shown_picks(picks@),
        ),
{
    let mut options = Options::empty();
    options.set(Options::ENABLE_TABLES, tables);
    options.set(Options::ENABLE_HEADING_ATTRIBUTES, heading_attributes);
    options.set(Options::ENABLE_SMART_PUNCTUATION, smart_punctuation);
    let events: Vec<MarkdownEvent> = Parser::new_ext(markdown, options).collect();
    let mut out = String::new();
    html::push_html(&mut out, picks.iter().map(|pick| match (events[pick.index].clone(), &pick.id) {
        (MarkdownEvent::Start(Tag::Heading { level, classes, attrs, .. }), Some(id)) =>
            MarkdownEvent::Start(Tag::Heading { level, id: Some(id.clone().into()), classes, attrs }),
        (event, _) => event,
    }));
    out
}

/// The events of a document.
pub open spec fn events_of(markdown: Seq<char>) -> Seq<Shown> {
    let kinds = markdown_kinds(markdown, true, true, true);
    let targets = markdown_targets(markdown, true, true, true);
    let texts = markdown_texts(markdown, true, true, true);
    Seq::new(
        kinds.len(),
        |i: int|
            Shown {
                kind: kinds[i],
                target: targets[i].0,
                title: targets[i].1,
                text: texts[i],
            },
    )
}

pub fn read_events(markdown: &str) -> (r: Vec<Event>)
    ensures
        shown_events(r@) == events_of(markdown@),
{
    let kinds = parse_kinds(markdown, true, true, true);
    let targets = parse_targets(markdown, true, true, true);
    let texts = parse_texts(markdown, true, true, true);
    let ghost k = markdown_kinds(markdown@, true, true, true);
    let ghost g = markdown_targets(markdown@, true, true, true);
    let ghost t = markdown_texts(markdown@, true, true, true);
    assert(text::views(kinds@).len() == kinds@.len());
    let mut events: Vec<Event> = Vec::new();
    let mut i: usize = 0;
    while i < kinds.len()
        invariant
            i <= kinds@.len(),
            kinds@.len() == targets@.len() == texts@.len(),
            k == text::views(kinds@),
            g == target_views(targets@),
            t == text::views(texts@),
            events@.len() == i,
            forall|j: int|
                0 <= j < i ==> (#[trigger] events@[j]).shown() == (Shown {
                    kind: k[j],
                    target: g[j].0,
                    title: g[j].1,
                    text: t[j],
                }),
        decreases kinds.len() - i,
    {
        let target = match &targets[i].0 {
            Some(target) => Some(target.clone()),
            None => None,
        };
        events.push(
            Event {
                kind: kinds[i].clone(),
                target,
                title: targets[i].1.clone(),
                text: texts[i].clone(),
            },
        );
        i += 1;
    }
    assert(shown_events(events@) =~= events_of(markdown@));
    events
}

// ---------------------------------------------------------------------------------------------
// Kinds
// ---------------------------------------------------------------------------------------------

impl Shown {
    pub open spec fn starts(self) -> bool {
        self.kind.len() > 0 && self.kind[0] == '+'
    }

    pub open spec fn ends(self) -> bool {
        self.kind.len() > 0 && self.kind[0] == '-'
    }

    pub open spec fn is_heading(self) -> bool {
        text::starts_with(self.kind, "+Heading("@)
    }

    pub open spec fn is_text(self) -> bool {
        text::starts_with(self.kind, "Text("@)
    }

    pub open spec fn is_html(self) -> bool {
        text::starts_with(self.kind, "Html("@) || text::starts_with(self.kind, "InlineHtml("@)
    }

    pub open spec fn is_words(self) -> bool {
        self.is_text() || text::starts_with(self.kind, "Code("@)
    }

    pub open spec fn is_break(self) -> bool {
        self.kind == "SoftBreak"@ || self.kind == "HardBreak"@
    }

    /// The end of a paragraph, a heading, a list item, a table cell or a code block.
    pub open spec fn ends_block(self) -> bool {
        self.kind == "-Paragraph"@ || text::starts_with(self.kind, "-Heading("@) || self.kind
            == "-Item"@ || self.kind == "-TableCell"@ || self.kind == "-CodeBlock"@
    }
}

fn has_prefix(s: &str, prefix: &str) -> (r: bool)
    ensures
        r == text::starts_with(s@, prefix@),
{
    let s = text::chars(s);
    let prefix = text::chars(prefix);
    text::has_prefix(s.as_slice(), prefix.as_slice())
}

impl Event {
    fn starts(&self) -> (r: bool)
        ensures
            r == self.shown().starts(),
    {
        self.kind.as_str().unicode_len() > 0 && self.kind.as_str().get_char(0) == '+'
    }

    fn ends(&self) -> (r: bool)
        ensures
            r == self.shown().ends(),
    {
        self.kind.as_str().unicode_len() > 0 && self.kind.as_str().get_char(0) == '-'
    }

    fn is(&self, kind: &str) -> (r: bool)
        ensures
            r == (self.shown().kind == kind@),
    {
        text::same(self.kind.as_str(), kind)
    }

    fn is_text(&self) -> (r: bool)
        ensures
            r == self.shown().is_text(),
    {
        has_prefix(self.kind.as_str(), "Text(")
    }

    fn is_html(&self) -> (r: bool)
        ensures
            r == self.shown().is_html(),
    {
        has_prefix(self.kind.as_str(), "Html(") || has_prefix(self.kind.as_str(), "InlineHtml(")
    }

    fn is_words(&self) -> (r: bool)
        ensures
            r == self.shown().is_words(),
    {
        self.is_text() || has_prefix(self.kind.as_str(), "Code(")
    }

    fn is_break(&self) -> (r: bool)
        ensures
            r == self.shown().is_break(),
    {
        self.is("SoftBreak") || self.is("HardBreak")
    }

    fn ends_block(&self) -> (r: bool)
        ensures
            r == self.shown().ends_block(),
    {
        self.is("-Paragraph") || has_prefix(self.kind.as_str(), "-Heading(") || self.is("-Item")
            || self.is("-TableCell") || self.is("-CodeBlock")
    }
}

// ---------------------------------------------------------------------------------------------
// Texts
// ---------------------------------------------------------------------------------------------

/// Where an element that has `depth` elements open before position `i` ends.
pub open spec fn closing_from(events: Seq<Shown>, i: int, depth: int) -> int
    decreases events.len() - i,
{
    if i < 0 || i >= events.len() {
        events.len() - 1
    } else if events[i].starts() {
        closing_from(events, i + 1, depth + 1)
    } else if events[i].ends() {
        if depth <= 1 {
            i
        } else {
            closing_from(events, i + 1, depth - 1)
        }
    } else {
        closing_from(events, i + 1, depth)
    }
}

proof fn lemma_closing(events: Seq<Shown>, i: int, depth: int)
    requires
        0 <= i <= events.len(),
        events.len() > 0,
    ensures
        i - 1 <= closing_from(events, i, depth) < events.len(),
    decreases events.len() - i,
{
    if i < events.len() {
        if events[i].starts() {
            lemma_closing(events, i + 1, depth + 1);
        } else if events[i].ends() {
            if depth > 1 {
                lemma_closing(events, i + 1, depth - 1);
            }
        } else {
            lemma_closing(events, i + 1, depth);
        }
    }
}

/// The index of the `End` matching the `Start` at `start`.
fn closing(events: &[Event], start: usize) -> (r: usize)
    requires
        start < events@.len(),
        shown_events(events@)[start as int].starts(),
    ensures
        r == closing_from(shown_events(events@), start as int, 0),
        start <= r < events@.len(),
{
    let ghost all = shown_events(events@);
    let mut depth: usize = 0;
    let mut i: usize = start;
    let total: usize = events.len();
    proof {
        lemma_closing(all, start + 1, 1);
    }
    while i < total
        invariant
            start <= i <= total,
            total == events@.len(),
            all == shown_events(events@),
            depth <= i - start,
            all[start as int].starts(),
            i == start ==> depth == 0,
            i > start ==> depth >= 1,
            closing_from(all, start as int, 0) == closing_from(all, i as int, depth as int),
            start <= closing_from(all, start as int, 0) < events@.len(),
        decreases total - i,
    {
        if events[i].starts() {
            depth += 1;
        } else if events[i].ends() {
            if depth == 1 {
                return i;
            }
            depth -= 1;
        }
        i += 1;
    }
    total - 1
}

/// The words from position `a` up to `b`.
pub open spec fn words_in(events: Seq<Shown>, a: int, b: int) -> Seq<char>
    decreases b - a,
{
    if a >= b {
        seq![]
    } else {
        words_in(events, a, b - 1) + said(events[b - 1])
    }
}

/// What an event adds to a text.
pub open spec fn said(event: Shown) -> Seq<char> {
    if event.is_words() {
        event.text
    } else if event.is_break() {
        seq![' ']
    } else {
        seq![]
    }
}

fn push_said(out: &mut String, event: &Event)
    ensures
        final(out)@ == old(out)@ + said(event.shown()),
{
    if event.is_words() {
        out.append(event.text.as_str());
    } else if event.is_break() {
        out.push(' ');
        assert(out@ =~= old(out)@ + seq![' ']);
    } else {
        assert(out@ =~= old(out)@ + seq![]);
    }
}

fn plain(events: &[Event], a: usize, b: usize) -> (r: String)
    requires
        a <= b <= events@.len(),
    ensures
        r@ == text::trim(words_in(shown_events(events@), a as int, b as int)),
{
    let ghost all = shown_events(events@);
    let mut out = String::new();
    let mut i: usize = a;
    while i < b
        invariant
            a <= i <= b <= events@.len(),
            all == shown_events(events@),
            out@ == words_in(all, a as int, i as int),
        decreases b - i,
    {
        push_said(&mut out, &events[i]);
        i += 1;
    }
    text::trim_str(out.as_str())
}

/// The blocks that end before position `n`, and the words since the last of them.
pub open spec fn blocks_upto(events: Seq<Shown>, n: int) -> (Seq<Seq<char>>, Seq<char>)
    decreases n,
{
    if n <= 0 {
        (seq![], seq![])
    } else {
        let (blocks, words) = blocks_upto(events, n - 1);
        let event = events[n - 1];
        if event.is_words() || event.is_break() {
            (blocks, words + said(event))
        } else if event.ends_block() {
            let block = text::trim(words);
            if block.len() > 0 {
                (blocks.push(block), seq![])
            } else {
                (blocks, seq![])
            }
        } else {
            (blocks, words)
        }
    }
}

/// The text of each paragraph, list item, table cell and heading.
pub fn blocks(events: &[Event]) -> (r: Vec<String>)
    ensures
        text::views(r@) == blocks_upto(shown_events(events@), events@.len() as int).0,
{
    let ghost all = shown_events(events@);
    let mut out: Vec<String> = Vec::new();
    let mut current = String::new();
    let mut i: usize = 0;
    assert(text::views(out@) =~= seq![]);
    while i < events.len()
        invariant
            i <= events@.len(),
            all == shown_events(events@),
            text::views(out@) == blocks_upto(all, i as int).0,
            current@ == blocks_upto(all, i as int).1,
        decreases events.len() - i,
    {
        let event = &events[i];
        if event.is_words() || event.is_break() {
            push_said(&mut current, event);
        } else if event.ends_block() {
            let block = text::trim_str(current.as_str());
            let ghost before = out@;
            if !block.as_str().is_empty() {
                out.push(block);
                assert(text::views(out@) =~= text::views(before).push(block@));
            }
            current = String::new();
        }
        i += 1;
    }
    out
}

// ---------------------------------------------------------------------------------------------
// Photos
// ---------------------------------------------------------------------------------------------

#[derive(Debug, PartialEq, Eq)]
pub struct Figure {
    pub image: Image,
    pub alt: String,
    pub caption: String,
}

pub ghost struct FigureShown {
    /// The number of the photo.
    pub image: int,
    pub alt: Seq<char>,
    pub caption: Seq<char>,
}

impl Figure {
    pub open spec fn is(self, shown: FigureShown) -> bool {
        &&& images::is_nth_image(self.image, shown.image)
        &&& self.alt@ == shown.alt
        &&& self.caption@ == shown.caption
    }
}

pub open spec fn are_figures(figures: Seq<Figure>, shown: Seq<FigureShown>) -> bool {
    figures.len() == shown.len() && forall|i: int|
        0 <= i < figures.len() ==> (#[trigger] figures[i]).is(shown[i])
}

pub open spec fn target_of(event: Shown) -> Seq<char> {
    match event.target {
        Some(target) => target,
        None => seq![],
    }
}

/// Whether an event is nothing that a reader sees between two images.
pub open spec fn is_gap(event: Shown) -> bool {
    event.kind == "SoftBreak"@ || (event.is_text() && text::trim(event.text).len() == 0)
}

pub open spec fn gallery_from(inner: Seq<Shown>, i: int, figures: Seq<FigureShown>) -> Result<
    Option<Seq<FigureShown>>,
    Seq<char>,
>
    decreases inner.len() - i,
    via gallery_from_decreases
{
    if i < 0 || i >= inner.len() {
        Ok(
            if figures.len() > 0 {
                Some(figures)
            } else {
                None
            },
        )
    } else if inner[i].kind == "+Image"@ {
        let end = closing_from(inner, i, 0);
        let file = target_of(inner[i]);
        let alt = text::trim(words_in(inner, i + 1, end));
        if images::image_at(file, 0) == images::IMAGE_COUNT {
            Err("no image "@ + config::quoted(file))
        } else if alt.len() == 0 {
            Err("the image "@ + config::quoted(file) + " needs alt text"@)
        } else {
            gallery_from(
                inner,
                end + 1,
                figures.push(
                    FigureShown { image: images::image_at(file, 0), alt, caption: inner[i].title },
                ),
            )
        }
    } else if is_gap(inner[i]) {
        gallery_from(inner, i + 1, figures)
    } else {
        Ok(None)
    }
}

#[via_fn]
proof fn gallery_from_decreases(inner: Seq<Shown>, i: int, figures: Seq<FigureShown>) {
    if 0 <= i < inner.len() && inner[i].kind == "+Image"@ {
        reveal_strlit("+Image");
        lemma_closing(inner, i + 1, 1);
    }
}

fn target(event: &Event) -> (r: String)
    ensures
        r@ == target_of(event.shown()),
{
    match &event.target {
        Some(target) => target.clone(),
        None => {
            let none = String::new();
            assert(none@ =~= seq![]);
            none
        },
    }
}

/// The words between the start of an element and its end.
fn inside(events: &[Event], start: usize, end: usize) -> (r: String)
    requires
        start <= end < events@.len(),
    ensures
        r@ == text::trim(words_in(shown_events(events@), start + 1, end as int)),
{
    if start < end {
        plain(events, start + 1, end)
    } else {
        plain(events, end, end)
    }
}

/// The figures of a paragraph that holds only images, or `None` if it holds anything else.
pub fn gallery(inner: &[Event]) -> (r: Result<Option<Vec<Figure>>, String>)
    ensures
        match (r, gallery_from(shown_events(inner@), 0, seq![])) {
            (Ok(Some(figures)), Ok(Some(shown))) => are_figures(figures@, shown),
            (Ok(None), Ok(None)) => true,
            (Err(problem), Err(shown)) => problem@ == shown,
            _ => false,
        },
{
    let ghost all = shown_events(inner@);
    let mut figures: Vec<Figure> = Vec::new();
    let ghost mut shown: Seq<FigureShown> = seq![];
    let total: usize = inner.len();
    let mut i: usize = 0;
    while i < total
        invariant
            i <= total,
            total == inner@.len(),
            all == shown_events(inner@),
            are_figures(figures@, shown),
            gallery_from(all, 0, seq![]) == gallery_from(all, i as int, shown),
        decreases total - i,
    {
        let event = &inner[i];
        if event.is("+Image") {
            proof {
                reveal_strlit("+Image");
            }
            let end = closing(inner, i);
            let file = target(event);
            let alt = inside(inner, i, end);
            match images::image(file.as_str()) {
                None => {
                    let mut problem = "no image ".to_string();
                    problem.append(config::quote(file.as_str()).as_str());
                    return Err(problem);
                },
                Some(image) => {
                    if alt.as_str().is_empty() {
                        let mut problem = "the image ".to_string();
                        problem.append(config::quote(file.as_str()).as_str());
                        problem.append(" needs alt text");
                        return Err(problem);
                    }
                    proof {
                        shown = shown.push(
                            FigureShown {
                                image: images::image_at(file@, 0),
                                alt: alt@,
                                caption: event.title@,
                            },
                        );
                    }
                    figures.push(Figure { image, alt, caption: event.title.clone() });
                },
            }
            i = end + 1;
        } else if event.is("SoftBreak") || (event.is_text() && text::trim_str(
            event.text.as_str(),
        ).as_str().is_empty()) {
            i += 1;
        } else {
            return Ok(None);
        }
    }
    if figures.len() > 0 {
        Ok(Some(figures))
    } else {
        Ok(None)
    }
}

// ---------------------------------------------------------------------------------------------
// Anchors
// ---------------------------------------------------------------------------------------------

/// A text in lower case, character by character.
pub open spec fn lowered(s: Seq<char>) -> Seq<char>
    decreases s.len(),
{
    if s.len() == 0 {
        seq![]
    } else {
        lowered(s.drop_last()) + text::char_lowercase(s.last())
    }
}

/// Letters and digits, with one hyphen for whatever stands between them.
pub open spec fn hyphenated(s: Seq<char>) -> Seq<char>
    decreases s.len(),
{
    if s.len() == 0 {
        seq![]
    } else {
        let id = hyphenated(s.drop_last());
        if text::alphanumeric(s.last()) {
            id.push(s.last())
        } else if id.len() > 0 && id.last() != '-' {
            id.push('-')
        } else {
            id
        }
    }
}

pub open spec fn anchor_of(s: Seq<char>) -> Seq<char> {
    text::drop_trailing(hyphenated(lowered(s)), '-')
}

/// `Print profile` becomes `print-profile`.
pub fn anchor(s: &str) -> (r: String)
    ensures
        r@ == anchor_of(s@),
{
    let s = text::chars(s);
    let mut id: Vec<char> = Vec::new();
    let mut i: usize = 0;
    assert(s@.take(0) =~= seq![]);
    while i < s.len()
        invariant
            i <= s@.len(),
            id@ == hyphenated(lowered(s@.take(i as int))),
        decreases s.len() - i,
    {
        let ghost before = lowered(s@.take(i as int));
        let small = text::char_to_lowercase(s[i]);
        let mut k: usize = 0;
        assert(before + small@.take(0) =~= before);
        while k < small.len()
            invariant
                k <= small@.len(),
                id@ == hyphenated(before + small@.take(k as int)),
            decreases small.len() - k,
        {
            let c = small[k];
            assert((before + small@.take(k + 1)).drop_last() =~= before + small@.take(k as int));
            assert((before + small@.take(k + 1)).last() == c);
            if text::char_is_alphanumeric(c) {
                id.push(c);
            } else if id.len() > 0 && id[id.len() - 1] != '-' {
                id.push('-');
            }
            k += 1;
        }
        assert(small@.take(k as int) =~= small@);
        assert(s@.take(i + 1).drop_last() =~= s@.take(i as int));
        i += 1;
    }
    assert(s@.take(i as int) =~= s@);
    text::string(text::without_trailing(id.as_slice(), '-'))
}

/// An anchor holds letters, digits and hyphens, and ends with no hyphen.
pub proof fn anchors_have_one_shape(s: Seq<char>)
    ensures
        forall|i: int|
            0 <= i < anchor_of(s).len() ==> text::alphanumeric(#[trigger] anchor_of(s)[i])
                || anchor_of(s)[i] == '-',
        anchor_of(s).len() > 0 ==> anchor_of(s).last() != '-',
{
    lemma_hyphenated(lowered(s));
    lemma_drop_trailing(hyphenated(lowered(s)), '-');
}

proof fn lemma_hyphenated(s: Seq<char>)
    ensures
        forall|i: int|
            0 <= i < hyphenated(s).len() ==> text::alphanumeric(#[trigger] hyphenated(s)[i])
                || hyphenated(s)[i] == '-',
    decreases s.len(),
{
    if s.len() > 0 {
        lemma_hyphenated(s.drop_last());
        let before = hyphenated(s.drop_last());
        assert forall|i: int| 0 <= i < hyphenated(s).len() implies text::alphanumeric(
            #[trigger] hyphenated(s)[i],
        ) || hyphenated(s)[i] == '-' by {
            if i < before.len() {
                assert(hyphenated(s)[i] == before[i]);
            }
        }
    }
}

proof fn lemma_drop_trailing(s: Seq<char>, c: char)
    ensures
        text::drop_trailing(s, c).len() <= s.len(),
        forall|i: int|
            0 <= i < text::drop_trailing(s, c).len() ==> #[trigger] text::drop_trailing(s, c)[i]
                == s[i],
        text::drop_trailing(s, c).len() > 0 ==> text::drop_trailing(s, c).last() != c,
    decreases s.len(),
{
    if s.len() > 0 && s.last() == c {
        lemma_drop_trailing(s.drop_last(), c);
    }
}

// ---------------------------------------------------------------------------------------------
// Pages
// ---------------------------------------------------------------------------------------------

#[derive(Debug, PartialEq, Eq)]
pub struct Heading {
    pub id: String,
    pub text: String,
}

impl Heading {
    pub open spec fn shown(self) -> (Seq<char>, Seq<char>) {
        (self.id@, self.text@)
    }
}

pub open spec fn shown_headings(headings: Seq<Heading>) -> Seq<(Seq<char>, Seq<char>)> {
    headings.map_values(|heading: Heading| heading.shown())
}

pub open spec fn has_heading(headings: Seq<(Seq<char>, Seq<char>)>, id: Seq<char>) -> bool {
    exists|i: int| 0 <= i < headings.len() && (#[trigger] headings[i]).0 == id
}

pub fn any_heading(headings: &Vec<Heading>, id: &str) -> (r: bool)
    ensures
        r == has_heading(shown_headings(headings@), id@),
{
    let ghost all = shown_headings(headings@);
    let mut i: usize = 0;
    while i < headings.len()
        invariant
            i <= headings@.len(),
            all == shown_headings(headings@),
            forall|j: int| 0 <= j < i ==> (#[trigger] all[j]).0 != id@,
        decreases headings.len() - i,
    {
        if text::same(headings[i].id.as_str(), id) {
            assert(all[i as int].0 == id@);
            return true;
        }
        i += 1;
    }
    false
}

/// The events that make up the text of a section, and the photos that end it.
#[derive(Debug, PartialEq, Eq)]
pub struct SectionPlan {
    pub picks: Vec<Pick>,
    pub gallery: Vec<Figure>,
}

/// What a page shows, with its sections still as events.
#[derive(Debug, PartialEq, Eq)]
pub struct Plan {
    pub sections: Vec<SectionPlan>,
    pub headings: Vec<Heading>,
    pub links: Vec<String>,
}

pub ghost struct SectionShown {
    pub picks: Seq<(int, Option<Seq<char>>)>,
    pub gallery: Seq<FigureShown>,
}

pub ghost struct PlanShown {
    pub sections: Seq<SectionShown>,
    pub headings: Seq<(Seq<char>, Seq<char>)>,
    pub links: Seq<Seq<char>>,
}

impl SectionPlan {
    pub open spec fn is(self, shown: SectionShown) -> bool {
        shown_picks(self.picks@) == shown.picks && are_figures(self.gallery@, shown.gallery)
    }
}

pub open spec fn are_sections(sections: Seq<SectionPlan>, shown: Seq<SectionShown>) -> bool {
    sections.len() == shown.len() && forall|i: int|
        0 <= i < sections.len() ==> (#[trigger] sections[i]).is(shown[i])
}

impl Plan {
    pub open spec fn is(self, shown: PlanShown) -> bool {
        &&& are_sections(self.sections@, shown.sections)
        &&& shown_headings(self.headings@) == shown.headings
        &&& text::views(self.links@) == shown.links
    }
}

/// The events from position `a` up to `b`, as they are.
pub open spec fn run(a: int, b: int) -> Seq<(int, Option<Seq<char>>)> {
    Seq::new(
        if b > a {
            (b - a) as nat
        } else {
            0
        },
        |k: int| (a + k, None),
    )
}

/// The id of the heading at position `i`: its own, or one made of its text.
pub open spec fn heading_id(event: Shown, words: Seq<char>) -> Seq<char> {
    match event.target {
        Some(id) => id,
        None => anchor_of(words),
    }
}

/// What a page shows, from position `i` on: every heading gets an id, a paragraph of nothing but
/// images ends a section, links are collected, and images elsewhere and raw HTML are refused.
pub open spec fn plan_from(
    events: Seq<Shown>,
    i: int,
    pending: Seq<(int, Option<Seq<char>>)>,
    done: PlanShown,
) -> Result<PlanShown, Seq<char>>
    decreases events.len() - i,
    via plan_from_decreases
{
    if i < 0 || i >= events.len() {
        Ok(
            PlanShown {
                sections: done.sections.push(SectionShown { picks: pending, gallery: seq![] }),
                ..done
            },
        )
    } else {
        let event = events[i];
        let end = closing_from(events, i, 0);
        if event.is_heading() {
            let words = text::trim(words_in(events, i + 1, end));
            let id = heading_id(event, words);
            if id.len() == 0 {
                Err("the heading "@ + config::quoted(words) + " has no usable id"@)
            } else if has_heading(done.headings, id) {
                Err("two headings have the id "@ + config::quoted(id))
            } else {
                plan_from(
                    events,
                    end + 1,
                    pending.push((i, Some(id))) + run(i + 1, end + 1),
                    PlanShown { headings: done.headings.push((id, words)), ..done },
                )
            }
        } else if event.kind == "+Paragraph"@ {
            match gallery_from(paragraph(events, i), 0, seq![]) {
                Err(problem) => Err(problem),
                Ok(Some(figures)) => plan_from(
                    events,
                    end + 1,
                    seq![],
                    PlanShown {
                        sections: done.sections.push(
                            SectionShown { picks: pending, gallery: figures },
                        ),
                        ..done
                    },
                ),
                Ok(None) => plan_from(events, i + 1, pending.push((i, None)), done),
            }
        } else if event.kind == "+Image"@ {
            Err("an image must be alone in its paragraph, with other images"@)
        } else if event.is_html() {
            Err("raw HTML is not allowed: "@ + config::quoted(event.text))
        } else if event.kind == "+Link"@ {
            plan_from(
                events,
                i + 1,
                pending.push((i, None)),
                PlanShown { links: done.links.push(target_of(event)), ..done },
            )
        } else {
            plan_from(events, i + 1, pending.push((i, None)), done)
        }
    }
}

/// The events inside the paragraph that starts at position `i`.
pub open spec fn paragraph(events: Seq<Shown>, i: int) -> Seq<Shown> {
    let end = closing_from(events, i, 0);
    if end <= i {
        seq![]
    } else {
        events.subrange(i + 1, end)
    }
}

#[via_fn]
proof fn plan_from_decreases(
    events: Seq<Shown>,
    i: int,
    pending: Seq<(int, Option<Seq<char>>)>,
    done: PlanShown,
) {
    if 0 <= i < events.len() {
        lemma_start_closes(events, i);
    }
}

proof fn lemma_start_closes(events: Seq<Shown>, i: int)
    requires
        0 <= i < events.len(),
    ensures
        events[i].is_heading() || events[i].kind == "+Paragraph"@ ==> events[i].starts() && i
            <= closing_from(events, i, 0) < events.len(),
{
    reveal_strlit("+Heading(");
    reveal_strlit("+Paragraph");
    lemma_closing(events, i + 1, 1);
    if events[i].is_heading() {
        let prefix = "+Heading("@;
        assert(events[i].kind.take(prefix.len() as int) == prefix);
        assert(events[i].kind[0] == events[i].kind.take(prefix.len() as int)[0]);
    }
}

pub open spec fn no_plan() -> PlanShown {
    PlanShown { sections: seq![], headings: seq![], links: seq![] }
}

pub open spec fn plan_of(events: Seq<Shown>) -> Result<PlanShown, Seq<char>> {
    plan_from(events, 0, seq![], no_plan())
}

fn push_run(picks: &mut Vec<Pick>, a: usize, b: usize)
    requires
        a <= b,
    ensures
        shown_picks(final(picks)@) == shown_picks(old(picks)@) + run(a as int, b as int),
        forall|i: int|
            0 <= i < final(picks)@.len() ==> (#[trigger] final(picks)@[i]).index < b || i
                < old(picks)@.len() && final(picks)@[i] == old(picks)@[i],
{
    let ghost before = picks@;
    let mut i: usize = a;
    while i < b
        invariant
            a <= i <= b,
            picks@.len() == before.len() + (i - a),
            forall|j: int| 0 <= j < before.len() ==> #[trigger] picks@[j] == before[j],
            forall|j: int|
                before.len() <= j < picks@.len() ==> (#[trigger] picks@[j]).index == a + (j
                    - before.len()) && picks@[j].id is None,
        decreases b - i,
    {
        picks.push(Pick { index: i, id: None });
        i += 1;
    }
    assert(shown_picks(picks@) =~= shown_picks(before) + run(a as int, b as int));
}

fn push_pick(picks: &mut Vec<Pick>, index: usize, id: Option<String>)
    ensures
        final(picks)@ == old(picks)@.push(Pick { index, id }),
        shown_picks(final(picks)@) == shown_picks(old(picks)@).push(
            (index as int, text::opt_view(id)),
        ),
{
    picks.push(Pick { index, id });
    assert(shown_picks(picks@) =~= shown_picks(old(picks)@).push(
        (index as int, text::opt_view(id)),
    ));
}

pub open spec fn in_range(picks: Seq<Pick>, total: int) -> bool {
    forall|i: int| 0 <= i < picks.len() ==> (#[trigger] picks[i]).index < total
}

/// What a page shows.
#[verifier::rlimit(40)]
pub fn plan(events: &[Event]) -> (r: Result<Plan, String>)
    ensures
        match (r, plan_of(shown_events(events@))) {
            (Ok(plan), Ok(shown)) => plan.is(shown) && forall|k: int|
                0 <= k < plan.sections@.len() ==> in_range(
                    (#[trigger] plan.sections@[k]).picks@,
                    events@.len() as int,
                ),
            (Err(problem), Err(shown)) => problem@ == shown,
            _ => false,
        },
{
    let ghost all = shown_events(events@);
    let ghost mut done: PlanShown = no_plan();
    let mut sections: Vec<SectionPlan> = Vec::new();
    let mut headings: Vec<Heading> = Vec::new();
    let mut links: Vec<String> = Vec::new();
    let mut pending: Vec<Pick> = Vec::new();
    let total: usize = events.len();
    let mut i: usize = 0;
    proof {
        assert(shown_headings(headings@) =~= done.headings);
        assert(text::views(links@) =~= done.links);
        assert(shown_picks(pending@) =~= seq![]);
    }
    while i < total
        invariant
            i <= total,
            total == events@.len(),
            all == shown_events(events@),
            are_sections(sections@, done.sections),
            shown_headings(headings@) == done.headings,
            text::views(links@) == done.links,
            in_range(pending@, total as int),
            forall|k: int|
                0 <= k < sections@.len() ==> in_range(
                    (#[trigger] sections@[k]).picks@,
                    total as int,
                ),
            plan_of(all) == plan_from(all, i as int, shown_picks(pending@), done),
        decreases total - i,
    {
        let event = &events[i];
        proof {
            lemma_start_closes(all, i as int);
        }
        if has_prefix(event.kind.as_str(), "+Heading(") {
            let end = closing(events, i);
            let words = inside(events, i, end);
            let id = match &event.target {
                Some(id) => id.clone(),
                None => anchor(words.as_str()),
            };
            if id.as_str().is_empty() {
                let mut problem = "the heading ".to_string();
                problem.append(config::quote(words.as_str()).as_str());
                problem.append(" has no usable id");
                return Err(problem);
            }
            if any_heading(&headings, id.as_str()) {
                let mut problem = "two headings have the id ".to_string();
                problem.append(config::quote(id.as_str()).as_str());
                return Err(problem);
            }
            push_pick(&mut pending, i, Some(id.clone()));
            push_run(&mut pending, i + 1, end + 1);
            let ghost before = headings@;
            headings.push(Heading { id, text: words });
            proof {
                assert(shown_headings(headings@) =~= shown_headings(before).push((id@, words@)));
                done = PlanShown { headings: done.headings.push((id@, words@)), ..done };
            }
            i = end + 1;
        } else if event.is("+Paragraph") {
            let end = closing(events, i);
            let inner = if i < end {
                vstd::slice::slice_subrange(events, i + 1, end)
            } else {
                vstd::slice::slice_subrange(events, i, i)
            };
            assert(shown_events(inner@) =~= paragraph(all, i as int));
            match gallery(inner) {
                Err(problem) => {
                    return Err(problem);
                },
                Ok(Some(figures)) => {
                    let ghost section = SectionShown {
                        picks: shown_picks(pending@),
                        gallery: gallery_from(paragraph(all, i as int), 0, seq![])->Ok_0->Some_0,
                    };
                    sections.push(SectionPlan { picks: pending, gallery: figures });
                    pending = Vec::new();
                    proof {
                        assert(shown_picks(pending@) =~= seq![]);
                        done = PlanShown { sections: done.sections.push(section), ..done };
                    }
                    i = end + 1;
                },
                Ok(None) => {
                    push_pick(&mut pending, i, None);
                    i += 1;
                },
            }
        } else if event.is("+Image") {
            return Err("an image must be alone in its paragraph, with other images".to_string());
        } else if event.is_html() {
            let mut problem = "raw HTML is not allowed: ".to_string();
            problem.append(config::quote(event.text.as_str()).as_str());
            return Err(problem);
        } else if event.is("+Link") {
            let ghost before = links@;
            let link = target(event);
            links.push(link);
            push_pick(&mut pending, i, None);
            proof {
                assert(text::views(links@) =~= text::views(before).push(link@));
                done = PlanShown { links: done.links.push(link@), ..done };
            }
            i += 1;
        } else {
            push_pick(&mut pending, i, None);
            i += 1;
        }
    }
    let none: Vec<Figure> = Vec::new();
    assert(are_figures(none@, seq![]));
    sections.push(SectionPlan { picks: pending, gallery: none });
    Ok(Plan { sections, headings, links })
}

/// Rendered Markdown followed by the photos of an image-only paragraph, if one ended it.
#[derive(Debug, PartialEq, Eq)]
pub struct Section {
    pub html: String,
    pub gallery: Vec<Figure>,
}

impl Section {
    pub open spec fn is(self, markdown: Seq<char>, shown: SectionShown) -> bool {
        &&& self.html@ == html_of(markdown, true, true, true, shown.picks)
        &&& are_figures(self.gallery@, shown.gallery)
    }
}

#[derive(Debug, PartialEq, Eq)]
pub struct Rendered {
    pub body: Vec<Section>,
    pub headings: Vec<Heading>,
    pub blocks: Vec<String>,
    pub links: Vec<String>,
}

pub open spec fn is_body(body: Seq<Section>, markdown: Seq<char>, shown: Seq<SectionShown>) -> bool {
    body.len() == shown.len() && forall|i: int|
        0 <= i < body.len() ==> (#[trigger] body[i]).is(markdown, shown[i])
}

impl Rendered {
    pub open spec fn is(self, markdown: Seq<char>, shown: PlanShown) -> bool {
        let events = events_of(markdown);
        &&& is_body(self.body@, markdown, shown.sections)
        &&& shown_headings(self.headings@) == shown.headings
        &&& text::views(self.blocks@) == blocks_upto(events, events.len() as int).0
        &&& text::views(self.links@) == shown.links
    }
}

/// Renders `markdown`, giving every heading an id and turning a paragraph of nothing but images
/// into a gallery. Raw HTML is refused: the text is trusted, but markup belongs in the
/// templates.
pub fn render(markdown: &str) -> (r: Result<Rendered, String>)
    ensures
        match (r, plan_of(events_of(markdown@))) {
            (Ok(rendered), Ok(shown)) => rendered.is(markdown@, shown),
            (Err(problem), Err(shown)) => problem@ == shown,
            _ => false,
        },
{
    let events = read_events(markdown);
    assert(shown_events(events@).len() == events@.len());
    let planned = plan(events.as_slice());
    let sections = match planned {
        Err(problem) => {
            return Err(problem);
        },
        Ok(planned) => planned,
    };
    let ghost shown = plan_of(events_of(markdown@))->Ok_0;
    let ghost planned_sections = sections.sections@;
    let mut body: Vec<Section> = Vec::new();
    let mut rest = sections.sections;
    while rest.len() > 0
        invariant
            rest@.len() + body@.len() == planned_sections.len(),
            rest@ == planned_sections.skip(body@.len() as int),
            are_sections(planned_sections, shown.sections),
            markdown_kinds(markdown@, true, true, true).len() == events@.len(),
            forall|k: int|
                0 <= k < planned_sections.len() ==> in_range(
                    (#[trigger] planned_sections[k]).picks@,
                    events@.len() as int,
                ),
            forall|i: int|
                0 <= i < body@.len() ==> (#[trigger] body@[i]).is(markdown@, shown.sections[i]),
        decreases rest.len(),
    {
        let ghost at = body@.len() as int;
        let section = rest.remove(0);
        assert(section == planned_sections[at]);
        assert(section.is(shown.sections[at]));
        let html = render_html(markdown, true, true, true, &section.picks);
        body.push(Section { html, gallery: section.gallery });
        assert(rest@ =~= planned_sections.skip(body@.len() as int));
    }
    Ok(
        Rendered {
            body,
            headings: sections.headings,
            blocks: blocks(events.as_slice()),
            links: sections.links,
        },
    )
}

} // verus!
