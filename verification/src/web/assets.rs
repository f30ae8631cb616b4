//! The files that pages load.

use vstd::prelude::*;

use crate::text;

verus! {

/// How long browsers keep the files.
pub const CACHE_CONTROL: &'static str = "public, max-age=3600";

pub open spec fn type_of(file: Seq<char>) -> Option<Seq<char>> {
    if file == "htmx.min.js"@ || file == "htmx-ext-sse.min.js"@ {
        Some("text/javascript"@)
    } else if file == "app.css"@ {
        Some("text/css"@)
    } else if file == "logo.svg"@ {
        Some("image/svg+xml"@)
    } else if file == "apple-touch-icon.png"@ || file == "icon-192.png"@ || file == "icon-512.png"@
        || file == "icon-maskable-512.png"@ {
        Some("image/png"@)
    } else if file == "manifest.webmanifest"@ {
        Some("application/manifest+json"@)
    } else {
        None
    }
}

/// The type of a file that is served under `/static/`, or `None` where there is no such file.
pub fn content_type(file: &str) -> (r: Option<&'static str>)
    ensures
        crate::web::queue::opt_str(r) == type_of(file@),
{
    if text::same(file, "htmx.min.js") || text::same(file, "htmx-ext-sse.min.js") {
        Some("text/javascript")
    } else if text::same(file, "app.css") {
        Some("text/css")
    } else if text::same(file, "logo.svg") {
        Some("image/svg+xml")
    } else if text::same(file, "apple-touch-icon.png") || text::same(file, "icon-192.png")
        || text::same(file, "icon-512.png") || text::same(file, "icon-maskable-512.png") {
        Some("image/png")
    } else if text::same(file, "manifest.webmanifest") {
        Some("application/manifest+json")
    } else {
        None
    }
}

} // verus!
