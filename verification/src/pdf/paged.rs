//! The paged print pipeline's HTML side: the start-up script, the margin-box
//! CSS and the running-head anchor that go into a print document.

use vstd::prelude::*;
use crate::text::{chars_of, esc, escape_into, find_last, last_match, push_all, push_str, slice_vec, string_of};

verus! {

/// Print CSS of the paged mode: page number in the bottom margin box, the
/// document title as running head.
pub const PAGED_CSS: &'static str = "@page { @bottom-center { content: counter(page); font-size: 9pt; color: #444; } @top-left { content: string(doctitle); font-size: 9pt; color: #444; } } .azodoc-doctitle { string-set: doctitle content(text); }";

/// What the paginated DOM reported.
#[derive(Debug, Clone)]
pub struct PagedRenderInfo {
    /// Number of rendered pages.
    pub page_count: u64,
    /// Text sample of the first page's footer box, showing numbers were drawn.
    pub footer_sample: Option<String>,
}

/// The markup escape of a title: `&`, `<`, `>` and `"`.
pub fn escape_html(s: &str) -> (r: String)
    ensures
        r@ == esc(s@, true),
{
    crate::text::escape_str(s, true)
}

/// The script, polyfill reference and CSS injected into a print document.
pub open spec fn paged_head() -> Seq<char> {
    "<script>window.PagedConfig = {auto: true, after: () => { window.__azodocPagedDone = true; }};</script>\n<script src=\"./paged.polyfill.js\"></script>\n<style id=\"azodoc-paged\">"@
        + PAGED_CSS@ + "</style>"@
}

/// The hidden running-head anchor holding the escaped title.
pub open spec fn title_anchor(title: Seq<char>) -> Seq<char> {
    "\n<span class=\"azodoc-doctitle\" style=\"position:absolute;visibility:hidden;\">"@ + esc(title, true)
        + "</span>"@
}

/// Everything injected for an optional title.
pub open spec fn injection(title: Option<Seq<char>>) -> Seq<char> {
    match title {
        Some(t) => paged_head() + title_anchor(t),
        None => paged_head(),
    }
}

/// The print document: the injection goes right before the last `</head>`,
/// or after the document and a newline when there is none.
pub open spec fn augmented(html: Seq<char>, title: Option<Seq<char>>) -> Seq<char> {
    let pos = last_match(html, "</head>"@);
    if pos >= 0 {
        html.take(pos) + injection(title) + html.skip(pos)
    } else {
        html + "\n"@ + injection(title)
    }
}

/// The text behind an optional string slice.
pub open spec fn title_view(t: Option<&str>) -> Option<Seq<char>> {
    match t {
        Some(x) => Some(x@),
        None => None,
    }
}

/// Injects the paged start-up script, the margin-box CSS and, given a
/// title, its running-head anchor into a print document.
pub fn augment_print_html(html: &str, title: Option<&str>) -> (r: String)
    ensures
        r@ == augmented(html@, title_view(title)),
{
    let mut inject: Vec<char> = Vec::new();
    push_str(&mut inject, "<script>window.PagedConfig = {auto: true, after: () => { window.__azodocPagedDone = true; }};</script>\n<script src=\"./paged.polyfill.js\"></script>\n<style id=\"azodoc-paged\">");
    push_str(&mut inject, PAGED_CSS);
    push_str(&mut inject, "</style>");
    if let Some(t) = title {
        push_str(&mut inject, "\n<span class=\"azodoc-doctitle\" style=\"position:absolute;visibility:hidden;\">");
        let tv = chars_of(t);
        escape_into(&mut inject, tv.as_slice(), true);
        push_str(&mut inject, "</span>");
    }
    assert(inject@ =~= injection(title_view(title)));
    let h = chars_of(html);
    let close = chars_of("</head>");
    let mut out: Vec<char> = Vec::new();
    match find_last(h.as_slice(), close.as_slice()) {
        Some(pos) => {
            let before = slice_vec(h.as_slice(), 0, pos);
            let after = slice_vec(h.as_slice(), pos, h.len());
            push_all(&mut out, before.as_slice());
            push_all(&mut out, inject.as_slice());
            push_all(&mut out, after.as_slice());
            assert(out@ =~= h@.take(pos as int) + inject@ + h@.skip(pos as int));
        },
        None => {
            push_all(&mut out, h.as_slice());
            out.push('\n');
            push_all(&mut out, inject.as_slice());
            assert(out@ =~= h@ + "\n"@ + inject@) by {
                reveal_strlit("\n");
            }
        },
    }
    string_of(out.as_slice())
}

} // verus!
