//! HTML export: a Prima content tree rendered as one standalone HTML page,
//! with the loss events of the rendering. The container's knowledge (asset
//! URLs, file names, media types, preserved payloads) comes in as plain
//! values of an [`ExportDoc`].

use vstd::prelude::*;
use crate::json::{get, kids, lemma_kids_inside, str_of, i64_of, Json};
use crate::convert::{
    lossless, push_escaped_str, str_member, str_or_empty, text, then, wrap, wrote, Rendered,
    asset_mime, asset_url, events_view, find_pair, log_none, log_record, lookup, mime_of, payload, payload_of, record,
    url_of, AssetMeta, ExportDoc, LossEvent, LossEventView,
};
use crate::ooxml::document::LossClass;
use crate::text::{
    dec, dec_int, esc, escape_into, fmt_i64, has_prefix, push_all, push_str, str_eq, string_of, chars_of,
    strip_prefixes, strip_suffixes, strip_prefixes_vec, strip_suffixes_vec, trim_end, trim_end_seq, trim_seq, trim,
};

verus! {


// ------------------------------------------------------------------ spans

/// The rendering of the span list member `key` (nothing when absent).
pub open spec fn inline_of(v: Json, key: Seq<char>, doc: ExportDoc, fns: Seq<Seq<char>>) -> Rendered
    decreases v, 0nat,
{
    let k = kids(v, key);
    if k.len() > 0 {
        proof { lemma_kids_inside(v, key); }
        spans_out(k, doc, fns)
    } else {
        text(Seq::empty())
    }
}

/// The rendering of a list of spans, one after the other.
pub open spec fn spans_out(spans: Seq<Json>, doc: ExportDoc, fns: Seq<Seq<char>>) -> Rendered
    decreases spans, 2nat,
{
    if spans.len() == 0 {
        text(Seq::empty())
    } else {
        then(spans_out(spans.drop_last(), doc, fns), span_out(spans.last(), doc, fns))
    }
}

/// The 1-based number of a footnote id among the numbered footnotes.
pub open spec fn fn_number(fns: Seq<Seq<char>>, id: Seq<char>) -> Option<nat>
    decreases fns.len(),
{
    if fns.len() == 0 {
        None
    } else if fns.last() == id && fn_number(fns.drop_last(), id) is None {
        Some(fns.len())
    } else {
        fn_number(fns.drop_last(), id)
    }
}

/// The rendering of a text, hard break or code span.
#[verifier::opaque]
pub open spec fn plain_span_out(span: Json, t: Seq<char>) -> Rendered {
    if t == "text"@ {
        text(esc(str_or_empty(span, "text"@), false))
    } else if t == "hard_break"@ {
        text("<br>\n"@)
    } else {
        text("<code>"@ + esc(str_or_empty(span, "text"@), false) + "</code>"@)
    }
}

/// The tags of the emphasis spans.
pub open spec fn mark_tags(t: Seq<char>) -> (Seq<char>, Seq<char>) {
    if t == "em"@ {
        ("<em>"@, "</em>"@)
    } else if t == "strong"@ {
        ("<strong>"@, "</strong>"@)
    } else if t == "underline"@ {
        ("<u>"@, "</u>"@)
    } else {
        ("<s>"@, "</s>"@)
    }
}

/// The rendering of a link span.
pub open spec fn link_out(span: Json, doc: ExportDoc, fns: Seq<Seq<char>>) -> Rendered
    decreases span, 1nat,
{
    let title = match str_of(get(span, "title"@)) {
        Some(ti) => " title=\""@ + esc(ti, true) + "\""@,
        None => Seq::empty(),
    };
    then(
        lossless("<a href=\""@ + esc(str_or_empty(span, "url"@), true) + "\""@ + title + ">"@),
        wrap(Seq::empty(), inline_of(span, "content"@, doc, fns), "</a>"@),
    )
}

/// The rendering of a math, image, footnote reference, unknown, mention or
/// citation span.
#[verifier::opaque]
pub open spec fn atom_span_out(span: Json, t: Seq<char>, doc: ExportDoc, fns: Seq<Seq<char>>) -> Rendered {
    if t == "inline_math"@ {
        let latex = str_or_empty(span, "latex"@);
        Rendered {
            html: "<span class=\"math\" data-latex=\""@ + esc(latex, true) + "\">"@ + esc(latex, false) + "</span>"@,
            events: seq![record(LossClass::Degraded, "math_export"@, "degraded"@, latex, "公式以 data-latex 文本呈现"@)],
        }
    } else if t == "inline_image"@ {
        lossless("<img src=\""@ + esc(url_of(doc, str_or_empty(span, "asset"@)), true) + "\" alt=\""@ + esc(str_or_empty(span, "alt"@), true) + "\">"@)
    } else if t == "footnote_ref"@ {
        let id = str_or_empty(span, "id"@);
        match fn_number(fns, id) {
            Some(n) => lossless("<sup><a href=\"#fn-"@ + id + "\">["@ + dec(n) + "]</a></sup>"@),
            None => lossless(Seq::empty()),
        }
    } else if t == "unknown"@ {
        let payload_ref = str_or_empty(span, "payload_ref"@);
        match payload_of(doc.preserved@, payload_ref) {
            Some((clean, removed)) => Rendered {
                html: clean,
                events: (if removed {
                    seq![record(LossClass::Unsupported, "active_content"@, "removed"@, payload_ref, "preserved 载荷内联前已消毒"@)]
                } else {
                    Seq::empty()
                }).push(LossEventView::NodeNone),
            },
            None => Rendered {
                html: "<span class=\"azodoc-unknown\">["@ + esc(str_or_empty(span, "summary"@), false) + "]</span>"@,
                events: seq![record(LossClass::PreservedRaw, "unknown_span_html"@, "preserved"@, payload_ref, "未知行内内容以占位呈现"@)],
            },
        }
    } else if t == "mention"@ {
        lossless("<span class=\"mention\">@"@ + esc(str_or_empty(span, "target"@), false) + "</span>"@)
    } else {
        lossless("<cite>"@ + esc(str_or_empty(span, "key"@), false) + "</cite>"@)
    }
}

/// The rendering of one span.
pub open spec fn span_out(span: Json, doc: ExportDoc, fns: Seq<Seq<char>>) -> Rendered
    decreases span, 2nat,
{
    let t = str_or_empty(span, "type"@);
    if t == "text"@ || t == "hard_break"@ || t == "code"@ {
        plain_span_out(span, t)
    } else if t == "em"@ || t == "strong"@ || t == "underline"@ || t == "strike"@ {
        wrap(mark_tags(t).0, inline_of(span, "content"@, doc, fns), mark_tags(t).1)
    } else if t == "link"@ {
        link_out(span, doc, fns)
    } else if t == "inline_math"@ || t == "inline_image"@ || t == "footnote_ref"@ || t == "unknown"@ || t == "mention"@ || t == "cite"@ {
        atom_span_out(span, t, doc, fns)
    } else {
        inline_of(span, "content"@, doc, fns)
    }
}

// ------------------------------------------------------------------ blocks

/// The rendering of the block list member `key`, one block after the other
/// (nothing when absent).
pub open spec fn kids_out(v: Json, key: Seq<char>, doc: ExportDoc, fns: Seq<Seq<char>>) -> Rendered
    decreases v, 0nat,
{
    let k = kids(v, key);
    if k.len() > 0 {
        proof { lemma_kids_inside(v, key); }
        blocks_out(k, doc, fns)
    } else {
        text(Seq::empty())
    }
}

/// The rendering of a list of blocks, one after the other.
pub open spec fn blocks_out(blocks: Seq<Json>, doc: ExportDoc, fns: Seq<Seq<char>>) -> Rendered
    decreases blocks, 3nat,
{
    if blocks.len() == 0 {
        text(Seq::empty())
    } else {
        then(blocks_out(blocks.drop_last(), doc, fns), block_out(blocks.last(), doc, fns))
    }
}

/// The body of a list item: a first paragraph loses its `<p>` wrapping and
/// ends its line; other blocks stay as rendered.
pub open spec fn item_children_out(children: Seq<Json>, doc: ExportDoc, fns: Seq<Seq<char>>) -> Rendered
    decreases children, 3nat,
{
    if children.len() == 0 {
        text(Seq::empty())
    } else {
        let c = children.last();
        let r = block_out(c, doc, fns);
        let r2 = if children.len() == 1 && str_of(get(c, "type"@)) == Some("paragraph"@) {
            Rendered { html: strip_suffixes(strip_prefixes(r.html, "<p>"@), "</p>\n"@) + "\n"@, events: r.events }
        } else {
            r
        };
        then(item_children_out(children.drop_last(), doc, fns), r2)
    }
}

/// The `<li>` of one list item.
pub open spec fn item_out(item: Json, doc: ExportDoc, fns: Seq<Seq<char>>) -> Rendered
    decreases item, 2nat,
{
    let check = match get(item, "checked"@) {
        Some(Json::Bool(c)) => "<input type=\"checkbox\" disabled"@ + (if c { " checked"@ } else { Seq::empty() }) + "> "@,
        _ => Seq::empty(),
    };
    let k = kids(item, "children"@);
    let body = if k.len() > 0 {
        proof { lemma_kids_inside(item, "children"@); }
        item_children_out(k, doc, fns)
    } else {
        text(Seq::empty())
    };
    Rendered { html: "<li>"@ + trim_end_seq(check + body.html) + "</li>\n"@, events: body.events }
}

/// The items of a list, one after the other.
pub open spec fn items_out(items: Seq<Json>, doc: ExportDoc, fns: Seq<Seq<char>>) -> Rendered
    decreases items, 3nat,
{
    if items.len() == 0 {
        text(Seq::empty())
    } else {
        then(items_out(items.drop_last(), doc, fns), item_out(items.last(), doc, fns))
    }
}

/// ` name="n"` when `n` is more than 1.
pub open spec fn span_attr(name: Seq<char>, n: int) -> Seq<char> {
    if n > 1 {
        " "@ + name + "=\""@ + dec_int(n) + "\""@
    } else {
        Seq::empty()
    }
}

/// An integer member, or 1.
pub open spec fn int_or_one(v: Json, key: Seq<char>) -> int {
    match i64_of(get(v, key)) {
        Some(n) => n,
        None => 1,
    }
}

/// One table cell: `th` in a header row, `td` otherwise, with its spans.
pub open spec fn cell_out(cell: Json, header: bool, doc: ExportDoc, fns: Seq<Seq<char>>) -> Rendered
    decreases cell, 2nat,
{
    let tag = if header { "th"@ } else { "td"@ };
    let attrs = span_attr("colspan"@, int_or_one(cell, "colSpan"@)) + span_attr("rowspan"@, int_or_one(cell, "rowSpan"@));
    let inner = kids_out(cell, "children"@, doc, fns);
    Rendered {
        html: "<"@ + tag + attrs + ">"@ + trim_end_seq(inner.html) + "</"@ + tag + ">"@,
        events: inner.events,
    }
}

/// The cells of a row, one after the other.
pub open spec fn cells_out(cells: Seq<Json>, header: bool, doc: ExportDoc, fns: Seq<Seq<char>>) -> Rendered
    decreases cells, 3nat,
{
    if cells.len() == 0 {
        text(Seq::empty())
    } else {
        then(cells_out(cells.drop_last(), header, doc, fns), cell_out(cells.last(), header, doc, fns))
    }
}

/// The cells of a row node.
pub open spec fn row_cells_of(row: Json, header: bool, doc: ExportDoc, fns: Seq<Seq<char>>) -> Rendered
    decreases row, 1nat,
{
    let k = kids(row, "cells"@);
    if k.len() > 0 {
        proof { lemma_kids_inside(row, "cells"@); }
        cells_out(k, header, doc, fns)
    } else {
        text(Seq::empty())
    }
}

/// One table row; the header row sits in a `thead`.
pub open spec fn row_out(row: Json, header: bool, doc: ExportDoc, fns: Seq<Seq<char>>) -> Rendered
    decreases row, 2nat,
{
    let cells = row_cells_of(row, header, doc, fns);
    if header {
        wrap("<thead>\n<tr>"@, cells, "</tr>\n</thead>\n"@)
    } else {
        wrap("<tr>"@, cells, "</tr>\n"@)
    }
}

/// The rows of a table; only the first is a header row, and only when the
/// table says it has one.
pub open spec fn rows_out(rows: Seq<Json>, header_row: bool, doc: ExportDoc, fns: Seq<Seq<char>>) -> Rendered
    decreases rows, 3nat,
{
    if rows.len() == 0 {
        text(Seq::empty())
    } else {
        then(
            rows_out(rows.drop_last(), header_row, doc, fns),
            row_out(rows.last(), header_row && rows.len() == 1, doc, fns),
        )
    }
}

/// A heading: `<hN id="...">`.
pub open spec fn heading_out(node: Json, doc: ExportDoc, fns: Seq<Seq<char>>) -> Rendered
    decreases node, 1nat,
{
    let level = dec_int(int_or_one(node, "level"@));
    let inner = inline_of(node, "content"@, doc, fns);
    Rendered {
        html: "<h"@ + level + " id=\""@ + str_or_empty(node, "id"@) + "\">"@ + inner.html + "</h"@ + level + ">\n"@,
        events: inner.events.push(LossEventView::NodeNone),
    }
}

/// A paragraph: nothing when its text is blank.
pub open spec fn paragraph_out(node: Json, doc: ExportDoc, fns: Seq<Seq<char>>) -> Rendered
    decreases node, 1nat,
{
    let inner = inline_of(node, "content"@, doc, fns);
    if trim_seq(inner.html).len() == 0 {
        Rendered { html: Seq::empty(), events: inner.events.push(LossEventView::NodeNone) }
    } else {
        wrap("<p>"@, inner, "</p>\n"@)
    }
}

/// A list: `ol` when ordered, `ul` otherwise, with a `start` other than 1.
pub open spec fn list_out(node: Json, doc: ExportDoc, fns: Seq<Seq<char>>) -> Rendered
    decreases node, 1nat,
{
    let tag = list_tag(node);
    let start = list_start(node);
    let items = list_items_of(node, doc, fns);
    Rendered {
        html: "<"@ + tag + start + ">\n"@ + items.html + "</"@ + tag + ">\n"@,
        events: items.events.push(LossEventView::NodeNone),
    }
}

/// `ol` for an ordered list, `ul` otherwise.
pub open spec fn list_tag(node: Json) -> Seq<char> {
    if str_of(get(node, "style"@)) == Some("ordered"@) { "ol"@ } else { "ul"@ }
}

/// The `start` attribute of a list, when it does not start at 1.
pub open spec fn list_start(node: Json) -> Seq<char> {
    match i64_of(get(node, "start"@)) {
        Some(n) if n != 1 => " start=\""@ + dec_int(n) + "\""@,
        _ => Seq::empty(),
    }
}

/// The items of a list node.
pub open spec fn list_items_of(node: Json, doc: ExportDoc, fns: Seq<Seq<char>>) -> Rendered
    decreases node, 0nat,
{
    let k = kids(node, "items"@);
    if k.len() > 0 {
        proof { lemma_kids_inside(node, "items"@); }
        items_out(k, doc, fns)
    } else {
        text(Seq::empty())
    }
}

/// A table.
pub open spec fn table_out(node: Json, doc: ExportDoc, fns: Seq<Seq<char>>) -> Rendered
    decreases node, 1nat,
{
    let header_row = get(node, "header_row"@) == Some(Json::Bool(true));
    let k = kids(node, "rows"@);
    let rows = if k.len() > 0 {
        proof { lemma_kids_inside(node, "rows"@); }
        rows_out(k, header_row, doc, fns)
    } else {
        text(Seq::empty())
    };
    Rendered { html: "<table>\n"@ + rows.html + "</table>\n"@, events: rows.events.push(LossEventView::NodeNone) }
}

/// A figure: the image, then its caption when it has one.
pub open spec fn figure_out(node: Json, doc: ExportDoc, fns: Seq<Seq<char>>) -> Rendered
    decreases node, 1nat,
{
    let img = "<figure><img src=\""@ + esc(url_of(doc, str_or_empty(node, "asset"@)), true) + "\" alt=\""@
        + esc(str_or_empty(node, "alt"@), true) + "\">"@;
    let cap = inline_of(node, "caption"@, doc, fns);
    let cap_html = if cap.html.len() == 0 { Seq::empty() } else { "<figcaption>"@ + cap.html + "</figcaption>\n"@ };
    Rendered { html: img + cap_html + "</figure>\n"@, events: seq![LossEventView::NodeNone] + cap.events }
}

/// A callout.
pub open spec fn callout_out(node: Json, doc: ExportDoc, fns: Seq<Seq<char>>) -> Rendered
    decreases node, 1nat,
{
    let variant = match str_of(get(node, "variant"@)) {
        Some(v) => v,
        None => "note"@,
    };
    let inner = kids_out(node, "children"@, doc, fns);
    Rendered {
        html: "<div class=\"callout\" data-variant=\""@ + variant + "\">"@ + inner.html + "</div>\n"@,
        events: inner.events.push(LossEventView::NodeNone),
    }
}

/// A block of a type the export does not know: reported, then its
/// `children` and `items` rendered.
pub open spec fn fallback_out(node: Json, t: Seq<char>, doc: ExportDoc, fns: Seq<Seq<char>>) -> Rendered
    decreases node, 1nat,
{
    then(
        Rendered {
            html: Seq::empty(),
            events: seq![record(LossClass::Partial, "html_export_fallback"@, "degraded"@, t, "未知块类型按子内容降级导出"@)],
        },
        then(kids_out(node, "children"@, doc, fns), kids_out(node, "items"@, doc, fns)),
    )
}

/// A code block, image, rule, page break, formula, footnote, embedded asset or unknown
/// block.
#[verifier::opaque]
pub open spec fn atom_block_out(node: Json, t: Seq<char>, doc: ExportDoc) -> Rendered {
    if t == "code_block"@ {
        let lang = match str_of(get(node, "language"@)) {
            Some(l) => " class=\"language-"@ + l + "\""@,
            None => Seq::empty(),
        };
        lossless("<pre><code"@ + lang + ">"@ + esc(str_or_empty(node, "text"@), false) + "</code></pre>\n"@)
    } else if t == "image"@ {
        lossless("<p><img src=\""@ + esc(url_of(doc, str_or_empty(node, "asset"@)), true) + "\" alt=\""@ + esc(str_or_empty(node, "alt"@), true) + "\"></p>\n"@)
    } else if t == "horizontal_rule"@ {
        lossless("<hr>\n"@)
    } else if t == "page_break"@ {
        lossless("<div class=\"page-break\"></div>\n"@)
    } else if t == "math_block"@ {
        let latex = str_or_empty(node, "latex"@);
        Rendered {
            html: "<p class=\"math\" data-latex=\""@ + esc(latex, true) + "\">"@ + esc(latex, false) + "</p>\n"@,
            events: seq![record(LossClass::Degraded, "math_export"@, "degraded"@, latex, "公式以 data-latex 文本呈现（KaTeX 内嵌为后续 RFC）"@)],
        }
    } else if t == "footnote"@ {
        text(Seq::empty())
    } else if t == "embed"@ {
        embed_out(node, doc)
    } else {
        unknown_block_out(node, doc)
    }
}

/// Whether a block type renders without looking at blocks inside it.
pub open spec fn atom_block(t: Seq<char>) -> bool {
    t == "code_block"@ || t == "image"@ || t == "horizontal_rule"@ || t == "page_break"@ || t == "math_block"@
        || t == "footnote"@ || t == "embed"@ || t == "unknown"@
}

/// The rendering of one block.
pub open spec fn block_out(node: Json, doc: ExportDoc, fns: Seq<Seq<char>>) -> Rendered
    decreases node, 3nat,
{
    let t = str_or_empty(node, "type"@);
    if t == "section"@ {
        then(lossless(Seq::empty()), kids_out(node, "children"@, doc, fns))
    } else if t == "heading"@ {
        heading_out(node, doc, fns)
    } else if t == "paragraph"@ {
        paragraph_out(node, doc, fns)
    } else if t == "quote"@ {
        wrap("<blockquote>\n"@, kids_out(node, "children"@, doc, fns), "</blockquote>\n"@)
    } else if t == "list"@ {
        list_out(node, doc, fns)
    } else if t == "table"@ {
        table_out(node, doc, fns)
    } else if t == "figure"@ {
        figure_out(node, doc, fns)
    } else if t == "callout"@ {
        callout_out(node, doc, fns)
    } else if atom_block(t) {
        atom_block_out(node, t, doc)
    } else {
        fallback_out(node, t, doc, fns)
    }
}

/// An embedded asset: images, video and audio inline, anything else as a
/// link.
pub open spec fn embed_out(node: Json, doc: ExportDoc) -> Rendered {
    let asset = str_or_empty(node, "asset"@);
    let url = esc(url_of(doc, asset), true);
    let mime = mime_of(doc.assets@, asset);
    if has_prefix(mime, "image/"@) {
        lossless("<p><img src=\""@ + url + "\" alt=\"\"></p>\n"@)
    } else if has_prefix(mime, "video/"@) {
        lossless("<p><video controls src=\""@ + url + "\"></video></p>\n"@)
    } else if has_prefix(mime, "audio/"@) {
        lossless("<p><audio controls src=\""@ + url + "\"></audio></p>\n"@)
    } else {
        let name = match lookup(doc.filenames@, asset) {
            Some(n) => n,
            None => asset,
        };
        Rendered {
            html: "<p><a href=\""@ + url + "\">"@ + esc(name, false) + "</a></p>\n"@,
            events: seq![record(LossClass::Partial, "embed_html_export"@, "degraded"@, asset, "内嵌资源以链接呈现"@)],
        }
    }
}

/// An unknown block: its sanitized payload when the container has it, a
/// placeholder otherwise.
pub open spec fn unknown_block_out(node: Json, doc: ExportDoc) -> Rendered {
    let summary = str_or_empty(node, "summary"@);
    let payload_ref = str_or_empty(node, "payload_ref"@);
    match payload_of(doc.preserved@, payload_ref) {
        Some((clean, removed)) => Rendered {
            html: "<div data-azodoc-unknown=\""@ + esc(summary, true) + "\">"@ + clean + "</div>\n"@,
            events: (if removed {
                seq![record(LossClass::Unsupported, "active_content"@, "removed"@, payload_ref, "preserved 载荷内联前已消毒（移除活动内容）"@)]
            } else {
                Seq::empty()
            }).push(LossEventView::NodeNone),
        },
        None => Rendered {
            html: "<div class=\"azodoc-unknown\" data-azodoc-unknown=\""@ + esc(summary, true) + "\">[未能显示: "@ + esc(summary, false) + "]</div>\n"@,
            events: seq![record(LossClass::PreservedRaw, "unknown_block_html"@, "preserved"@, payload_ref, "未知内容以占位框呈现"@)],
        },
    }
}

// ------------------------------------------------------------------ rendering







fn fn_index(fns: &Vec<String>, id: &str) -> (r: Option<usize>)
    ensures
        match r {
            Some(n) => fn_number(fns@.map_values(|s: String| s@), id@) == Some(n as nat),
            None => fn_number(fns@.map_values(|s: String| s@), id@) is None,
        },
{
    let ghost ids = fns@.map_values(|s: String| s@);
    let mut i: usize = 0;
    while i < fns.len()
        invariant
            i <= fns.len(),
            ids == fns@.map_values(|s: String| s@),
            forall|j: int| 0 <= j < i ==> ids[j] != id@,
        decreases fns.len() - i,
    {
        if str_eq(fns[i].as_str(), id) {
            proof { lemma_fn_number_first(ids, id@, i as int); }
            return Some(i + 1);
        }
        i = i + 1;
    }
    proof { lemma_fn_number_none(ids, id@); }
    None
}

proof fn lemma_fn_number_first(ids: Seq<Seq<char>>, id: Seq<char>, i: int)
    requires
        0 <= i < ids.len(),
        ids[i] == id,
        forall|j: int| 0 <= j < i ==> ids[j] != id,
    ensures
        fn_number(ids, id) == Some((i + 1) as nat),
    decreases ids.len(),
{
    if ids.len() - 1 > i {
        lemma_fn_number_first(ids.drop_last(), id, i);
    } else {
        lemma_fn_number_none(ids.drop_last(), id);
    }
}

proof fn lemma_fn_number_none(ids: Seq<Seq<char>>, id: Seq<char>)
    requires
        forall|j: int| 0 <= j < ids.len() ==> ids[j] != id,
    ensures
        fn_number(ids, id) is None,
    decreases ids.len(),
{
    if ids.len() > 0 {
        lemma_fn_number_none(ids.drop_last(), id);
    }
}




#[verifier::rlimit(50)]
fn render_inline(v: &Json, key: &str, doc: &ExportDoc, fns: &Vec<String>, out: &mut Vec<char>, log: &mut Vec<LossEvent>)
    ensures
        wrote(final(out)@, final(log)@, old(out)@, events_view(old(log)@), inline_of(*v, key@, *doc, fns@.map_values(|s: String| s@))),
    decreases *v, 0nat,
{
    let ghost ids = fns@.map_values(|s: String| s@);
    let ghost o0 = out@;
    let ghost l0 = events_view(log@);
    if let Some(spans) = v.get_array(key) {
        if spans.len() > 0 {
            proof { lemma_kids_inside(*v, key@); }
            let mut i: usize = 0;
            assert(out@ =~= o0 + spans_out(spans@.take(0), *doc, ids).html);
            assert(events_view(log@) =~= l0 + spans_out(spans@.take(0), *doc, ids).events);
            while i < spans.len()
                invariant
                    i <= spans.len(),
                    spans@ == kids(*v, key@),
                    decreases_to!(*v => spans@),
                    ids == fns@.map_values(|s: String| s@),
                    wrote(out@, log@, o0, l0, spans_out(spans@.take(i as int), *doc, ids)),
                decreases spans.len() - i,
            {
                assert(decreases_to!(spans@ => spans@[i as int]));
                render_span(&spans[i], doc, fns, out, log);
                proof {
                    let t = spans@.take(i + 1);
                    assert(t.drop_last() =~= spans@.take(i as int));
                }
                i = i + 1;
                assert(out@ =~= o0 + spans_out(spans@.take(i as int), *doc, ids).html);
                assert(events_view(log@) =~= l0 + spans_out(spans@.take(i as int), *doc, ids).events);
            }
            assert(spans@.take(spans.len() as int) =~= spans@);
            return;
        }
    }
    assert(out@ =~= o0 + inline_of(*v, key@, *doc, ids).html);
    assert(events_view(log@) =~= l0 + inline_of(*v, key@, *doc, ids).events);
}

fn render_plain_span(span: &Json, t: &str, out: &mut Vec<char>)
    requires
        t@ == "text"@ || t@ == "hard_break"@ || t@ == "code"@,
    ensures
        final(out)@ == old(out)@ + plain_span_out(*span, t@).html,
        plain_span_out(*span, t@).events.len() == 0,
{
    proof { reveal(plain_span_out); }
    let ghost o0 = out@;
    if str_eq(t, "text") {
        push_escaped_str(out, str_member(span, "text"), false);
    } else if str_eq(t, "hard_break") {
        push_str(out, "<br>\n");
    } else {
        push_str(out, "<code>");
        push_escaped_str(out, str_member(span, "text"), false);
        push_str(out, "</code>");
    }
    assert(out@ =~= o0 + plain_span_out(*span, t@).html);
}

fn render_atom_span(span: &Json, t: &str, doc: &ExportDoc, fns: &Vec<String>, out: &mut Vec<char>, log: &mut Vec<LossEvent>)
    requires
        t@ == "inline_math"@ || t@ == "inline_image"@ || t@ == "footnote_ref"@ || t@ == "unknown"@ || t@ == "mention"@ || t@ == "cite"@,
    ensures
        wrote(final(out)@, final(log)@, old(out)@, events_view(old(log)@), atom_span_out(*span, t@, *doc, fns@.map_values(|s: String| s@))),
{
    proof { reveal(atom_span_out); }
    let ghost ids = fns@.map_values(|s: String| s@);
    let ghost o0 = out@;
    let ghost l0 = events_view(log@);
    if str_eq(t, "inline_math") {
        let latex = str_member(span, "latex");
        log_record(log, LossClass::Degraded, "math_export", "degraded", latex, "公式以 data-latex 文本呈现");
        push_str(out, "<span class=\"math\" data-latex=\"");
        push_escaped_str(out, latex, true);
        push_str(out, "\">");
        push_escaped_str(out, latex, false);
        push_str(out, "</span>");
    } else if str_eq(t, "inline_image") {
        log_none(log);
        push_str(out, "<img src=\"");
        push_escaped_str(out, asset_url(doc, str_member(span, "asset")), true);
        push_str(out, "\" alt=\"");
        push_escaped_str(out, str_member(span, "alt"), true);
        push_str(out, "\">");
    } else if str_eq(t, "footnote_ref") {
        let id = str_member(span, "id");
        log_none(log);
        if let Some(n) = fn_index(fns, id) {
            push_str(out, "<sup><a href=\"#fn-");
            push_str(out, id);
            push_str(out, "\">[");
            push_all(out, crate::text::fmt_u64(n as u64).as_slice());
            push_str(out, "]</a></sup>");
        }
    } else if str_eq(t, "unknown") {
        let payload_ref = str_member(span, "payload_ref");
        match payload(&doc.preserved, payload_ref) {
            Some((clean, removed)) => {
                if removed {
                    log_record(log, LossClass::Unsupported, "active_content", "removed", payload_ref, "preserved 载荷内联前已消毒");
                }
                log_none(log);
                push_str(out, clean.as_str());
            },
            None => {
                log_record(log, LossClass::PreservedRaw, "unknown_span_html", "preserved", payload_ref, "未知行内内容以占位呈现");
                push_str(out, "<span class=\"azodoc-unknown\">[");
                push_escaped_str(out, str_member(span, "summary"), false);
                push_str(out, "]</span>");
            },
        }
    } else if str_eq(t, "mention") {
        log_none(log);
        push_str(out, "<span class=\"mention\">@");
        push_escaped_str(out, str_member(span, "target"), false);
        push_str(out, "</span>");
    } else {
        log_none(log);
        push_str(out, "<cite>");
        push_escaped_str(out, str_member(span, "key"), false);
        push_str(out, "</cite>");
    }
    assert(out@ =~= o0 + atom_span_out(*span, t@, *doc, ids).html);
    assert(events_view(log@) =~= l0 + atom_span_out(*span, t@, *doc, ids).events);
}

#[verifier::rlimit(50)]
fn render_link(span: &Json, doc: &ExportDoc, fns: &Vec<String>, out: &mut Vec<char>, log: &mut Vec<LossEvent>)
    ensures
        wrote(final(out)@, final(log)@, old(out)@, events_view(old(log)@), link_out(*span, *doc, fns@.map_values(|s: String| s@))),
    decreases *span, 1nat,
{
    let ghost ids = fns@.map_values(|s: String| s@);
    let ghost o0 = out@;
    let ghost l0 = events_view(log@);
    push_str(out, "<a href=\"");
    push_escaped_str(out, str_member(span, "url"), true);
    push_str(out, "\"");
    if let Some(title) = span.get_str("title") {
        push_str(out, " title=\"");
        push_escaped_str(out, title, true);
        push_str(out, "\"");
    }
    push_str(out, ">");
    log_none(log);
    let ghost o1 = out@;
    let ghost l1 = events_view(log@);
    render_inline(span, "content", doc, fns, out, log);
    push_str(out, "</a>");
    assert(out@ =~= o0 + link_out(*span, *doc, ids).html);
    assert(events_view(log@) =~= l0 + link_out(*span, *doc, ids).events);
}

#[verifier::rlimit(50)]
fn render_span(span: &Json, doc: &ExportDoc, fns: &Vec<String>, out: &mut Vec<char>, log: &mut Vec<LossEvent>)
    ensures
        wrote(final(out)@, final(log)@, old(out)@, events_view(old(log)@), span_out(*span, *doc, fns@.map_values(|s: String| s@))),
    decreases *span, 2nat,
{
    let ghost ids = fns@.map_values(|s: String| s@);
    let ghost o0 = out@;
    let ghost l0 = events_view(log@);
    let t = str_member(span, "type");
    if str_eq(t, "text") || str_eq(t, "hard_break") || str_eq(t, "code") {
        render_plain_span(span, t, out);
        assert(events_view(log@) =~= l0 + span_out(*span, *doc, ids).events);
    } else if str_eq(t, "em") || str_eq(t, "strong") || str_eq(t, "underline") || str_eq(t, "strike") {
        let (open, close) = if str_eq(t, "em") {
            ("<em>", "</em>")
        } else if str_eq(t, "strong") {
            ("<strong>", "</strong>")
        } else if str_eq(t, "underline") {
            ("<u>", "</u>")
        } else {
            ("<s>", "</s>")
        };
        assert(open@ == mark_tags(t@).0 && close@ == mark_tags(t@).1);
        push_str(out, open);
        render_inline(span, "content", doc, fns, out, log);
        push_str(out, close);
        assert(out@ =~= o0 + span_out(*span, *doc, ids).html);
    } else if str_eq(t, "link") {
        render_link(span, doc, fns, out, log);
    } else if str_eq(t, "inline_math") || str_eq(t, "inline_image") || str_eq(t, "footnote_ref") || str_eq(t, "unknown")
        || str_eq(t, "mention") || str_eq(t, "cite") {
        render_atom_span(span, t, doc, fns, out, log);
    } else {
        render_inline(span, "content", doc, fns, out, log);
    }
}

pub(crate) fn int_member_or_one(v: &Json, key: &str) -> (r: i64)
    ensures
        r as int == int_or_one(*v, key@),
{
    match v.get(key) {
        Some(x) => match x.as_i64() {
            Some(n) => n,
            None => 1,
        },
        None => 1,
    }
}

fn push_span_attr(out: &mut Vec<char>, name: &str, n: i64)
    ensures
        final(out)@ == old(out)@ + span_attr(name@, n as int),
{
    let ghost o0 = out@;
    if n > 1 {
        push_str(out, " ");
        push_str(out, name);
        push_str(out, "=\"");
        push_all(out, fmt_i64(n).as_slice());
        push_str(out, "\"");
    }
    assert(out@ =~= o0 + span_attr(name@, n as int));
}

#[verifier::rlimit(50)]
fn render_kids(v: &Json, key: &str, doc: &ExportDoc, fns: &Vec<String>, out: &mut Vec<char>, log: &mut Vec<LossEvent>)
    ensures
        wrote(final(out)@, final(log)@, old(out)@, events_view(old(log)@), kids_out(*v, key@, *doc, fns@.map_values(|s: String| s@))),
    decreases *v, 0nat,
{
    let ghost ids = fns@.map_values(|s: String| s@);
    let ghost o0 = out@;
    let ghost l0 = events_view(log@);
    if let Some(blocks) = v.get_array(key) {
        if blocks.len() > 0 {
            proof { lemma_kids_inside(*v, key@); }
            let mut i: usize = 0;
            assert(out@ =~= o0 + blocks_out(blocks@.take(0), *doc, ids).html);
            assert(events_view(log@) =~= l0 + blocks_out(blocks@.take(0), *doc, ids).events);
            while i < blocks.len()
                invariant
                    i <= blocks.len(),
                    blocks@ == kids(*v, key@),
                    decreases_to!(*v => blocks@),
                    ids == fns@.map_values(|s: String| s@),
                    wrote(out@, log@, o0, l0, blocks_out(blocks@.take(i as int), *doc, ids)),
                decreases blocks.len() - i,
            {
                assert(decreases_to!(blocks@ => blocks@[i as int]));
                render_block(&blocks[i], doc, fns, out, log);
                proof {
                    let t = blocks@.take(i + 1);
                    assert(t.drop_last() =~= blocks@.take(i as int));
                }
                i = i + 1;
                assert(out@ =~= o0 + blocks_out(blocks@.take(i as int), *doc, ids).html);
                assert(events_view(log@) =~= l0 + blocks_out(blocks@.take(i as int), *doc, ids).events);
            }
            assert(blocks@.take(blocks.len() as int) =~= blocks@);
            return;
        }
    }
    assert(out@ =~= o0 + kids_out(*v, key@, *doc, ids).html);
    assert(events_view(log@) =~= l0 + kids_out(*v, key@, *doc, ids).events);
}

#[verifier::rlimit(50)]
fn render_heading(node: &Json, doc: &ExportDoc, fns: &Vec<String>, out: &mut Vec<char>, log: &mut Vec<LossEvent>)
    ensures
        wrote(final(out)@, final(log)@, old(out)@, events_view(old(log)@), heading_out(*node, *doc, fns@.map_values(|s: String| s@))),
    decreases *node, 1nat,
{
    let ghost ids = fns@.map_values(|s: String| s@);
    let ghost o0 = out@;
    let ghost l0 = events_view(log@);
    let level = fmt_i64(int_member_or_one(node, "level"));
    push_str(out, "<h");
    push_all(out, level.as_slice());
    push_str(out, " id=\"");
    push_str(out, str_member(node, "id"));
    push_str(out, "\">");
    render_inline(node, "content", doc, fns, out, log);
    push_str(out, "</h");
    push_all(out, level.as_slice());
    push_str(out, ">\n");
    log_none(log);
    assert(out@ =~= o0 + heading_out(*node, *doc, ids).html);
    assert(events_view(log@) =~= l0 + heading_out(*node, *doc, ids).events);
}

#[verifier::rlimit(50)]
fn render_paragraph(node: &Json, doc: &ExportDoc, fns: &Vec<String>, out: &mut Vec<char>, log: &mut Vec<LossEvent>)
    ensures
        wrote(final(out)@, final(log)@, old(out)@, events_view(old(log)@), paragraph_out(*node, *doc, fns@.map_values(|s: String| s@))),
    decreases *node, 1nat,
{
    let ghost ids = fns@.map_values(|s: String| s@);
    let ghost o0 = out@;
    let ghost l0 = events_view(log@);
    let mut buf: Vec<char> = Vec::new();
    render_inline(node, "content", doc, fns, &mut buf, log);
    assert(buf@ =~= inline_of(*node, "content"@, *doc, ids).html);
    if trim(buf.as_slice()).len() == 0 {
        log_none(log);
    } else {
        push_str(out, "<p>");
        push_all(out, buf.as_slice());
        push_str(out, "</p>\n");
    }
    assert(out@ =~= o0 + paragraph_out(*node, *doc, ids).html);
    assert(events_view(log@) =~= l0 + paragraph_out(*node, *doc, ids).events);
}

#[verifier::rlimit(50)]
fn render_item(item: &Json, doc: &ExportDoc, fns: &Vec<String>, out: &mut Vec<char>, log: &mut Vec<LossEvent>)
    ensures
        wrote(final(out)@, final(log)@, old(out)@, events_view(old(log)@), item_out(*item, *doc, fns@.map_values(|s: String| s@))),
    decreases *item, 2nat,
{
    let ghost ids = fns@.map_values(|s: String| s@);
    let ghost o0 = out@;
    let ghost l0 = events_view(log@);
    let mut li: Vec<char> = Vec::new();
    match item.get("checked") {
        Some(Json::Bool(c)) => {
            push_str(&mut li, "<input type=\"checkbox\" disabled");
            if *c {
                push_str(&mut li, " checked");
            }
            push_str(&mut li, "> ");
        },
        _ => {},
    }
    let ghost check = li@;
    let ghost body_html = Seq::<char>::empty();
    if let Some(children) = item.get_array("children") {
        if children.len() > 0 {
            proof { lemma_kids_inside(*item, "children"@); }
            let mut i: usize = 0;
            assert(li@ =~= check + item_children_out(children@.take(0), *doc, ids).html);
            assert(events_view(log@) =~= l0 + item_children_out(children@.take(0), *doc, ids).events);
            while i < children.len()
                invariant
                    i <= children.len(),
                    children@ == kids(*item, "children"@),
                    decreases_to!(*item => children@),
                    ids == fns@.map_values(|s: String| s@),
                    wrote(li@, log@, check, l0, item_children_out(children@.take(i as int), *doc, ids)),
                decreases children.len() - i,
            {
                assert(decreases_to!(children@ => children@[i as int]));
                let mut r: Vec<char> = Vec::new();
                let ghost lb = events_view(log@);
                render_block(&children[i], doc, fns, &mut r, log);
                assert(r@ =~= block_out(children@[i as int], *doc, ids).html);
                let is_para = match children[i].get_str("type") {
                    Some(t) => str_eq(t, "paragraph"),
                    None => false,
                };
                if i == 0 && is_para {
                    let p1 = strip_prefixes_vec(r.as_slice(), chars_of("<p>").as_slice());
                    let p2 = strip_suffixes_vec(p1.as_slice(), chars_of("</p>\n").as_slice());
                    push_all(&mut li, p2.as_slice());
                    li.push('\n');
                } else {
                    push_all(&mut li, r.as_slice());
                }
                proof {
                    let t = children@.take(i + 1);
                    assert(t.drop_last() =~= children@.take(i as int));
                    assert(t.last() == children@[i as int]);
                    assert(t.len() == i + 1);
                    reveal_strlit("\n");
                }
                i = i + 1;
                assert(li@ =~= check + item_children_out(children@.take(i as int), *doc, ids).html);
                assert(events_view(log@) =~= l0 + item_children_out(children@.take(i as int), *doc, ids).events);
            }
            assert(children@.take(children.len() as int) =~= children@);
        }
    }
    let trimmed = trim_end(li.as_slice());
    push_str(out, "<li>");
    push_all(out, trimmed.as_slice());
    push_str(out, "</li>\n");
    assert(out@ =~= o0 + item_out(*item, *doc, ids).html);
    assert(events_view(log@) =~= l0 + item_out(*item, *doc, ids).events);
}

#[verifier::rlimit(50)]
fn render_list_items(node: &Json, doc: &ExportDoc, fns: &Vec<String>, out: &mut Vec<char>, log: &mut Vec<LossEvent>)
    ensures
        wrote(final(out)@, final(log)@, old(out)@, events_view(old(log)@), list_items_of(*node, *doc, fns@.map_values(|s: String| s@))),
    decreases *node, 0nat,
{
    let ghost ids = fns@.map_values(|s: String| s@);
    let ghost o1 = out@;
    let ghost l0 = events_view(log@);
    if let Some(items) = node.get_array("items") {
        if items.len() > 0 {
            proof { lemma_kids_inside(*node, "items"@); }
            let mut i: usize = 0;
            assert(out@ =~= o1 + items_out(items@.take(0), *doc, ids).html);
            assert(events_view(log@) =~= l0 + items_out(items@.take(0), *doc, ids).events);
            while i < items.len()
                invariant
                    i <= items.len(),
                    items@ == kids(*node, "items"@),
                    decreases_to!(*node => items@),
                    ids == fns@.map_values(|s: String| s@),
                    wrote(out@, log@, o1, l0, items_out(items@.take(i as int), *doc, ids)),
                decreases items.len() - i,
            {
                assert(decreases_to!(items@ => items@[i as int]));
                render_item(&items[i], doc, fns, out, log);
                proof {
                    let t = items@.take(i + 1);
                    assert(t.drop_last() =~= items@.take(i as int));
                }
                i = i + 1;
                assert(out@ =~= o1 + items_out(items@.take(i as int), *doc, ids).html);
                assert(events_view(log@) =~= l0 + items_out(items@.take(i as int), *doc, ids).events);
            }
            assert(items@.take(items.len() as int) =~= items@);
            return;
        }
    }
    assert(out@ =~= o1 + list_items_of(*node, *doc, ids).html);
    assert(events_view(log@) =~= l0 + list_items_of(*node, *doc, ids).events);
}

fn list_tag_of(node: &Json) -> (r: &'static str)
    ensures
        r@ == list_tag(*node),
{
    let ordered = match node.get_str("style") {
        Some(st) => str_eq(st, "ordered"),
        None => false,
    };
    if ordered { "ol" } else { "ul" }
}

fn list_start_of(node: &Json) -> (r: Vec<char>)
    ensures
        r@ == list_start(*node),
{
    let mut v: Vec<char> = Vec::new();
    match node.get("start") {
        Some(x) => match x.as_i64() {
            Some(n) => {
                if n != 1 {
                    push_str(&mut v, " start=\"");
                    push_all(&mut v, fmt_i64(n).as_slice());
                    push_str(&mut v, "\"");
                }
            },
            None => {},
        },
        None => {},
    }
    assert(v@ =~= list_start(*node));
    v
}

#[verifier::rlimit(50)]
fn render_list(node: &Json, doc: &ExportDoc, fns: &Vec<String>, out: &mut Vec<char>, log: &mut Vec<LossEvent>)
    ensures
        wrote(final(out)@, final(log)@, old(out)@, events_view(old(log)@), list_out(*node, *doc, fns@.map_values(|s: String| s@))),
    decreases *node, 1nat,
{
    let ghost ids = fns@.map_values(|s: String| s@);
    let ghost o0 = out@;
    let ghost l0 = events_view(log@);
    let tag = list_tag_of(node);
    let start = list_start_of(node);
    push_str(out, "<");
    push_str(out, tag);
    push_all(out, start.as_slice());
    push_str(out, ">\n");
    render_list_items(node, doc, fns, out, log);
    push_str(out, "</");
    push_str(out, tag);
    push_str(out, ">\n");
    log_none(log);
    assert(out@ =~= o0 + list_out(*node, *doc, ids).html);
    assert(events_view(log@) =~= l0 + list_out(*node, *doc, ids).events);
}

#[verifier::rlimit(50)]
fn render_cell(cell: &Json, header: bool, doc: &ExportDoc, fns: &Vec<String>, out: &mut Vec<char>, log: &mut Vec<LossEvent>)
    ensures
        wrote(final(out)@, final(log)@, old(out)@, events_view(old(log)@), cell_out(*cell, header, *doc, fns@.map_values(|s: String| s@))),
    decreases *cell, 2nat,
{
    let ghost ids = fns@.map_values(|s: String| s@);
    let ghost o0 = out@;
    let ghost l0 = events_view(log@);
    let tag = if header { "th" } else { "td" };
    push_str(out, "<");
    push_str(out, tag);
    push_span_attr(out, "colspan", int_member_or_one(cell, "colSpan"));
    push_span_attr(out, "rowspan", int_member_or_one(cell, "rowSpan"));
    push_str(out, ">");
    let mut buf: Vec<char> = Vec::new();
    render_kids(cell, "children", doc, fns, &mut buf, log);
    assert(buf@ =~= kids_out(*cell, "children"@, *doc, ids).html);
    push_all(out, trim_end(buf.as_slice()).as_slice());
    push_str(out, "</");
    push_str(out, tag);
    push_str(out, ">");
    assert(out@ =~= o0 + cell_out(*cell, header, *doc, ids).html);
    assert(events_view(log@) =~= l0 + cell_out(*cell, header, *doc, ids).events);
}

#[verifier::rlimit(50)]
fn render_row_cells(row: &Json, header: bool, doc: &ExportDoc, fns: &Vec<String>, out: &mut Vec<char>, log: &mut Vec<LossEvent>)
    ensures
        wrote(final(out)@, final(log)@, old(out)@, events_view(old(log)@), row_cells_of(*row, header, *doc, fns@.map_values(|s: String| s@))),
    decreases *row, 1nat,
{
    let ghost ids = fns@.map_values(|s: String| s@);
    let ghost o1 = out@;
    let ghost l0 = events_view(log@);
    if let Some(cells) = row.get_array("cells") {
        if cells.len() > 0 {
            proof { lemma_kids_inside(*row, "cells"@); }
            let mut i: usize = 0;
            assert(out@ =~= o1 + cells_out(cells@.take(0), header, *doc, ids).html);
            assert(events_view(log@) =~= l0 + cells_out(cells@.take(0), header, *doc, ids).events);
            while i < cells.len()
                invariant
                    i <= cells.len(),
                    cells@ == kids(*row, "cells"@),
                    decreases_to!(*row => cells@),
                    ids == fns@.map_values(|s: String| s@),
                    wrote(out@, log@, o1, l0, cells_out(cells@.take(i as int), header, *doc, ids)),
                decreases cells.len() - i,
            {
                assert(decreases_to!(cells@ => cells@[i as int]));
                render_cell(&cells[i], header, doc, fns, out, log);
                proof {
                    let t = cells@.take(i + 1);
                    assert(t.drop_last() =~= cells@.take(i as int));
                }
                i = i + 1;
                assert(out@ =~= o1 + cells_out(cells@.take(i as int), header, *doc, ids).html);
                assert(events_view(log@) =~= l0 + cells_out(cells@.take(i as int), header, *doc, ids).events);
            }
            assert(cells@.take(cells.len() as int) =~= cells@);
            return;
        }
    }
    assert(out@ =~= o1 + row_cells_of(*row, header, *doc, ids).html);
    assert(events_view(log@) =~= l0 + row_cells_of(*row, header, *doc, ids).events);
}

#[verifier::rlimit(50)]
fn render_row(row: &Json, header: bool, doc: &ExportDoc, fns: &Vec<String>, out: &mut Vec<char>, log: &mut Vec<LossEvent>)
    ensures
        wrote(final(out)@, final(log)@, old(out)@, events_view(old(log)@), row_out(*row, header, *doc, fns@.map_values(|s: String| s@))),
    decreases *row, 2nat,
{
    let ghost ids = fns@.map_values(|s: String| s@);
    let ghost o0 = out@;
    let ghost l0 = events_view(log@);
    if header {
        push_str(out, "<thead>\n<tr>");
    } else {
        push_str(out, "<tr>");
    }
    render_row_cells(row, header, doc, fns, out, log);
    if header {
        push_str(out, "</tr>\n</thead>\n");
    } else {
        push_str(out, "</tr>\n");
    }
    assert(out@ =~= o0 + row_out(*row, header, *doc, ids).html);
    assert(events_view(log@) =~= l0 + row_out(*row, header, *doc, ids).events);
}

#[verifier::rlimit(50)]
fn render_table(node: &Json, doc: &ExportDoc, fns: &Vec<String>, out: &mut Vec<char>, log: &mut Vec<LossEvent>)
    ensures
        wrote(final(out)@, final(log)@, old(out)@, events_view(old(log)@), table_out(*node, *doc, fns@.map_values(|s: String| s@))),
    decreases *node, 1nat,
{
    let ghost ids = fns@.map_values(|s: String| s@);
    let ghost o0 = out@;
    let ghost l0 = events_view(log@);
    let header_row = match node.get("header_row") {
        Some(Json::Bool(b)) => *b,
        _ => false,
    };
    assert(header_row == (get(*node, "header_row"@) == Some(Json::Bool(true))));
    push_str(out, "<table>\n");
    let ghost o1 = out@;
    if let Some(rows) = node.get_array("rows") {
        if rows.len() > 0 {
            proof { lemma_kids_inside(*node, "rows"@); }
            let mut i: usize = 0;
            assert(out@ =~= o1 + rows_out(rows@.take(0), header_row, *doc, ids).html);
            assert(events_view(log@) =~= l0 + rows_out(rows@.take(0), header_row, *doc, ids).events);
            while i < rows.len()
                invariant
                    i <= rows.len(),
                    rows@ == kids(*node, "rows"@),
                    decreases_to!(*node => rows@),
                    ids == fns@.map_values(|s: String| s@),
                    wrote(out@, log@, o1, l0, rows_out(rows@.take(i as int), header_row, *doc, ids)),
                decreases rows.len() - i,
            {
                assert(decreases_to!(rows@ => rows@[i as int]));
                render_row(&rows[i], header_row && i == 0, doc, fns, out, log);
                proof {
                    let t = rows@.take(i + 1);
                    assert(t.drop_last() =~= rows@.take(i as int));
                    assert(t.len() == i + 1);
                }
                i = i + 1;
                assert(out@ =~= o1 + rows_out(rows@.take(i as int), header_row, *doc, ids).html);
                assert(events_view(log@) =~= l0 + rows_out(rows@.take(i as int), header_row, *doc, ids).events);
            }
            assert(rows@.take(rows.len() as int) =~= rows@);
        }
    }
    push_str(out, "</table>\n");
    log_none(log);
    assert(out@ =~= o0 + table_out(*node, *doc, ids).html);
    assert(events_view(log@) =~= l0 + table_out(*node, *doc, ids).events);
}

#[verifier::rlimit(50)]
fn render_figure(node: &Json, doc: &ExportDoc, fns: &Vec<String>, out: &mut Vec<char>, log: &mut Vec<LossEvent>)
    ensures
        wrote(final(out)@, final(log)@, old(out)@, events_view(old(log)@), figure_out(*node, *doc, fns@.map_values(|s: String| s@))),
    decreases *node, 1nat,
{
    let ghost ids = fns@.map_values(|s: String| s@);
    let ghost o0 = out@;
    let ghost l0 = events_view(log@);
    push_str(out, "<figure><img src=\"");
    push_escaped_str(out, asset_url(doc, str_member(node, "asset")), true);
    push_str(out, "\" alt=\"");
    push_escaped_str(out, str_member(node, "alt"), true);
    push_str(out, "\">");
    log_none(log);
    let mut cap: Vec<char> = Vec::new();
    render_inline(node, "caption", doc, fns, &mut cap, log);
    assert(cap@ =~= inline_of(*node, "caption"@, *doc, ids).html);
    if cap.len() > 0 {
        push_str(out, "<figcaption>");
        push_all(out, cap.as_slice());
        push_str(out, "</figcaption>\n");
    }
    push_str(out, "</figure>\n");
    assert(out@ =~= o0 + figure_out(*node, *doc, ids).html);
    assert(events_view(log@) =~= l0 + figure_out(*node, *doc, ids).events);
}

#[verifier::rlimit(50)]
fn render_callout(node: &Json, doc: &ExportDoc, fns: &Vec<String>, out: &mut Vec<char>, log: &mut Vec<LossEvent>)
    ensures
        wrote(final(out)@, final(log)@, old(out)@, events_view(old(log)@), callout_out(*node, *doc, fns@.map_values(|s: String| s@))),
    decreases *node, 1nat,
{
    let ghost ids = fns@.map_values(|s: String| s@);
    let ghost o0 = out@;
    let ghost l0 = events_view(log@);
    push_str(out, "<div class=\"callout\" data-variant=\"");
    match node.get_str("variant") {
        Some(v) => push_str(out, v),
        None => push_str(out, "note"),
    }
    push_str(out, "\">");
    render_kids(node, "children", doc, fns, out, log);
    push_str(out, "</div>\n");
    log_none(log);
    assert(out@ =~= o0 + callout_out(*node, *doc, ids).html);
    assert(events_view(log@) =~= l0 + callout_out(*node, *doc, ids).events);
}

#[verifier::rlimit(50)]
fn render_fallback(node: &Json, t: &str, doc: &ExportDoc, fns: &Vec<String>, out: &mut Vec<char>, log: &mut Vec<LossEvent>)
    ensures
        wrote(final(out)@, final(log)@, old(out)@, events_view(old(log)@), fallback_out(*node, t@, *doc, fns@.map_values(|s: String| s@))),
    decreases *node, 1nat,
{
    let ghost ids = fns@.map_values(|s: String| s@);
    let ghost o0 = out@;
    let ghost l0 = events_view(log@);
    log_record(log, LossClass::Partial, "html_export_fallback", "degraded", t, "未知块类型按子内容降级导出");
    let ghost l1 = events_view(log@);
    render_kids(node, "children", doc, fns, out, log);
    let ghost o2 = out@;
    let ghost l2 = events_view(log@);
    render_kids(node, "items", doc, fns, out, log);
    assert(out@ =~= o0 + fallback_out(*node, t@, *doc, ids).html);
    assert(events_view(log@) =~= l0 + fallback_out(*node, t@, *doc, ids).events);
}

fn render_embed(node: &Json, doc: &ExportDoc, out: &mut Vec<char>, log: &mut Vec<LossEvent>)
    ensures
        wrote(final(out)@, final(log)@, old(out)@, events_view(old(log)@), embed_out(*node, *doc)),
{
    let ghost o0 = out@;
    let ghost l0 = events_view(log@);
    let asset = str_member(node, "asset");
    let mut url: Vec<char> = Vec::new();
    push_escaped_str(&mut url, asset_url(doc, asset), true);
    let mime = chars_of(asset_mime(&doc.assets, asset));
    if crate::text::starts_with(mime.as_slice(), chars_of("image/").as_slice()) {
        log_none(log);
        push_str(out, "<p><img src=\"");
        push_all(out, url.as_slice());
        push_str(out, "\" alt=\"\"></p>\n");
    } else if crate::text::starts_with(mime.as_slice(), chars_of("video/").as_slice()) {
        log_none(log);
        push_str(out, "<p><video controls src=\"");
        push_all(out, url.as_slice());
        push_str(out, "\"></video></p>\n");
    } else if crate::text::starts_with(mime.as_slice(), chars_of("audio/").as_slice()) {
        log_none(log);
        push_str(out, "<p><audio controls src=\"");
        push_all(out, url.as_slice());
        push_str(out, "\"></audio></p>\n");
    } else {
        let name = match find_pair(&doc.filenames, asset) {
            Some(n) => n,
            None => asset,
        };
        log_record(log, LossClass::Partial, "embed_html_export", "degraded", asset, "内嵌资源以链接呈现");
        push_str(out, "<p><a href=\"");
        push_all(out, url.as_slice());
        push_str(out, "\">");
        push_escaped_str(out, name, false);
        push_str(out, "</a></p>\n");
    }
    assert(out@ =~= o0 + embed_out(*node, *doc).html);
    assert(events_view(log@) =~= l0 + embed_out(*node, *doc).events);
}

fn render_unknown_block(node: &Json, doc: &ExportDoc, out: &mut Vec<char>, log: &mut Vec<LossEvent>)
    ensures
        wrote(final(out)@, final(log)@, old(out)@, events_view(old(log)@), unknown_block_out(*node, *doc)),
{
    let ghost o0 = out@;
    let ghost l0 = events_view(log@);
    let summary = str_member(node, "summary");
    let payload_ref = str_member(node, "payload_ref");
    match payload(&doc.preserved, payload_ref) {
        Some((clean, removed)) => {
            if removed {
                log_record(log, LossClass::Unsupported, "active_content", "removed", payload_ref, "preserved 载荷内联前已消毒（移除活动内容）");
            }
            log_none(log);
            push_str(out, "<div data-azodoc-unknown=\"");
            push_escaped_str(out, summary, true);
            push_str(out, "\">");
            push_str(out, clean.as_str());
            push_str(out, "</div>\n");
        },
        None => {
            log_record(log, LossClass::PreservedRaw, "unknown_block_html", "preserved", payload_ref, "未知内容以占位框呈现");
            push_str(out, "<div class=\"azodoc-unknown\" data-azodoc-unknown=\"");
            push_escaped_str(out, summary, true);
            push_str(out, "\">[未能显示: ");
            push_escaped_str(out, summary, false);
            push_str(out, "]</div>\n");
        },
    }
    assert(out@ =~= o0 + unknown_block_out(*node, *doc).html);
    assert(events_view(log@) =~= l0 + unknown_block_out(*node, *doc).events);
}

fn render_atom_block(node: &Json, t: &str, doc: &ExportDoc, out: &mut Vec<char>, log: &mut Vec<LossEvent>)
    requires
        atom_block(t@),
    ensures
        wrote(final(out)@, final(log)@, old(out)@, events_view(old(log)@), atom_block_out(*node, t@, *doc)),
{
    proof { reveal(atom_block_out); }
    let ghost o0 = out@;
    let ghost l0 = events_view(log@);
    if str_eq(t, "code_block") {
        log_none(log);
        push_str(out, "<pre><code");
        if let Some(l) = node.get_str("language") {
            push_str(out, " class=\"language-");
            push_str(out, l);
            push_str(out, "\"");
        }
        push_str(out, ">");
        push_escaped_str(out, str_member(node, "text"), false);
        push_str(out, "</code></pre>\n");
    } else if str_eq(t, "image") {
        log_none(log);
        push_str(out, "<p><img src=\"");
        push_escaped_str(out, asset_url(doc, str_member(node, "asset")), true);
        push_str(out, "\" alt=\"");
        push_escaped_str(out, str_member(node, "alt"), true);
        push_str(out, "\"></p>\n");
    } else if str_eq(t, "horizontal_rule") {
        log_none(log);
        push_str(out, "<hr>\n");
    } else if str_eq(t, "page_break") {
        log_none(log);
        push_str(out, "<div class=\"page-break\"></div>\n");
    } else if str_eq(t, "math_block") {
        let latex = str_member(node, "latex");
        log_record(log, LossClass::Degraded, "math_export", "degraded", latex, "公式以 data-latex 文本呈现（KaTeX 内嵌为后续 RFC）");
        push_str(out, "<p class=\"math\" data-latex=\"");
        push_escaped_str(out, latex, true);
        push_str(out, "\">");
        push_escaped_str(out, latex, false);
        push_str(out, "</p>\n");
    } else if str_eq(t, "footnote") {
    } else if str_eq(t, "embed") {
        render_embed(node, doc, out, log);
    } else {
        render_unknown_block(node, doc, out, log);
    }
    assert(out@ =~= o0 + atom_block_out(*node, t@, *doc).html);
    assert(events_view(log@) =~= l0 + atom_block_out(*node, t@, *doc).events);
}

#[verifier::rlimit(50)]
fn render_block(node: &Json, doc: &ExportDoc, fns: &Vec<String>, out: &mut Vec<char>, log: &mut Vec<LossEvent>)
    ensures
        wrote(final(out)@, final(log)@, old(out)@, events_view(old(log)@), block_out(*node, *doc, fns@.map_values(|s: String| s@))),
    decreases *node, 3nat,
{
    let ghost ids = fns@.map_values(|s: String| s@);
    let ghost o0 = out@;
    let ghost l0 = events_view(log@);
    let t = str_member(node, "type");
    if str_eq(t, "section") {
        log_none(log);
        render_kids(node, "children", doc, fns, out, log);
        assert(events_view(log@) =~= l0 + block_out(*node, *doc, ids).events);
        assert(out@ =~= o0 + block_out(*node, *doc, ids).html);
    } else if str_eq(t, "heading") {
        render_heading(node, doc, fns, out, log);
    } else if str_eq(t, "paragraph") {
        render_paragraph(node, doc, fns, out, log);
    } else if str_eq(t, "quote") {
        push_str(out, "<blockquote>\n");
        render_kids(node, "children", doc, fns, out, log);
        push_str(out, "</blockquote>\n");
        assert(out@ =~= o0 + block_out(*node, *doc, ids).html);
    } else if str_eq(t, "list") {
        render_list(node, doc, fns, out, log);
    } else if str_eq(t, "table") {
        render_table(node, doc, fns, out, log);
    } else if str_eq(t, "figure") {
        render_figure(node, doc, fns, out, log);
    } else if str_eq(t, "callout") {
        render_callout(node, doc, fns, out, log);
    } else if str_eq(t, "code_block") || str_eq(t, "image") || str_eq(t, "horizontal_rule") || str_eq(t, "page_break")
        || str_eq(t, "math_block") || str_eq(t, "footnote") || str_eq(t, "embed") || str_eq(t, "unknown") {
        render_atom_block(node, t, doc, out, log);
    } else {
        render_fallback(node, t, doc, fns, out, log);
    }
}

// ------------------------------------------------------------------ the page

/// The members under which footnotes are looked for.
pub open spec fn fn_keys() -> Seq<Seq<char>> {
    seq!["children"@, "items"@, "cells"@, "rows"@, "content"@, "caption"@]
}

/// `v` is a footnote with the id `id`.
pub open spec fn is_footnote(v: Json) -> bool {
    str_of(get(v, "type"@)) == Some("footnote"@) && str_of(get(v, "id"@)) is Some
}

/// The footnote ids under `v` (itself first, then its members in key order,
/// depth first), each once, after those already in `acc`.
pub open spec fn collect_ids(v: Json, acc: Seq<Seq<char>>) -> Seq<Seq<char>>
    decreases v, 1nat, 0nat,
{
    let acc1 = if is_footnote(v) && !acc.contains(str_of(get(v, "id"@)).unwrap()) {
        acc.push(str_of(get(v, "id"@)).unwrap())
    } else {
        acc
    };
    collect_keys(v, fn_keys(), acc1)
}

/// `collect_ids` over the members `keys` of `v`, in order.
pub open spec fn collect_keys(v: Json, keys: Seq<Seq<char>>, acc: Seq<Seq<char>>) -> Seq<Seq<char>>
    decreases v, 0nat, keys.len(),
{
    if keys.len() == 0 {
        acc
    } else {
        let acc1 = collect_keys(v, keys.drop_last(), acc);
        let k = kids(v, keys.last());
        if k.len() > 0 {
            proof { lemma_kids_inside(v, keys.last()); }
            collect_seq(k, acc1)
        } else {
            acc1
        }
    }
}

/// `collect_ids` over a list of values, in order.
pub open spec fn collect_seq(vs: Seq<Json>, acc: Seq<Seq<char>>) -> Seq<Seq<char>>
    decreases vs, 1nat, 0nat,
{
    if vs.len() == 0 {
        acc
    } else {
        collect_ids(vs.last(), collect_seq(vs.drop_last(), acc))
    }
}

/// The first footnote with id `id` under `v`, in the same order.
pub open spec fn find_def(v: Json, id: Seq<char>) -> Option<Json>
    decreases v, 1nat, 0nat,
{
    if is_footnote(v) && str_of(get(v, "id"@)) == Some(id) {
        Some(v)
    } else {
        find_keys(v, fn_keys(), id)
    }
}

/// `find_def` over the members `keys` of `v`, in order.
pub open spec fn find_keys(v: Json, keys: Seq<Seq<char>>, id: Seq<char>) -> Option<Json>
    decreases v, 0nat, keys.len(),
{
    if keys.len() == 0 {
        None
    } else {
        match find_keys(v, keys.drop_last(), id) {
            Some(x) => Some(x),
            None => {
                let k = kids(v, keys.last());
                if k.len() > 0 {
                    proof { lemma_kids_inside(v, keys.last()); }
                    find_seq(k, id)
                } else {
                    None
                }
            },
        }
    }
}

/// `find_def` over a list of values, in order.
pub open spec fn find_seq(vs: Seq<Json>, id: Seq<char>) -> Option<Json>
    decreases vs, 1nat, 0nat,
{
    if vs.len() == 0 {
        None
    } else {
        match find_seq(vs.drop_last(), id) {
            Some(x) => Some(x),
            None => find_def(vs.last(), id),
        }
    }
}

/// The footnote list items, in numbering order.
pub open spec fn notes_out(ids: Seq<Seq<char>>, root: Option<Json>, doc: ExportDoc, fns: Seq<Seq<char>>) -> Rendered
    decreases ids.len(),
{
    if ids.len() == 0 {
        text(Seq::empty())
    } else {
        let id = ids.last();
        let def = match root {
            Some(r) => match find_def(r, id) {
                Some(d) => d,
                None => Json::Null,
            },
            None => Json::Null,
        };
        let inner = kids_out(def, "children"@, doc, fns);
        then(
            notes_out(ids.drop_last(), root, doc, fns),
            Rendered {
                html: "<li id=\"fn-"@ + id + "\">"@ + trim_end_seq(inner.html) + " <a href=\"#fnref-"@ + id + "\">&#8617;</a></li>\n"@,
                events: inner.events,
            },
        )
    }
}

/// The style sheet of the page.
pub const EMBED_CSS: &'static str = "body{max-width:44em;margin:2rem auto;padding:0 1rem;font-family:serif;line-height:1.7;color:#222}h1,h2,h3,h4,h5,h6{line-height:1.3}.callout{border-left:4px solid #36c;background:#f0f6ff;padding:.5rem 1rem;margin:1rem 0}code,pre{background:#f5f5f5;border-radius:4px}pre{padding:.75rem;overflow:auto}figure{margin:1.5rem 0;text-align:center}figcaption{font-size:.9em;color:#666}table{border-collapse:collapse}td,th{border:1px solid #ccc;padding:.35rem .6rem}.footnotes{font-size:.9em;color:#555;border-top:1px solid #ddd;margin-top:2rem;padding-top:.5rem}.azodoc-unknown{border:1px dashed #c66;padding:.5rem 1rem;margin:1rem 0;color:#933;background:#fdf3f3}";

/// The footnotes the page numbers: those found under the `content` member.
pub open spec fn numbered_ids(doc: ExportDoc) -> Seq<Seq<char>> {
    match get(doc.content, "content"@) {
        Some(r) => collect_ids(r, Seq::empty()),
        None => Seq::empty(),
    }
}

/// The whole page: head (language `zh-CN` and title `未命名文档` when the
/// document gives none), the blocks of `content`, the footnotes, and the
/// closing tags.
pub open spec fn page_out(doc: ExportDoc) -> Rendered {
    let fns = numbered_ids(doc);
    let root = get(doc.content, "content"@);
    let lang = match opt_str(doc.language) { Some(l) => l, None => "zh-CN"@ };
    let title = match opt_str(doc.title) { Some(t) => t, None => "未命名文档"@ };
    let id_meta = match opt_str(doc.document_id) {
        Some(id) => "<meta name=\"azodoc.document-id\" content=\""@ + esc(id, true) + "\">\n"@,
        None => Seq::empty(),
    };
    let head = "<!doctype html>\n<html lang=\""@ + esc(lang, true)
        + "\">\n<head>\n<meta charset=\"utf-8\">\n<meta name=\"viewport\" content=\"width=device-width, initial-scale=1\">\n"@
        + id_meta + "<title>"@ + esc(title, false) + "</title>\n"@ + "<style>"@ + EMBED_CSS@ + "</style>\n</head>\n<body>\n<article>\n"@;
    let body = kids_out(doc.content, "content"@, doc, fns);
    let notes = if fns.len() > 0 {
        wrap("<section class=\"footnotes\">\n<ol>\n"@, notes_out(fns, root, doc, fns), "</ol>\n</section>\n"@)
    } else {
        text(Seq::empty())
    };
    Rendered { html: head + body.html + notes.html + "</article>\n</body>\n</html>\n"@, events: body.events + notes.events }
}

/// An optional string as plain text.
pub open spec fn opt_str(o: Option<String>) -> Option<Seq<char>> {
    match o {
        Some(s) => Some(s@),
        None => None,
    }
}

fn has_id(acc: &Vec<String>, id: &str) -> (r: bool)
    ensures
        r == acc@.map_values(|s: String| s@).contains(id@),
{
    let ghost ids = acc@.map_values(|s: String| s@);
    let mut i: usize = 0;
    while i < acc.len()
        invariant
            i <= acc.len(),
            ids == acc@.map_values(|s: String| s@),
            forall|j: int| 0 <= j < i ==> ids[j] != id@,
        decreases acc.len() - i,
    {
        if str_eq(acc[i].as_str(), id) {
            assert(ids[i as int] == id@);
            return true;
        }
        i = i + 1;
    }
    false
}

pub(crate) fn fn_key_names() -> (r: Vec<&'static str>)
    ensures
        r@.map_values(|s: &str| s@) == fn_keys(),
{
    let v: Vec<&'static str> = vec!["children", "items", "cells", "rows", "content", "caption"];
    assert(v@.map_values(|s: &str| s@) =~= fn_keys());
    v
}

pub(crate) fn footnote_id<'a>(v: &'a Json) -> (r: Option<&'a str>)
    ensures
        match r {
            Some(id) => is_footnote(*v) && str_of(get(*v, "id"@)) == Some(id@),
            None => !is_footnote(*v),
        },
{
    let is_note = match v.get_str("type") {
        Some(t) => str_eq(t, "footnote"),
        None => false,
    };
    if is_note {
        v.get_str("id")
    } else {
        None
    }
}

fn collect_fn_ids(v: &Json, acc: &mut Vec<String>)
    ensures
        final(acc)@.map_values(|s: String| s@) == collect_ids(*v, old(acc)@.map_values(|s: String| s@)),
    decreases *v, 1nat, 0nat,
{
    let ghost a0 = acc@.map_values(|s: String| s@);
    if let Some(id) = footnote_id(v) {
        if !has_id(acc, id) {
            acc.push(id.to_owned());
        }
    }
    let ghost a1 = acc@.map_values(|s: String| s@);
    assert(a1 =~= (if is_footnote(*v) && !a0.contains(str_of(get(*v, "id"@)).unwrap()) {
        a0.push(str_of(get(*v, "id"@)).unwrap())
    } else {
        a0
    }));
    let keys = fn_key_names();
    let mut k: usize = 0;
    assert(fn_keys().take(0) =~= Seq::<Seq<char>>::empty());
    while k < keys.len()
        invariant
            k <= keys.len(),
            keys@.map_values(|s: &str| s@) == fn_keys(),
            acc@.map_values(|s: String| s@) == collect_keys(*v, fn_keys().take(k as int), a1),
        decreases keys.len() - k,
    {
        let key = keys[k];
        assert(fn_keys()[k as int] == key@);
        let ghost ak = acc@.map_values(|s: String| s@);
        assert(fn_keys().take(k + 1).drop_last() =~= fn_keys().take(k as int));
        if let Some(items) = v.get_array(key) {
            if items.len() > 0 {
                proof { lemma_kids_inside(*v, key@); }
                let mut i: usize = 0;
                while i < items.len()
                    invariant
                        i <= items.len(),
                        items@ == kids(*v, key@),
                        decreases_to!(*v => items@),
                        acc@.map_values(|s: String| s@) == collect_seq(items@.take(i as int), ak),
                    decreases items.len() - i,
                {
                    assert(decreases_to!(items@ => items@[i as int]));
                    collect_fn_ids(&items[i], acc);
                    proof {
                        let t = items@.take(i + 1);
                        assert(t.drop_last() =~= items@.take(i as int));
                    }
                    i = i + 1;
                }
                assert(items@.take(items.len() as int) =~= items@);
            }
        }
        k = k + 1;
    }
    assert(fn_keys().take(6) =~= fn_keys());
}

fn find_fn_def<'a>(v: &'a Json, id: &str) -> (r: Option<&'a Json>)
    ensures
        match r {
            Some(x) => find_def(*v, id@) == Some(*x),
            None => find_def(*v, id@) is None,
        },
    decreases *v, 1nat, 0nat,
{
    if let Some(i) = footnote_id(v) {
        if str_eq(i, id) {
            return Some(v);
        }
    }
    let keys = fn_key_names();
    let mut k: usize = 0;
    while k < keys.len()
        invariant
            k <= keys.len(),
            keys@.map_values(|s: &str| s@) == fn_keys(),
            find_keys(*v, fn_keys().take(k as int), id@) is None,
            !(is_footnote(*v) && str_of(get(*v, "id"@)) == Some(id@)),
        decreases keys.len() - k,
    {
        let key = keys[k];
        assert(fn_keys()[k as int] == key@);
        assert(fn_keys().take(k + 1).drop_last() =~= fn_keys().take(k as int));
        if let Some(items) = v.get_array(key) {
            if items.len() > 0 {
                proof { lemma_kids_inside(*v, key@); }
                let mut i: usize = 0;
                while i < items.len()
                    invariant
                        i <= items.len(),
                        items@ == kids(*v, key@),
                        decreases_to!(*v => items@),
                        find_seq(items@.take(i as int), id@) is None,
                        find_keys(*v, fn_keys().take(k as int), id@) is None,
                        fn_keys()[k as int] == key@,
                        fn_keys().take(k + 1).drop_last() == fn_keys().take(k as int),
                        !(is_footnote(*v) && str_of(get(*v, "id"@)) == Some(id@)),
                        k < 6,
                    decreases items.len() - i,
                {
                    assert(decreases_to!(items@ => items@[i as int]));
                    proof {
                        let t = items@.take(i + 1);
                        assert(t.drop_last() =~= items@.take(i as int));
                    }
                    match find_fn_def(&items[i], id) {
                        Some(x) => {
                            proof {
                                let t = items@.take(i + 1);
                                assert(find_seq(t, id@) == Some(*x));
                                lemma_find_seq_prefix(items@, id@, i + 1);
                                assert(items@.take(items.len() as int) =~= items@);
                                assert(find_keys(*v, fn_keys().take(k + 1), id@) == Some(*x));
                                lemma_find_keys_prefix(*v, fn_keys(), id@, k + 1);
                            }
                            return Some(x);
                        },
                        None => {},
                    }
                    i = i + 1;
                }
                assert(items@.take(items.len() as int) =~= items@);
            }
        }
        k = k + 1;
    }
    assert(fn_keys().take(6) =~= fn_keys());
    None
}

proof fn lemma_find_keys_prefix(v: Json, keys: Seq<Seq<char>>, id: Seq<char>, n: int)
    requires
        0 <= n <= keys.len(),
        find_keys(v, keys.take(n), id) is Some,
    ensures
        find_keys(v, keys, id) == find_keys(v, keys.take(n), id),
    decreases keys.len() - n,
{
    if n < keys.len() {
        assert(keys.take(n + 1).drop_last() =~= keys.take(n));
        lemma_find_keys_prefix(v, keys, id, n + 1);
    } else {
        assert(keys.take(n) =~= keys);
    }
}

proof fn lemma_find_seq_prefix(vs: Seq<Json>, id: Seq<char>, n: int)
    requires
        0 <= n <= vs.len(),
        find_seq(vs.take(n), id) is Some,
    ensures
        find_seq(vs, id) == find_seq(vs.take(n), id),
    decreases vs.len() - n,
{
    if n < vs.len() {
        assert(vs.take(n + 1).drop_last() =~= vs.take(n));
        lemma_find_seq_prefix(vs, id, n + 1);
    } else {
        assert(vs.take(n) =~= vs);
    }
}

fn opt_text_of(o: &Option<String>) -> (r: Option<&str>)
    ensures
        match r {
            Some(s) => opt_str(*o) == Some(s@),
            None => opt_str(*o) is None,
        },
{
    match o {
        Some(s) => Some(s.as_str()),
        None => None,
    }
}

#[verifier::rlimit(50)]
fn render_notes(doc: &ExportDoc, fns: &Vec<String>, out: &mut Vec<char>, log: &mut Vec<LossEvent>)
    ensures
        wrote(final(out)@, final(log)@, old(out)@, events_view(old(log)@),
            notes_out(fns@.map_values(|s: String| s@), get(doc.content, "content"@), *doc, fns@.map_values(|s: String| s@))),
{
    let ghost ids = fns@.map_values(|s: String| s@);
    let ghost root = get(doc.content, "content"@);
    let ghost o0 = out@;
    let ghost l0 = events_view(log@);
    let null = Json::Null;
    let mut i: usize = 0;
    assert(out@ =~= o0 + notes_out(ids.take(0), root, *doc, ids).html);
    assert(events_view(log@) =~= l0 + notes_out(ids.take(0), root, *doc, ids).events);
    while i < fns.len()
        invariant
            i <= fns.len(),
            ids == fns@.map_values(|s: String| s@),
            root == get(doc.content, "content"@),
            null == Json::Null,
            wrote(out@, log@, o0, l0, notes_out(ids.take(i as int), root, *doc, ids)),
        decreases fns.len() - i,
    {
        let id = fns[i].as_str();
        let def: &Json = match doc.content.get("content") {
            Some(r) => match find_fn_def(r, id) {
                Some(d) => d,
                None => &null,
            },
            None => &null,
        };
        let mut inner: Vec<char> = Vec::new();
        render_kids(def, "children", doc, fns, &mut inner, log);
        push_str(out, "<li id=\"fn-");
        push_str(out, id);
        push_str(out, "\">");
        push_all(out, trim_end(inner.as_slice()).as_slice());
        push_str(out, " <a href=\"#fnref-");
        push_str(out, id);
        push_str(out, "\">&#8617;</a></li>\n");
        proof {
            let t = ids.take(i + 1);
            assert(t.drop_last() =~= ids.take(i as int));
            assert(t.last() == id@);
        }
        i = i + 1;
        assert(out@ =~= o0 + notes_out(ids.take(i as int), root, *doc, ids).html);
        assert(events_view(log@) =~= l0 + notes_out(ids.take(i as int), root, *doc, ids).events);
    }
    assert(ids.take(fns.len() as int) =~= ids);
}

/// Renders a document as one standalone HTML page, appending the loss
/// events of the rendering to `log`.
#[verifier::rlimit(50)]
pub fn export_html(doc: &ExportDoc, log: &mut Vec<LossEvent>) -> (r: String)
    ensures
        r@ == page_out(*doc).html,
        events_view(final(log)@) == events_view(old(log)@) + page_out(*doc).events,
{
    let ghost l0 = events_view(log@);
    let mut fns: Vec<String> = Vec::new();
    if let Some(root) = doc.content.get("content") {
        assert(fns@.map_values(|s: String| s@) =~= Seq::<Seq<char>>::empty());
        collect_fn_ids(root, &mut fns);
    }
    let ghost ids = fns@.map_values(|s: String| s@);
    assert(ids == numbered_ids(*doc));
    let mut out: Vec<char> = Vec::new();
    push_str(&mut out, "<!doctype html>\n<html lang=\"");
    match opt_text_of(&doc.language) {
        Some(l) => push_escaped_str(&mut out, l, true),
        None => push_escaped_str(&mut out, "zh-CN", true),
    }
    push_str(&mut out, "\">\n<head>\n<meta charset=\"utf-8\">\n<meta name=\"viewport\" content=\"width=device-width, initial-scale=1\">\n");
    if let Some(id) = opt_text_of(&doc.document_id) {
        push_str(&mut out, "<meta name=\"azodoc.document-id\" content=\"");
        push_escaped_str(&mut out, id, true);
        push_str(&mut out, "\">\n");
    }
    push_str(&mut out, "<title>");
    match opt_text_of(&doc.title) {
        Some(t) => push_escaped_str(&mut out, t, false),
        None => push_escaped_str(&mut out, "未命名文档", false),
    }
    push_str(&mut out, "</title>\n");
    push_str(&mut out, "<style>");
    push_str(&mut out, EMBED_CSS);
    push_str(&mut out, "</style>\n</head>\n<body>\n<article>\n");
    let ghost head = out@;
    render_kids(&doc.content, "content", doc, &fns, &mut out, log);
    let ghost o1 = out@;
    let ghost l1 = events_view(log@);
    if fns.len() > 0 {
        push_str(&mut out, "<section class=\"footnotes\">\n<ol>\n");
        render_notes(doc, &fns, &mut out, log);
        push_str(&mut out, "</ol>\n</section>\n");
    }
    push_str(&mut out, "</article>\n</body>\n</html>\n");
    assert(out@ =~= page_out(*doc).html);
    assert(events_view(log@) =~= l0 + page_out(*doc).events);
    string_of(out.as_slice())
}

} // verus!

verus! {

/// Each emphasis span wraps its content in its own HTML element: `em` in
/// `<em>`, `strong` in `<strong>`, `underline` in `<u>` and `strike` in
/// `<s>`, with the content's loss events unchanged.
pub proof fn law_emphasis_elements(span: Json, doc: ExportDoc, fns: Seq<Seq<char>>)
    ensures
        ({
            let t = str_of(get(span, "type"@));
            let inner = inline_of(span, "content"@, doc, fns);
            let out = span_out(span, doc, fns);
            &&& t == Some("em"@) ==> out.html == "<em>"@ + inner.html + "</em>"@ && out.events == inner.events
            &&& t == Some("strong"@) ==> out.html == "<strong>"@ + inner.html + "</strong>"@ && out.events
                == inner.events
            &&& t == Some("underline"@) ==> out.html == "<u>"@ + inner.html + "</u>"@ && out.events == inner.events
            &&& t == Some("strike"@) ==> out.html == "<s>"@ + inner.html + "</s>"@ && out.events == inner.events
        }),
{
    reveal_strlit("text");
    reveal_strlit("hard_break");
    reveal_strlit("code");
    reveal_strlit("em");
    reveal_strlit("strong");
    reveal_strlit("underline");
    reveal_strlit("strike");
    assert("text"@.len() == 4 && "hard_break"@.len() == 10 && "code"@.len() == 4);
    assert("em"@.len() == 2 && "strong"@.len() == 6 && "underline"@.len() == 9 && "strike"@.len() == 6);
    assert("strong"@[3] != "strike"@[3]);
    assert("strong"@ != "strike"@);
}

/// A heading of level `n` (one when the level is missing) opens with the
/// element `h` followed by the decimal digits of `n`, and closes with the
/// same element.
pub proof fn law_heading_element(node: Json, doc: ExportDoc, fns: Seq<Seq<char>>, n: int)
    requires
        str_of(get(node, "type"@)) == Some("heading"@),
        i64_of(get(node, "level"@)) == Some(n) || (i64_of(get(node, "level"@)) is None && n == 1),
    ensures
        ({
            let out = block_out(node, doc, fns).html;
            &&& crate::text::has_prefix(out, "<h"@ + dec_int(n) + " id=\""@)
            &&& crate::text::has_suffix(out, "</h"@ + dec_int(n) + ">\n"@)
        }),
{
    reveal_strlit("heading");
    reveal_strlit("section");
    assert("heading"@.len() == 7 && "section"@.len() == 7);
    assert("heading"@[0] != "section"@[0]);
    let out = block_out(node, doc, fns).html;
    let pre = "<h"@ + dec_int(n) + " id=\""@;
    let post = "</h"@ + dec_int(n) + ">\n"@;
    let inner = inline_of(node, "content"@, doc, fns);
    let mid = str_or_empty(node, "id"@) + "\">"@ + inner.html;
    assert(out =~= pre + mid + post);
    assert(out.take(pre.len() as int) =~= pre);
    assert(out.skip(out.len() - post.len()) =~= post);
}

/// An ordered list is an `<ol>` element and any other list a `<ul>`
/// element, closed by the same element.
pub proof fn law_list_element(node: Json, doc: ExportDoc, fns: Seq<Seq<char>>)
    requires
        str_of(get(node, "type"@)) == Some("list"@),
    ensures
        ({
            let out = block_out(node, doc, fns).html;
            &&& str_of(get(node, "style"@)) == Some("ordered"@) ==> crate::text::has_prefix(out, "<ol"@)
                && crate::text::has_suffix(out, "</ol>\n"@)
            &&& str_of(get(node, "style"@)) != Some("ordered"@) ==> crate::text::has_prefix(out, "<ul"@)
                && crate::text::has_suffix(out, "</ul>\n"@)
        }),
{
    reveal_strlit("list");
    reveal_strlit("section");
    reveal_strlit("heading");
    reveal_strlit("paragraph");
    reveal_strlit("quote");
    assert("list"@.len() == 4 && "section"@.len() == 7 && "heading"@.len() == 7 && "paragraph"@.len() == 9);
    assert("quote"@.len() == 5);
    let out = block_out(node, doc, fns).html;
    let tag = list_tag(node);
    let pre = "<"@ + tag;
    let post = "</"@ + tag + ">\n"@;
    let items = list_items_of(node, doc, fns);
    assert(out =~= pre + (list_start(node) + ">\n"@ + items.html) + post);
    assert(out.take(pre.len() as int) =~= pre);
    assert(out.skip(out.len() - post.len()) =~= post);
    reveal_strlit("ol");
    reveal_strlit("ul");
    reveal_strlit("<");
    reveal_strlit("</");
    reveal_strlit(">\n");
    reveal_strlit("<ol");
    reveal_strlit("<ul");
    reveal_strlit("</ol>\n");
    reveal_strlit("</ul>\n");
    assert(pre =~= "<"@ + tag);
    if str_of(get(node, "style"@)) == Some("ordered"@) {
        assert(pre =~= "<ol"@);
        assert(post =~= "</ol>\n"@);
    } else {
        assert(pre =~= "<ul"@);
        assert(post =~= "</ul>\n"@);
    }
}

/// A quote is a `<blockquote>` around its children, a paragraph with
/// visible text a `<p>` around its spans, a horizontal rule an `<hr>`, and a
/// page break the print page-break marker.
pub proof fn law_block_elements(node: Json, doc: ExportDoc, fns: Seq<Seq<char>>)
    ensures
        str_of(get(node, "type"@)) == Some("quote"@) ==> block_out(node, doc, fns).html == "<blockquote>\n"@
            + kids_out(node, "children"@, doc, fns).html + "</blockquote>\n"@,
        str_of(get(node, "type"@)) == Some("paragraph"@) && trim_seq(inline_of(node, "content"@, doc, fns).html).len()
            > 0 ==> block_out(node, doc, fns).html == "<p>"@ + inline_of(node, "content"@, doc, fns).html + "</p>\n"@,
        str_of(get(node, "type"@)) == Some("horizontal_rule"@) ==> block_out(node, doc, fns).html == "<hr>\n"@,
        str_of(get(node, "type"@)) == Some("page_break"@) ==> block_out(node, doc, fns).html
            == "<div class=\"page-break\"></div>\n"@,
{
    reveal(atom_block_out);
    reveal_strlit("section");
    reveal_strlit("heading");
    reveal_strlit("paragraph");
    reveal_strlit("quote");
    reveal_strlit("list");
    reveal_strlit("table");
    reveal_strlit("figure");
    reveal_strlit("callout");
    reveal_strlit("code_block");
    reveal_strlit("image");
    reveal_strlit("horizontal_rule");
    reveal_strlit("page_break");
    assert("section"@.len() == 7 && "heading"@.len() == 7 && "paragraph"@.len() == 9 && "quote"@.len() == 5);
    assert("list"@.len() == 4 && "table"@.len() == 5 && "figure"@.len() == 6 && "callout"@.len() == 7);
    assert("code_block"@.len() == 10 && "image"@.len() == 5 && "horizontal_rule"@.len() == 15);
    assert("page_break"@.len() == 10);
    assert("section"@[0] != "heading"@[0] && "section"@[0] != "callout"@[0] && "heading"@[0] != "callout"@[0]);
    assert("quote"@[0] != "table"@[0] && "quote"@[0] != "image"@[0]);
    assert("page_break"@[0] != "code_block"@[0]);
    assert("quote"@ != "table"@ && "quote"@ != "image"@);
    assert("page_break"@ != "code_block"@);
}

/// A hard break is a `<br>` ending its line, a code span is its escaped
/// text inside `<code>`, and a link is an `<a>` whose `href` is the escaped
/// URL, with a `title` only when the span has one, around its content.
pub proof fn law_break_code_link(span: Json, doc: ExportDoc, fns: Seq<Seq<char>>)
    ensures
        ({
            let t = str_of(get(span, "type"@));
            let out = span_out(span, doc, fns);
            let inner = inline_of(span, "content"@, doc, fns);
            let url = esc(str_or_empty(span, "url"@), true);
            &&& t == Some("hard_break"@) ==> out.html == "<br>\n"@ && out.events.len() == 0
            &&& t == Some("code"@) ==> out.html == "<code>"@ + esc(str_or_empty(span, "text"@), false) + "</code>"@
            &&& t == Some("link"@) && str_of(get(span, "title"@)) is None ==> out.html == "<a href=\""@ + url
                + "\">"@ + inner.html + "</a>"@
            &&& str_of(get(span, "title"@)) matches Some(ti) ==> (t == Some("link"@) ==> out.html == "<a href=\""@
                + url + "\" title=\""@ + esc(ti, true) + "\">"@ + inner.html + "</a>"@)
        }),
{
    reveal(plain_span_out);
    reveal_strlit("text");
    reveal_strlit("hard_break");
    reveal_strlit("code");
    reveal_strlit("em");
    reveal_strlit("strong");
    reveal_strlit("underline");
    reveal_strlit("strike");
    reveal_strlit("link");
    reveal_strlit("\"");
    reveal_strlit(">");
    reveal_strlit("\">");
    reveal_strlit(" title=\"");
    reveal_strlit("\" title=\"");
    assert("text"@.len() == 4 && "hard_break"@.len() == 10 && "code"@.len() == 4 && "link"@.len() == 4);
    assert("em"@.len() == 2 && "strong"@.len() == 6 && "underline"@.len() == 9 && "strike"@.len() == 6);
    assert("link"@[0] != "text"@[0] && "link"@[0] != "code"@[0]);
    assert("hard_break"@ != "text"@ && "code"@ != "text"@ && "code"@ != "hard_break"@);
    let t = str_of(get(span, "type"@));
    if t == Some("link"@) {
        let inner = inline_of(span, "content"@, doc, fns);
        let url = esc(str_or_empty(span, "url"@), true);
        match str_of(get(span, "title"@)) {
            Some(ti) => {
                assert(span_out(span, doc, fns).html =~= "<a href=\""@ + url + "\" title=\""@ + esc(ti, true)
                    + "\">"@ + inner.html + "</a>"@);
            },
            None => {
                assert(span_out(span, doc, fns).html =~= "<a href=\""@ + url + "\">"@ + inner.html + "</a>"@);
            },
        }
    }
}

/// Header cells are `th` and the others `td`, each around its trimmed
/// content; a cell spanning one column and one row carries no span
/// attribute, and one spanning `n > 1` columns (one row) carries
/// `colspan="n"`. The header row sits in a `thead`, the others are bare
/// `tr` rows.
pub proof fn law_table_cells_and_rows(cell: Json, row: Json, doc: ExportDoc, fns: Seq<Seq<char>>, n: int)
    ensures
        ({
            let inner = trim_end_seq(kids_out(cell, "children"@, doc, fns).html);
            let one_by_one = int_or_one(cell, "colSpan"@) == 1 && int_or_one(cell, "rowSpan"@) == 1;
            &&& one_by_one ==> cell_out(cell, true, doc, fns).html == "<th>"@ + inner + "</th>"@
            &&& one_by_one ==> cell_out(cell, false, doc, fns).html == "<td>"@ + inner + "</td>"@
            &&& (int_or_one(cell, "colSpan"@) == n && n > 1 && int_or_one(cell, "rowSpan"@) == 1) ==> cell_out(
                cell,
                false,
                doc,
                fns,
            ).html == "<td colspan=\""@ + dec_int(n) + "\">"@ + inner + "</td>"@
        }),
        row_out(row, true, doc, fns).html == "<thead>\n<tr>"@ + row_cells_of(row, true, doc, fns).html
            + "</tr>\n</thead>\n"@,
        row_out(row, false, doc, fns).html == "<tr>"@ + row_cells_of(row, false, doc, fns).html + "</tr>\n"@,
{
    reveal_strlit("th");
    reveal_strlit("td");
    reveal_strlit("<");
    reveal_strlit(">");
    reveal_strlit("</");
    reveal_strlit("<th>");
    reveal_strlit("</th>");
    reveal_strlit("<td>");
    reveal_strlit("</td>");
    reveal_strlit("<td colspan=\"");
    reveal_strlit("colspan");
    reveal_strlit(" ");
    reveal_strlit("=\"");
    reveal_strlit("\"");
    reveal_strlit("\">");
    let inner = trim_end_seq(kids_out(cell, "children"@, doc, fns).html);
    if int_or_one(cell, "colSpan"@) == 1 && int_or_one(cell, "rowSpan"@) == 1 {
        assert(span_attr("colspan"@, 1) == Seq::<char>::empty());
        assert(span_attr("rowspan"@, 1) == Seq::<char>::empty());
        assert(cell_out(cell, true, doc, fns).html =~= "<th>"@ + inner + "</th>"@);
        assert(cell_out(cell, false, doc, fns).html =~= "<td>"@ + inner + "</td>"@);
    }
    if int_or_one(cell, "colSpan"@) == n && n > 1 && int_or_one(cell, "rowSpan"@) == 1 {
        assert(span_attr("rowspan"@, 1) == Seq::<char>::empty());
        assert(span_attr("colspan"@, n) == " "@ + "colspan"@ + "=\""@ + dec_int(n) + "\""@);
        assert(cell_out(cell, false, doc, fns).html =~= "<td colspan=\""@ + dec_int(n) + "\">"@ + inner + "</td>"@);
    }
}

/// A list's opening tag names its start only when the start is not 1:
/// `<ol>` or `<ul>` for a list starting at 1 (or with no start), and
/// `<ol start="n">` (or `ul`) otherwise.
pub proof fn law_list_start_attribute(node: Json, doc: ExportDoc, fns: Seq<Seq<char>>)
    requires
        str_of(get(node, "type"@)) == Some("list"@),
    ensures
        ({
            let out = block_out(node, doc, fns).html;
            let tag = if str_of(get(node, "style"@)) == Some("ordered"@) { seq!['o', 'l'] } else { seq!['u', 'l'] };
            let st = i64_of(get(node, "start"@));
            &&& (st is None || st == Some(1int)) ==> crate::text::has_prefix(out, seq!['<'] + tag + seq!['>', '\n'])
            &&& st is Some && st.unwrap() != 1 ==> crate::text::has_prefix(
                out,
                seq!['<'] + tag + " start=\""@ + dec_int(st.unwrap()) + seq!['"', '>'],
            )
        }),
{
    reveal_strlit("list");
    reveal_strlit("section");
    reveal_strlit("heading");
    reveal_strlit("paragraph");
    reveal_strlit("quote");
    assert("list"@.len() == 4 && "section"@.len() == 7 && "heading"@.len() == 7 && "paragraph"@.len() == 9);
    assert("quote"@.len() == 5);
    reveal_strlit("ol");
    reveal_strlit("ul");
    reveal_strlit("<");
    reveal_strlit(">\n");
    reveal_strlit("\"");
    assert("ol"@ =~= seq!['o', 'l'] && "ul"@ =~= seq!['u', 'l']);
    assert("<"@ =~= seq!['<']);
    assert(">\n"@ =~= seq!['>', '\n']);
    let out = block_out(node, doc, fns).html;
    let tag = list_tag(node);
    assert(tag == (if str_of(get(node, "style"@)) == Some("ordered"@) { seq!['o', 'l'] } else { seq!['u', 'l'] }));
    let items = list_items_of(node, doc, fns);
    let head = "<"@ + tag + list_start(node) + ">\n"@;
    assert(out == head + items.html + "</"@ + tag + ">\n"@);
    assert(out.take(head.len() as int) =~= head);
    match i64_of(get(node, "start"@)) {
        Some(n) => {
            if n != 1 {
                let want = "<"@ + tag + " start=\""@ + dec_int(n) + seq!['"', '>'];
                assert(head =~= want + seq!['\n']);
                assert(out.take(want.len() as int) =~= want);
                assert(crate::text::has_prefix(out, want));
            } else {
                assert(head =~= seq!['<'] + tag + seq!['>', '\n']);
            }
        },
        None => {
            assert(head =~= seq!['<'] + tag + seq!['>', '\n']);
        },
    }
}

/// A callout is a `div` of class `callout` whose `data-variant` is the
/// callout's variant, `note` when it has none.
pub proof fn law_callout_variant_attribute(node: Json, doc: ExportDoc, fns: Seq<Seq<char>>)
    requires
        str_of(get(node, "type"@)) == Some("callout"@),
    ensures
        ({
            let variant = match str_of(get(node, "variant"@)) {
                Some(v) => v,
                None => seq!['n', 'o', 't', 'e'],
            };
            crate::text::has_prefix(
                block_out(node, doc, fns).html,
                "<div class=\"callout\" data-variant=\""@ + variant + seq!['"', '>'],
            )
        }),
{
    reveal_strlit("list");
    reveal_strlit("section");
    reveal_strlit("heading");
    reveal_strlit("paragraph");
    reveal_strlit("quote");
    reveal_strlit("table");
    reveal_strlit("figure");
    reveal_strlit("callout");
    assert("list"@.len() == 4 && "section"@.len() == 7 && "heading"@.len() == 7 && "paragraph"@.len() == 9);
    assert("quote"@.len() == 5 && "table"@.len() == 5 && "figure"@.len() == 6 && "callout"@.len() == 7);
    assert("section"@[0] != "callout"@[0] && "heading"@[0] != "callout"@[0]);
    reveal_strlit("\">");
    reveal_strlit("note");
    assert("note"@ =~= seq!['n', 'o', 't', 'e']);
    let out = block_out(node, doc, fns).html;
    let v = match str_of(get(node, "variant"@)) {
        Some(v) => v,
        None => "note"@,
    };
    let inner = kids_out(node, "children"@, doc, fns);
    assert(out == "<div class=\"callout\" data-variant=\""@ + v + "\">"@ + inner.html + "</div>\n"@);
    let want = "<div class=\"callout\" data-variant=\""@ + v + seq!['"', '>'];
    assert(out.take(want.len() as int) =~= want);
}

} // verus!
