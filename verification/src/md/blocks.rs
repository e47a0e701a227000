//! Markdown export of blocks and of a whole document: the blocks of the
//! `content` member, then one definition line per footnote.

use vstd::prelude::*;
use crate::convert::{
    asset_url, events_view, find_pair, log_none, log_record, lookup, lossless, record, str_member, str_or_empty,
    text, then, url_of, wrote, ExportDoc, LossEvent, LossEventView, Rendered,
};
use crate::html::export::{fn_key_names, fn_keys, footnote_id, int_member_or_one, int_or_one, is_footnote};
use crate::json::{get, i64_of, kids, lemma_kids_inside, str_of, Json};
use crate::md::{indent_block, indented, lines_incl};
use crate::md::export::{cm_dest, escape_link, labels_view, md_inline_of, push_repeat, repeat, write_inline};
use crate::ooxml::document::{join_str, LossClass};
use crate::text::{
    chars_of, dec, dec_int, first_index, fmt_i64, fmt_u64, replace_chars, strip_suffixes_vec, str_eq, string_of, trim, trim_end, trim_start, has_suffix, lemma_first_index, push_all, push_str, replace_all, slice_vec,
    strip_suffixes, trim_end_seq, trim_seq, trim_start_seq,
};

verus! {

// ------------------------------------------------------------------ lines

/// A line as `str::lines` yields it: without its `\n` or `\r\n`.
pub open spec fn line_body(l: Seq<char>) -> Seq<char> {
    if l.len() > 0 && l.last() == '\n' {
        let a = l.drop_last();
        if a.len() > 0 && a.last() == '\r' {
            a.drop_last()
        } else {
            a
        }
    } else {
        l
    }
}

/// `str::lines`.
pub open spec fn text_lines(s: Seq<char>) -> Seq<Seq<char>> {
    lines_incl(s).map_values(|l: Seq<char>| line_body(l))
}

/// Each line behind `> `; an empty line as a bare `>`.
pub open spec fn quoted(ls: Seq<Seq<char>>) -> Seq<char>
    decreases ls.len(),
{
    if ls.len() == 0 {
        Seq::empty()
    } else {
        quoted(ls.drop_last()) + if ls.last().len() == 0 {
            ">\n"@
        } else {
            "> "@ + ls.last() + "\n"@
        }
    }
}

/// `n` copies of `s`.
pub open spec fn reps(s: Seq<char>, n: nat) -> Seq<char>
    decreases n,
{
    if n == 0 {
        Seq::empty()
    } else {
        reps(s, (n - 1) as nat) + s
    }
}

// ------------------------------------------------------------------ code fences

/// The backticks at the end of `s`.
pub open spec fn tick_tail(s: Seq<char>) -> nat
    decreases s.len(),
{
    if s.len() > 0 && s.last() == '`' {
        tick_tail(s.drop_last()) + 1
    } else {
        0
    }
}

/// The longest run of backticks in `s`.
pub open spec fn tick_run(s: Seq<char>) -> nat
    decreases s.len(),
{
    if s.len() == 0 {
        0
    } else {
        let a = tick_run(s.drop_last());
        let b = tick_tail(s);
        if a >= b {
            a
        } else {
            b
        }
    }
}

/// A fence one backtick longer than any run in the code, and at least three.
pub open spec fn fence(code: Seq<char>) -> Seq<char> {
    let n = tick_run(code) + 1;
    repeat('`', if n >= 3 { n } else { 3 })
}

/// A fenced code block; the code ends with a newline.
pub open spec fn code_block_md(node: Json) -> Seq<char> {
    let code = str_or_empty(node, "text"@);
    let body = if has_suffix(code, "\n"@) { code } else { code + "\n"@ };
    fence(code) + str_or_empty(node, "language"@) + "\n"@ + body + fence(code) + "\n\n"@
}

// ------------------------------------------------------------------ leaf blocks

/// The blocks rendered without their children.
pub open spec fn md_atom(t: Seq<char>) -> bool {
    t == "code_block"@ || t == "image"@ || t == "horizontal_rule"@ || t == "math_block"@ || t == "footnote"@
        || t == "embed"@ || t == "unknown"@
}

/// A code block, image, rule, math block, footnote (written at the end, so
/// nothing here), embed (a link) or unknown block (a comment).
#[verifier::opaque]
pub open spec fn md_atom_block(node: Json, t: Seq<char>, doc: ExportDoc) -> Rendered {
    if t == "code_block"@ {
        text(code_block_md(node))
    } else if t == "image"@ {
        lossless("!["@ + str_or_empty(node, "alt"@) + "]("@ + cm_dest(url_of(doc, str_or_empty(node, "asset"@))) + ")\n\n"@)
    } else if t == "horizontal_rule"@ {
        text("---\n\n"@)
    } else if t == "math_block"@ {
        lossless("$$"@ + str_or_empty(node, "latex"@) + "$$\n\n"@)
    } else if t == "footnote"@ {
        text(Seq::empty())
    } else if t == "embed"@ {
        let asset = str_or_empty(node, "asset"@);
        let name = match lookup(doc.filenames@, asset) {
            Some(n) => n,
            None => asset,
        };
        Rendered {
            html: "["@ + name + "]("@ + cm_dest(url_of(doc, asset)) + ")\n\n"@,
            events: seq![record(LossClass::Partial, "embed_md"@, "degraded"@, asset, "内嵌资源在 Markdown 中以链接呈现"@)],
        }
    } else {
        let summary = str_or_empty(node, "summary"@);
        let pr = str_or_empty(node, "payload_ref"@);
        Rendered {
            html: "<!-- azodoc: unsupported "@ + summary + "，原文见 "@ + pr + " -->\n\n"@,
            events: seq![record(LossClass::PreservedRaw, "unknown_block_md"@, "preserved"@, pr, "未知内容以占位注释呈现，原文保留于容器"@)],
        }
    }
}

/// The level of a heading (1 when absent).
pub open spec fn heading_level(node: Json) -> int {
    match i64_of(get(node, "level"@)) {
        Some(l) => l,
        None => 1,
    }
}

/// A heading: as many `#` as its level.
pub open spec fn md_heading(node: Json, doc: ExportDoc, labels: Seq<(Seq<char>, Seq<char>)>) -> Rendered {
    let inner = md_inline_of(node, "content"@, doc, labels);
    Rendered { html: repeat('#', heading_level(node) as nat) + " "@ + inner.html + "\n\n"@, events: inner.events }
}

/// A paragraph; one of blank text writes nothing.
pub open spec fn md_paragraph(node: Json, doc: ExportDoc, labels: Seq<(Seq<char>, Seq<char>)>) -> Rendered {
    let inner = md_inline_of(node, "content"@, doc, labels);
    Rendered {
        html: if trim_seq(inner.html).len() == 0 { Seq::empty() } else { inner.html + "\n\n"@ },
        events: inner.events,
    }
}

/// A figure: its image, then its caption (if not blank) as an italic line.
pub open spec fn md_figure(node: Json, doc: ExportDoc, labels: Seq<(Seq<char>, Seq<char>)>) -> Rendered {
    let head = "!["@ + str_or_empty(node, "alt"@) + "]("@ + cm_dest(url_of(doc, str_or_empty(node, "asset"@))) + ")\n"@;
    let cap = md_inline_of(node, "caption"@, doc, labels);
    if trim_seq(cap.html).len() == 0 {
        Rendered { html: head + "\n"@, events: cap.events }
    } else {
        Rendered {
            html: head + "*"@ + cap.html + "*\n"@ + "\n"@,
            events: cap.events.push(record(LossClass::Partial, "figure_caption_md"@, "degraded"@, cap.html, "图题在 Markdown 中以斜体段落呈现"@)),
        }
    }
}

/// The alert name of a callout variant.
pub open spec fn callout_tag(node: Json) -> Seq<char> {
    let v = match str_of(get(node, "variant"@)) {
        Some(v) => v,
        None => "note"@,
    };
    if v == "tip"@ {
        "TIP"@
    } else if v == "important"@ {
        "IMPORTANT"@
    } else if v == "warning"@ {
        "WARNING"@
    } else {
        "NOTE"@
    }
}

/// The list is numbered.
pub open spec fn is_ordered(node: Json) -> bool {
    str_of(get(node, "style"@)) == Some("ordered"@)
}

/// The first number of a list (1 when absent).
pub open spec fn start_of(node: Json) -> int {
    match i64_of(get(node, "start"@)) {
        Some(s) => s,
        None => 1,
    }
}

/// The marker of an item numbered `n`.
pub open spec fn item_marker(ordered: bool, n: int) -> Seq<char> {
    if ordered {
        dec_int(n) + ". "@
    } else {
        "- "@
    }
}

/// The task box of an item, when it has one.
pub open spec fn item_check(item: Json) -> Seq<char> {
    match get(item, "checked"@) {
        Some(Json::Bool(true)) => "[x] "@,
        Some(Json::Bool(false)) => "[ ] "@,
        _ => Seq::empty(),
    }
}

/// The node is a paragraph.
pub open spec fn is_paragraph(v: Json) -> bool {
    str_of(get(v, "type"@)) == Some("paragraph"@)
}

/// Text without its trailing newlines.
pub open spec fn chomp(s: Seq<char>) -> Seq<char> {
    strip_suffixes(s, "\n"@)
}

// ------------------------------------------------------------------ tables

/// Some cell of the table spans more than one column or row.
pub open spec fn has_spans(node: Json) -> bool {
    exists|i: int, j: int|
        0 <= i < kids(node, "rows"@).len() && 0 <= j < kids(kids(node, "rows"@)[i], "cells"@).len()
            && (int_or_one(#[trigger] kids(kids(node, "rows"@)[i], "cells"@)[j], "colSpan"@) > 1
            || int_or_one(kids(kids(node, "rows"@)[i], "cells"@)[j], "rowSpan"@) > 1)
}

/// The column names of a table (empty for a column without one).
pub open spec fn column_names(node: Json) -> Seq<Seq<char>> {
    kids(node, "columns"@).map_values(|c: Json| str_or_empty(c, "name"@))
}

/// Every name is empty.
pub open spec fn all_empty(ss: Seq<Seq<char>>) -> bool {
    forall|i: int| 0 <= i < ss.len() ==> #[trigger] ss[i].len() == 0
}

/// The rows the table text shows: the column names first, unless the table
/// has a header row; then a header row comes first, after the column names
/// only when those say something the header row does not.
pub open spec fn table_rows(node: Json, texts: Seq<Seq<Seq<char>>>) -> Seq<Seq<Seq<char>>> {
    let names = column_names(node);
    if get(node, "header_row"@) == Some(Json::Bool(true)) {
        if texts.len() == 0 {
            Seq::empty()
        } else if !all_empty(names) && join_str(names, Seq::empty()) != join_str(texts[0], Seq::empty()) {
            seq![names] + texts
        } else {
            texts
        }
    } else {
        seq![names] + texts
    }
}

/// The widest row.
pub open spec fn max_len(rows: Seq<Seq<Seq<char>>>) -> nat
    decreases rows.len(),
{
    if rows.len() == 0 {
        0
    } else {
        let a = max_len(rows.drop_last());
        if a >= rows.last().len() {
            a
        } else {
            rows.last().len()
        }
    }
}

/// One table line: the cells with their pipes escaped, padded to `width`.
pub open spec fn pipe_row(cells: Seq<Seq<char>>, width: nat) -> Seq<char> {
    "| "@ + join_str(cells.map_values(|c: Seq<char>| replace_all(c, "|"@, "\\|"@)), " | "@)
        + reps(" | "@, (width - cells.len()) as nat) + " |\n"@
}

/// The lines of the rows after the first.
pub open spec fn body_rows(rows: Seq<Seq<Seq<char>>>, width: nat) -> Seq<char>
    decreases rows.len(),
{
    if rows.len() == 0 {
        Seq::empty()
    } else {
        body_rows(rows.drop_last(), width) + pipe_row(rows.last(), width)
    }
}

/// A GFM table: the first row, the delimiter row, the other rows.
pub open spec fn table_text(rows: Seq<Seq<Seq<char>>>) -> Seq<char> {
    if rows.len() == 0 {
        Seq::empty()
    } else {
        let w = max_len(rows);
        pipe_row(rows[0], w) + "|"@ + reps(" --- |"@, w) + "\n"@ + body_rows(rows.drop_first(), w) + "\n"@
    }
}

// ------------------------------------------------------------------ blocks

/// The Markdown of the block list member `key` (nothing when absent).
pub open spec fn md_kids(v: Json, key: Seq<char>, doc: ExportDoc, labels: Seq<(Seq<char>, Seq<char>)>) -> Rendered
    decreases v, 0nat,
{
    let k = kids(v, key);
    if k.len() > 0 {
        proof { lemma_kids_inside(v, key); }
        md_blocks(k, doc, labels)
    } else {
        text(Seq::empty())
    }
}

/// Blocks one after the other.
pub open spec fn md_blocks(blocks: Seq<Json>, doc: ExportDoc, labels: Seq<(Seq<char>, Seq<char>)>) -> Rendered
    decreases blocks, 3nat,
{
    if blocks.len() == 0 {
        text(Seq::empty())
    } else {
        then(md_blocks(blocks.drop_last(), doc, labels), md_block(blocks.last(), doc, labels))
    }
}

/// The first line of an item: marker, task box and a leading paragraph.
/// An item that does not start with a paragraph has no such line.
pub open spec fn item_head(children: Seq<Json>, lead: Seq<char>, doc: ExportDoc, labels: Seq<(Seq<char>, Seq<char>)>) -> Seq<char>
    decreases children, 3nat,
{
    if children.len() > 0 && is_paragraph(children[0]) {
        lead + trim_start_seq(chomp(md_block(children[0], doc, labels).html)) + "\n"@
    } else {
        Seq::empty()
    }
}

/// The other blocks of an item, each indented under the marker and ended
/// by a newline; the events are those of all its blocks.
pub open spec fn item_tail(children: Seq<Json>, cont: Seq<char>, doc: ExportDoc, labels: Seq<(Seq<char>, Seq<char>)>) -> Rendered
    decreases children, 3nat,
{
    if children.len() == 0 {
        text(Seq::empty())
    } else {
        let r = md_block(children.last(), doc, labels);
        let piece = if children.len() == 1 && is_paragraph(children[0]) {
            Seq::empty()
        } else {
            indented(lines_incl(chomp(r.html)), cont, false) + "\n"@
        };
        then(item_tail(children.drop_last(), cont, doc, labels), Rendered { html: piece, events: r.events })
    }
}

/// One list item under `marker`.
pub open spec fn md_item(item: Json, marker: Seq<char>, doc: ExportDoc, labels: Seq<(Seq<char>, Seq<char>)>) -> Rendered
    decreases item, 2nat,
{
    let k = kids(item, "children"@);
    let lead = marker + item_check(item);
    if k.len() > 0 {
        proof { lemma_kids_inside(item, "children"@); }
        let tail = item_tail(k, repeat(' ', lead.len()), doc, labels);
        Rendered { html: item_head(k, lead, doc, labels) + tail.html, events: tail.events }
    } else {
        text(Seq::empty())
    }
}

/// The items of a list, numbered from `start`.
pub open spec fn md_items(items: Seq<Json>, ordered: bool, start: int, doc: ExportDoc, labels: Seq<(Seq<char>, Seq<char>)>) -> Rendered
    decreases items, 3nat,
{
    if items.len() == 0 {
        text(Seq::empty())
    } else {
        then(
            md_items(items.drop_last(), ordered, start, doc, labels),
            md_item(items.last(), item_marker(ordered, start + items.len() - 1), doc, labels),
        )
    }
}

/// A list, ended by a blank line.
pub open spec fn md_list(node: Json, doc: ExportDoc, labels: Seq<(Seq<char>, Seq<char>)>) -> Rendered
    decreases node, 1nat,
{
    let k = kids(node, "items"@);
    let r = if k.len() > 0 {
        proof { lemma_kids_inside(node, "items"@); }
        md_items(k, is_ordered(node), start_of(node), doc, labels)
    } else {
        text(Seq::empty())
    };
    Rendered { html: r.html + "\n"@, events: r.events }
}

/// The trimmed blocks of a table cell, joined.
pub open spec fn md_cell_body(children: Seq<Json>, doc: ExportDoc, labels: Seq<(Seq<char>, Seq<char>)>) -> Rendered
    decreases children, 3nat,
{
    if children.len() == 0 {
        text(Seq::empty())
    } else {
        let r = md_block(children.last(), doc, labels);
        then(md_cell_body(children.drop_last(), doc, labels), Rendered { html: trim_seq(r.html), events: r.events })
    }
}

/// The text of a table cell, on one line.
pub open spec fn md_cell(cell: Json, doc: ExportDoc, labels: Seq<(Seq<char>, Seq<char>)>) -> Rendered
    decreases cell, 2nat,
{
    let k = kids(cell, "children"@);
    let b = if k.len() > 0 {
        proof { lemma_kids_inside(cell, "children"@); }
        md_cell_body(k, doc, labels)
    } else {
        text(Seq::empty())
    };
    Rendered { html: replace_all(b.html, "\n"@, " "@), events: b.events }
}

/// The texts of a list of cells, and their events.
pub open spec fn md_cells(cells: Seq<Json>, doc: ExportDoc, labels: Seq<(Seq<char>, Seq<char>)>) -> (Seq<Seq<char>>, Seq<LossEventView>)
    decreases cells, 3nat,
{
    if cells.len() == 0 {
        (Seq::empty(), Seq::empty())
    } else {
        let p = md_cells(cells.drop_last(), doc, labels);
        let c = md_cell(cells.last(), doc, labels);
        (p.0.push(c.html), p.1 + c.events)
    }
}

/// The cell texts of a row node.
pub open spec fn md_row(row: Json, doc: ExportDoc, labels: Seq<(Seq<char>, Seq<char>)>) -> (Seq<Seq<char>>, Seq<LossEventView>)
    decreases row, 1nat,
{
    let k = kids(row, "cells"@);
    if k.len() > 0 {
        proof { lemma_kids_inside(row, "cells"@); }
        md_cells(k, doc, labels)
    } else {
        (Seq::empty(), Seq::empty())
    }
}

/// The cell texts of each row, and their events.
pub open spec fn md_rows(rows: Seq<Json>, doc: ExportDoc, labels: Seq<(Seq<char>, Seq<char>)>) -> (Seq<Seq<Seq<char>>>, Seq<LossEventView>)
    decreases rows, 3nat,
{
    if rows.len() == 0 {
        (Seq::empty(), Seq::empty())
    } else {
        let p = md_rows(rows.drop_last(), doc, labels);
        let r = md_row(rows.last(), doc, labels);
        (p.0.push(r.0), p.1 + r.1)
    }
}

/// The event of a table: merged cells degrade, other tables map as they are.
pub open spec fn table_event(node: Json) -> LossEventView {
    if has_spans(node) {
        record(LossClass::Partial, "merged_cell"@, "degraded"@, "table"@, "表格含合并单元格，GFM 表格按普通单元格展开"@)
    } else {
        LossEventView::NodeNone
    }
}

/// A table.
pub open spec fn md_table(node: Json, doc: ExportDoc, labels: Seq<(Seq<char>, Seq<char>)>) -> Rendered
    decreases node, 1nat,
{
    let k = kids(node, "rows"@);
    let rs = if k.len() > 0 {
        proof { lemma_kids_inside(node, "rows"@); }
        md_rows(k, doc, labels)
    } else {
        (Seq::empty(), Seq::empty())
    };
    Rendered { html: table_text(table_rows(node, rs.0)), events: seq![table_event(node)] + rs.1 }
}

/// A callout: a GFM alert.
pub open spec fn md_callout(node: Json, doc: ExportDoc, labels: Seq<(Seq<char>, Seq<char>)>) -> Rendered
    decreases node, 1nat,
{
    let inner = md_kids(node, "children"@, doc, labels);
    Rendered {
        html: "> [!"@ + callout_tag(node) + "]\n"@ + quoted(text_lines(inner.html)) + "\n"@,
        events: seq![LossEventView::NodeNone] + inner.events,
    }
}

/// A block of an unknown type: its children and items.
pub open spec fn md_fallback(node: Json, t: Seq<char>, doc: ExportDoc, labels: Seq<(Seq<char>, Seq<char>)>) -> Rendered
    decreases node, 1nat,
{
    then(
        Rendered {
            html: Seq::empty(),
            events: seq![record(LossClass::Partial, "md_export_fallback"@, "degraded"@, t, "未知块类型按子内容降级导出"@)],
        },
        then(md_kids(node, "children"@, doc, labels), md_kids(node, "items"@, doc, labels)),
    )
}

/// The Markdown of one block.
pub open spec fn md_block(node: Json, doc: ExportDoc, labels: Seq<(Seq<char>, Seq<char>)>) -> Rendered
    decreases node, 3nat,
{
    let t = str_or_empty(node, "type"@);
    if t == "section"@ {
        md_kids(node, "children"@, doc, labels)
    } else if t == "heading"@ {
        md_heading(node, doc, labels)
    } else if t == "paragraph"@ {
        md_paragraph(node, doc, labels)
    } else if t == "quote"@ {
        let inner = md_kids(node, "children"@, doc, labels);
        Rendered { html: quoted(text_lines(inner.html)) + "\n"@, events: inner.events }
    } else if t == "list"@ {
        md_list(node, doc, labels)
    } else if t == "table"@ {
        md_table(node, doc, labels)
    } else if t == "figure"@ {
        md_figure(node, doc, labels)
    } else if t == "callout"@ {
        md_callout(node, doc, labels)
    } else if md_atom(t) {
        md_atom_block(node, t, doc)
    } else {
        md_fallback(node, t, doc, labels)
    }
}

// ------------------------------------------------------------------ what the export needs

/// The list numbers fit `i64`.
pub open spec fn start_fine(node: Json) -> bool {
    is_ordered(node) ==> start_of(node) + kids(node, "items"@).len() <= i64::MAX + 1 && kids(node, "items"@).len()
        <= i64::MAX + 1
}

/// Every block the export renders under `v.key` can be rendered.
pub open spec fn kids_fine(v: Json, key: Seq<char>) -> bool
    decreases v, 0nat,
{
    let k = kids(v, key);
    k.len() > 0 ==> {
        proof { lemma_kids_inside(v, key); }
        blocks_fine(k)
    }
}

/// Every block of the list can be rendered.
pub open spec fn blocks_fine(blocks: Seq<Json>) -> bool
    decreases blocks, 3nat,
{
    blocks.len() == 0 || (blocks_fine(blocks.drop_last()) && block_fine(blocks.last()))
}

/// Every item of the list can be rendered.
pub open spec fn items_fine(items: Seq<Json>) -> bool
    decreases items, 3nat,
{
    items.len() == 0 || (items_fine(items.drop_last()) && kids_fine(items.last(), "children"@))
}

/// Every cell of the list can be rendered.
pub open spec fn cells_fine(cells: Seq<Json>) -> bool
    decreases cells, 3nat,
{
    cells.len() == 0 || (cells_fine(cells.drop_last()) && kids_fine(cells.last(), "children"@))
}

/// Every cell of the row can be rendered.
pub open spec fn row_fine(row: Json) -> bool
    decreases row, 1nat,
{
    let k = kids(row, "cells"@);
    k.len() > 0 ==> {
        proof { lemma_kids_inside(row, "cells"@); }
        cells_fine(k)
    }
}

/// Every row of the list can be rendered.
pub open spec fn rows_fine(rows: Seq<Json>) -> bool
    decreases rows, 3nat,
{
    rows.len() == 0 || (rows_fine(rows.drop_last()) && row_fine(rows.last()))
}

/// The block can be rendered: no heading under it has a negative level and
/// the numbers of no ordered list overflow `i64`.
pub open spec fn block_fine(node: Json) -> bool
    decreases node, 3nat,
{
    let t = str_or_empty(node, "type"@);
    if t == "section"@ || t == "quote"@ || t == "callout"@ {
        kids_fine(node, "children"@)
    } else if t == "heading"@ {
        heading_level(node) >= 0
    } else if t == "list"@ {
        let k = kids(node, "items"@);
        start_fine(node) && (k.len() > 0 ==> {
            proof { lemma_kids_inside(node, "items"@); }
            items_fine(k)
        })
    } else if t == "table"@ {
        let k = kids(node, "rows"@);
        k.len() > 0 ==> {
            proof { lemma_kids_inside(node, "rows"@); }
            rows_fine(k)
        }
    } else if t == "paragraph"@ || t == "figure"@ || md_atom(t) {
        true
    } else {
        kids_fine(node, "children"@) && kids_fine(node, "items"@)
    }
}

// ------------------------------------------------------------------ footnotes

/// What the footnote scan has found so far: each footnote's id and label,
/// each definition with its label, and the last automatic number.
pub struct NoteScan {
    pub labels: Seq<(Seq<char>, Seq<char>)>,
    pub defs: Seq<(Seq<char>, Json)>,
    pub auto: nat,
}

/// The scan before any footnote.
pub open spec fn no_notes() -> NoteScan {
    NoteScan { labels: Seq::empty(), defs: Seq::empty(), auto: 0 }
}

/// A footnote's label: its own, or the next automatic number.
pub open spec fn note_label(v: Json, auto: nat) -> (Seq<char>, nat) {
    match str_of(get(v, "label"@)) {
        Some(l) => (l, auto),
        None => (dec(auto + 1), auto + 1),
    }
}

/// The scan after `v`: itself, then its members in key order, depth first.
pub open spec fn scan_note(v: Json, st: NoteScan) -> NoteScan
    decreases v, 1nat, 0nat,
{
    let st1 = if is_footnote(v) {
        let id = str_of(get(v, "id"@)).unwrap();
        let la = note_label(v, st.auto);
        NoteScan { labels: st.labels.push((id, la.0)), defs: st.defs.push((la.0, v)), auto: la.1 }
    } else {
        st
    };
    scan_keys(v, fn_keys(), st1)
}

/// The scan over the members `keys` of `v`, in order.
pub open spec fn scan_keys(v: Json, keys: Seq<Seq<char>>, st: NoteScan) -> NoteScan
    decreases v, 0nat, keys.len(),
{
    if keys.len() == 0 {
        st
    } else {
        let st1 = scan_keys(v, keys.drop_last(), st);
        let k = kids(v, keys.last());
        if k.len() > 0 {
            proof { lemma_kids_inside(v, keys.last()); }
            scan_seq(k, st1)
        } else {
            st1
        }
    }
}

/// The scan over a list of values, in order.
pub open spec fn scan_seq(vs: Seq<Json>, st: NoteScan) -> NoteScan
    decreases vs, 1nat, 0nat,
{
    if vs.len() == 0 {
        st
    } else {
        scan_note(vs.last(), scan_seq(vs.drop_last(), st))
    }
}

/// A footnote's text: its blocks, each without trailing space, joined by
/// spaces.
pub open spec fn note_body(children: Seq<Json>, doc: ExportDoc, labels: Seq<(Seq<char>, Seq<char>)>) -> Rendered
    decreases children.len(),
{
    if children.len() == 0 {
        text(Seq::empty())
    } else {
        let r = md_block(children.last(), doc, labels);
        let prev = note_body(children.drop_last(), doc, labels);
        Rendered {
            html: if children.len() == 1 { trim_end_seq(r.html) } else { prev.html + " "@ + trim_end_seq(r.html) },
            events: prev.events + r.events,
        }
    }
}

/// One definition line per footnote, in scan order.
pub open spec fn note_lines(defs: Seq<(Seq<char>, Json)>, doc: ExportDoc, labels: Seq<(Seq<char>, Seq<char>)>) -> Rendered
    decreases defs.len(),
{
    if defs.len() == 0 {
        text(Seq::empty())
    } else {
        let d = defs.last();
        let b = note_body(kids(d.1, "children"@), doc, labels);
        then(note_lines(defs.drop_last(), doc, labels), Rendered { html: "[^"@ + d.0 + "]: "@ + b.html + "\n"@, events: b.events })
    }
}

/// The footnote scan of a document.
pub open spec fn doc_notes(doc: ExportDoc) -> NoteScan {
    scan_seq(kids(doc.content, "content"@), no_notes())
}

/// The Markdown of a document: its blocks, then its footnote definitions.
pub open spec fn md_document(doc: ExportDoc) -> Rendered {
    let st = doc_notes(doc);
    then(md_blocks(kids(doc.content, "content"@), doc, st.labels), note_lines(st.defs, doc, st.labels))
}

/// Every block of the document, and of each footnote definition, can be
/// rendered.
pub open spec fn md_exportable(doc: ExportDoc) -> bool {
    let st = doc_notes(doc);
    &&& blocks_fine(kids(doc.content, "content"@))
    &&& forall|i: int| 0 <= i < st.defs.len() ==> blocks_fine(kids(#[trigger] st.defs[i].1, "children"@))
}

// ------------------------------------------------------------------ text helpers

/// `str::split_inclusive('\n')` on characters.
fn split_lines(s: &[char]) -> (r: Vec<Vec<char>>)
    ensures
        r@.map_values(|l: Vec<char>| l@) == lines_incl(s@),
{
    let mut out: Vec<Vec<char>> = Vec::new();
    let mut start: usize = 0;
    assert(s@.skip(0) =~= s@);
    while start < s.len()
        invariant
            start <= s.len(),
            out@.map_values(|l: Vec<char>| l@) + lines_incl(s@.skip(start as int)) == lines_incl(s@),
        decreases s.len() - start,
    {
        let ghost rest = s@.skip(start as int);
        proof { lemma_first_index(rest, '\n'); }
        let mut e: usize = start;
        while e < s.len() && s[e] != '\n'
            invariant
                start <= e <= s.len(),
                forall|k: int| start <= k < e ==> s@[k] != '\n',
            decreases s.len() - e,
        {
            e = e + 1;
        }
        let end = if e < s.len() { e + 1 } else { e };
        let line = slice_vec(s, start, end);
        proof {
            if e < s.len() {
                assert(rest[e - start] == '\n');
                assert forall|k: int| 0 <= k < e - start implies rest[k] != '\n' by {
                    assert(rest[k] == s@[start + k]);
                }
                assert(first_index(rest, '\n') == e - start) by {
                    lemma_first_index(rest, '\n');
                    let f = first_index(rest, '\n');
                    if f >= 0 && f < e - start {
                        assert(rest[f] == '\n');
                    }
                }
                assert(line@ =~= rest.take(e - start + 1));
                assert(s@.skip(end as int) =~= rest.skip(e - start + 1));
            } else {
                assert(!rest.contains('\n')) by {
                    if rest.contains('\n') {
                        let k = choose|k: int| 0 <= k < rest.len() && rest[k] == '\n';
                        assert(s@[start + k] == '\n');
                    }
                }
                assert(line@ =~= rest);
                assert(s@.skip(end as int).len() == 0);
                assert(lines_incl(s@.skip(end as int)) =~= Seq::<Seq<char>>::empty());
            }
            assert(lines_incl(rest) =~= seq![line@] + lines_incl(s@.skip(end as int)));
        }
        let ghost before = out@.map_values(|l: Vec<char>| l@);
        out.push(line);
        assert(out@.map_values(|l: Vec<char>| l@) =~= before.push(line@));
        assert(before.push(line@) + lines_incl(s@.skip(end as int)) =~= before + lines_incl(rest));
        start = end;
    }
    assert(s@.skip(start as int).len() == 0);
    assert(lines_incl(s@.skip(start as int)) =~= Seq::<Seq<char>>::empty());
    assert(out@.map_values(|l: Vec<char>| l@) + Seq::<Seq<char>>::empty() =~= out@.map_values(|l: Vec<char>| l@));
    out
}

/// Appends the lines of `s`, each behind `> `.
fn push_quoted(out: &mut Vec<char>, s: &[char])
    ensures
        final(out)@ == old(out)@ + quoted(text_lines(s@)),
{
    let ls = split_lines(s);
    let ghost all = text_lines(s@);
    let ghost o0 = out@;
    let mut i: usize = 0;
    while i < ls.len()
        invariant
            i <= ls.len(),
            all == ls@.map_values(|l: Vec<char>| l@).map_values(|l: Seq<char>| line_body(l)),
            out@ == o0 + quoted(all.take(i as int)),
        decreases ls.len() - i,
    {
        let l = &ls[i];
        let n = l.len();
        let mut end: usize = n;
        if n > 0 && l[n - 1] == '\n' {
            end = n - 1;
            if end > 0 && l[end - 1] == '\r' {
                end = end - 1;
            }
        }
        let body = slice_vec(l.as_slice(), 0, end);
        proof {
            let lv = l@;
            assert(all[i as int] == line_body(lv));
            if n > 0 && lv.last() == '\n' {
                let a = lv.drop_last();
                if a.len() > 0 && a.last() == '\r' {
                    assert(body@ =~= a.drop_last());
                } else {
                    assert(body@ =~= a);
                }
            } else {
                assert(body@ =~= lv);
            }
            assert(all.take(i + 1).drop_last() =~= all.take(i as int));
        }
        if body.len() == 0 {
            push_str(out, ">\n");
        } else {
            push_str(out, "> ");
            push_all(out, body.as_slice());
            push_str(out, "\n");
        }
        i = i + 1;
        assert(out@ =~= o0 + quoted(all.take(i as int)));
    }
    assert(all.take(ls.len() as int) =~= all);
}

/// Appends `n` copies of `s`.
fn push_reps(out: &mut Vec<char>, s: &str, n: usize)
    ensures
        final(out)@ == old(out)@ + reps(s@, n as nat),
{
    let ghost o0 = out@;
    let mut i: usize = 0;
    while i < n
        invariant
            i <= n,
            out@ == o0 + reps(s@, i as nat),
        decreases n - i,
    {
        push_str(out, s);
        i = i + 1;
        assert(out@ =~= o0 + reps(s@, i as nat));
    }
}

proof fn lemma_tick_tail_le(s: Seq<char>)
    ensures
        tick_tail(s) <= s.len(),
        tick_run(s) <= s.len(),
    decreases s.len(),
{
    if s.len() > 0 {
        lemma_tick_tail_le(s.drop_last());
    }
}

/// The longest run of backticks.
fn tick_run_of(s: &[char]) -> (r: usize)
    ensures
        r == tick_run(s@),
{
    let mut i: usize = 0;
    let mut run: usize = 0;
    let mut best: usize = 0;
    while i < s.len()
        invariant
            i <= s.len(),
            run == tick_tail(s@.take(i as int)),
            best == tick_run(s@.take(i as int)),
            run <= i,
        decreases s.len() - i,
    {
        assert(s@.take(i + 1).drop_last() =~= s@.take(i as int));
        if s[i] == '`' {
            run = run + 1;
        } else {
            run = 0;
        }
        if run > best {
            best = run;
        }
        i = i + 1;
    }
    assert(s@.take(s.len() as int) =~= s@);
    best
}

// ------------------------------------------------------------------ leaf blocks

/// Appends the fence of a code whose longest backtick run is `n`.
fn push_fence(out: &mut Vec<char>, code: &[char], n: usize)
    requires
        n == tick_run(code@),
    ensures
        final(out)@ == old(out)@ + fence(code@),
{
    let ghost o0 = out@;
    if n >= 2 {
        push_repeat(out, '`', n as u64);
        out.push('`');
        assert(repeat('`', n as nat).push('`') =~= repeat('`', (n + 1) as nat));
    } else {
        push_repeat(out, '`', 3);
    }
    assert(out@ =~= o0 + fence(code@));
}

fn write_code_block(node: &Json, out: &mut Vec<char>)
    ensures
        final(out)@ == old(out)@ + code_block_md(*node),
{
    let ghost o0 = out@;
    let code = chars_of(str_member(node, "text"));
    let n = tick_run_of(code.as_slice());
    push_fence(out, code.as_slice(), n);
    push_str(out, str_member(node, "language"));
    push_str(out, "\n");
    push_all(out, code.as_slice());
    let ends = code.len() > 0 && code[code.len() - 1] == '\n';
    proof {
        reveal_strlit("\n");
        assert("\n"@ =~= seq!['\n']);
        if code@.len() > 0 {
            let tail = code@.skip(code@.len() - 1);
            assert(tail =~= seq![code@.last()]);
            if code@.last() == '\n' {
                assert(tail =~= "\n"@);
            } else {
                assert(tail[0] != "\n"@[0]);
            }
        } else {
            assert(!has_suffix(code@, "\n"@));
        }
    }
    if !ends {
        push_str(out, "\n");
    }
    push_fence(out, code.as_slice(), n);
    push_str(out, "\n\n");
    assert(out@ =~= o0 + code_block_md(*node));
}

fn write_atom_block(node: &Json, t: &str, doc: &ExportDoc, out: &mut Vec<char>, log: &mut Vec<LossEvent>)
    requires
        md_atom(t@),
    ensures
        wrote(final(out)@, final(log)@, old(out)@, events_view(old(log)@), md_atom_block(*node, t@, *doc)),
{
    proof { reveal(md_atom_block); }
    let ghost o0 = out@;
    let ghost l0 = events_view(log@);
    if str_eq(t, "code_block") {
        write_code_block(node, out);
    } else if str_eq(t, "image") {
        log_none(log);
        push_str(out, "![");
        push_str(out, str_member(node, "alt"));
        push_str(out, "](");
        let dest = escape_link(asset_url(doc, str_member(node, "asset")));
        push_str(out, dest.as_str());
        push_str(out, ")\n\n");
    } else if str_eq(t, "horizontal_rule") {
        push_str(out, "---\n\n");
    } else if str_eq(t, "math_block") {
        log_none(log);
        push_str(out, "$$");
        push_str(out, str_member(node, "latex"));
        push_str(out, "$$\n\n");
    } else if str_eq(t, "footnote") {
    } else if str_eq(t, "embed") {
        let asset = str_member(node, "asset");
        let name = match find_pair(&doc.filenames, asset) {
            Some(n) => n,
            None => asset,
        };
        log_record(log, LossClass::Partial, "embed_md", "degraded", asset, "内嵌资源在 Markdown 中以链接呈现");
        push_str(out, "[");
        push_str(out, name);
        push_str(out, "](");
        let dest = escape_link(asset_url(doc, asset));
        push_str(out, dest.as_str());
        push_str(out, ")\n\n");
    } else {
        let summary = str_member(node, "summary");
        let pr = str_member(node, "payload_ref");
        log_record(log, LossClass::PreservedRaw, "unknown_block_md", "preserved", pr, "未知内容以占位注释呈现，原文保留于容器");
        push_str(out, "<!-- azodoc: unsupported ");
        push_str(out, summary);
        push_str(out, "，原文见 ");
        push_str(out, pr);
        push_str(out, " -->\n\n");
    }
    assert(out@ =~= o0 + md_atom_block(*node, t@, *doc).html);
    assert(events_view(log@) =~= l0 + md_atom_block(*node, t@, *doc).events);
}

fn write_heading(node: &Json, doc: &ExportDoc, labels: &Vec<(String, String)>, out: &mut Vec<char>, log: &mut Vec<LossEvent>)
    requires
        heading_level(*node) >= 0,
    ensures
        wrote(final(out)@, final(log)@, old(out)@, events_view(old(log)@), md_heading(*node, *doc, labels_view(labels@))),
{
    let ghost o0 = out@;
    let level: i64 = match node.get("level") {
        Some(x) => match x.as_i64() {
            Some(n) => n,
            None => 1,
        },
        None => 1,
    };
    assert(level == heading_level(*node));
    push_repeat(out, '#', level as u64);
    push_str(out, " ");
    write_inline(node, "content", doc, labels, out, log);
    push_str(out, "\n\n");
    assert(out@ =~= o0 + md_heading(*node, *doc, labels_view(labels@)).html);
}

fn write_paragraph(node: &Json, doc: &ExportDoc, labels: &Vec<(String, String)>, out: &mut Vec<char>, log: &mut Vec<LossEvent>)
    ensures
        wrote(final(out)@, final(log)@, old(out)@, events_view(old(log)@), md_paragraph(*node, *doc, labels_view(labels@))),
{
    let ghost o0 = out@;
    let mut inner: Vec<char> = Vec::new();
    write_inline(node, "content", doc, labels, &mut inner, log);
    assert(inner@ =~= md_inline_of(*node, "content"@, *doc, labels_view(labels@)).html);
    if trim(inner.as_slice()).len() > 0 {
        push_all(out, inner.as_slice());
        push_str(out, "\n\n");
    }
    assert(out@ =~= o0 + md_paragraph(*node, *doc, labels_view(labels@)).html);
}

fn write_figure(node: &Json, doc: &ExportDoc, labels: &Vec<(String, String)>, out: &mut Vec<char>, log: &mut Vec<LossEvent>)
    ensures
        wrote(final(out)@, final(log)@, old(out)@, events_view(old(log)@), md_figure(*node, *doc, labels_view(labels@))),
{
    let ghost o0 = out@;
    let ghost l0 = events_view(log@);
    push_str(out, "![");
    push_str(out, str_member(node, "alt"));
    push_str(out, "](");
    let dest = escape_link(asset_url(doc, str_member(node, "asset")));
    push_str(out, dest.as_str());
    push_str(out, ")\n");
    let mut cap: Vec<char> = Vec::new();
    write_inline(node, "caption", doc, labels, &mut cap, log);
    assert(cap@ =~= md_inline_of(*node, "caption"@, *doc, labels_view(labels@)).html);
    if trim(cap.as_slice()).len() > 0 {
        let detail = string_of(cap.as_slice());
        log_record(log, LossClass::Partial, "figure_caption_md", "degraded", detail.as_str(), "图题在 Markdown 中以斜体段落呈现");
        push_str(out, "*");
        push_all(out, cap.as_slice());
        push_str(out, "*\n");
    }
    push_str(out, "\n");
    assert(out@ =~= o0 + md_figure(*node, *doc, labels_view(labels@)).html);
    assert(events_view(log@) =~= l0 + md_figure(*node, *doc, labels_view(labels@)).events);
}

// ------------------------------------------------------------------ table text

/// Cell texts as plain values.
pub open spec fn row_view(r: Seq<Vec<char>>) -> Seq<Seq<char>> {
    r.map_values(|c: Vec<char>| c@)
}

/// Rows of cell texts as plain values.
pub open spec fn rows_view(rs: Seq<Vec<Vec<char>>>) -> Seq<Seq<Seq<char>>> {
    rs.map_values(|r: Vec<Vec<char>>| row_view(r@))
}

fn table_has_spans(node: &Json) -> (r: bool)
    ensures
        r == has_spans(*node),
{
    let ghost rows = kids(*node, "rows"@);
    if let Some(rs) = node.get_array("rows") {
        let mut i: usize = 0;
        while i < rs.len()
            invariant
                i <= rs.len(),
                rs@ == rows,
                rows == kids(*node, "rows"@),
                forall|a: int, b: int|
                    0 <= a < i && 0 <= b < kids(rows[a], "cells"@).len() ==> !(int_or_one(
                        #[trigger] kids(rows[a], "cells"@)[b],
                        "colSpan"@,
                    ) > 1 || int_or_one(kids(rows[a], "cells"@)[b], "rowSpan"@) > 1),
            decreases rs.len() - i,
        {
            let ghost cells = kids(rows[i as int], "cells"@);
            if let Some(cs) = rs[i].get_array("cells") {
                let mut j: usize = 0;
                while j < cs.len()
                    invariant
                        j <= cs.len(),
                        i < rs.len(),
                        rs@ == rows,
                        rows == kids(*node, "rows"@),
                        cs@ == cells,
                        cells == kids(rows[i as int], "cells"@),
                        forall|b: int|
                            0 <= b < j ==> !(int_or_one(#[trigger] cells[b], "colSpan"@) > 1 || int_or_one(cells[b], "rowSpan"@) > 1),
                    decreases cs.len() - j,
                {
                    let c = int_member_or_one(&cs[j], "colSpan");
                    let r = int_member_or_one(&cs[j], "rowSpan");
                    if c > 1 || r > 1 {
                        assert(int_or_one(kids(kids(*node, "rows"@)[i as int], "cells"@)[j as int], "colSpan"@) > 1
                            || int_or_one(kids(kids(*node, "rows"@)[i as int], "cells"@)[j as int], "rowSpan"@) > 1);
                        return true;
                    }
                    j = j + 1;
                }
            }
            assert forall|a: int, b: int|
                0 <= a < i + 1 && 0 <= b < kids(rows[a], "cells"@).len() implies !(int_or_one(
                    #[trigger] kids(rows[a], "cells"@)[b],
                    "colSpan"@,
                ) > 1 || int_or_one(kids(rows[a], "cells"@)[b], "rowSpan"@) > 1) by {
                if a == i {
                    assert(kids(rows[a], "cells"@)[b] == cells[b]);
                }
            }
            i = i + 1;
        }
    }
    false
}

fn column_names_of(node: &Json) -> (r: Vec<Vec<char>>)
    ensures
        row_view(r@) == column_names(*node),
{
    let mut names: Vec<Vec<char>> = Vec::new();
    if let Some(cs) = node.get_array("columns") {
        let mut k: usize = 0;
        while k < cs.len()
            invariant
                k <= cs.len(),
                cs@ == kids(*node, "columns"@),
                row_view(names@) == kids(*node, "columns"@).take(k as int).map_values(|c: Json| str_or_empty(c, "name"@)),
            decreases cs.len() - k,
        {
            let ghost before = row_view(names@);
            names.push(chars_of(str_member(&cs[k], "name")));
            assert(row_view(names@) =~= before.push(str_or_empty(cs@[k as int], "name"@)));
            assert(kids(*node, "columns"@).take(k + 1).map_values(|c: Json| str_or_empty(c, "name"@)) =~= before.push(
                str_or_empty(cs@[k as int], "name"@),
            ));
            k = k + 1;
        }
        assert(kids(*node, "columns"@).take(cs.len() as int) =~= kids(*node, "columns"@));
    } else {
        assert(row_view(names@) =~= column_names(*node));
    }
    names
}

fn concat_cells(cells: &Vec<Vec<char>>) -> (r: Vec<char>)
    ensures
        r@ == join_str(row_view(cells@), Seq::empty()),
{
    let ghost cv = row_view(cells@);
    let mut v: Vec<char> = Vec::new();
    let mut k: usize = 0;
    while k < cells.len()
        invariant
            k <= cells.len(),
            cv == row_view(cells@),
            v@ == join_str(cv.take(k as int), Seq::empty()),
        decreases cells.len() - k,
    {
        push_all(&mut v, cells[k].as_slice());
        proof {
            let t = cv.take(k + 1);
            assert(t.drop_last() =~= cv.take(k as int));
            if k == 0 {
                assert(cv.take(0) =~= Seq::<Seq<char>>::empty());
            }
        }
        k = k + 1;
        assert(v@ =~= join_str(cv.take(k as int), Seq::empty()));
    }
    assert(cv.take(cells.len() as int) =~= cv);
    v
}

fn all_empty_cells(cells: &Vec<Vec<char>>) -> (r: bool)
    ensures
        r == all_empty(row_view(cells@)),
{
    let mut k: usize = 0;
    while k < cells.len()
        invariant
            k <= cells.len(),
            forall|i: int| 0 <= i < k ==> #[trigger] row_view(cells@)[i].len() == 0,
        decreases cells.len() - k,
    {
        if cells[k].len() > 0 {
            assert(row_view(cells@)[k as int].len() > 0);
            return false;
        }
        k = k + 1;
    }
    true
}

proof fn lemma_max_len(rows: Seq<Seq<Seq<char>>>)
    ensures
        forall|i: int| 0 <= i < rows.len() ==> #[trigger] rows[i].len() <= max_len(rows),
        rows.len() > 0 ==> exists|i: int| 0 <= i < rows.len() && max_len(rows) == #[trigger] rows[i].len(),
    decreases rows.len(),
{
    if rows.len() > 0 {
        lemma_max_len(rows.drop_last());
        assert forall|i: int| 0 <= i < rows.len() implies #[trigger] rows[i].len() <= max_len(rows) by {
            if i < rows.len() - 1 {
                assert(rows[i] == rows.drop_last()[i]);
            }
        }
        if rows.len() > 1 && max_len(rows.drop_last()) >= rows.last().len() {
            let i = choose|i: int| 0 <= i < rows.drop_last().len() && max_len(rows.drop_last()) == #[trigger] rows.drop_last()[i].len();
            assert(rows[i] == rows.drop_last()[i]);
        } else {
            assert(max_len(rows) == rows[rows.len() - 1].len());
        }
    }
}

fn max_width(rows: &Vec<Vec<Vec<char>>>) -> (r: usize)
    ensures
        r == max_len(rows_view(rows@)),
{
    let ghost rv = rows_view(rows@);
    let mut w: usize = 0;
    let mut i: usize = 0;
    while i < rows.len()
        invariant
            i <= rows.len(),
            rv == rows_view(rows@),
            w == max_len(rv.take(i as int)),
        decreases rows.len() - i,
    {
        assert(rv.take(i + 1).drop_last() =~= rv.take(i as int));
        assert(rv[i as int].len() == rows@[i as int]@.len());
        if rows[i].len() > w {
            w = rows[i].len();
        }
        i = i + 1;
    }
    assert(rv.take(rows.len() as int) =~= rv);
    w
}

fn write_pipe_row(out: &mut Vec<char>, cells: &Vec<Vec<char>>, width: usize)
    requires
        cells.len() <= width,
    ensures
        final(out)@ == old(out)@ + pipe_row(row_view(cells@), width as nat),
{
    proof {
        reveal_strlit("|");
        reveal_strlit("\\|");
    }
    let ghost o0 = out@;
    let ghost cv = row_view(cells@);
    let ghost esc = cv.map_values(|c: Seq<char>| replace_all(c, "|"@, "\\|"@));
    let pipe = chars_of("|");
    let escaped = chars_of("\\|");
    push_str(out, "| ");
    let ghost o1 = out@;
    let mut k: usize = 0;
    while k < cells.len()
        invariant
            k <= cells.len(),
            cv == row_view(cells@),
            esc == cv.map_values(|c: Seq<char>| replace_all(c, "|"@, "\\|"@)),
            pipe@ == "|"@,
            escaped@ == "\\|"@,
            pipe@.len() > 0,
            out@ == o1 + join_str(esc.take(k as int), " | "@),
        decreases cells.len() - k,
    {
        if k > 0 {
            push_str(out, " | ");
        }
        let e = replace_chars(cells[k].as_slice(), pipe.as_slice(), escaped.as_slice());
        push_all(out, e.as_slice());
        proof {
            let t = esc.take(k + 1);
            assert(t.drop_last() =~= esc.take(k as int));
            assert(t.last() == e@);
            if k == 0 {
                assert(esc.take(0) =~= Seq::<Seq<char>>::empty());
            }
        }
        k = k + 1;
        assert(out@ =~= o1 + join_str(esc.take(k as int), " | "@));
    }
    assert(esc.take(cells.len() as int) =~= esc);
    push_reps(out, " | ", width - cells.len());
    push_str(out, " |\n");
    assert(out@ =~= o0 + pipe_row(cv, width as nat));
}

fn write_table_text(out: &mut Vec<char>, rows: &Vec<Vec<Vec<char>>>)
    ensures
        final(out)@ == old(out)@ + table_text(rows_view(rows@)),
{
    let ghost rv = rows_view(rows@);
    let ghost o0 = out@;
    if rows.len() == 0 {
        assert(out@ =~= o0 + table_text(rv));
        return;
    }
    let w = max_width(rows);
    proof { lemma_max_len(rv); }
    assert(rv[0].len() == rows@[0]@.len());
    write_pipe_row(out, &rows[0], w);
    push_str(out, "|");
    push_reps(out, " --- |", w);
    push_str(out, "\n");
    let ghost o1 = out@;
    let ghost rest = rv.drop_first();
    let mut i: usize = 1;
    assert(rest.take(0) =~= Seq::<Seq<Seq<char>>>::empty());
    while i < rows.len()
        invariant
            1 <= i <= rows.len(),
            rv == rows_view(rows@),
            rest == rv.drop_first(),
            w == max_len(rv),
            forall|j: int| 0 <= j < rv.len() ==> #[trigger] rv[j].len() <= max_len(rv),
            out@ == o1 + body_rows(rest.take(i - 1), w as nat),
        decreases rows.len() - i,
    {
        assert(rv[i as int].len() == rows@[i as int]@.len());
        write_pipe_row(out, &rows[i], w);
        proof {
            let t = rest.take(i as int);
            assert(t.drop_last() =~= rest.take(i - 1));
            assert(t.last() == rv[i as int]);
        }
        i = i + 1;
    }
    assert(rest.take(rows.len() - 1) =~= rest);
    push_str(out, "\n");
    assert(out@ =~= o0 + table_text(rv));
}

// ------------------------------------------------------------------ writing blocks

/// The block type names are distinct.
proof fn lemma_type_names()
    ensures
        "section"@ != "heading"@, "section"@ != "paragraph"@, "section"@ != "quote"@, "section"@ != "list"@,
        "section"@ != "table"@, "section"@ != "figure"@, "section"@ != "callout"@,
        "heading"@ != "paragraph"@, "heading"@ != "quote"@, "heading"@ != "list"@, "heading"@ != "table"@,
        "heading"@ != "figure"@, "heading"@ != "callout"@, "heading"@ != "code_block"@, "heading"@ != "image"@,
        "paragraph"@ != "quote"@, "paragraph"@ != "list"@, "paragraph"@ != "table"@, "paragraph"@ != "figure"@,
        "paragraph"@ != "callout"@,
        "quote"@ != "list"@, "quote"@ != "table"@, "quote"@ != "figure"@, "quote"@ != "callout"@,
        "list"@ != "table"@, "list"@ != "figure"@, "list"@ != "callout"@, "list"@ != "paragraph"@,
        "table"@ != "figure"@, "table"@ != "callout"@, "figure"@ != "callout"@,
        !md_atom("section"@), !md_atom("heading"@), !md_atom("paragraph"@), !md_atom("quote"@), !md_atom("list"@),
        !md_atom("table"@), !md_atom("figure"@), !md_atom("callout"@),
{
    reveal_strlit("section");
    reveal_strlit("heading");
    reveal_strlit("paragraph");
    reveal_strlit("quote");
    reveal_strlit("list");
    reveal_strlit("table");
    reveal_strlit("figure");
    reveal_strlit("callout");
    reveal_strlit("code_block");
    reveal_strlit("image");
    reveal_strlit("horizontal_rule");
    reveal_strlit("math_block");
    reveal_strlit("footnote");
    reveal_strlit("embed");
    reveal_strlit("unknown");
    assert("section"@.len() == 7);
    assert("heading"@.len() == 7);
    assert("paragraph"@.len() == 9);
    assert("quote"@.len() == 5);
    assert("list"@.len() == 4);
    assert("table"@.len() == 5);
    assert("figure"@.len() == 6);
    assert("callout"@.len() == 7);
    assert("code_block"@.len() == 10);
    assert("image"@.len() == 5);
    assert("horizontal_rule"@.len() == 15);
    assert("math_block"@.len() == 10);
    assert("footnote"@.len() == 8);
    assert("embed"@.len() == 5);
    assert("unknown"@.len() == 7);
    assert("section"@[0] != "heading"@[0]);
    assert("section"@[0] != "callout"@[0]);
    assert("heading"@[0] != "callout"@[0]);
    assert("quote"@[0] != "table"@[0]);
    assert("section"@[0] != "unknown"@[0]);
    assert("heading"@[0] != "unknown"@[0]);
    assert("callout"@[0] != "unknown"@[0]);
    assert("quote"@[0] != "image"@[0]);
    assert("quote"@[0] != "embed"@[0]);
    assert("table"@[0] != "image"@[0]);
    assert("table"@[0] != "embed"@[0]);
}

proof fn lemma_blocks_fine(bs: Seq<Json>)
    requires
        blocks_fine(bs),
    ensures
        forall|i: int| 0 <= i < bs.len() ==> block_fine(#[trigger] bs[i]),
    decreases bs.len(),
{
    if bs.len() > 0 {
        lemma_blocks_fine(bs.drop_last());
        assert forall|i: int| 0 <= i < bs.len() implies block_fine(#[trigger] bs[i]) by {
            if i < bs.len() - 1 {
                assert(bs[i] == bs.drop_last()[i]);
            }
        }
    }
}

proof fn lemma_items_fine(bs: Seq<Json>)
    requires
        items_fine(bs),
    ensures
        forall|i: int| 0 <= i < bs.len() ==> kids_fine(#[trigger] bs[i], "children"@),
    decreases bs.len(),
{
    if bs.len() > 0 {
        lemma_items_fine(bs.drop_last());
        assert forall|i: int| 0 <= i < bs.len() implies kids_fine(#[trigger] bs[i], "children"@) by {
            if i < bs.len() - 1 {
                assert(bs[i] == bs.drop_last()[i]);
            }
        }
    }
}

proof fn lemma_cells_fine(bs: Seq<Json>)
    requires
        cells_fine(bs),
    ensures
        forall|i: int| 0 <= i < bs.len() ==> kids_fine(#[trigger] bs[i], "children"@),
    decreases bs.len(),
{
    if bs.len() > 0 {
        lemma_cells_fine(bs.drop_last());
        assert forall|i: int| 0 <= i < bs.len() implies kids_fine(#[trigger] bs[i], "children"@) by {
            if i < bs.len() - 1 {
                assert(bs[i] == bs.drop_last()[i]);
            }
        }
    }
}

proof fn lemma_rows_fine(bs: Seq<Json>)
    requires
        rows_fine(bs),
    ensures
        forall|i: int| 0 <= i < bs.len() ==> row_fine(#[trigger] bs[i]),
    decreases bs.len(),
{
    if bs.len() > 0 {
        lemma_rows_fine(bs.drop_last());
        assert forall|i: int| 0 <= i < bs.len() implies row_fine(#[trigger] bs[i]) by {
            if i < bs.len() - 1 {
                assert(bs[i] == bs.drop_last()[i]);
            }
        }
    }
}

#[verifier::rlimit(50)]
fn write_kids(v: &Json, key: &str, doc: &ExportDoc, labels: &Vec<(String, String)>, out: &mut Vec<char>, log: &mut Vec<LossEvent>)
    requires
        kids_fine(*v, key@),
    ensures
        wrote(final(out)@, final(log)@, old(out)@, events_view(old(log)@), md_kids(*v, key@, *doc, labels_view(labels@))),
    decreases *v, 0nat,
{
    let ghost lv = labels_view(labels@);
    let ghost o0 = out@;
    let ghost l0 = events_view(log@);
    if let Some(blocks) = v.get_array(key) {
        if blocks.len() > 0 {
            proof {
                lemma_kids_inside(*v, key@);
                lemma_blocks_fine(blocks@);
            }
            let mut i: usize = 0;
            assert(out@ =~= o0 + md_blocks(blocks@.take(0), *doc, lv).html);
            assert(events_view(log@) =~= l0 + md_blocks(blocks@.take(0), *doc, lv).events);
            while i < blocks.len()
                invariant
                    i <= blocks.len(),
                    blocks@ == kids(*v, key@),
                    decreases_to!(*v => blocks@),
                    forall|j: int| 0 <= j < blocks.len() ==> block_fine(#[trigger] blocks@[j]),
                    lv == labels_view(labels@),
                    wrote(out@, log@, o0, l0, md_blocks(blocks@.take(i as int), *doc, lv)),
                decreases blocks.len() - i,
            {
                assert(decreases_to!(blocks@ => blocks@[i as int]));
                write_block(&blocks[i], doc, labels, out, log);
                proof {
                    let t = blocks@.take(i + 1);
                    assert(t.drop_last() =~= blocks@.take(i as int));
                }
                i = i + 1;
                assert(out@ =~= o0 + md_blocks(blocks@.take(i as int), *doc, lv).html);
                assert(events_view(log@) =~= l0 + md_blocks(blocks@.take(i as int), *doc, lv).events);
            }
            assert(blocks@.take(blocks.len() as int) =~= blocks@);
            return;
        }
    }
    assert(out@ =~= o0 + md_kids(*v, key@, *doc, lv).html);
    assert(events_view(log@) =~= l0 + md_kids(*v, key@, *doc, lv).events);
}

#[verifier::rlimit(50)]
fn write_item(item: &Json, marker: &[char], doc: &ExportDoc, labels: &Vec<(String, String)>, out: &mut Vec<char>, log: &mut Vec<LossEvent>)
    requires
        kids_fine(*item, "children"@),
    ensures
        wrote(final(out)@, final(log)@, old(out)@, events_view(old(log)@), md_item(*item, marker@, *doc, labels_view(labels@))),
    decreases *item, 2nat,
{
    let ghost lv = labels_view(labels@);
    let ghost o0 = out@;
    let ghost l0 = events_view(log@);
    let check: &str = match item.get("checked") {
        Some(Json::Bool(true)) => "[x] ",
        Some(Json::Bool(false)) => "[ ] ",
        _ => "",
    };
    proof { reveal_strlit(""); }
    assert(check@ == item_check(*item));
    if let Some(children) = item.get_array("children") {
        if children.len() > 0 {
            proof {
                lemma_kids_inside(*item, "children"@);
                lemma_blocks_fine(children@);
            }
            let mut lead: Vec<char> = Vec::new();
            push_all(&mut lead, marker);
            push_str(&mut lead, check);
            let mut cont: Vec<char> = Vec::new();
            push_repeat(&mut cont, ' ', lead.len() as u64);
            let cont_s = string_of(cont.as_slice());
            let newline = chars_of("\n");
            proof { reveal_strlit("\n"); }
            let mut parts: Vec<char> = Vec::new();
            let ghost head = item_head(children@, lead@, *doc, lv);
            let mut i: usize = 0;
            assert(parts@ =~= item_tail(children@.take(0), cont@, *doc, lv).html);
            assert(events_view(log@) =~= l0 + item_tail(children@.take(0), cont@, *doc, lv).events);
            while i < children.len()
                invariant
                    i <= children.len(),
                    children@ == kids(*item, "children"@),
                    decreases_to!(*item => children@),
                    forall|j: int| 0 <= j < children.len() ==> block_fine(#[trigger] children@[j]),
                    lv == labels_view(labels@),
                    lead@ == marker@ + item_check(*item),
                    cont@ == repeat(' ', lead@.len()),
                    cont_s@ == cont@,
                    newline@ == "\n"@,
                    head == item_head(children@, lead@, *doc, lv),
                    out@ == o0 + (if i == 0 { Seq::empty() } else { head }),
                    parts@ == item_tail(children@.take(i as int), cont@, *doc, lv).html,
                    events_view(log@) == l0 + item_tail(children@.take(i as int), cont@, *doc, lv).events,
                decreases children.len() - i,
            {
                assert(decreases_to!(children@ => children@[i as int]));
                proof {
                    reveal_strlit("\n");
                    assert("\n"@ =~= seq!['\n']);
                }
                let mut r: Vec<char> = Vec::new();
                write_block(&children[i], doc, labels, &mut r, log);
                assert(r@ =~= md_block(children@[i as int], *doc, lv).html);
                let chomped = strip_suffixes_vec(r.as_slice(), newline.as_slice());
                let is_para = match children[i].get_str("type") {
                    Some(t) => str_eq(t, "paragraph"),
                    None => false,
                };
                assert(is_para == is_paragraph(children@[i as int]));
                let ghost pb = parts@;
                if i == 0 && is_para {
                    push_all(out, lead.as_slice());
                    let ts = trim_start(chomped.as_slice());
                    push_all(out, ts.as_slice());
                    out.push('\n');
                    assert(out@ =~= o0 + head);
                } else {
                    let ind = indent_block(string_of(chomped.as_slice()).as_str(), cont_s.as_str(), false);
                    push_str(&mut parts, ind.as_str());
                    parts.push('\n');
                }
                proof {
                    let t = children@.take(i + 1);
                    assert(t.drop_last() =~= children@.take(i as int));
                    assert(t.last() == children@[i as int]);
                    assert(t[0] == children@[0]);
                }
                i = i + 1;
                assert(parts@ =~= item_tail(children@.take(i as int), cont@, *doc, lv).html);
                assert(events_view(log@) =~= l0 + item_tail(children@.take(i as int), cont@, *doc, lv).events);
            }
            assert(children@.take(children.len() as int) =~= children@);
            proof {
                if !is_paragraph(children@[0]) {
                    assert(head =~= Seq::<char>::empty());
                }
            }
            push_all(out, parts.as_slice());
            assert(out@ =~= o0 + md_item(*item, marker@, *doc, lv).html);
            return;
        }
    }
    assert(out@ =~= o0 + md_item(*item, marker@, *doc, lv).html);
    assert(events_view(log@) =~= l0 + md_item(*item, marker@, *doc, lv).events);
}

#[verifier::rlimit(50)]
fn write_list(node: &Json, doc: &ExportDoc, labels: &Vec<(String, String)>, out: &mut Vec<char>, log: &mut Vec<LossEvent>)
    requires
        str_or_empty(*node, "type"@) == "list"@,
        block_fine(*node),
    ensures
        wrote(final(out)@, final(log)@, old(out)@, events_view(old(log)@), md_list(*node, *doc, labels_view(labels@))),
    decreases *node, 1nat,
{
    let ghost lv = labels_view(labels@);
    let ghost o0 = out@;
    let ghost l0 = events_view(log@);
    proof { lemma_type_names(); }
    let ordered = match node.get_str("style") {
        Some(st) => str_eq(st, "ordered"),
        None => false,
    };
    assert(ordered == is_ordered(*node));
    let start: i64 = match node.get("start") {
        Some(x) => match x.as_i64() {
            Some(n) => n,
            None => 1,
        },
        None => 1,
    };
    assert(start == start_of(*node));
    if let Some(items) = node.get_array("items") {
        if items.len() > 0 {
            proof {
                lemma_kids_inside(*node, "items"@);
                lemma_items_fine(items@);
            }
            let mut i: usize = 0;
            assert(out@ =~= o0 + md_items(items@.take(0), ordered, start as int, *doc, lv).html);
            assert(events_view(log@) =~= l0 + md_items(items@.take(0), ordered, start as int, *doc, lv).events);
            while i < items.len()
                invariant
                    i <= items.len(),
                    items@ == kids(*node, "items"@),
                    decreases_to!(*node => items@),
                    forall|j: int| 0 <= j < items.len() ==> kids_fine(#[trigger] items@[j], "children"@),
                    ordered == is_ordered(*node),
                    start == start_of(*node),
                    start_fine(*node),
                    lv == labels_view(labels@),
                    wrote(out@, log@, o0, l0, md_items(items@.take(i as int), ordered, start as int, *doc, lv)),
                decreases items.len() - i,
            {
                assert(decreases_to!(items@ => items@[i as int]));
                let mut marker: Vec<char> = Vec::new();
                if ordered {
                    let n: i64 = start + i as i64;
                    push_all(&mut marker, fmt_i64(n).as_slice());
                    push_str(&mut marker, ". ");
                } else {
                    push_str(&mut marker, "- ");
                }
                assert(marker@ =~= item_marker(ordered, start + (i + 1) - 1));
                write_item(&items[i], marker.as_slice(), doc, labels, out, log);
                proof {
                    let t = items@.take(i + 1);
                    assert(t.drop_last() =~= items@.take(i as int));
                    assert(t.last() == items@[i as int]);
                }
                i = i + 1;
                assert(out@ =~= o0 + md_items(items@.take(i as int), ordered, start as int, *doc, lv).html);
                assert(events_view(log@) =~= l0 + md_items(items@.take(i as int), ordered, start as int, *doc, lv).events);
            }
            assert(items@.take(items.len() as int) =~= items@);
        }
    }
    push_str(out, "\n");
    assert(out@ =~= o0 + md_list(*node, *doc, lv).html);
    assert(events_view(log@) =~= l0 + md_list(*node, *doc, lv).events);
}

#[verifier::rlimit(50)]
fn write_cell_text(cell: &Json, doc: &ExportDoc, labels: &Vec<(String, String)>, log: &mut Vec<LossEvent>) -> (r: Vec<char>)
    requires
        kids_fine(*cell, "children"@),
    ensures
        r@ == md_cell(*cell, *doc, labels_view(labels@)).html,
        events_view(final(log)@) == events_view(old(log)@) + md_cell(*cell, *doc, labels_view(labels@)).events,
    decreases *cell, 2nat,
{
    let ghost lv = labels_view(labels@);
    let ghost l0 = events_view(log@);
    let mut body: Vec<char> = Vec::new();
    if let Some(children) = cell.get_array("children") {
        if children.len() > 0 {
            proof {
                lemma_kids_inside(*cell, "children"@);
                lemma_blocks_fine(children@);
            }
            let mut i: usize = 0;
            assert(body@ =~= md_cell_body(children@.take(0), *doc, lv).html);
            assert(events_view(log@) =~= l0 + md_cell_body(children@.take(0), *doc, lv).events);
            while i < children.len()
                invariant
                    i <= children.len(),
                    children@ == kids(*cell, "children"@),
                    decreases_to!(*cell => children@),
                    forall|j: int| 0 <= j < children.len() ==> block_fine(#[trigger] children@[j]),
                    lv == labels_view(labels@),
                    wrote(body@, log@, Seq::empty(), l0, md_cell_body(children@.take(i as int), *doc, lv)),
                decreases children.len() - i,
            {
                assert(decreases_to!(children@ => children@[i as int]));
                let mut r: Vec<char> = Vec::new();
                write_block(&children[i], doc, labels, &mut r, log);
                assert(r@ =~= md_block(children@[i as int], *doc, lv).html);
                let tr = trim(r.as_slice());
                push_all(&mut body, tr.as_slice());
                proof {
                    let t = children@.take(i + 1);
                    assert(t.drop_last() =~= children@.take(i as int));
                    assert(t.last() == children@[i as int]);
                }
                i = i + 1;
                assert(body@ =~= Seq::<char>::empty() + md_cell_body(children@.take(i as int), *doc, lv).html);
                assert(events_view(log@) =~= l0 + md_cell_body(children@.take(i as int), *doc, lv).events);
            }
            assert(children@.take(children.len() as int) =~= children@);
        }
    }
    proof {
        reveal_strlit("\n");
        reveal_strlit(" ");
    }
    let nl = chars_of("\n");
    let sp = chars_of(" ");
    assert(nl@.len() > 0);
    let r = replace_chars(body.as_slice(), nl.as_slice(), sp.as_slice());
    assert(events_view(log@) =~= l0 + md_cell(*cell, *doc, lv).events);
    r
}

#[verifier::rlimit(50)]
fn write_row_texts(row: &Json, doc: &ExportDoc, labels: &Vec<(String, String)>, log: &mut Vec<LossEvent>) -> (r: Vec<Vec<char>>)
    requires
        row_fine(*row),
    ensures
        row_view(r@) == md_row(*row, *doc, labels_view(labels@)).0,
        events_view(final(log)@) == events_view(old(log)@) + md_row(*row, *doc, labels_view(labels@)).1,
    decreases *row, 1nat,
{
    let ghost lv = labels_view(labels@);
    let ghost l0 = events_view(log@);
    let mut texts: Vec<Vec<char>> = Vec::new();
    if let Some(cells) = row.get_array("cells") {
        if cells.len() > 0 {
            proof {
                lemma_kids_inside(*row, "cells"@);
                lemma_cells_fine(cells@);
            }
            let mut i: usize = 0;
            assert(row_view(texts@) =~= md_cells(cells@.take(0), *doc, lv).0);
            assert(events_view(log@) =~= l0 + md_cells(cells@.take(0), *doc, lv).1);
            while i < cells.len()
                invariant
                    i <= cells.len(),
                    cells@ == kids(*row, "cells"@),
                    decreases_to!(*row => cells@),
                    forall|j: int| 0 <= j < cells.len() ==> kids_fine(#[trigger] cells@[j], "children"@),
                    lv == labels_view(labels@),
                    row_view(texts@) == md_cells(cells@.take(i as int), *doc, lv).0,
                    events_view(log@) == l0 + md_cells(cells@.take(i as int), *doc, lv).1,
                decreases cells.len() - i,
            {
                assert(decreases_to!(cells@ => cells@[i as int]));
                let ghost before = row_view(texts@);
                let c = write_cell_text(&cells[i], doc, labels, log);
                texts.push(c);
                proof {
                    let t = cells@.take(i + 1);
                    assert(t.drop_last() =~= cells@.take(i as int));
                    assert(t.last() == cells@[i as int]);
                    assert(row_view(texts@) =~= before.push(c@));
                }
                i = i + 1;
                assert(events_view(log@) =~= l0 + md_cells(cells@.take(i as int), *doc, lv).1);
            }
            assert(cells@.take(cells.len() as int) =~= cells@);
            return texts;
        }
    }
    assert(row_view(texts@) =~= md_row(*row, *doc, lv).0);
    assert(events_view(log@) =~= l0 + md_row(*row, *doc, lv).1);
    texts
}

#[verifier::rlimit(80)]
fn write_table(node: &Json, doc: &ExportDoc, labels: &Vec<(String, String)>, out: &mut Vec<char>, log: &mut Vec<LossEvent>)
    requires
        str_or_empty(*node, "type"@) == "table"@,
        block_fine(*node),
    ensures
        wrote(final(out)@, final(log)@, old(out)@, events_view(old(log)@), md_table(*node, *doc, labels_view(labels@))),
    decreases *node, 1nat,
{
    let ghost lv = labels_view(labels@);
    let ghost o0 = out@;
    let ghost l0 = events_view(log@);
    proof { lemma_type_names(); }
    if table_has_spans(node) {
        log_record(log, LossClass::Partial, "merged_cell", "degraded", "table", "表格含合并单元格，GFM 表格按普通单元格展开");
    } else {
        log_none(log);
    }
    let ghost l1 = events_view(log@);
    assert(l1 == l0.push(table_event(*node)));
    let names = column_names_of(node);
    let mut texts: Vec<Vec<Vec<char>>> = Vec::new();
    if let Some(rows) = node.get_array("rows") {
        if rows.len() > 0 {
            proof {
                lemma_kids_inside(*node, "rows"@);
                lemma_rows_fine(rows@);
            }
            let mut i: usize = 0;
            assert(rows_view(texts@) =~= md_rows(rows@.take(0), *doc, lv).0);
            assert(events_view(log@) =~= l1 + md_rows(rows@.take(0), *doc, lv).1);
            while i < rows.len()
                invariant
                    i <= rows.len(),
                    rows@ == kids(*node, "rows"@),
                    decreases_to!(*node => rows@),
                    forall|j: int| 0 <= j < rows.len() ==> row_fine(#[trigger] rows@[j]),
                    lv == labels_view(labels@),
                    rows_view(texts@) == md_rows(rows@.take(i as int), *doc, lv).0,
                    events_view(log@) == l1 + md_rows(rows@.take(i as int), *doc, lv).1,
                decreases rows.len() - i,
            {
                assert(decreases_to!(rows@ => rows@[i as int]));
                let ghost before = rows_view(texts@);
                let r = write_row_texts(&rows[i], doc, labels, log);
                texts.push(r);
                proof {
                    let t = rows@.take(i + 1);
                    assert(t.drop_last() =~= rows@.take(i as int));
                    assert(t.last() == rows@[i as int]);
                    assert(rows_view(texts@) =~= before.push(row_view(r@)));
                }
                i = i + 1;
                assert(events_view(log@) =~= l1 + md_rows(rows@.take(i as int), *doc, lv).1);
            }
            assert(rows@.take(rows.len() as int) =~= rows@);
        }
    }
    let ghost tv = rows_view(texts@);
    assert(tv == (if kids(*node, "rows"@).len() > 0 { md_rows(kids(*node, "rows"@), *doc, lv).0 } else { Seq::empty() }));
    let header_row = match node.get("header_row") {
        Some(Json::Bool(b)) => *b,
        _ => false,
    };
    assert(header_row == (get(*node, "header_row"@) == Some(Json::Bool(true))));
    if header_row {
        if texts.len() > 0 {
            let differs = !all_empty_cells(&names) && !crate::text::seq_eq(
                concat_cells(&names).as_slice(),
                concat_cells(&texts[0]).as_slice(),
            );
            assert(tv[0] == row_view(texts@[0]@));
            if differs {
                let ghost nv = row_view(names@);
                texts.insert(0, names);
                assert(rows_view(texts@) =~= seq![nv] + tv);
            }
        }
    } else {
        let ghost nv = row_view(names@);
        texts.insert(0, names);
        assert(rows_view(texts@) =~= seq![nv] + tv);
    }
    assert(rows_view(texts@) == table_rows(*node, tv));
    write_table_text(out, &texts);
    assert(out@ =~= o0 + md_table(*node, *doc, lv).html);
    assert(events_view(log@) =~= l0 + md_table(*node, *doc, lv).events);
}

#[verifier::rlimit(50)]
fn write_callout(node: &Json, doc: &ExportDoc, labels: &Vec<(String, String)>, out: &mut Vec<char>, log: &mut Vec<LossEvent>)
    requires
        kids_fine(*node, "children"@),
    ensures
        wrote(final(out)@, final(log)@, old(out)@, events_view(old(log)@), md_callout(*node, *doc, labels_view(labels@))),
    decreases *node, 1nat,
{
    let ghost lv = labels_view(labels@);
    let ghost o0 = out@;
    let ghost l0 = events_view(log@);
    let variant = match node.get_str("variant") {
        Some(v) => v,
        None => "note",
    };
    let tag = if str_eq(variant, "tip") {
        "TIP"
    } else if str_eq(variant, "important") {
        "IMPORTANT"
    } else if str_eq(variant, "warning") {
        "WARNING"
    } else {
        "NOTE"
    };
    assert(tag@ == callout_tag(*node));
    log_none(log);
    let mut inner: Vec<char> = Vec::new();
    write_kids(node, "children", doc, labels, &mut inner, log);
    assert(inner@ =~= md_kids(*node, "children"@, *doc, lv).html);
    push_str(out, "> [!");
    push_str(out, tag);
    push_str(out, "]\n");
    push_quoted(out, inner.as_slice());
    push_str(out, "\n");
    assert(out@ =~= o0 + md_callout(*node, *doc, lv).html);
    assert(events_view(log@) =~= l0 + md_callout(*node, *doc, lv).events);
}

#[verifier::rlimit(50)]
fn write_fallback(node: &Json, t: &str, doc: &ExportDoc, labels: &Vec<(String, String)>, out: &mut Vec<char>, log: &mut Vec<LossEvent>)
    requires
        kids_fine(*node, "children"@),
        kids_fine(*node, "items"@),
    ensures
        wrote(final(out)@, final(log)@, old(out)@, events_view(old(log)@), md_fallback(*node, t@, *doc, labels_view(labels@))),
    decreases *node, 1nat,
{
    let ghost lv = labels_view(labels@);
    let ghost o0 = out@;
    let ghost l0 = events_view(log@);
    log_record(log, LossClass::Partial, "md_export_fallback", "degraded", t, "未知块类型按子内容降级导出");
    write_kids(node, "children", doc, labels, out, log);
    write_kids(node, "items", doc, labels, out, log);
    assert(out@ =~= o0 + md_fallback(*node, t@, *doc, lv).html);
    assert(events_view(log@) =~= l0 + md_fallback(*node, t@, *doc, lv).events);
}

#[verifier::rlimit(80)]
fn write_block(node: &Json, doc: &ExportDoc, labels: &Vec<(String, String)>, out: &mut Vec<char>, log: &mut Vec<LossEvent>)
    requires
        block_fine(*node),
    ensures
        wrote(final(out)@, final(log)@, old(out)@, events_view(old(log)@), md_block(*node, *doc, labels_view(labels@))),
    decreases *node, 3nat,
{
    let ghost lv = labels_view(labels@);
    let ghost o0 = out@;
    let ghost l0 = events_view(log@);
    let t = str_member(node, "type");
    proof { lemma_type_names(); }
    if str_eq(t, "section") {
        write_kids(node, "children", doc, labels, out, log);
    } else if str_eq(t, "heading") {
        write_heading(node, doc, labels, out, log);
    } else if str_eq(t, "paragraph") {
        write_paragraph(node, doc, labels, out, log);
    } else if str_eq(t, "quote") {
        let mut inner: Vec<char> = Vec::new();
        write_kids(node, "children", doc, labels, &mut inner, log);
        assert(inner@ =~= md_kids(*node, "children"@, *doc, lv).html);
        push_quoted(out, inner.as_slice());
        push_str(out, "\n");
        assert(out@ =~= o0 + md_block(*node, *doc, lv).html);
    } else if str_eq(t, "list") {
        write_list(node, doc, labels, out, log);
    } else if str_eq(t, "table") {
        write_table(node, doc, labels, out, log);
    } else if str_eq(t, "figure") {
        write_figure(node, doc, labels, out, log);
    } else if str_eq(t, "callout") {
        write_callout(node, doc, labels, out, log);
    } else if str_eq(t, "code_block") || str_eq(t, "image") || str_eq(t, "horizontal_rule") || str_eq(t, "math_block")
        || str_eq(t, "footnote") || str_eq(t, "embed") || str_eq(t, "unknown") {
        write_atom_block(node, t, doc, out, log);
    } else {
        write_fallback(node, t, doc, labels, out, log);
    }
}

// ------------------------------------------------------------------ the document

/// Footnote definitions as plain values.
pub open spec fn defs_view(d: Seq<(String, &Json)>) -> Seq<(Seq<char>, Json)> {
    d.map_values(|p: (String, &Json)| (p.0@, *p.1))
}

/// The scan state that the vectors hold.
pub open spec fn scan_of(labels: Seq<(String, String)>, defs: Seq<(String, &Json)>, auto: u64) -> NoteScan {
    NoteScan { labels: labels_view(labels), defs: defs_view(defs), auto: auto as nat }
}

fn scan_notes<'a>(v: &'a Json, labels: &mut Vec<(String, String)>, defs: &mut Vec<(String, &'a Json)>, auto: &mut u64)
    requires
        *old(auto) <= old(defs)@.len(),
    ensures
        scan_of(final(labels)@, final(defs)@, *final(auto)) == scan_note(*v, scan_of(old(labels)@, old(defs)@, *old(auto))),
        *final(auto) <= final(defs)@.len(),
    decreases *v, 1nat, 0nat,
{
    let ghost st0 = scan_of(labels@, defs@, *auto);
    if let Some(id) = footnote_id(v) {
        match v.get_str("label") {
            Some(l) => {
                labels.push((id.to_owned(), l.to_owned()));
                defs.push((l.to_owned(), v));
                assert(labels_view(labels@) =~= st0.labels.push((id@, l@)));
                assert(defs_view(defs@) =~= st0.defs.push((l@, *v)));
            },
            None => {
                defs.push((String::new(), v));
                let n = defs.len();
                let a: u64 = *auto + 1;
                *auto = a;
                let label = string_of(fmt_u64(a).as_slice());
                let label2 = string_of(fmt_u64(a).as_slice());
                defs.set(n - 1, (label, v));
                labels.push((id.to_owned(), label2));
                assert(labels_view(labels@) =~= st0.labels.push((id@, dec(a as nat))));
                assert(defs_view(defs@) =~= st0.defs.push((dec(a as nat), *v)));
            },
        }
    }
    let ghost st1 = scan_of(labels@, defs@, *auto);
    assert(st1 == (if is_footnote(*v) {
        let la = note_label(*v, st0.auto);
        NoteScan { labels: st0.labels.push((str_of(get(*v, "id"@)).unwrap(), la.0)), defs: st0.defs.push((la.0, *v)), auto: la.1 }
    } else {
        st0
    }));
    let keys = fn_key_names();
    let mut k: usize = 0;
    assert(fn_keys().take(0) =~= Seq::<Seq<char>>::empty());
    while k < keys.len()
        invariant
            k <= keys.len(),
            keys@.map_values(|s: &str| s@) == fn_keys(),
            scan_of(labels@, defs@, *auto) == scan_keys(*v, fn_keys().take(k as int), st1),
            *auto <= defs@.len(),
        decreases keys.len() - k,
    {
        let key = keys[k];
        assert(fn_keys()[k as int] == key@);
        let ghost sk = scan_of(labels@, defs@, *auto);
        assert(fn_keys().take(k + 1).drop_last() =~= fn_keys().take(k as int));
        if let Some(items) = v.get_array(key) {
            if items.len() > 0 {
                proof { lemma_kids_inside(*v, key@); }
                let mut i: usize = 0;
                while i < items.len()
                    invariant
                        i <= items.len(),
                        items@ == kids(*v, key@),
                        decreases_to!(*v => items@),
                        scan_of(labels@, defs@, *auto) == scan_seq(items@.take(i as int), sk),
                        *auto <= defs@.len(),
                    decreases items.len() - i,
                {
                    assert(decreases_to!(items@ => items@[i as int]));
                    scan_notes(&items[i], labels, defs, auto);
                    proof {
                        let t = items@.take(i + 1);
                        assert(t.drop_last() =~= items@.take(i as int));
                    }
                    i = i + 1;
                }
                assert(items@.take(items.len() as int) =~= items@);
            }
        }
        k = k + 1;
    }
    assert(fn_keys().take(6) =~= fn_keys());
}

fn write_note_body(def: &Json, doc: &ExportDoc, labels: &Vec<(String, String)>, out: &mut Vec<char>, log: &mut Vec<LossEvent>)
    requires
        blocks_fine(kids(*def, "children"@)),
    ensures
        wrote(final(out)@, final(log)@, old(out)@, events_view(old(log)@), note_body(kids(*def, "children"@), *doc, labels_view(labels@))),
{
    let ghost lv = labels_view(labels@);
    let ghost o0 = out@;
    let ghost l0 = events_view(log@);
    if let Some(children) = def.get_array("children") {
        proof { lemma_blocks_fine(children@); }
        let mut i: usize = 0;
        assert(out@ =~= o0 + note_body(children@.take(0), *doc, lv).html);
        assert(events_view(log@) =~= l0 + note_body(children@.take(0), *doc, lv).events);
        while i < children.len()
            invariant
                i <= children.len(),
                children@ == kids(*def, "children"@),
                forall|j: int| 0 <= j < children.len() ==> block_fine(#[trigger] children@[j]),
                lv == labels_view(labels@),
                wrote(out@, log@, o0, l0, note_body(children@.take(i as int), *doc, lv)),
            decreases children.len() - i,
        {
            let mut r: Vec<char> = Vec::new();
            write_block(&children[i], doc, labels, &mut r, log);
            assert(r@ =~= md_block(children@[i as int], *doc, lv).html);
            let te = trim_end(r.as_slice());
            if i > 0 {
                out.push(' ');
            }
            push_all(out, te.as_slice());
            proof {
                let t = children@.take(i + 1);
                assert(t.drop_last() =~= children@.take(i as int));
                assert(t.last() == children@[i as int]);
                reveal_strlit(" ");
            }
            i = i + 1;
            assert(out@ =~= o0 + note_body(children@.take(i as int), *doc, lv).html);
            assert(events_view(log@) =~= l0 + note_body(children@.take(i as int), *doc, lv).events);
        }
        assert(children@.take(children.len() as int) =~= children@);
    } else {
        assert(out@ =~= o0 + note_body(kids(*def, "children"@), *doc, lv).html);
        assert(events_view(log@) =~= l0 + note_body(kids(*def, "children"@), *doc, lv).events);
    }
}

/// Exports a document as GitHub-flavoured Markdown: the blocks of its
/// `content` member, then a definition line for each footnote found under
/// them (labelled by its `label`, or numbered in document order). The loss
/// events of the rendering are appended to `log`.
pub fn export_markdown(doc: &ExportDoc, log: &mut Vec<LossEvent>) -> (r: String)
    requires
        md_exportable(*doc),
    ensures
        r@ == md_document(*doc).html,
        events_view(final(log)@) == events_view(old(log)@) + md_document(*doc).events,
{
    let ghost l0 = events_view(log@);
    let mut labels: Vec<(String, String)> = Vec::new();
    let mut defs: Vec<(String, &Json)> = Vec::new();
    let mut auto: u64 = 0;
    let top = doc.content.get_array("content");
    let ghost tops = kids(doc.content, "content"@);
    if let Some(arr) = top {
        let mut i: usize = 0;
        assert(labels_view(labels@) =~= Seq::<(Seq<char>, Seq<char>)>::empty());
        assert(defs_view(defs@) =~= Seq::<(Seq<char>, Json)>::empty());
        assert(scan_of(labels@, defs@, auto) == scan_seq(arr@.take(0), no_notes()));
        while i < arr.len()
            invariant
                i <= arr.len(),
                arr@ == tops,
                scan_of(labels@, defs@, auto) == scan_seq(arr@.take(i as int), no_notes()),
                auto <= defs@.len(),
            decreases arr.len() - i,
        {
            scan_notes(&arr[i], &mut labels, &mut defs, &mut auto);
            proof {
                let t = arr@.take(i + 1);
                assert(t.drop_last() =~= arr@.take(i as int));
            }
            i = i + 1;
        }
        assert(arr@.take(arr.len() as int) =~= arr@);
    } else {
        assert(labels_view(labels@) =~= Seq::<(Seq<char>, Seq<char>)>::empty());
        assert(defs_view(defs@) =~= Seq::<(Seq<char>, Json)>::empty());
        assert(scan_of(labels@, defs@, auto) == scan_seq(tops, no_notes()));
    }
    let ghost st = doc_notes(*doc);
    assert(scan_of(labels@, defs@, auto) == st);
    let ghost lv = labels_view(labels@);
    let mut out: Vec<char> = Vec::new();
    if let Some(arr) = top {
        proof { lemma_blocks_fine(arr@); }
        let mut i: usize = 0;
        assert(out@ =~= md_blocks(arr@.take(0), *doc, lv).html);
        assert(events_view(log@) =~= l0 + md_blocks(arr@.take(0), *doc, lv).events);
        while i < arr.len()
            invariant
                i <= arr.len(),
                arr@ == tops,
                forall|j: int| 0 <= j < arr.len() ==> block_fine(#[trigger] arr@[j]),
                lv == labels_view(labels@),
                wrote(out@, log@, Seq::empty(), l0, md_blocks(arr@.take(i as int), *doc, lv)),
            decreases arr.len() - i,
        {
            write_block(&arr[i], doc, &labels, &mut out, log);
            proof {
                let t = arr@.take(i + 1);
                assert(t.drop_last() =~= arr@.take(i as int));
            }
            i = i + 1;
            assert(out@ =~= Seq::<char>::empty() + md_blocks(arr@.take(i as int), *doc, lv).html);
            assert(events_view(log@) =~= l0 + md_blocks(arr@.take(i as int), *doc, lv).events);
        }
        assert(arr@.take(arr.len() as int) =~= arr@);
    }
    let ghost body = md_blocks(tops, *doc, lv);
    assert(out@ =~= body.html);
    assert(events_view(log@) =~= l0 + body.events);
    let ghost dv = defs_view(defs@);
    let mut k: usize = 0;
    assert(dv.take(0) =~= Seq::<(Seq<char>, Json)>::empty());
    while k < defs.len()
        invariant
            k <= defs.len(),
            dv == defs_view(defs@),
            dv == st.defs,
            md_exportable(*doc),
            st == doc_notes(*doc),
            lv == labels_view(labels@),
            wrote(out@, log@, body.html, l0 + body.events, note_lines(dv.take(k as int), *doc, lv)),
        decreases defs.len() - k,
    {
        assert(dv[k as int].1 == *defs@[k as int].1);
        assert(blocks_fine(kids(st.defs[k as int].1, "children"@)));
        push_str(&mut out, "[^");
        push_str(&mut out, defs[k].0.as_str());
        push_str(&mut out, "]: ");
        write_note_body(defs[k].1, doc, &labels, &mut out, log);
        push_str(&mut out, "\n");
        proof {
            let t = dv.take(k + 1);
            assert(t.drop_last() =~= dv.take(k as int));
            assert(t.last() == dv[k as int]);
        }
        k = k + 1;
        assert(out@ =~= body.html + note_lines(dv.take(k as int), *doc, lv).html);
        assert(events_view(log@) =~= l0 + body.events + note_lines(dv.take(k as int), *doc, lv).events);
    }
    assert(dv.take(defs.len() as int) =~= dv);
    assert(events_view(log@) =~= events_view(old(log)@) + md_document(*doc).events);
    string_of(out.as_slice())
}

} // verus!

verus! {

/// A callout is exported as a GitHub alert whose first line names its
/// variant: `tip` gives `> [!TIP]`, `important` gives `> [!IMPORTANT]`,
/// `warning` gives `> [!WARNING]`, and any other or missing variant gives
/// `> [!NOTE]`; so the known variants get distinct markers.
pub proof fn law_callout_alert_marker(node: Json, doc: ExportDoc, labels: Seq<(Seq<char>, Seq<char>)>)
    requires
        str_of(get(node, "type"@)) == Some("callout"@),
    ensures
        ({
            let out = md_block(node, doc, labels).html;
            let v = str_of(get(node, "variant"@));
            &&& v == Some("tip"@) ==> crate::text::has_prefix(out, "> [!TIP]\n"@)
            &&& v == Some("important"@) ==> crate::text::has_prefix(out, "> [!IMPORTANT]\n"@)
            &&& v == Some("warning"@) ==> crate::text::has_prefix(out, "> [!WARNING]\n"@)
            &&& !(v == Some("tip"@) || v == Some("important"@) || v == Some("warning"@))
                ==> crate::text::has_prefix(out, "> [!NOTE]\n"@)
        }),
{
    lemma_type_names();
    reveal_strlit("> [!");
    reveal_strlit("]\n");
    reveal_strlit("TIP");
    reveal_strlit("IMPORTANT");
    reveal_strlit("WARNING");
    reveal_strlit("NOTE");
    reveal_strlit("> [!TIP]\n");
    reveal_strlit("> [!IMPORTANT]\n");
    reveal_strlit("> [!WARNING]\n");
    reveal_strlit("> [!NOTE]\n");
    reveal_strlit("tip");
    reveal_strlit("important");
    reveal_strlit("warning");
    reveal_strlit("note");
    assert("tip"@.len() == 3 && "important"@.len() == 9 && "warning"@.len() == 7 && "note"@.len() == 4);
    assert("tip"@ != "important"@ && "tip"@ != "warning"@ && "important"@ != "warning"@);
    let out = md_block(node, doc, labels).html;
    assert(out == md_callout(node, doc, labels).html);
    let tag = callout_tag(node);
    let head = "> [!"@ + tag + "]\n"@;
    let inner = md_kids(node, "children"@, doc, labels);
    assert(out == head + (quoted(text_lines(inner.html)) + "\n"@));
    assert(out.take(head.len() as int) =~= head);
    let v = str_of(get(node, "variant"@));
    if v == Some("tip"@) {
        assert(head =~= "> [!TIP]\n"@);
        assert(crate::text::has_prefix(out, "> [!TIP]\n"@));
    } else if v == Some("important"@) {
        assert(head =~= "> [!IMPORTANT]\n"@);
        assert(crate::text::has_prefix(out, "> [!IMPORTANT]\n"@));
    } else if v == Some("warning"@) {
        assert(head =~= "> [!WARNING]\n"@);
        assert(crate::text::has_prefix(out, "> [!WARNING]\n"@));
    } else {
        let vv = match v {
            Some(x) => x,
            None => "note"@,
        };
        if v is None {
            assert("note"@.len() == 4);
            assert("tip"@.len() == 3);
            assert(vv != "tip"@);
            assert(vv != "important"@);
            assert(vv != "warning"@);
        } else {
            assert(vv != "tip"@);
            assert(vv != "important"@);
            assert(vv != "warning"@);
        }
        assert(tag == "NOTE"@);
        assert(head =~= "> [!NOTE]\n"@);
        assert(crate::text::has_prefix(out, "> [!NOTE]\n"@));
    }
}

/// A heading of level `n` (one when the level is missing) starts with
/// exactly `n` `#` marks followed by a space.
pub proof fn law_heading_marks(node: Json, doc: ExportDoc, labels: Seq<(Seq<char>, Seq<char>)>, n: int)
    requires
        str_of(get(node, "type"@)) == Some("heading"@),
        i64_of(get(node, "level"@)) == Some(n) || (i64_of(get(node, "level"@)) is None && n == 1),
        n >= 0,
    ensures
        ({
            let out = md_block(node, doc, labels).html;
            &&& out.len() > n
            &&& forall|k: int| 0 <= k < n ==> #[trigger] out[k] == '#'
            &&& out[n] == ' '
        }),
{
    lemma_type_names();
    reveal_strlit(" ");
    let out = md_block(node, doc, labels).html;
    let inner = md_inline_of(node, "content"@, doc, labels);
    assert(out == crate::md::export::repeat('#', n as nat) + " "@ + inner.html + "\n\n"@);
    assert(out[n] == ' ');
}

/// A horizontal rule is the thematic break `---` on a line of its own,
/// followed by a blank line.
pub proof fn law_rule_is_thematic_break(node: Json, doc: ExportDoc, labels: Seq<(Seq<char>, Seq<char>)>)
    requires
        str_of(get(node, "type"@)) == Some("horizontal_rule"@),
    ensures
        md_block(node, doc, labels).html == "---\n\n"@,
{
    lemma_type_names();
    reveal(md_atom_block);
    reveal_strlit("horizontal_rule");
    reveal_strlit("code_block");
    reveal_strlit("image");
    assert("horizontal_rule"@.len() == 15 && "code_block"@.len() == 10 && "image"@.len() == 5);
}

/// The items of a list begin with the first item, under the first number.
proof fn lemma_items_begin_with_first(
    items: Seq<Json>,
    ordered: bool,
    start: int,
    doc: ExportDoc,
    labels: Seq<(Seq<char>, Seq<char>)>,
)
    requires
        items.len() >= 1,
    ensures
        crate::text::has_prefix(
            md_items(items, ordered, start, doc, labels).html,
            md_item(items[0], item_marker(ordered, start), doc, labels).html,
        ),
    decreases items.len(),
{
    let first = md_item(items[0], item_marker(ordered, start), doc, labels).html;
    let whole = md_items(items, ordered, start, doc, labels).html;
    if items.len() == 1 {
        let none = md_items(items.drop_last(), ordered, start, doc, labels);
        assert(items.drop_last().len() == 0);
        assert(none.html == Seq::<char>::empty());
        assert(items.last() == items[0]);
        assert(start + items.len() - 1 == start);
        assert(whole == none.html + first);
        assert(whole =~= first);
        assert(whole.take(first.len() as int) =~= first);
    } else {
        let front = items.drop_last();
        lemma_items_begin_with_first(front, ordered, start, doc, labels);
        assert(front[0] == items[0]);
        let fh = md_items(front, ordered, start, doc, labels).html;
        assert(whole == fh + md_item(items.last(), item_marker(ordered, start + items.len() - 1), doc, labels).html);
        assert(first.len() <= fh.len());
        assert(fh.take(first.len() as int) == first);
        assert(whole.take(first.len() as int) =~= fh.take(first.len() as int));
        assert(whole.take(first.len() as int) == first);
    }
}

/// A list whose first item opens with a paragraph begins with that item's
/// marker: `- ` in a bulleted list, the start number (one when missing)
/// with `. ` in a numbered one; then `[x] ` for a checked task, `[ ] ` for
/// an unchecked one.
pub proof fn law_list_markers(node: Json, doc: ExportDoc, labels: Seq<(Seq<char>, Seq<char>)>)
    requires
        str_of(get(node, "type"@)) == Some("list"@),
        kids(node, "items"@).len() > 0,
        kids(kids(node, "items"@)[0], "children"@).len() > 0,
        str_of(get(kids(kids(node, "items"@)[0], "children"@)[0], "type"@)) == Some("paragraph"@),
    ensures
        ({
            let out = md_block(node, doc, labels).html;
            let item = kids(node, "items"@)[0];
            let marker = if str_of(get(node, "style"@)) == Some("ordered"@) {
                dec_int(match i64_of(get(node, "start"@)) {
                    Some(s) => s as int,
                    None => 1,
                }) + seq!['.', ' ']
            } else {
                seq!['-', ' ']
            };
            let check = match get(item, "checked"@) {
                Some(Json::Bool(true)) => seq!['[', 'x', ']', ' '],
                Some(Json::Bool(false)) => seq!['[', ' ', ']', ' '],
                _ => Seq::<char>::empty(),
            };
            crate::text::has_prefix(out, marker + check)
        }),
{
    lemma_type_names();
    reveal_strlit(". ");
    reveal_strlit("- ");
    reveal_strlit("[x] ");
    reveal_strlit("[ ] ");
    reveal_strlit("paragraph");
    let items = kids(node, "items"@);
    lemma_kids_inside(node, "items"@);
    let ordered = is_ordered(node);
    let start = start_of(node);
    let item = items[0];
    let m = item_marker(ordered, start);
    let lead = m + item_check(item);
    let k = kids(item, "children"@);
    lemma_kids_inside(item, "children"@);
    assert(is_paragraph(k[0]));
    let r = md_items(items, ordered, start, doc, labels);
    let out = md_block(node, doc, labels).html;
    assert(out == md_list(node, doc, labels).html);
    assert(out == r.html + "\n"@);
    lemma_items_begin_with_first(items, ordered, start, doc, labels);
    let ih = md_item(item, m, doc, labels).html;
    let tail = item_tail(k, repeat(' ', lead.len()), doc, labels);
    assert(ih == item_head(k, lead, doc, labels) + tail.html);
    let head = item_head(k, lead, doc, labels);
    assert(head == lead + trim_start_seq(chomp(md_block(k[0], doc, labels).html)) + "\n"@);
    assert(ih.take(lead.len() as int) =~= lead);
    assert(r.html.take(ih.len() as int) == ih);
    assert(out.take(lead.len() as int) =~= lead);
    assert(crate::text::has_prefix(out, lead));
    assert(". "@ =~= seq!['.', ' ']);
    assert("- "@ =~= seq!['-', ' ']);
    assert("[x] "@ =~= seq!['[', 'x', ']', ' ']);
    assert("[ ] "@ =~= seq!['[', ' ', ']', ' ']);
}

/// A code block is fenced: a fence of at least three backticks, longer than
/// any run of backticks in the code, opens a line with the language, the
/// code follows and ends its line, and the same fence closes it before a
/// blank line. A math block is its LaTeX between `$$` marks.
pub proof fn law_fenced_code_and_math(node: Json, doc: ExportDoc, labels: Seq<(Seq<char>, Seq<char>)>)
    ensures
        str_of(get(node, "type"@)) == Some("code_block"@) ==> exists|f: Seq<char>|
            #![trigger f.len()]
            {
                let code = str_or_empty(node, "text"@);
                let body = if code.len() > 0 && code.last() == '\n' { code } else { code.push('\n') };
                &&& f.len() >= 3
                &&& f.len() > tick_run(code)
                &&& (forall|k: int| 0 <= k < f.len() ==> #[trigger] f[k] == '`')
                &&& md_block(node, doc, labels).html == f + str_or_empty(node, "language"@) + seq!['\n'] + body + f
                    + seq!['\n', '\n']
            },
        str_of(get(node, "type"@)) == Some("math_block"@) ==> md_block(node, doc, labels).html == seq!['$', '$']
            + str_or_empty(node, "latex"@) + seq!['$', '$', '\n', '\n'],
{
    lemma_type_names();
    reveal(md_atom_block);
    reveal_strlit("code_block");
    reveal_strlit("image");
    reveal_strlit("horizontal_rule");
    reveal_strlit("math_block");
    reveal_strlit("\n");
    reveal_strlit("\n\n");
    reveal_strlit("$$");
    reveal_strlit("$$\n\n");
    assert("horizontal_rule"@.len() == 15 && "code_block"@.len() == 10 && "image"@.len() == 5);
    assert("math_block"@.len() == 10 && "math_block"@[0] != "code_block"@[0]);
    if str_of(get(node, "type"@)) == Some("code_block"@) {
        let code = str_or_empty(node, "text"@);
        let f = fence(code);
        let body = if code.len() > 0 && code.last() == '\n' { code } else { code.push('\n') };
        assert(has_suffix(code, "\n"@) == (code.len() > 0 && code.last() == '\n')) by {
            reveal_strlit("\n");
            assert("\n"@ =~= seq!['\n']);
            if code.len() > 0 {
                let tail = code.skip(code.len() - 1);
                assert(tail =~= seq![code.last()]);
                if has_suffix(code, "\n"@) {
                    assert(tail == "\n"@);
                    assert(tail[0] == '\n');
                }
                if code.last() == '\n' {
                    assert(tail =~= "\n"@);
                }
            }
        }
        assert((if has_suffix(code, "\n"@) { code } else { code + "\n"@ }) =~= body);
        assert(md_block(node, doc, labels).html =~= f + str_or_empty(node, "language"@) + seq!['\n'] + body + f
            + seq!['\n', '\n']);
    }
    if str_of(get(node, "type"@)) == Some("math_block"@) {
        assert(md_block(node, doc, labels).html =~= seq!['$', '$'] + str_or_empty(node, "latex"@) + seq![
            '$',
            '$',
            '\n',
            '\n',
        ]);
    }
}

} // verus!
