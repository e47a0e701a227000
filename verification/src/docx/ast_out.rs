//! Prima content → the Pandoc JSON AST that the DOCX writer reads, with the
//! loss events of the mapping. Assets are referred to by the file their
//! bytes were written to (external assets by their URL).
//!
//! Footnote references produce nothing: the definition table is filled from
//! the `content` member itself, which is an array and so holds no footnote.

use vstd::prelude::*;
use crate::convert::{
    events_view, find_pair, log_none, log_record, lookup, record, str_member, str_or_empty, AssetMeta, ExportDoc,
    LossEvent, LossEventView,
};
use crate::html::export::{int_member_or_one, int_or_one};
use crate::json::{
    append_items, get, i64_of, jint, jstr, jv, jv_items, jv_members, kids, lemma_jv_items_index, lemma_jv_items_len,
    lemma_kids_inside, push_item,
    push_member,
    int_v, str_of, Json, JsonNumber, JsonV,
};
use crate::md::blocks::{heading_level, is_ordered, start_of};
use crate::ooxml::document::LossClass;
use crate::text::{chars_of, first_index, has_prefix, lemma_first_index, slice_vec, str_eq, string_of};

verus! {

// ------------------------------------------------------------------ Pandoc values

/// A constructor without contents: `{"t": t}`.
pub open spec fn tnode(t: Seq<char>) -> JsonV {
    JsonV::Object(seq![("t"@, JsonV::Str(t))])
}

/// A constructor with contents: `{"t": t, "c": c}`.
pub open spec fn tcnode(t: Seq<char>, c: JsonV) -> JsonV {
    JsonV::Object(seq![("t"@, JsonV::Str(t)), ("c"@, c)])
}

/// An array.
pub open spec fn arr(s: Seq<JsonV>) -> JsonV {
    JsonV::Array(s)
}

/// A string.
pub open spec fn sv(s: Seq<char>) -> JsonV {
    JsonV::Str(s)
}

/// The empty attribute triple `["", [], []]`.
pub open spec fn attrs_v() -> JsonV {
    arr(seq![sv(Seq::empty()), arr(Seq::empty()), arr(Seq::empty())])
}

/// A `Str` inline.
pub open spec fn str_inline(s: Seq<char>) -> JsonV {
    tcnode("Str"@, sv(s))
}

/// Pandoc nodes and the loss events of producing them, in order.
pub struct Built {
    pub nodes: Seq<JsonV>,
    pub events: Seq<LossEventView>,
}

/// One result after the other.
pub open spec fn both(a: Built, b: Built) -> Built {
    Built { nodes: a.nodes + b.nodes, events: a.events + b.events }
}

/// No nodes, no events.
pub open spec fn nothing() -> Built {
    Built { nodes: Seq::empty(), events: Seq::empty() }
}

/// One node with one lossless event.
pub open spec fn one_lossless(n: JsonV) -> Built {
    Built { nodes: seq![n], events: seq![LossEventView::NodeNone] }
}

// ------------------------------------------------------------------ assets

/// The asset id of an `asset://` reference: the segment after the scheme.
pub open spec fn asset_id_of(field: Seq<char>) -> Seq<char> {
    if has_prefix(field, "asset://"@) {
        let rest = field.skip(8);
        let i = first_index(rest, '/');
        if i < 0 {
            rest
        } else {
            rest.take(i)
        }
    } else {
        Seq::empty()
    }
}

/// An optional text, or empty.
pub open spec fn text_or_empty(o: Option<String>) -> Seq<char> {
    match o {
        Some(s) => s@,
        None => Seq::empty(),
    }
}

/// The path of the first asset with id `id`: its URL when external, else
/// the file its bytes went to, else its URL; the reference itself when no
/// asset has the id.
pub open spec fn resolve_in(assets: Seq<AssetMeta>, id: Seq<char>, field: Seq<char>) -> Seq<char>
    decreases assets.len(),
{
    if assets.len() == 0 {
        field
    } else if assets[0].id@ == id {
        let a = assets[0];
        if a.storage@ == "external"@ {
            text_or_empty(a.url)
        } else {
            match a.file {
                Some(p) => p@,
                None => text_or_empty(a.url),
            }
        }
    } else {
        resolve_in(assets.drop_first(), id, field)
    }
}

/// The path Pandoc reads an asset reference from.
pub open spec fn asset_path(doc: ExportDoc, field: Seq<char>) -> Seq<char> {
    resolve_in(doc.assets@, asset_id_of(field), field)
}

/// The number of bytes of a character in UTF-8 (`char::len_utf8`).
pub open spec fn utf8_width(c: char) -> nat {
    if (c as u32) < 0x80 {
        1
    } else if (c as u32) < 0x800 {
        2
    } else if (c as u32) < 0x10000 {
        3
    } else {
        4
    }
}

/// The number of bytes of a text in UTF-8.
pub open spec fn utf8_len(s: Seq<char>) -> nat
    decreases s.len(),
{
    if s.len() == 0 {
        0
    } else {
        utf8_len(s.drop_last()) + utf8_width(s.last())
    }
}

/// The longest end of `s` that takes at most `n` bytes in UTF-8.
pub open spec fn utf8_tail(s: Seq<char>, n: nat) -> Seq<char>
    decreases s.len(),
{
    if s.len() == 0 {
        Seq::empty()
    } else if utf8_width(s.last()) <= n {
        utf8_tail(s.drop_last(), (n - utf8_width(s.last())) as nat).push(s.last())
    } else {
        Seq::empty()
    }
}

/// Whether the last six bytes of an id start on a character boundary (or
/// the id is at most six bytes long), so that they can be cut out.
pub open spec fn tail_cuttable(id: Seq<char>) -> bool {
    utf8_len(id) <= 6 || utf8_len(utf8_tail(id, 6)) == 6
}

/// The file name an embedded asset is written under: the last six bytes of
/// its id, `_`, its file name.
pub open spec fn asset_file_name_spec(id: Seq<char>, filename: Seq<char>) -> Seq<char> {
    utf8_tail(id, 6) + "_"@ + filename
}

fn char_width(c: char) -> (r: usize)
    ensures
        r == utf8_width(c),
{
    let v = c as u32;
    if v < 0x80 {
        1
    } else if v < 0x800 {
        2
    } else if v < 0x10000 {
        3
    } else {
        4
    }
}

/// The file name an embedded asset is written under. The cut is made in
/// bytes, so the last six bytes of the id must begin a character.
pub fn asset_file_name(id: &str, filename: &str) -> (r: String)
    requires
        tail_cuttable(id@),
    ensures
        r@ == asset_file_name_spec(id@, filename@),
{
    let v = chars_of(id);
    let mut i: usize = v.len();
    let mut room: usize = 6;
    assert(v@.take(i as int) =~= v@);
    assert(v@.skip(i as int) =~= Seq::<char>::empty());
    while i > 0
        invariant_except_break
            i <= v.len(),
            room <= 6,
            utf8_tail(v@, 6) == utf8_tail(v@.take(i as int), room as nat) + v@.skip(i as int),
        ensures
            i <= v.len(),
            utf8_tail(v@, 6) == v@.skip(i as int),
        decreases i,
    {
        let w = char_width(v[i - 1]);
        let ghost t = v@.take(i as int);
        assert(t.drop_last() =~= v@.take(i - 1));
        assert(t.last() == v@[i - 1]);
        if w > room {
            assert(utf8_tail(t, room as nat) =~= Seq::<char>::empty());
            assert(utf8_tail(v@, 6) =~= v@.skip(i as int));
            break;
        }
        assert(v@.skip(i as int).insert(0, v@[i - 1]) =~= v@.skip(i - 1));
        assert(utf8_tail(t.drop_last(), (room - w) as nat).push(t.last()) + v@.skip(i as int)
            =~= utf8_tail(t.drop_last(), (room - w) as nat) + v@.skip(i - 1));
        room = room - w;
        i = i - 1;
    }
    let mut out = slice_vec(v.as_slice(), i, v.len());
    assert(out@ =~= v@.skip(i as int));
    out.push('_');
    crate::text::push_str(&mut out, filename);
    proof { reveal_strlit("_"); }
    assert(out@ =~= asset_file_name_spec(id@, filename@));
    string_of(out.as_slice())
}

fn asset_id(field: &str) -> (r: Vec<char>)
    ensures
        r@ == asset_id_of(field@),
{
    let f = chars_of(field);
    let scheme = chars_of("asset://");
    proof { reveal_strlit("asset://"); }
    assert(scheme@.len() == 8);
    if crate::text::starts_with(f.as_slice(), scheme.as_slice()) {
        let rest = slice_vec(f.as_slice(), 8, f.len());
        assert(rest@ =~= f@.skip(8));
        proof { lemma_first_index(rest@, '/'); }
        match crate::text::first_of(rest.as_slice(), '/') {
            Some(i) => {
                let r = slice_vec(rest.as_slice(), 0, i);
                assert(r@ =~= rest@.take(i as int));
                r
            },
            None => rest,
        }
    } else {
        Vec::new()
    }
}

fn opt_text(o: &Option<String>) -> (r: String)
    ensures
        r@ == text_or_empty(*o),
{
    match o {
        Some(s) => s.clone(),
        None => String::new(),
    }
}

/// The path Pandoc reads an asset reference from.
fn resolve_asset_path(doc: &ExportDoc, field: &str) -> (r: String)
    ensures
        r@ == asset_path(*doc, field@),
{
    let id = asset_id(field);
    let mut i: usize = 0;
    assert(doc.assets@.skip(0) =~= doc.assets@);
    while i < doc.assets.len()
        invariant
            i <= doc.assets.len(),
            id@ == asset_id_of(field@),
            asset_path(*doc, field@) == resolve_in(doc.assets@.skip(i as int), id@, field@),
        decreases doc.assets.len() - i,
    {
        assert(doc.assets@.skip(i as int).drop_first() =~= doc.assets@.skip(i + 1));
        let a = &doc.assets[i];
        if crate::text::seq_eq(chars_of(a.id.as_str()).as_slice(), id.as_slice()) {
            if str_eq(a.storage.as_str(), "external") {
                return opt_text(&a.url);
            }
            return match &a.file {
                Some(p) => p.clone(),
                None => opt_text(&a.url),
            };
        }
        i = i + 1;
    }
    field.to_owned()
}

// ------------------------------------------------------------------ building values

fn tnode_j(t: &str) -> (r: Json)
    ensures
        jv(r) == tnode(t@),
{
    let mut m: Vec<(String, Json)> = Vec::new();
    assert(jv_members(m@) =~= Seq::empty());
    push_member(&mut m, "t", jstr(t));
    assert(jv_members(m@) =~= seq![("t"@, JsonV::Str(t@))]);
    Json::Object(m)
}

fn tcnode_j(t: &str, c: Json) -> (r: Json)
    ensures
        jv(r) == tcnode(t@, jv(c)),
{
    let mut m: Vec<(String, Json)> = Vec::new();
    assert(jv_members(m@) =~= Seq::empty());
    push_member(&mut m, "t", jstr(t));
    push_member(&mut m, "c", c);
    assert(jv_members(m@) =~= seq![("t"@, JsonV::Str(t@)), ("c"@, jv(c))]);
    Json::Object(m)
}

fn arr_j(items: Vec<Json>) -> (r: Json)
    ensures
        jv(r) == arr(jv_items(items@)),
{
    Json::Array(items)
}

fn items0() -> (r: Vec<Json>)
    ensures
        jv_items(r@) == Seq::<JsonV>::empty(),
{
    let v: Vec<Json> = Vec::new();
    assert(jv_items(v@) =~= Seq::<JsonV>::empty());
    v
}

fn items1(a: Json) -> (r: Vec<Json>)
    ensures
        jv_items(r@) == seq![jv(a)],
{
    let mut v = items0();
    push_item(&mut v, a);
    assert(jv_items(v@) =~= seq![jv(a)]);
    v
}

fn items2(a: Json, b: Json) -> (r: Vec<Json>)
    ensures
        jv_items(r@) == seq![jv(a), jv(b)],
{
    let mut v = items1(a);
    push_item(&mut v, b);
    assert(jv_items(v@) =~= seq![jv(a), jv(b)]);
    v
}

fn items3(a: Json, b: Json, c: Json) -> (r: Vec<Json>)
    ensures
        jv_items(r@) == seq![jv(a), jv(b), jv(c)],
{
    let mut v = items2(a, b);
    push_item(&mut v, c);
    assert(jv_items(v@) =~= seq![jv(a), jv(b), jv(c)]);
    v
}

fn items4(a: Json, b: Json, c: Json, d: Json) -> (r: Vec<Json>)
    ensures
        jv_items(r@) == seq![jv(a), jv(b), jv(c), jv(d)],
{
    let mut v = items3(a, b, c);
    push_item(&mut v, d);
    assert(jv_items(v@) =~= seq![jv(a), jv(b), jv(c), jv(d)]);
    v
}

fn items5(a: Json, b: Json, c: Json, d: Json, e: Json) -> (r: Vec<Json>)
    ensures
        jv_items(r@) == seq![jv(a), jv(b), jv(c), jv(d), jv(e)],
{
    let mut v = items4(a, b, c, d);
    push_item(&mut v, e);
    assert(jv_items(v@) =~= seq![jv(a), jv(b), jv(c), jv(d), jv(e)]);
    v
}

fn attrs_j() -> (r: Json)
    ensures
        jv(r) == attrs_v(),
{
    proof { reveal_strlit(""); }
    let r = arr_j(items3(jstr(""), arr_j(items0()), arr_j(items0())));
    assert(""@ =~= Seq::<char>::empty());
    r
}

fn str_inline_j(s: &str) -> (r: Json)
    ensures
        jv(r) == str_inline(s@),
{
    tcnode_j("Str", jstr(s))
}

// ------------------------------------------------------------------ text

/// A space inline.
pub open spec fn space_v() -> JsonV {
    tnode("Space"@)
}

/// A word as a `Str` inline (nothing for an empty word).
pub open spec fn word_nodes(w: Seq<char>) -> Seq<JsonV> {
    if w.len() == 0 {
        Seq::empty()
    } else {
        seq![str_inline(w)]
    }
}

/// Text as Pandoc inlines: its words between `Space` nodes, one per space.
pub open spec fn text_nodes(s: Seq<char>) -> Seq<JsonV>
    decreases s.len(),
{
    let i = first_index(s, ' ');
    if i < 0 {
        word_nodes(s)
    } else {
        proof { lemma_first_index(s, ' '); }
        word_nodes(s.take(i)) + seq![space_v()] + text_nodes(s.skip(i + 1))
    }
}

proof fn lemma_first_space(w: Seq<char>, rest: Seq<char>)
    requires
        !w.contains(' '),
    ensures
        first_index(w + seq![' '] + rest, ' ') == w.len(),
{
    let s = w + seq![' '] + rest;
    lemma_first_index(s, ' ');
    let f = first_index(s, ' ');
    assert(s[w.len() as int] == ' ');
    if f >= 0 && f < w.len() {
        assert(s[f] == w[f]);
    }
}

fn text_ast(text: &str) -> (r: Vec<Json>)
    ensures
        jv_items(r@) == text_nodes(text@),
{
    let v = chars_of(text);
    let mut out = items0();
    let mut word: Vec<char> = Vec::new();
    let mut i: usize = 0;
    assert(v@.skip(0) =~= v@);
    assert(word@ + v@.skip(0) =~= v@);
    while i < v.len()
        invariant
            i <= v.len(),
            v@ == text@,
            !word@.contains(' '),
            jv_items(out@) + text_nodes(word@ + v@.skip(i as int)) == text_nodes(v@),
        decreases v.len() - i,
    {
        let c = v[i];
        let ghost rest = v@.skip(i + 1);
        assert(v@.skip(i as int) =~= seq![c] + rest);
        if c == ' ' {
            let ghost w = word@;
            proof {
                lemma_first_space(w, rest);
                assert(w + v@.skip(i as int) =~= w + seq![' '] + rest);
                let s2 = w + seq![' '] + rest;
                assert(s2.take(w.len() as int) =~= w);
                assert(s2.skip(w.len() as int + 1) =~= rest);
            }
            let ghost o0 = jv_items(out@);
            if word.len() > 0 {
                let ws = string_of(word.as_slice());
                push_item(&mut out, str_inline_j(ws.as_str()));
            }
            word = Vec::new();
            push_item(&mut out, tnode_j("Space"));
            assert(jv_items(out@) =~= o0 + word_nodes(w) + seq![space_v()]);
            assert(word@ + rest =~= rest);
        } else {
            let ghost w = word@;
            word.push(c);
            assert(word@ + rest =~= w + v@.skip(i as int));
            assert(!word@.contains(' ')) by {
                if word@.contains(' ') {
                    let k = choose|k: int| 0 <= k < word@.len() && word@[k] == ' ';
                    if k < w.len() {
                        assert(w[k] == ' ');
                    }
                }
            }
        }
        i = i + 1;
    }
    assert(word@ + v@.skip(i as int) =~= word@);
    proof { lemma_first_index(word@, ' '); }
    if word.len() > 0 {
        let ws = string_of(word.as_slice());
        push_item(&mut out, str_inline_j(ws.as_str()));
    }
    assert(jv_items(out@) =~= text_nodes(text@));
    out
}

// ------------------------------------------------------------------ spans

/// The spans that nest no other spans.
pub open spec fn leaf_span(t: Seq<char>) -> bool {
    t == "text"@ || t == "hard_break"@ || t == "code"@ || t == "inline_math"@ || t == "inline_image"@
        || t == "footnote_ref"@ || t == "unknown"@ || t == "mention"@ || t == "cite"@
}

/// The formatting spans that become Pandoc containers.
pub open spec fn mark_span(t: Seq<char>) -> bool {
    t == "em"@ || t == "strong"@ || t == "strike"@ || t == "underline"@
}

/// The Pandoc container of a formatting span.
pub open spec fn mark_kind(t: Seq<char>) -> Seq<char> {
    if t == "em"@ {
        "Emph"@
    } else if t == "strong"@ {
        "Strong"@
    } else if t == "strike"@ {
        "Strikeout"@
    } else {
        "Underline"@
    }
}

/// An image inline: its alt text and the path it is read from.
pub open spec fn image_v(alt: Seq<char>, url: Seq<char>) -> JsonV {
    tcnode("Image"@, arr(seq![attrs_v(), arr(seq![str_inline(alt)]), arr(seq![sv(url), sv(Seq::empty())])]))
}

/// A span without nested spans. Footnote references produce nothing (no
/// definition is ever found for them); unknown spans are dropped; mentions
/// and citations become their text.
#[verifier::opaque]
pub open spec fn ast_leaf_span(span: Json, t: Seq<char>, doc: ExportDoc) -> Built {
    if t == "text"@ {
        let n = text_nodes(str_or_empty(span, "text"@));
        if n.len() == 0 {
            nothing()
        } else {
            Built { nodes: n, events: seq![LossEventView::NodeNone] }
        }
    } else if t == "hard_break"@ {
        one_lossless(tnode("LineBreak"@))
    } else if t == "code"@ {
        one_lossless(tcnode("Code"@, arr(seq![attrs_v(), sv(str_or_empty(span, "text"@))])))
    } else if t == "inline_math"@ {
        one_lossless(tcnode("Math"@, arr(seq![tnode("InlineMath"@), sv(str_or_empty(span, "latex"@))])))
    } else if t == "inline_image"@ {
        one_lossless(image_v(str_or_empty(span, "alt"@), asset_path(doc, str_or_empty(span, "asset"@))))
    } else if t == "footnote_ref"@ {
        nothing()
    } else if t == "unknown"@ {
        Built {
            nodes: Seq::empty(),
            events: seq![record(LossClass::PreservedRaw, "unknown_span_docx"@, "preserved"@, str_or_empty(span, "payload_ref"@), "未知行内内容在 DOCX 导出中被省略，原文保留于容器"@)],
        }
    } else if t == "mention"@ {
        let x = str_or_empty(span, "target"@);
        Built { nodes: text_nodes(x), events: seq![record(LossClass::Partial, "mention_docx"@, "degraded"@, x, "提及在 DOCX 中以纯文本呈现"@)] }
    } else {
        let x = str_or_empty(span, "key"@);
        Built { nodes: text_nodes(x), events: seq![record(LossClass::Partial, "cite_docx"@, "degraded"@, x, "引用键在 DOCX 中以纯文本呈现"@)] }
    }
}

/// The Pandoc inlines of the span list member `key` (none when absent).
pub open spec fn ast_inline_of(v: Json, key: Seq<char>, doc: ExportDoc) -> Built
    decreases v, 0nat,
{
    let k = kids(v, key);
    if k.len() > 0 {
        proof { lemma_kids_inside(v, key); }
        ast_spans(k, doc)
    } else {
        nothing()
    }
}

/// The Pandoc inlines of a list of spans.
pub open spec fn ast_spans(spans: Seq<Json>, doc: ExportDoc) -> Built
    decreases spans, 2nat,
{
    if spans.len() == 0 {
        nothing()
    } else {
        both(ast_spans(spans.drop_last(), doc), ast_span(spans.last(), doc))
    }
}

/// The Pandoc inlines of one span; a span of unknown type gives those of
/// its contents.
pub open spec fn ast_span(span: Json, doc: ExportDoc) -> Built
    decreases span, 2nat,
{
    let t = str_or_empty(span, "type"@);
    if leaf_span(t) {
        ast_leaf_span(span, t, doc)
    } else if mark_span(t) {
        let r = ast_inline_of(span, "content"@, doc);
        Built { nodes: seq![tcnode(mark_kind(t), arr(r.nodes))], events: r.events.push(LossEventView::NodeNone) }
    } else if t == "link"@ {
        let r = ast_inline_of(span, "content"@, doc);
        Built {
            nodes: seq![tcnode("Link"@, arr(seq![attrs_v(), arr(r.nodes), arr(seq![sv(str_or_empty(span, "url"@)), sv(str_or_empty(span, "title"@))])]))],
            events: r.events.push(LossEventView::NodeNone),
        }
    } else {
        ast_inline_of(span, "content"@, doc)
    }
}

/// The nodes and events written match `b`.
pub open spec fn built(r: Seq<Json>, log: Seq<LossEvent>, log0: Seq<LossEventView>, b: Built) -> bool {
    jv_items(r) == b.nodes && events_view(log) == log0 + b.events
}

proof fn lemma_span_names()
    ensures
        !leaf_span("em"@), !leaf_span("strong"@), !leaf_span("strike"@), !leaf_span("underline"@), !leaf_span("link"@),
        !mark_span("link"@), "strong"@ != "em"@, "strike"@ != "em"@, "strike"@ != "strong"@, "underline"@ != "em"@,
        "underline"@ != "strong"@, "underline"@ != "strike"@,
{
    reveal_strlit("text");
    reveal_strlit("hard_break");
    reveal_strlit("code");
    reveal_strlit("inline_math");
    reveal_strlit("inline_image");
    reveal_strlit("footnote_ref");
    reveal_strlit("unknown");
    reveal_strlit("mention");
    reveal_strlit("cite");
    reveal_strlit("em");
    reveal_strlit("strong");
    reveal_strlit("strike");
    reveal_strlit("underline");
    reveal_strlit("link");
    assert("text"@.len() == 4);
    assert("hard_break"@.len() == 10);
    assert("code"@.len() == 4);
    assert("inline_math"@.len() == 11);
    assert("inline_image"@.len() == 12);
    assert("footnote_ref"@.len() == 12);
    assert("unknown"@.len() == 7);
    assert("mention"@.len() == 7);
    assert("cite"@.len() == 4);
    assert("em"@.len() == 2);
    assert("strong"@.len() == 6);
    assert("strike"@.len() == 6);
    assert("underline"@.len() == 9);
    assert("link"@.len() == 4);
    assert("link"@[0] != "text"@[0]);
    assert("link"@[0] != "code"@[0]);
    assert("link"@[0] != "cite"@[0]);
    assert("strong"@[3] != "strike"@[3]);
}

proof fn lemma_leaf_names()
    ensures
        "hard_break"@ != "text"@,
        "code"@ != "text"@,
        "code"@ != "hard_break"@,
        "inline_math"@ != "text"@,
        "inline_math"@ != "hard_break"@,
        "inline_math"@ != "code"@,
        "inline_image"@ != "text"@,
        "inline_image"@ != "hard_break"@,
        "inline_image"@ != "code"@,
        "inline_image"@ != "inline_math"@,
        "footnote_ref"@ != "text"@,
        "footnote_ref"@ != "hard_break"@,
        "footnote_ref"@ != "code"@,
        "footnote_ref"@ != "inline_math"@,
        "footnote_ref"@ != "inline_image"@,
        "unknown"@ != "text"@,
        "unknown"@ != "hard_break"@,
        "unknown"@ != "code"@,
        "unknown"@ != "inline_math"@,
        "unknown"@ != "inline_image"@,
        "unknown"@ != "footnote_ref"@,
        "mention"@ != "text"@,
        "mention"@ != "hard_break"@,
        "mention"@ != "code"@,
        "mention"@ != "inline_math"@,
        "mention"@ != "inline_image"@,
        "mention"@ != "footnote_ref"@,
        "mention"@ != "unknown"@,
        "cite"@ != "text"@,
        "cite"@ != "hard_break"@,
        "cite"@ != "code"@,
        "cite"@ != "inline_math"@,
        "cite"@ != "inline_image"@,
        "cite"@ != "footnote_ref"@,
        "cite"@ != "unknown"@,
        "cite"@ != "mention"@,
{
    reveal_strlit("text");
    reveal_strlit("hard_break");
    reveal_strlit("code");
    reveal_strlit("inline_math");
    reveal_strlit("inline_image");
    reveal_strlit("footnote_ref");
    reveal_strlit("unknown");
    reveal_strlit("mention");
    reveal_strlit("cite");
    assert("text"@.len() == 4);
    assert("hard_break"@.len() == 10);
    assert("code"@.len() == 4);
    assert("inline_math"@.len() == 11);
    assert("inline_image"@.len() == 12);
    assert("footnote_ref"@.len() == 12);
    assert("unknown"@.len() == 7);
    assert("mention"@.len() == 7);
    assert("cite"@.len() == 4);
    assert("text"@[0] != "code"@[0]);
    assert("text"@[0] != "cite"@[0]);
    assert("code"@[1] != "cite"@[1]);
    assert("inline_image"@[0] != "footnote_ref"@[0]);
    assert("unknown"@[0] != "mention"@[0]);
}

fn image_j(alt: &str, url: &str) -> (r: Json)
    ensures
        jv(r) == image_v(alt@, url@),
{
    proof { reveal_strlit(""); }
    let r = tcnode_j("Image", arr_j(items3(attrs_j(), arr_j(items1(str_inline_j(alt))), arr_j(items2(jstr(url), jstr(""))))));
    assert(""@ =~= Seq::<char>::empty());
    r
}

fn leaf_span_ast(span: &Json, t: &str, doc: &ExportDoc, log: &mut Vec<LossEvent>) -> (r: Vec<Json>)
    requires
        leaf_span(t@),
    ensures
        built(r@, final(log)@, events_view(old(log)@), ast_leaf_span(*span, t@, *doc)),
{
    proof {
        reveal(ast_leaf_span);
        lemma_leaf_names();
    }
    let ghost l0 = events_view(log@);
    let r = if str_eq(t, "text") {
        let n = text_ast(str_member(span, "text"));
        proof { lemma_jv_items_len(n@); }
        if n.len() > 0 {
            log_none(log);
        }
        assert(events_view(log@) =~= l0 + ast_leaf_span(*span, t@, *doc).events);
        n
    } else if str_eq(t, "hard_break") {
        log_none(log);
        items1(tnode_j("LineBreak"))
    } else if str_eq(t, "code") {
        log_none(log);
        items1(tcnode_j("Code", arr_j(items2(attrs_j(), jstr(str_member(span, "text"))))))
    } else if str_eq(t, "inline_math") {
        log_none(log);
        items1(tcnode_j("Math", arr_j(items2(tnode_j("InlineMath"), jstr(str_member(span, "latex"))))))
    } else if str_eq(t, "inline_image") {
        let url = resolve_asset_path(doc, str_member(span, "asset"));
        log_none(log);
        items1(image_j(str_member(span, "alt"), url.as_str()))
    } else if str_eq(t, "footnote_ref") {
        assert(events_view(log@) =~= l0 + ast_leaf_span(*span, t@, *doc).events);
        items0()
    } else if str_eq(t, "unknown") {
        log_record(log, LossClass::PreservedRaw, "unknown_span_docx", "preserved", str_member(span, "payload_ref"), "未知行内内容在 DOCX 导出中被省略，原文保留于容器");
        items0()
    } else if str_eq(t, "mention") {
        let x = str_member(span, "target");
        log_record(log, LossClass::Partial, "mention_docx", "degraded", x, "提及在 DOCX 中以纯文本呈现");
        text_ast(x)
    } else {
        let x = str_member(span, "key");
        log_record(log, LossClass::Partial, "cite_docx", "degraded", x, "引用键在 DOCX 中以纯文本呈现");
        text_ast(x)
    };
    assert(events_view(log@) =~= l0 + ast_leaf_span(*span, t@, *doc).events);
    r
}

#[verifier::rlimit(50)]
fn inline_ast(v: &Json, key: &str, doc: &ExportDoc, log: &mut Vec<LossEvent>) -> (r: Vec<Json>)
    ensures
        built(r@, final(log)@, events_view(old(log)@), ast_inline_of(*v, key@, *doc)),
    decreases *v, 0nat,
{
    let ghost l0 = events_view(log@);
    let mut out = items0();
    if let Some(spans) = v.get_array(key) {
        if spans.len() > 0 {
            proof { lemma_kids_inside(*v, key@); }
            let mut i: usize = 0;
            assert(events_view(log@) =~= l0 + ast_spans(spans@.take(0), *doc).events);
            assert(spans@.take(0) =~= Seq::<Json>::empty());
            while i < spans.len()
                invariant
                    i <= spans.len(),
                    spans@ == kids(*v, key@),
                    decreases_to!(*v => spans@),
                    built(out@, log@, l0, ast_spans(spans@.take(i as int), *doc)),
                decreases spans.len() - i,
            {
                assert(decreases_to!(spans@ => spans@[i as int]));
                let part = span_ast(&spans[i], doc, log);
                append_items(&mut out, part);
                proof {
                    let t = spans@.take(i + 1);
                    assert(t.drop_last() =~= spans@.take(i as int));
                }
                i = i + 1;
                assert(events_view(log@) =~= l0 + ast_spans(spans@.take(i as int), *doc).events);
            }
            assert(spans@.take(spans.len() as int) =~= spans@);
            return out;
        }
    }
    assert(events_view(log@) =~= l0 + ast_inline_of(*v, key@, *doc).events);
    out
}

#[verifier::rlimit(50)]
fn span_ast(span: &Json, doc: &ExportDoc, log: &mut Vec<LossEvent>) -> (r: Vec<Json>)
    ensures
        built(r@, final(log)@, events_view(old(log)@), ast_span(*span, *doc)),
    decreases *span, 2nat,
{
    let ghost l0 = events_view(log@);
    proof { lemma_span_names(); }
    let t = str_member(span, "type");
    if str_eq(t, "text") || str_eq(t, "hard_break") || str_eq(t, "code") || str_eq(t, "inline_math")
        || str_eq(t, "inline_image") || str_eq(t, "footnote_ref") || str_eq(t, "unknown") || str_eq(t, "mention")
        || str_eq(t, "cite") {
        leaf_span_ast(span, t, doc, log)
    } else if str_eq(t, "em") || str_eq(t, "strong") || str_eq(t, "strike") || str_eq(t, "underline") {
        let kind = if str_eq(t, "em") {
            "Emph"
        } else if str_eq(t, "strong") {
            "Strong"
        } else if str_eq(t, "strike") {
            "Strikeout"
        } else {
            "Underline"
        };
        assert(kind@ == mark_kind(t@));
        let inner = inline_ast(span, "content", doc, log);
        log_none(log);
        items1(tcnode_j(kind, arr_j(inner)))
    } else if str_eq(t, "link") {
        let inner = inline_ast(span, "content", doc, log);
        log_none(log);
        items1(tcnode_j(
            "Link",
            arr_j(items3(attrs_j(), arr_j(inner), arr_j(items2(jstr(str_member(span, "url")), jstr(str_member(span, "title")))))),
        ))
    } else {
        inline_ast(span, "content", doc, log)
    }
}

// ------------------------------------------------------------------ blocks

/// The blocks mapped without their children.
pub open spec fn ast_atom(t: Seq<char>) -> bool {
    t == "code_block"@ || t == "horizontal_rule"@ || t == "math_block"@ || t == "footnote"@ || t == "embed"@
        || t == "unknown"@
}

/// A code block, rule, display-math paragraph, footnote (nothing: notes
/// come from their references), embed (a link paragraph) or unknown block
/// (dropped; its original stays in the container).
#[verifier::opaque]
pub open spec fn ast_atom_block(node: Json, t: Seq<char>, doc: ExportDoc) -> Built {
    if t == "code_block"@ {
        let lang = str_or_empty(node, "language"@);
        let classes = if lang.len() == 0 { Seq::empty() } else { seq![sv(lang)] };
        one_lossless(tcnode("CodeBlock"@, arr(seq![arr(seq![sv(Seq::empty()), arr(classes), arr(Seq::empty())]), sv(str_or_empty(node, "text"@))])))
    } else if t == "horizontal_rule"@ {
        one_lossless(tnode("HorizontalRule"@))
    } else if t == "math_block"@ {
        one_lossless(tcnode("Para"@, arr(seq![tcnode("Math"@, arr(seq![tnode("DisplayMath"@), sv(str_or_empty(node, "latex"@))]))])))
    } else if t == "footnote"@ {
        nothing()
    } else if t == "embed"@ {
        let asset = str_or_empty(node, "asset"@);
        let name = match lookup(doc.filenames@, asset) {
            Some(n) => n,
            None => asset,
        };
        Built {
            nodes: seq![tcnode("Para"@, arr(seq![tcnode("Link"@, arr(seq![attrs_v(), arr(seq![str_inline(name)]), arr(seq![sv(asset_path(doc, asset)), sv(Seq::empty())])]))]))],
            events: seq![record(LossClass::Partial, "embed_docx"@, "degraded"@, asset, "内嵌资源在 DOCX 中以链接呈现"@)],
        }
    } else {
        Built {
            nodes: Seq::empty(),
            events: seq![record(LossClass::PreservedRaw, "unknown_block_docx"@, "preserved"@, str_or_empty(node, "payload_ref"@), "未知内容在 DOCX 导出中被省略，原文保留于容器"@)],
        }
    }
}

/// A figure (an image with its caption) or a lone image (a paragraph).
pub open spec fn ast_figure(node: Json, t: Seq<char>, doc: ExportDoc) -> Built {
    let img = image_v(str_or_empty(node, "alt"@), asset_path(doc, str_or_empty(node, "asset"@)));
    if t == "figure"@ {
        let cap = ast_inline_of(node, "caption"@, doc);
        let caption = if cap.nodes.len() == 0 {
            arr(seq![JsonV::Null, arr(Seq::empty())])
        } else {
            arr(seq![JsonV::Null, arr(seq![tcnode("Para"@, arr(cap.nodes))])])
        };
        Built {
            nodes: seq![tcnode("Figure"@, arr(seq![attrs_v(), caption, arr(seq![tcnode("Plain"@, arr(seq![img]))])]))],
            events: seq![LossEventView::NodeNone] + cap.events,
        }
    } else {
        one_lossless(tcnode("Para"@, arr(seq![img])))
    }
}

/// The column description Pandoc wants for each column.
pub open spec fn colspec_v() -> JsonV {
    arr(seq![tnode("AlignDefault"@), tcnode("ColWidth"@, JsonV::Number(JsonNumber::Float(0)))])
}

/// A Pandoc table: head rows, one body, an empty foot.
pub open spec fn table_v(ncols: nat, head: Seq<JsonV>, body: Seq<JsonV>) -> JsonV {
    tcnode(
        "Table"@,
        arr(seq![
            attrs_v(),
            arr(seq![JsonV::Null, arr(Seq::empty())]),
            arr(Seq::new(ncols, |i: int| colspec_v())),
            arr(seq![attrs_v(), arr(head)]),
            arr(seq![arr(seq![attrs_v(), int_v(0), arr(Seq::empty()), arr(body)])]),
            arr(seq![attrs_v(), arr(Seq::empty())]),
        ]),
    )
}

/// Some column has a name.
pub open spec fn has_named_column(node: Json) -> bool {
    exists|i: int| 0 <= i < kids(node, "columns"@).len() && str_or_empty(#[trigger] kids(node, "columns"@)[i], "name"@).len() > 0
}

/// The Pandoc blocks of the block list member `key`.
pub open spec fn ast_kids(v: Json, key: Seq<char>, doc: ExportDoc) -> Built
    decreases v, 0nat,
{
    let k = kids(v, key);
    if k.len() > 0 {
        proof { lemma_kids_inside(v, key); }
        ast_blocks(k, doc)
    } else {
        nothing()
    }
}

/// The Pandoc blocks of a list of blocks.
pub open spec fn ast_blocks(blocks: Seq<Json>, doc: ExportDoc) -> Built
    decreases blocks, 3nat,
{
    if blocks.len() == 0 {
        nothing()
    } else {
        both(ast_blocks(blocks.drop_last(), doc), ast_block(blocks.last(), doc))
    }
}

/// The items of a list, each the array of its blocks.
pub open spec fn ast_items(items: Seq<Json>, doc: ExportDoc) -> Built
    decreases items, 3nat,
{
    if items.len() == 0 {
        nothing()
    } else {
        let r = ast_kids(items.last(), "children"@, doc);
        both(ast_items(items.drop_last(), doc), Built { nodes: seq![arr(r.nodes)], events: r.events })
    }
}

/// A list: ordered (decimal numbers with periods, from its start) or not.
pub open spec fn ast_list(node: Json, doc: ExportDoc) -> Built
    decreases node, 1nat,
{
    let k = kids(node, "items"@);
    let r = if k.len() > 0 {
        proof { lemma_kids_inside(node, "items"@); }
        ast_items(k, doc)
    } else {
        nothing()
    };
    let n = if is_ordered(node) {
        tcnode("OrderedList"@, arr(seq![arr(seq![int_v(start_of(node)), tnode("Decimal"@), tnode("Period"@)]), arr(r.nodes)]))
    } else {
        tcnode("BulletList"@, arr(r.nodes))
    };
    Built { nodes: seq![n], events: r.events.push(LossEventView::NodeNone) }
}

/// The cells of a row: attributes, alignment, row and column span, blocks.
pub open spec fn ast_cells(cells: Seq<Json>, doc: ExportDoc) -> Built
    decreases cells, 3nat,
{
    if cells.len() == 0 {
        nothing()
    } else {
        let c = cells.last();
        let r = ast_kids(c, "children"@, doc);
        both(
            ast_cells(cells.drop_last(), doc),
            Built {
                nodes: seq![arr(seq![attrs_v(), tnode("AlignDefault"@), int_v(int_or_one(c, "rowSpan"@)), int_v(int_or_one(c, "colSpan"@)), arr(r.nodes)])],
                events: r.events,
            },
        )
    }
}

/// One row: attributes and cells.
pub open spec fn ast_row(row: Json, doc: ExportDoc) -> Built
    decreases row, 1nat,
{
    let k = kids(row, "cells"@);
    let c = if k.len() > 0 {
        proof { lemma_kids_inside(row, "cells"@); }
        ast_cells(k, doc)
    } else {
        nothing()
    };
    Built { nodes: seq![arr(seq![attrs_v(), arr(c.nodes)])], events: c.events }
}

/// The rows of a table.
pub open spec fn ast_rows(rows: Seq<Json>, doc: ExportDoc) -> Built
    decreases rows, 3nat,
{
    if rows.len() == 0 {
        nothing()
    } else {
        both(ast_rows(rows.drop_last(), doc), ast_row(rows.last(), doc))
    }
}

/// A table: with a header row, its first row is the head. Column names are
/// lost when there is no header row.
pub open spec fn ast_table(node: Json, doc: ExportDoc) -> Built
    decreases node, 1nat,
{
    let header = get(node, "header_row"@) == Some(Json::Bool(true));
    let ev0 = if !header && has_named_column(node) {
        seq![record(LossClass::Partial, "column_names"@, "degraded"@, "table"@, "无表头行的列名在 DOCX 导出中被丢弃"@)]
    } else {
        Seq::empty()
    };
    let k = kids(node, "rows"@);
    let rs = if k.len() > 0 {
        proof { lemma_kids_inside(node, "rows"@); }
        ast_rows(k, doc)
    } else {
        nothing()
    };
    let split = header && k.len() > 0;
    let head = if split { rs.nodes.take(1) } else { Seq::empty() };
    let body = if split { rs.nodes.skip(1) } else { rs.nodes };
    Built {
        nodes: seq![table_v(kids(node, "columns"@).len(), head, body)],
        events: ev0 + rs.events.push(LossEventView::NodeNone),
    }
}

/// The variant of a callout (`note` when absent).
pub open spec fn variant_of(node: Json) -> Seq<char> {
    match str_of(get(node, "variant"@)) {
        Some(v) => v,
        None => "note"@,
    }
}

/// A callout: a `Div` with the variant as its class.
pub open spec fn ast_callout(node: Json, doc: ExportDoc) -> Built
    decreases node, 1nat,
{
    let r = ast_kids(node, "children"@, doc);
    let v = variant_of(node);
    Built {
        nodes: seq![tcnode("Div"@, arr(seq![arr(seq![sv(Seq::empty()), arr(seq![sv(v)]), arr(Seq::empty())]), arr(r.nodes)]))],
        events: r.events.push(record(LossClass::Partial, "callout_docx"@, "degraded"@, v, "提示块在 DOCX 导出中以 Div(类) 呈现，样式取决于阅读器"@)),
    }
}

/// The Pandoc blocks of one block.
pub open spec fn ast_block(node: Json, doc: ExportDoc) -> Built
    decreases node, 3nat,
{
    let t = str_or_empty(node, "type"@);
    if t == "section"@ {
        both(Built { nodes: Seq::empty(), events: seq![LossEventView::NodeNone] }, ast_kids(node, "children"@, doc))
    } else if t == "heading"@ {
        let r = ast_inline_of(node, "content"@, doc);
        Built {
            nodes: seq![tcnode("Header"@, arr(seq![int_v(heading_level(node)), attrs_v(), arr(r.nodes)]))],
            events: r.events.push(LossEventView::NodeNone),
        }
    } else if t == "paragraph"@ {
        let r = ast_inline_of(node, "content"@, doc);
        if r.nodes.len() == 0 {
            Built { nodes: Seq::empty(), events: r.events.push(LossEventView::NodeNone) }
        } else {
            Built { nodes: seq![tcnode("Para"@, arr(r.nodes))], events: r.events }
        }
    } else if t == "quote"@ {
        let r = ast_kids(node, "children"@, doc);
        Built { nodes: seq![tcnode("BlockQuote"@, arr(r.nodes))], events: r.events.push(LossEventView::NodeNone) }
    } else if t == "list"@ {
        ast_list(node, doc)
    } else if t == "table"@ {
        ast_table(node, doc)
    } else if t == "figure"@ || t == "image"@ {
        ast_figure(node, t, doc)
    } else if t == "callout"@ {
        ast_callout(node, doc)
    } else if ast_atom(t) {
        ast_atom_block(node, t, doc)
    } else {
        both(
            Built {
                nodes: Seq::empty(),
                events: seq![record(LossClass::Partial, "docx_export_fallback"@, "degraded"@, t, "未知块类型按子内容降级导出"@)],
            },
            ast_kids(node, "children"@, doc),
        )
    }
}

proof fn lemma_block_names()
    ensures
        "heading"@ != "section"@,
        "paragraph"@ != "section"@,
        "paragraph"@ != "heading"@,
        "quote"@ != "section"@,
        "quote"@ != "heading"@,
        "quote"@ != "paragraph"@,
        "list"@ != "section"@,
        "list"@ != "heading"@,
        "list"@ != "paragraph"@,
        "list"@ != "quote"@,
        "table"@ != "section"@,
        "table"@ != "heading"@,
        "table"@ != "paragraph"@,
        "table"@ != "quote"@,
        "table"@ != "list"@,
        "figure"@ != "section"@,
        "figure"@ != "heading"@,
        "figure"@ != "paragraph"@,
        "figure"@ != "quote"@,
        "figure"@ != "list"@,
        "figure"@ != "table"@,
        "image"@ != "section"@,
        "image"@ != "heading"@,
        "image"@ != "paragraph"@,
        "image"@ != "quote"@,
        "image"@ != "list"@,
        "image"@ != "table"@,
        "image"@ != "figure"@,
        "callout"@ != "section"@,
        "callout"@ != "heading"@,
        "callout"@ != "paragraph"@,
        "callout"@ != "quote"@,
        "callout"@ != "list"@,
        "callout"@ != "table"@,
        "callout"@ != "figure"@,
        "callout"@ != "image"@,
        "code_block"@ != "section"@,
        "code_block"@ != "heading"@,
        "code_block"@ != "paragraph"@,
        "code_block"@ != "quote"@,
        "code_block"@ != "list"@,
        "code_block"@ != "table"@,
        "code_block"@ != "figure"@,
        "code_block"@ != "image"@,
        "code_block"@ != "callout"@,
        "horizontal_rule"@ != "section"@,
        "horizontal_rule"@ != "heading"@,
        "horizontal_rule"@ != "paragraph"@,
        "horizontal_rule"@ != "quote"@,
        "horizontal_rule"@ != "list"@,
        "horizontal_rule"@ != "table"@,
        "horizontal_rule"@ != "figure"@,
        "horizontal_rule"@ != "image"@,
        "horizontal_rule"@ != "callout"@,
        "horizontal_rule"@ != "code_block"@,
        "math_block"@ != "section"@,
        "math_block"@ != "heading"@,
        "math_block"@ != "paragraph"@,
        "math_block"@ != "quote"@,
        "math_block"@ != "list"@,
        "math_block"@ != "table"@,
        "math_block"@ != "figure"@,
        "math_block"@ != "image"@,
        "math_block"@ != "callout"@,
        "math_block"@ != "code_block"@,
        "math_block"@ != "horizontal_rule"@,
        "footnote"@ != "section"@,
        "footnote"@ != "heading"@,
        "footnote"@ != "paragraph"@,
        "footnote"@ != "quote"@,
        "footnote"@ != "list"@,
        "footnote"@ != "table"@,
        "footnote"@ != "figure"@,
        "footnote"@ != "image"@,
        "footnote"@ != "callout"@,
        "footnote"@ != "code_block"@,
        "footnote"@ != "horizontal_rule"@,
        "footnote"@ != "math_block"@,
        "embed"@ != "section"@,
        "embed"@ != "heading"@,
        "embed"@ != "paragraph"@,
        "embed"@ != "quote"@,
        "embed"@ != "list"@,
        "embed"@ != "table"@,
        "embed"@ != "figure"@,
        "embed"@ != "image"@,
        "embed"@ != "callout"@,
        "embed"@ != "code_block"@,
        "embed"@ != "horizontal_rule"@,
        "embed"@ != "math_block"@,
        "embed"@ != "footnote"@,
        "unknown"@ != "section"@,
        "unknown"@ != "heading"@,
        "unknown"@ != "paragraph"@,
        "unknown"@ != "quote"@,
        "unknown"@ != "list"@,
        "unknown"@ != "table"@,
        "unknown"@ != "figure"@,
        "unknown"@ != "image"@,
        "unknown"@ != "callout"@,
        "unknown"@ != "code_block"@,
        "unknown"@ != "horizontal_rule"@,
        "unknown"@ != "math_block"@,
        "unknown"@ != "footnote"@,
        "unknown"@ != "embed"@,
{
    reveal_strlit("section");
    reveal_strlit("heading");
    reveal_strlit("paragraph");
    reveal_strlit("quote");
    reveal_strlit("list");
    reveal_strlit("table");
    reveal_strlit("figure");
    reveal_strlit("image");
    reveal_strlit("callout");
    reveal_strlit("code_block");
    reveal_strlit("horizontal_rule");
    reveal_strlit("math_block");
    reveal_strlit("footnote");
    reveal_strlit("embed");
    reveal_strlit("unknown");
    assert("section"@.len() == 7);
    assert("heading"@.len() == 7);
    assert("paragraph"@.len() == 9);
    assert("quote"@.len() == 5);
    assert("list"@.len() == 4);
    assert("table"@.len() == 5);
    assert("figure"@.len() == 6);
    assert("image"@.len() == 5);
    assert("callout"@.len() == 7);
    assert("code_block"@.len() == 10);
    assert("horizontal_rule"@.len() == 15);
    assert("math_block"@.len() == 10);
    assert("footnote"@.len() == 8);
    assert("embed"@.len() == 5);
    assert("unknown"@.len() == 7);
    assert("heading"@[0] != "section"@[0]);
    assert("table"@[0] != "quote"@[0]);
    assert("image"@[0] != "quote"@[0]);
    assert("image"@[0] != "table"@[0]);
    assert("callout"@[0] != "section"@[0]);
    assert("callout"@[0] != "heading"@[0]);
    assert("math_block"@[0] != "code_block"@[0]);
    assert("embed"@[0] != "quote"@[0]);
    assert("embed"@[0] != "table"@[0]);
    assert("embed"@[0] != "image"@[0]);
    assert("unknown"@[0] != "section"@[0]);
    assert("unknown"@[0] != "heading"@[0]);
    assert("unknown"@[0] != "callout"@[0]);
}

// ------------------------------------------------------------------ writing blocks

fn items6(a: Json, b: Json, c: Json, d: Json, e: Json, f: Json) -> (r: Vec<Json>)
    ensures
        jv_items(r@) == seq![jv(a), jv(b), jv(c), jv(d), jv(e), jv(f)],
{
    let mut v = items5(a, b, c, d, e);
    push_item(&mut v, f);
    assert(jv_items(v@) =~= seq![jv(a), jv(b), jv(c), jv(d), jv(e), jv(f)]);
    v
}

fn null_j() -> (r: Json)
    ensures
        jv(r) == JsonV::Null,
{
    Json::Null
}

fn atom_block_ast(node: &Json, t: &str, doc: &ExportDoc, log: &mut Vec<LossEvent>) -> (r: Vec<Json>)
    requires
        ast_atom(t@),
    ensures
        built(r@, final(log)@, events_view(old(log)@), ast_atom_block(*node, t@, *doc)),
{
    proof {
        reveal(ast_atom_block);
        lemma_block_names();
        reveal_strlit("");
        assert(""@ =~= Seq::<char>::empty());
    }
    let ghost l0 = events_view(log@);
    let r = if str_eq(t, "code_block") {
        let lang = str_member(node, "language");
        let classes = if chars_of(lang).len() == 0 {
            items0()
        } else {
            items1(jstr(lang))
        };
        log_none(log);
        items1(tcnode_j("CodeBlock", arr_j(items2(arr_j(items3(jstr(""), arr_j(classes), arr_j(items0()))), jstr(str_member(node, "text"))))))
    } else if str_eq(t, "horizontal_rule") {
        log_none(log);
        items1(tnode_j("HorizontalRule"))
    } else if str_eq(t, "math_block") {
        log_none(log);
        items1(tcnode_j("Para", arr_j(items1(tcnode_j("Math", arr_j(items2(tnode_j("DisplayMath"), jstr(str_member(node, "latex")))))))))
    } else if str_eq(t, "footnote") {
        items0()
    } else if str_eq(t, "embed") {
        let asset = str_member(node, "asset");
        let name = match find_pair(&doc.filenames, asset) {
            Some(n) => n,
            None => asset,
        };
        let url = resolve_asset_path(doc, asset);
        log_record(log, LossClass::Partial, "embed_docx", "degraded", asset, "内嵌资源在 DOCX 中以链接呈现");
        let link = tcnode_j("Link", arr_j(items3(attrs_j(), arr_j(items1(str_inline_j(name))), arr_j(items2(jstr(url.as_str()), jstr(""))))));
        items1(tcnode_j("Para", arr_j(items1(link))))
    } else {
        log_record(log, LossClass::PreservedRaw, "unknown_block_docx", "preserved", str_member(node, "payload_ref"), "未知内容在 DOCX 导出中被省略，原文保留于容器");
        items0()
    };
    assert(events_view(log@) =~= l0 + ast_atom_block(*node, t@, *doc).events);
    r
}

fn figure_ast(node: &Json, t: &str, doc: &ExportDoc, log: &mut Vec<LossEvent>) -> (r: Vec<Json>)
    requires
        t@ == "figure"@ || t@ == "image"@,
    ensures
        built(r@, final(log)@, events_view(old(log)@), ast_figure(*node, t@, *doc)),
{
    proof { lemma_block_names(); }
    let ghost l0 = events_view(log@);
    let url = resolve_asset_path(doc, str_member(node, "asset"));
    let img = image_j(str_member(node, "alt"), url.as_str());
    log_none(log);
    if str_eq(t, "figure") {
        let cap = inline_ast(node, "caption", doc, log);
        proof { lemma_jv_items_len(cap@); }
        let caption = if cap.len() == 0 {
            arr_j(items2(null_j(), arr_j(items0())))
        } else {
            arr_j(items2(null_j(), arr_j(items1(tcnode_j("Para", arr_j(cap))))))
        };
        let r = items1(tcnode_j("Figure", arr_j(items3(attrs_j(), caption, arr_j(items1(tcnode_j("Plain", arr_j(items1(img)))))))));
        assert(events_view(log@) =~= l0 + ast_figure(*node, t@, *doc).events);
        r
    } else {
        let r = items1(tcnode_j("Para", arr_j(items1(img))));
        assert(events_view(log@) =~= l0 + ast_figure(*node, t@, *doc).events);
        r
    }
}

#[verifier::rlimit(50)]
fn kids_ast(v: &Json, key: &str, doc: &ExportDoc, log: &mut Vec<LossEvent>) -> (r: Vec<Json>)
    ensures
        built(r@, final(log)@, events_view(old(log)@), ast_kids(*v, key@, *doc)),
    decreases *v, 0nat,
{
    let ghost l0 = events_view(log@);
    let mut out = items0();
    if let Some(blocks) = v.get_array(key) {
        if blocks.len() > 0 {
            proof { lemma_kids_inside(*v, key@); }
            let mut i: usize = 0;
            assert(blocks@.take(0) =~= Seq::<Json>::empty());
            assert(events_view(log@) =~= l0 + ast_blocks(blocks@.take(0), *doc).events);
            while i < blocks.len()
                invariant
                    i <= blocks.len(),
                    blocks@ == kids(*v, key@),
                    decreases_to!(*v => blocks@),
                    built(out@, log@, l0, ast_blocks(blocks@.take(i as int), *doc)),
                decreases blocks.len() - i,
            {
                assert(decreases_to!(blocks@ => blocks@[i as int]));
                let part = block_ast(&blocks[i], doc, log);
                append_items(&mut out, part);
                proof {
                    let t = blocks@.take(i + 1);
                    assert(t.drop_last() =~= blocks@.take(i as int));
                }
                i = i + 1;
                assert(events_view(log@) =~= l0 + ast_blocks(blocks@.take(i as int), *doc).events);
            }
            assert(blocks@.take(blocks.len() as int) =~= blocks@);
            return out;
        }
    }
    assert(events_view(log@) =~= l0 + ast_kids(*v, key@, *doc).events);
    out
}

#[verifier::rlimit(50)]
fn list_ast(node: &Json, doc: &ExportDoc, log: &mut Vec<LossEvent>) -> (r: Vec<Json>)
    ensures
        built(r@, final(log)@, events_view(old(log)@), ast_list(*node, *doc)),
    decreases *node, 1nat,
{
    let ghost l0 = events_view(log@);
    let mut out = items0();
    if let Some(items) = node.get_array("items") {
        if items.len() > 0 {
            proof { lemma_kids_inside(*node, "items"@); }
            let mut i: usize = 0;
            assert(items@.take(0) =~= Seq::<Json>::empty());
            assert(events_view(log@) =~= l0 + ast_items(items@.take(0), *doc).events);
            while i < items.len()
                invariant
                    i <= items.len(),
                    items@ == kids(*node, "items"@),
                    decreases_to!(*node => items@),
                    built(out@, log@, l0, ast_items(items@.take(i as int), *doc)),
                decreases items.len() - i,
            {
                assert(decreases_to!(items@ => items@[i as int]));
                let part = kids_ast(&items[i], "children", doc, log);
                push_item(&mut out, arr_j(part));
                proof {
                    let t = items@.take(i + 1);
                    assert(t.drop_last() =~= items@.take(i as int));
                }
                i = i + 1;
                assert(jv_items(out@) =~= ast_items(items@.take(i as int), *doc).nodes);
                assert(events_view(log@) =~= l0 + ast_items(items@.take(i as int), *doc).events);
            }
            assert(items@.take(items.len() as int) =~= items@);
        }
    }
    let ghost r = if kids(*node, "items"@).len() > 0 { ast_items(kids(*node, "items"@), *doc) } else { nothing() };
    assert(jv_items(out@) == r.nodes);
    log_none(log);
    let ordered = match node.get_str("style") {
        Some(st) => str_eq(st, "ordered"),
        None => false,
    };
    let n = if ordered {
        let start: i64 = match node.get("start") {
            Some(x) => match x.as_i64() {
                Some(n) => n,
                None => 1,
            },
            None => 1,
        };
        assert(start == start_of(*node));
        tcnode_j("OrderedList", arr_j(items2(arr_j(items3(jint(start), tnode_j("Decimal"), tnode_j("Period"))), arr_j(out))))
    } else {
        tcnode_j("BulletList", arr_j(out))
    };
    assert(events_view(log@) =~= l0 + ast_list(*node, *doc).events);
    items1(n)
}

#[verifier::rlimit(50)]
fn row_ast(row: &Json, doc: &ExportDoc, log: &mut Vec<LossEvent>) -> (r: Vec<Json>)
    ensures
        built(r@, final(log)@, events_view(old(log)@), ast_row(*row, *doc)),
    decreases *row, 1nat,
{
    let ghost l0 = events_view(log@);
    let mut out = items0();
    if let Some(cells) = row.get_array("cells") {
        if cells.len() > 0 {
            proof { lemma_kids_inside(*row, "cells"@); }
            let mut i: usize = 0;
            assert(cells@.take(0) =~= Seq::<Json>::empty());
            assert(events_view(log@) =~= l0 + ast_cells(cells@.take(0), *doc).events);
            while i < cells.len()
                invariant
                    i <= cells.len(),
                    cells@ == kids(*row, "cells"@),
                    decreases_to!(*row => cells@),
                    built(out@, log@, l0, ast_cells(cells@.take(i as int), *doc)),
                decreases cells.len() - i,
            {
                assert(decreases_to!(cells@ => cells@[i as int]));
                let c = &cells[i];
                let blocks = kids_ast(c, "children", doc, log);
                let rs = int_member_or_one(c, "rowSpan");
                let cs = int_member_or_one(c, "colSpan");
                push_item(&mut out, arr_j(items5(attrs_j(), tnode_j("AlignDefault"), jint(rs), jint(cs), arr_j(blocks))));
                proof {
                    let t = cells@.take(i + 1);
                    assert(t.drop_last() =~= cells@.take(i as int));
                    assert(t.last() == cells@[i as int]);
                }
                i = i + 1;
                assert(jv_items(out@) =~= ast_cells(cells@.take(i as int), *doc).nodes);
                assert(events_view(log@) =~= l0 + ast_cells(cells@.take(i as int), *doc).events);
            }
            assert(cells@.take(cells.len() as int) =~= cells@);
        }
    }
    let r = items1(arr_j(items2(attrs_j(), arr_j(out))));
    assert(events_view(log@) =~= l0 + ast_row(*row, *doc).events);
    r
}

fn colspecs_j(n: usize) -> (r: Vec<Json>)
    ensures
        jv_items(r@) == Seq::new(n as nat, |i: int| colspec_v()),
{
    let mut out = items0();
    let mut i: usize = 0;
    while i < n
        invariant
            i <= n,
            jv_items(out@) == Seq::new(i as nat, |k: int| colspec_v()),
        decreases n - i,
    {
        push_item(&mut out, arr_j(items2(tnode_j("AlignDefault"), tcnode_j("ColWidth", Json::Number(JsonNumber::Float(0))))));
        i = i + 1;
        assert(jv_items(out@) =~= Seq::new(i as nat, |k: int| colspec_v()));
    }
    out
}

fn named_column(node: &Json) -> (r: bool)
    ensures
        r == has_named_column(*node),
{
    if let Some(cols) = node.get_array("columns") {
        let mut i: usize = 0;
        while i < cols.len()
            invariant
                i <= cols.len(),
                cols@ == kids(*node, "columns"@),
                forall|j: int| 0 <= j < i ==> str_or_empty(#[trigger] kids(*node, "columns"@)[j], "name"@).len() == 0,
            decreases cols.len() - i,
        {
            if chars_of(str_member(&cols[i], "name")).len() > 0 {
                assert(str_or_empty(kids(*node, "columns"@)[i as int], "name"@).len() > 0);
                return true;
            }
            i = i + 1;
        }
    }
    false
}

#[verifier::rlimit(80)]
fn table_ast(node: &Json, doc: &ExportDoc, log: &mut Vec<LossEvent>) -> (r: Vec<Json>)
    ensures
        built(r@, final(log)@, events_view(old(log)@), ast_table(*node, *doc)),
    decreases *node, 1nat,
{
    let ghost l0 = events_view(log@);
    let header = match node.get("header_row") {
        Some(Json::Bool(b)) => *b,
        _ => false,
    };
    assert(header == (get(*node, "header_row"@) == Some(Json::Bool(true))));
    if !header && named_column(node) {
        log_record(log, LossClass::Partial, "column_names", "degraded", "table", "无表头行的列名在 DOCX 导出中被丢弃");
    }
    let ghost l1 = events_view(log@);
    let ncols: usize = match node.get_array("columns") {
        Some(c) => c.len(),
        None => 0,
    };
    let colspecs = colspecs_j(ncols);
    let mut all = items0();
    let mut nrows: usize = 0;
    if let Some(rows) = node.get_array("rows") {
        nrows = rows.len();
        if rows.len() > 0 {
            proof { lemma_kids_inside(*node, "rows"@); }
            let mut i: usize = 0;
            assert(rows@.take(0) =~= Seq::<Json>::empty());
            assert(events_view(log@) =~= l1 + ast_rows(rows@.take(0), *doc).events);
            while i < rows.len()
                invariant
                    i <= rows.len(),
                    rows@ == kids(*node, "rows"@),
                    decreases_to!(*node => rows@),
                    built(all@, log@, l1, ast_rows(rows@.take(i as int), *doc)),
                decreases rows.len() - i,
            {
                assert(decreases_to!(rows@ => rows@[i as int]));
                let part = row_ast(&rows[i], doc, log);
                append_items(&mut all, part);
                proof {
                    let t = rows@.take(i + 1);
                    assert(t.drop_last() =~= rows@.take(i as int));
                }
                i = i + 1;
                assert(events_view(log@) =~= l1 + ast_rows(rows@.take(i as int), *doc).events);
            }
            assert(rows@.take(rows.len() as int) =~= rows@);
        }
    }
    let ghost rs = if kids(*node, "rows"@).len() > 0 { ast_rows(kids(*node, "rows"@), *doc) } else { nothing() };
    assert(nrows == kids(*node, "rows"@).len());
    assert(jv_items(all@) == rs.nodes);
    assert(events_view(log@) =~= l1 + rs.events);
    let mut head = items0();
    let mut body = all;
    proof { lemma_jv_items_index(body@); }
    if header && nrows > 0 && body.len() > 0 {
        let ghost b0 = body@;
        let first = body.remove(0);
        push_item(&mut head, first);
        proof {
            lemma_jv_items_index(body@);
            assert(jv_items(head@) =~= rs.nodes.take(1));
            assert(jv_items(body@) =~= rs.nodes.skip(1));
        }
    }
    proof { lemma_jv_items_len(all@); }
    log_none(log);
    let table = tcnode_j(
        "Table",
        arr_j(items6(
            attrs_j(),
            arr_j(items2(null_j(), arr_j(items0()))),
            arr_j(colspecs),
            arr_j(items2(attrs_j(), arr_j(head))),
            arr_j(items1(arr_j(items4(attrs_j(), jint(0), arr_j(items0()), arr_j(body))))),
            arr_j(items2(attrs_j(), arr_j(items0()))),
        )),
    );
    proof {
        let split = header && kids(*node, "rows"@).len() > 0;
        if !split {
            assert(jv_items(head@) =~= Seq::<JsonV>::empty());
        }
    }
    assert(events_view(log@) =~= l0 + ast_table(*node, *doc).events);
    items1(table)
}

#[verifier::rlimit(50)]
fn callout_ast(node: &Json, doc: &ExportDoc, log: &mut Vec<LossEvent>) -> (r: Vec<Json>)
    ensures
        built(r@, final(log)@, events_view(old(log)@), ast_callout(*node, *doc)),
    decreases *node, 1nat,
{
    let ghost l0 = events_view(log@);
    let children = kids_ast(node, "children", doc, log);
    let variant = match node.get_str("variant") {
        Some(v) => v,
        None => "note",
    };
    proof { reveal_strlit(""); assert(""@ =~= Seq::<char>::empty()); }
    log_record(log, LossClass::Partial, "callout_docx", "degraded", variant, "提示块在 DOCX 导出中以 Div(类) 呈现，样式取决于阅读器");
    let r = items1(tcnode_j("Div", arr_j(items2(arr_j(items3(jstr(""), arr_j(items1(jstr(variant))), arr_j(items0()))), arr_j(children)))));
    assert(events_view(log@) =~= l0 + ast_callout(*node, *doc).events);
    r
}

#[verifier::rlimit(80)]
fn block_ast(node: &Json, doc: &ExportDoc, log: &mut Vec<LossEvent>) -> (r: Vec<Json>)
    ensures
        built(r@, final(log)@, events_view(old(log)@), ast_block(*node, *doc)),
    decreases *node, 3nat,
{
    let ghost l0 = events_view(log@);
    proof { lemma_block_names(); }
    let t = str_member(node, "type");
    if str_eq(t, "section") {
        log_none(log);
        let r = kids_ast(node, "children", doc, log);
        assert(events_view(log@) =~= l0 + ast_block(*node, *doc).events);
        r
    } else if str_eq(t, "heading") {
        let inlines = inline_ast(node, "content", doc, log);
        let level: i64 = match node.get("level") {
            Some(x) => match x.as_i64() {
                Some(n) => n,
                None => 1,
            },
            None => 1,
        };
        assert(level == heading_level(*node));
        log_none(log);
        let r = items1(tcnode_j("Header", arr_j(items3(jint(level), attrs_j(), arr_j(inlines)))));
        assert(events_view(log@) =~= l0 + ast_block(*node, *doc).events);
        r
    } else if str_eq(t, "paragraph") {
        let inlines = inline_ast(node, "content", doc, log);
        proof { lemma_jv_items_len(inlines@); }
        if inlines.len() == 0 {
            log_none(log);
            assert(events_view(log@) =~= l0 + ast_block(*node, *doc).events);
            items0()
        } else {
            items1(tcnode_j("Para", arr_j(inlines)))
        }
    } else if str_eq(t, "quote") {
        let children = kids_ast(node, "children", doc, log);
        log_none(log);
        let r = items1(tcnode_j("BlockQuote", arr_j(children)));
        assert(events_view(log@) =~= l0 + ast_block(*node, *doc).events);
        r
    } else if str_eq(t, "list") {
        list_ast(node, doc, log)
    } else if str_eq(t, "table") {
        table_ast(node, doc, log)
    } else if str_eq(t, "figure") || str_eq(t, "image") {
        figure_ast(node, t, doc, log)
    } else if str_eq(t, "callout") {
        callout_ast(node, doc, log)
    } else if str_eq(t, "code_block") || str_eq(t, "horizontal_rule") || str_eq(t, "math_block") || str_eq(t, "footnote")
        || str_eq(t, "embed") || str_eq(t, "unknown") {
        atom_block_ast(node, t, doc, log)
    } else {
        log_record(log, LossClass::Partial, "docx_export_fallback", "degraded", t, "未知块类型按子内容降级导出");
        let r = kids_ast(node, "children", doc, log);
        assert(events_view(log@) =~= l0 + ast_block(*node, *doc).events);
        r
    }
}

// ------------------------------------------------------------------ the document

/// The metadata: the title as inlines, the language as a string, each when
/// the document has it.
pub open spec fn meta_members(doc: ExportDoc) -> Seq<(Seq<char>, JsonV)> {
    (match doc.title {
        Some(t) => seq![("title"@, tcnode("MetaInlines"@, arr(seq![str_inline(t@)])))],
        None => Seq::empty(),
    }) + (match doc.language {
        Some(l) => seq![("language"@, tcnode("MetaString"@, sv(l@)))],
        None => Seq::empty(),
    })
}

/// The Pandoc document: API version 1.23.1, the metadata, the blocks of the
/// `content` member.
pub open spec fn pandoc_doc(doc: ExportDoc) -> JsonV {
    JsonV::Object(seq![
        ("pandoc-api-version"@, arr(seq![int_v(1), int_v(23), int_v(1)])),
        ("meta"@, JsonV::Object(meta_members(doc))),
        ("blocks"@, arr(ast_kids(doc.content, "content"@, doc).nodes)),
    ])
}

/// Maps a document to the Pandoc JSON AST, appending the loss events of the
/// mapping to `log`. Assets are referred to by the files their bytes were
/// written to (see `AssetMeta::file`), external ones by their URL.
pub fn prima_to_ast(doc: &ExportDoc, log: &mut Vec<LossEvent>) -> (r: Json)
    ensures
        jv(r) == pandoc_doc(*doc),
        events_view(final(log)@) == events_view(old(log)@) + ast_kids(doc.content, "content"@, *doc).events,
{
    let blocks = kids_ast(&doc.content, "content", doc, log);
    let mut meta: Vec<(String, Json)> = Vec::new();
    assert(jv_members(meta@) =~= Seq::empty());
    if let Some(t) = &doc.title {
        push_member(&mut meta, "title", tcnode_j("MetaInlines", arr_j(items1(str_inline_j(t.as_str())))));
    }
    let ghost m1 = jv_members(meta@);
    if let Some(l) = &doc.language {
        push_member(&mut meta, "language", tcnode_j("MetaString", jstr(l.as_str())));
    }
    assert(jv_members(meta@) =~= meta_members(*doc));
    let mut top: Vec<(String, Json)> = Vec::new();
    assert(jv_members(top@) =~= Seq::empty());
    push_member(&mut top, "pandoc-api-version", arr_j(items3(jint(1), jint(23), jint(1))));
    push_member(&mut top, "meta", Json::Object(meta));
    push_member(&mut top, "blocks", arr_j(blocks));
    let r = Json::Object(top);
    assert(jv_members(top@) =~= seq![
        ("pandoc-api-version"@, arr(seq![int_v(1), int_v(23), int_v(1)])),
        ("meta"@, JsonV::Object(meta_members(*doc))),
        ("blocks"@, arr(ast_kids(doc.content, "content"@, *doc).nodes)),
    ]);
    r
}

// ------------------------------------------------------------------ laws

/// The text a `Str` or `Space` inline stands for (nothing for others).
pub open spec fn inline_text(n: JsonV) -> Seq<char> {
    match n {
        JsonV::Object(ms) => if ms.len() == 2 && ms[0] == ("t"@, JsonV::Str("Str"@)) && ms[1].0 == "c"@ {
            match ms[1].1 {
                JsonV::Str(w) => w,
                _ => Seq::empty(),
            }
        } else if ms.len() == 1 && ms[0] == ("t"@, JsonV::Str("Space"@)) {
            " "@
        } else {
            Seq::empty()
        },
        _ => Seq::empty(),
    }
}

/// The text of a list of inlines.
pub open spec fn inlines_text(ns: Seq<JsonV>) -> Seq<char>
    decreases ns.len(),
{
    if ns.len() == 0 {
        Seq::empty()
    } else {
        inlines_text(ns.drop_last()) + inline_text(ns.last())
    }
}

proof fn lemma_inlines_text_concat(a: Seq<JsonV>, b: Seq<JsonV>)
    ensures
        inlines_text(a + b) == inlines_text(a) + inlines_text(b),
    decreases b.len(),
{
    if b.len() == 0 {
        assert(a + b =~= a);
        assert(inlines_text(a) + inlines_text(b) =~= inlines_text(a));
    } else {
        lemma_inlines_text_concat(a, b.drop_last());
        assert((a + b).drop_last() =~= a + b.drop_last());
        assert(inlines_text(a + b) =~= inlines_text(a) + inlines_text(b));
    }
}

/// Text exported to Pandoc loses nothing: the `Str` and `Space` inlines it
/// becomes spell out the text again, space for space.
pub proof fn law_text_inlines_keep_text(s: Seq<char>)
    ensures
        inlines_text(text_nodes(s)) == s,
    decreases s.len(),
{
    reveal_strlit(" ");
    let i = first_index(s, ' ');
    lemma_first_index(s, ' ');
    let w = if i < 0 { s } else { s.take(i) };
    assert(inlines_text(word_nodes(w)) == w) by {
        if w.len() > 0 {
            let one = seq![str_inline(w)];
            assert(word_nodes(w) =~= one);
            assert(one.drop_last() =~= Seq::<JsonV>::empty());
            assert(inlines_text(Seq::<JsonV>::empty()) == Seq::<char>::empty());
            assert(inline_text(str_inline(w)) == w);
            assert(one.last() == str_inline(w));
            assert(inlines_text(one) == inlines_text(one.drop_last()) + inline_text(one.last()));
            assert(Seq::<char>::empty() + w =~= w);
        } else {
            assert(word_nodes(w) =~= Seq::<JsonV>::empty());
            assert(w =~= Seq::<char>::empty());
        }
    }
    if i >= 0 {
        let rest = s.skip(i + 1);
        law_text_inlines_keep_text(rest);
        let sp = seq![space_v()];
        assert(inlines_text(sp) == " "@) by {
            assert(sp.drop_last() =~= Seq::<JsonV>::empty());
            assert(inlines_text(Seq::<JsonV>::empty()) == Seq::<char>::empty());
            assert(inline_text(space_v()) == " "@);
            assert(sp.last() == space_v());
            assert(inlines_text(sp) == inlines_text(sp.drop_last()) + inline_text(sp.last()));
            assert(Seq::<char>::empty() + " "@ =~= " "@);
        }
        lemma_inlines_text_concat(word_nodes(w) + sp, text_nodes(rest));
        lemma_inlines_text_concat(word_nodes(w), sp);
        assert(" "@ =~= seq![' ']);
        assert(w + " "@ + rest =~= s);
    }
}

} // verus!

verus! {

/// Each formatting span becomes its own Pandoc container holding the
/// content's inlines: `em` an `Emph`, `strong` a `Strong`, `strike` a
/// `Strikeout` and `underline` an `Underline`.
pub proof fn law_formatting_containers(span: Json, doc: ExportDoc)
    ensures
        ({
            let t = str_of(get(span, "type"@));
            let inner = ast_inline_of(span, "content"@, doc).nodes;
            let nodes = ast_span(span, doc).nodes;
            let node = |k: Seq<char>| JsonV::Object(seq![("t"@, JsonV::Str(k)), ("c"@, JsonV::Array(inner))]);
            &&& t == Some("em"@) ==> nodes == seq![node("Emph"@)]
            &&& t == Some("strong"@) ==> nodes == seq![node("Strong"@)]
            &&& t == Some("strike"@) ==> nodes == seq![node("Strikeout"@)]
            &&& t == Some("underline"@) ==> nodes == seq![node("Underline"@)]
        }),
{
    lemma_span_names();
}

/// A hard break becomes a Pandoc `LineBreak`, a code span a `Code` inline
/// with empty attributes and the span's text, inline math a `Math` of kind
/// `InlineMath` with its LaTeX, and a link a `Link` holding the content's
/// inlines and the URL with its title.
pub proof fn law_leaf_and_link_inlines(span: Json, doc: ExportDoc)
    ensures
        ({
            let t = str_of(get(span, "type"@));
            let nodes = ast_span(span, doc).nodes;
            let s = |x: Seq<char>| JsonV::Str(x);
            let no_attrs = JsonV::Array(seq![s(Seq::empty()), JsonV::Array(Seq::empty()), JsonV::Array(Seq::empty())]);
            let tc = |k: Seq<char>, c: Seq<JsonV>| JsonV::Object(seq![("t"@, s(k)), ("c"@, JsonV::Array(c))]);
            &&& t == Some("hard_break"@) ==> nodes == seq![JsonV::Object(seq![("t"@, s("LineBreak"@))])]
            &&& t == Some("code"@) ==> nodes == seq![tc("Code"@, seq![no_attrs, s(str_or_empty(span, "text"@))])]
            &&& t == Some("inline_math"@) ==> nodes == seq![
                tc("Math"@, seq![JsonV::Object(seq![("t"@, s("InlineMath"@))]), s(str_or_empty(span, "latex"@))]),
            ]
            &&& t == Some("link"@) ==> nodes == seq![
                tc(
                    "Link"@,
                    seq![
                        no_attrs,
                        JsonV::Array(ast_inline_of(span, "content"@, doc).nodes),
                        JsonV::Array(seq![s(str_or_empty(span, "url"@)), s(str_or_empty(span, "title"@))]),
                    ],
                ),
            ]
        }),
{
    reveal(ast_leaf_span);
    lemma_span_names();
    lemma_leaf_names();
    reveal_strlit("em");
    reveal_strlit("strong");
    reveal_strlit("strike");
    reveal_strlit("underline");
    reveal_strlit("hard_break");
    reveal_strlit("code");
    reveal_strlit("inline_math");
    reveal_strlit("link");
    assert("em"@.len() == 2 && "strong"@.len() == 6 && "strike"@.len() == 6 && "underline"@.len() == 9);
    assert("hard_break"@.len() == 10 && "code"@.len() == 4 && "inline_math"@.len() == 11);
    assert(!mark_span("hard_break"@) && !mark_span("code"@) && !mark_span("inline_math"@));
}

} // verus!

verus! {

/// A heading of level `n` (one when the level is missing) becomes one
/// Pandoc `Header` whose level is `n`, with empty attributes and the
/// heading's inlines.
pub proof fn law_heading_header(node: Json, doc: ExportDoc, n: int)
    requires
        str_of(get(node, "type"@)) == Some("heading"@),
        i64_of(get(node, "level"@)) == Some(n) || (i64_of(get(node, "level"@)) is None && n == 1),
    ensures
        ast_block(node, doc).nodes == seq![
            JsonV::Object(
                seq![
                    ("t"@, JsonV::Str("Header"@)),
                    ("c"@, JsonV::Array(seq![int_v(n), attrs_v(), JsonV::Array(ast_inline_of(node, "content"@, doc).nodes)])),
                ],
            ),
        ],
{
    reveal_strlit("heading");
    reveal_strlit("section");
    assert("heading"@.len() == 7 && "section"@.len() == 7);
    assert("heading"@[0] != "section"@[0]);
}

/// An ordered list becomes one Pandoc `OrderedList` and any other list one
/// `BulletList`.
pub proof fn law_list_kind(node: Json, doc: ExportDoc)
    requires
        str_of(get(node, "type"@)) == Some("list"@),
    ensures
        ast_block(node, doc).nodes.len() == 1,
        ast_block(node, doc).nodes[0] matches JsonV::Object(ms) && ms.len() == 2 && ms[0] == ("t"@, JsonV::Str(
            if str_of(get(node, "style"@)) == Some("ordered"@) { "OrderedList"@ } else { "BulletList"@ },
        )),
{
    reveal_strlit("list");
    reveal_strlit("section");
    reveal_strlit("heading");
    reveal_strlit("paragraph");
    reveal_strlit("quote");
    assert("list"@.len() == 4 && "section"@.len() == 7 && "heading"@.len() == 7 && "paragraph"@.len() == 9);
    assert("quote"@.len() == 5);
}

/// A quote becomes one Pandoc `BlockQuote` holding its children's blocks,
/// and a paragraph with inlines becomes one `Para` holding them.
pub proof fn law_quote_and_para(node: Json, doc: ExportDoc)
    ensures
        str_of(get(node, "type"@)) == Some("quote"@) ==> ast_block(node, doc).nodes == seq![
            JsonV::Object(
                seq![("t"@, JsonV::Str("BlockQuote"@)), ("c"@, JsonV::Array(ast_kids(node, "children"@, doc).nodes))],
            ),
        ],
        str_of(get(node, "type"@)) == Some("paragraph"@) && ast_inline_of(node, "content"@, doc).nodes.len() > 0
            ==> ast_block(node, doc).nodes == seq![
            JsonV::Object(
                seq![("t"@, JsonV::Str("Para"@)), ("c"@, JsonV::Array(ast_inline_of(node, "content"@, doc).nodes))],
            ),
        ],
{
    lemma_block_names();
}

/// A code block becomes a Pandoc `CodeBlock` whose one class is the
/// language (no class when there is none) holding the code, a horizontal
/// rule a `HorizontalRule`, a math block a paragraph of `DisplayMath`, and a
/// callout a `Div` whose one class is its variant (`note` when missing).
pub proof fn law_code_rule_math_callout(node: Json, doc: ExportDoc)
    ensures
        ({
            let t = str_of(get(node, "type"@));
            let nodes = ast_block(node, doc).nodes;
            let s = |x: Seq<char>| JsonV::Str(x);
            let a = |x: Seq<JsonV>| JsonV::Array(x);
            let tc = |k: Seq<char>, c: Seq<JsonV>| JsonV::Object(seq![("t"@, s(k)), ("c"@, a(c))]);
            let lang = str_or_empty(node, "language"@);
            let classes = if lang.len() == 0 { Seq::<JsonV>::empty() } else { seq![s(lang)] };
            let variant = match str_of(get(node, "variant"@)) {
                Some(v) => v,
                None => "note"@,
            };
            &&& t == Some("code_block"@) ==> nodes == seq![
                tc("CodeBlock"@, seq![a(seq![s(Seq::empty()), a(classes), a(Seq::empty())]), s(str_or_empty(node, "text"@))]),
            ]
            &&& t == Some("horizontal_rule"@) ==> nodes == seq![JsonV::Object(seq![("t"@, s("HorizontalRule"@))])]
            &&& t == Some("math_block"@) ==> nodes == seq![
                tc(
                    "Para"@,
                    seq![tc("Math"@, seq![JsonV::Object(seq![("t"@, s("DisplayMath"@))]), s(str_or_empty(node, "latex"@))])],
                ),
            ]
            &&& t == Some("callout"@) ==> nodes == seq![
                tc("Div"@, seq![a(seq![s(Seq::empty()), a(seq![s(variant)]), a(Seq::empty())]), a(ast_kids(node, "children"@, doc).nodes)]),
            ]
        }),
{
    lemma_block_names();
    reveal(ast_atom_block);
}

} // verus!
