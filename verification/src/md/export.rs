//! Markdown export: a Prima content tree rendered as GitHub-flavoured
//! Markdown, with the loss events of the rendering. Footnotes are labelled
//! (their `label`, or a running number) and written after the body.

use vstd::prelude::*;
use crate::convert::{
    asset_url, events_view, find_pair, log_none, log_record, lookup, lossless, record, str_member, str_or_empty,
    text, then, url_of, wrap, wrote, ExportDoc, LossEvent, LossEventView, Rendered,
};
use crate::json::{get, i64_of, kids, lemma_kids_inside, str_of, Json};
use crate::ooxml::document::LossClass;
use crate::text::{
    chars_of, dec, dec_int, fmt_i64, fmt_u64, has_prefix, has_suffix, push_all, push_str, replace_all, replace_chars,
    str_eq, string_of, trim, trim_seq,
};

verus! {

// ------------------------------------------------------------------ CommonMark escapes

/// The characters `comrak` escapes with a backslash in inline text.
pub open spec fn cm_special(c: char) -> bool {
    c == '*' || c == '_' || c == '[' || c == ']' || c == '#' || c == '<' || c == '>' || c == '\\' || c == '`'
        || c == '~' || c == '!' || c == '&' || c == '-' || c == '+' || c == '=' || c == '.' || c == '('
        || c == ')' || c == '"'
}

/// The escape of one character of inline text, given the character after
/// it: control characters become numeric references, the special
/// characters (and a `%` before another `%`) get a backslash.
pub open spec fn cm_inline_char(c: char, next: Option<char>) -> Seq<char> {
    if ' ' > c {
        "&#"@ + dec(c as nat) + ";"@
    } else if cm_special(c) || (c == '%' && next == Some('%')) {
        seq!['\\', c]
    } else {
        seq![c]
    }
}

/// `comrak::escape_commonmark_inline`.
pub open spec fn cm_inline(s: Seq<char>) -> Seq<char>
    decreases s.len(),
{
    if s.len() == 0 {
        Seq::empty()
    } else {
        cm_inline_char(s[0], if s.len() > 1 { Some(s[1]) } else { None }) + cm_inline(s.drop_first())
    }
}

/// The escape of one character of a link destination.
pub open spec fn cm_dest_char(c: char) -> Seq<char> {
    if c == '<' || c == '>' {
        seq!['\\', c]
    } else if c == '\n' {
        "%0A"@
    } else if c == '\r' {
        "%0D"@
    } else {
        seq![c]
    }
}

/// The escaped characters of a link destination.
pub open spec fn cm_dest_body(s: Seq<char>) -> Seq<char>
    decreases s.len(),
{
    if s.len() == 0 {
        Seq::empty()
    } else {
        cm_dest_body(s.drop_last()) + cm_dest_char(s.last())
    }
}

/// `comrak::escape_commonmark_link_destination`: the destination in angle
/// brackets.
pub open spec fn cm_dest(s: Seq<char>) -> Seq<char> {
    "<"@ + cm_dest_body(s) + ">"@
}

/// Escapes inline text for CommonMark with `comrak::escape_commonmark_inline`,
/// which (in its source) maps each character as `cm_inline_char` says.
#[verifier::external_body]
fn escape_inline(text: &str) -> (r: String)
    ensures
        r@ == cm_inline(text@),
{
    comrak::escape_commonmark_inline(text)
}

/// Escapes a link destination with `comrak::escape_commonmark_link_destination`,
/// which (in its source) wraps it in angle brackets and maps each character as
/// `cm_dest_char` says.
#[verifier::external_body]
pub(crate) fn escape_link(url: &str) -> (r: String)
    ensures
        r@ == cm_dest(url@),
{
    comrak::escape_commonmark_link_destination(url)
}

// ------------------------------------------------------------------ text helpers

/// `n` copies of `c`.
pub open spec fn repeat(c: char, n: nat) -> Seq<char> {
    Seq::new(n, |i: int| c)
}

/// How often `c` occurs in `s`.
pub open spec fn count_char(s: Seq<char>, c: char) -> nat
    decreases s.len(),
{
    if s.len() == 0 {
        0
    } else {
        count_char(s.drop_last(), c) + if s.last() == c { 1nat } else { 0nat }
    }
}

pub(crate) fn push_repeat(out: &mut Vec<char>, c: char, n: u64)
    ensures
        final(out)@ == old(out)@ + repeat(c, n as nat),
{
    let ghost o0 = out@;
    let mut i: u64 = 0;
    while i < n
        invariant
            i <= n,
            out@ == o0 + repeat(c, i as nat),
        decreases n - i,
    {
        out.push(c);
        i = i + 1;
        assert(out@ =~= o0 + repeat(c, i as nat));
    }
}

fn count_of(s: &[char], c: char) -> (r: u64)
    ensures
        r == count_char(s@, c),
{
    let mut i: usize = 0;
    let mut k: u64 = 0;
    while i < s.len()
        invariant
            i <= s.len(),
            k == count_char(s@.take(i as int), c),
            k <= i,
        decreases s.len() - i,
    {
        assert(s@.take(i + 1).drop_last() =~= s@.take(i as int));
        if s[i] == c {
            k = k + 1;
        }
        i = i + 1;
    }
    assert(s@.take(s.len() as int) =~= s@);
    k
}

// ------------------------------------------------------------------ footnote labels

/// The label a footnote id last received.
pub open spec fn label_of(labels: Seq<(Seq<char>, Seq<char>)>, id: Seq<char>) -> Option<Seq<char>>
    decreases labels.len(),
{
    if labels.len() == 0 {
        None
    } else if labels.last().0 == id {
        Some(labels.last().1)
    } else {
        label_of(labels.drop_last(), id)
    }
}

/// Label pairs as plain values.
pub open spec fn labels_view(v: Seq<(String, String)>) -> Seq<(Seq<char>, Seq<char>)> {
    v.map_values(|p: (String, String)| (p.0@, p.1@))
}

fn find_label<'a>(labels: &'a Vec<(String, String)>, id: &str) -> (r: Option<&'a str>)
    ensures
        match r {
            Some(l) => label_of(labels_view(labels@), id@) == Some(l@),
            None => label_of(labels_view(labels@), id@) is None,
        },
{
    let ghost lv = labels_view(labels@);
    let mut i: usize = labels.len();
    assert(lv.take(labels.len() as int) =~= lv);
    while i > 0
        invariant
            i <= labels.len(),
            lv == labels_view(labels@),
            label_of(lv, id@) == label_of(lv.take(i as int), id@),
        decreases i,
    {
        assert(lv.take(i as int).drop_last() =~= lv.take(i - 1));
        if str_eq(labels[i - 1].0.as_str(), id) {
            return Some(labels[i - 1].1.as_str());
        }
        i = i - 1;
    }
    None
}

// ------------------------------------------------------------------ spans

/// The Markdown of the span list member `key` (nothing when absent).
pub open spec fn md_inline_of(v: Json, key: Seq<char>, doc: ExportDoc, labels: Seq<(Seq<char>, Seq<char>)>) -> Rendered
    decreases v, 0nat,
{
    let k = kids(v, key);
    if k.len() > 0 {
        proof { lemma_kids_inside(v, key); }
        md_spans(k, doc, labels)
    } else {
        text(Seq::empty())
    }
}

/// The Markdown of a list of spans.
pub open spec fn md_spans(spans: Seq<Json>, doc: ExportDoc, labels: Seq<(Seq<char>, Seq<char>)>) -> Rendered
    decreases spans, 2nat,
{
    if spans.len() == 0 {
        text(Seq::empty())
    } else {
        then(md_spans(spans.drop_last(), doc, labels), md_span(spans.last(), doc, labels))
    }
}

/// A text, hard break or code span.
#[verifier::opaque]
pub open spec fn md_plain_span(span: Json, t: Seq<char>) -> Seq<char> {
    if t == "text"@ {
        cm_inline(str_or_empty(span, "text"@))
    } else if t == "hard_break"@ {
        "\\\n"@
    } else {
        let code = str_or_empty(span, "text"@);
        let ticks = repeat('`', count_char(code, '`') + 1);
        let pad = if has_prefix(code, "`"@) || has_suffix(code, "`"@) { " "@ } else { Seq::empty() };
        ticks + pad + code + pad + ticks
    }
}

/// The delimiters of the emphasis spans Markdown can express.
pub open spec fn md_delim(t: Seq<char>) -> Seq<char> {
    if t == "em"@ {
        "*"@
    } else if t == "strong"@ {
        "**"@
    } else {
        "~~"@
    }
}

/// A link span, with its title when it has one (double quotes in the title
/// become single quotes).
pub open spec fn md_link(span: Json, doc: ExportDoc, labels: Seq<(Seq<char>, Seq<char>)>) -> Rendered
    decreases span, 1nat,
{
    let inner = md_inline_of(span, "content"@, doc, labels);
    let dest = cm_dest(str_or_empty(span, "url"@));
    let tail = match str_of(get(span, "title"@)) {
        Some(ti) => dest + " \""@ + replace_all(ti, seq!['"'], seq!['\'']) + "\")"@,
        None => dest + ")"@,
    };
    Rendered { html: "["@ + inner.html + "]("@ + tail, events: inner.events.push(LossEventView::NodeNone) }
}

/// A math, image, footnote reference, unknown, mention or citation span.
#[verifier::opaque]
pub open spec fn md_atom_span(span: Json, t: Seq<char>, doc: ExportDoc, labels: Seq<(Seq<char>, Seq<char>)>) -> Rendered {
    if t == "inline_math"@ {
        lossless("$"@ + str_or_empty(span, "latex"@) + "$"@)
    } else if t == "inline_image"@ {
        lossless("!["@ + str_or_empty(span, "alt"@) + "]("@ + cm_dest(url_of(doc, str_or_empty(span, "asset"@))) + ")"@)
    } else if t == "footnote_ref"@ {
        match label_of(labels, str_or_empty(span, "id"@)) {
            Some(l) => lossless("[^"@ + l + "]"@),
            None => lossless(Seq::empty()),
        }
    } else if t == "unknown"@ {
        Rendered {
            html: Seq::empty(),
            events: seq![record(LossClass::PreservedRaw, "unknown_span_md"@, "preserved"@, str_or_empty(span, "payload_ref"@), "未知行内内容在 Markdown 导出中被省略，原文保留于容器"@)],
        }
    } else if t == "mention"@ {
        let target = str_or_empty(span, "target"@);
        Rendered { html: target, events: seq![record(LossClass::Partial, "mention_md"@, "degraded"@, target, "提及在 Markdown 中以纯文本呈现"@)] }
    } else {
        let key = str_or_empty(span, "key"@);
        Rendered { html: key, events: seq![record(LossClass::Partial, "cite_md"@, "degraded"@, key, "引用键在 Markdown 中以纯文本呈现"@)] }
    }
}

/// The Markdown of one span.
pub open spec fn md_span(span: Json, doc: ExportDoc, labels: Seq<(Seq<char>, Seq<char>)>) -> Rendered
    decreases span, 2nat,
{
    let t = str_or_empty(span, "type"@);
    if t == "text"@ || t == "hard_break"@ || t == "code"@ {
        text(md_plain_span(span, t))
    } else if t == "em"@ || t == "strong"@ || t == "strike"@ {
        wrap(md_delim(t), md_inline_of(span, "content"@, doc, labels), md_delim(t))
    } else if t == "underline"@ {
        then(
            Rendered {
                html: Seq::empty(),
                events: seq![record(LossClass::Partial, "underline_md"@, "degraded"@, "underline"@, "下划线在 Markdown 中无法表达，退化为普通文本"@)],
            },
            md_inline_of(span, "content"@, doc, labels),
        )
    } else if t == "link"@ {
        md_link(span, doc, labels)
    } else if t == "inline_math"@ || t == "inline_image"@ || t == "footnote_ref"@ || t == "unknown"@ || t == "mention"@ || t == "cite"@ {
        md_atom_span(span, t, doc, labels)
    } else {
        md_inline_of(span, "content"@, doc, labels)
    }
}

// ------------------------------------------------------------------ writing spans

fn write_plain_span(span: &Json, t: &str, out: &mut Vec<char>)
    requires
        t@ == "text"@ || t@ == "hard_break"@ || t@ == "code"@,
    ensures
        final(out)@ == old(out)@ + md_plain_span(*span, t@),
{
    proof { reveal(md_plain_span); }
    let ghost o0 = out@;
    if str_eq(t, "text") {
        let e = escape_inline(str_member(span, "text"));
        push_str(out, e.as_str());
    } else if str_eq(t, "hard_break") {
        push_str(out, "\\\n");
    } else {
        let code = chars_of(str_member(span, "text"));
        let n = count_of(code.as_slice(), '`');
        proof { lemma_count_le(code@, '`'); }
        let pad = if crate::text::starts_with(code.as_slice(), chars_of("`").as_slice())
            || crate::text::ends_with(code.as_slice(), chars_of("`").as_slice()) {
            " "
        } else {
            ""
        };
        proof { reveal_strlit(""); }
        push_repeat(out, '`', n);
        out.push('`');
        push_str(out, pad);
        push_all(out, code.as_slice());
        push_str(out, pad);
        push_repeat(out, '`', n);
        out.push('`');
        assert(repeat('`', n as nat).push('`') =~= repeat('`', (n + 1) as nat));
    }
    assert(out@ =~= o0 + md_plain_span(*span, t@));
}

proof fn lemma_count_le(s: Seq<char>, c: char)
    ensures
        count_char(s, c) <= s.len(),
    decreases s.len(),
{
    if s.len() > 0 {
        lemma_count_le(s.drop_last(), c);
    }
}

fn write_atom_span(
    span: &Json,
    t: &str,
    doc: &ExportDoc,
    labels: &Vec<(String, String)>,
    out: &mut Vec<char>,
    log: &mut Vec<LossEvent>,
)
    requires
        t@ == "inline_math"@ || t@ == "inline_image"@ || t@ == "footnote_ref"@ || t@ == "unknown"@ || t@ == "mention"@
            || t@ == "cite"@,
    ensures
        wrote(final(out)@, final(log)@, old(out)@, events_view(old(log)@), md_atom_span(*span, t@, *doc, labels_view(labels@))),
{
    proof { reveal(md_atom_span); }
    let ghost o0 = out@;
    let ghost l0 = events_view(log@);
    if str_eq(t, "inline_math") {
        log_none(log);
        push_str(out, "$");
        push_str(out, str_member(span, "latex"));
        push_str(out, "$");
    } else if str_eq(t, "inline_image") {
        log_none(log);
        push_str(out, "![");
        push_str(out, str_member(span, "alt"));
        push_str(out, "](");
        let dest = escape_link(asset_url(doc, str_member(span, "asset")));
        push_str(out, dest.as_str());
        push_str(out, ")");
    } else if str_eq(t, "footnote_ref") {
        log_none(log);
        if let Some(l) = find_label(labels, str_member(span, "id")) {
            push_str(out, "[^");
            push_str(out, l);
            push_str(out, "]");
        }
    } else if str_eq(t, "unknown") {
        log_record(log, LossClass::PreservedRaw, "unknown_span_md", "preserved", str_member(span, "payload_ref"), "未知行内内容在 Markdown 导出中被省略，原文保留于容器");
    } else if str_eq(t, "mention") {
        let target = str_member(span, "target");
        log_record(log, LossClass::Partial, "mention_md", "degraded", target, "提及在 Markdown 中以纯文本呈现");
        push_str(out, target);
    } else {
        let key = str_member(span, "key");
        log_record(log, LossClass::Partial, "cite_md", "degraded", key, "引用键在 Markdown 中以纯文本呈现");
        push_str(out, key);
    }
    assert(out@ =~= o0 + md_atom_span(*span, t@, *doc, labels_view(labels@)).html);
    assert(events_view(log@) =~= l0 + md_atom_span(*span, t@, *doc, labels_view(labels@)).events);
}

#[verifier::rlimit(50)]
pub(crate) fn write_inline(v: &Json, key: &str, doc: &ExportDoc, labels: &Vec<(String, String)>, out: &mut Vec<char>, log: &mut Vec<LossEvent>)
    ensures
        wrote(final(out)@, final(log)@, old(out)@, events_view(old(log)@), md_inline_of(*v, key@, *doc, labels_view(labels@))),
    decreases *v, 0nat,
{
    let ghost lv = labels_view(labels@);
    let ghost o0 = out@;
    let ghost l0 = events_view(log@);
    if let Some(spans) = v.get_array(key) {
        if spans.len() > 0 {
            proof { lemma_kids_inside(*v, key@); }
            let mut i: usize = 0;
            assert(out@ =~= o0 + md_spans(spans@.take(0), *doc, lv).html);
            assert(events_view(log@) =~= l0 + md_spans(spans@.take(0), *doc, lv).events);
            while i < spans.len()
                invariant
                    i <= spans.len(),
                    spans@ == kids(*v, key@),
                    decreases_to!(*v => spans@),
                    lv == labels_view(labels@),
                    wrote(out@, log@, o0, l0, md_spans(spans@.take(i as int), *doc, lv)),
                decreases spans.len() - i,
            {
                assert(decreases_to!(spans@ => spans@[i as int]));
                write_span(&spans[i], doc, labels, out, log);
                proof {
                    let t = spans@.take(i + 1);
                    assert(t.drop_last() =~= spans@.take(i as int));
                }
                i = i + 1;
                assert(out@ =~= o0 + md_spans(spans@.take(i as int), *doc, lv).html);
                assert(events_view(log@) =~= l0 + md_spans(spans@.take(i as int), *doc, lv).events);
            }
            assert(spans@.take(spans.len() as int) =~= spans@);
            return;
        }
    }
    assert(out@ =~= o0 + md_inline_of(*v, key@, *doc, lv).html);
    assert(events_view(log@) =~= l0 + md_inline_of(*v, key@, *doc, lv).events);
}

#[verifier::rlimit(50)]
fn write_link(span: &Json, doc: &ExportDoc, labels: &Vec<(String, String)>, out: &mut Vec<char>, log: &mut Vec<LossEvent>)
    ensures
        wrote(final(out)@, final(log)@, old(out)@, events_view(old(log)@), md_link(*span, *doc, labels_view(labels@))),
    decreases *span, 1nat,
{
    let ghost lv = labels_view(labels@);
    let ghost o0 = out@;
    let ghost l0 = events_view(log@);
    push_str(out, "[");
    write_inline(span, "content", doc, labels, out, log);
    log_none(log);
    push_str(out, "](");
    let dest = escape_link(str_member(span, "url"));
    push_str(out, dest.as_str());
    if let Some(title) = span.get_str("title") {
        push_str(out, " \"");
        proof {
            reveal_strlit("\"");
            reveal_strlit("'");
        }
        let quote = chars_of("\"");
        let apostrophe = chars_of("'");
        assert(quote@ =~= seq!['"']);
        assert(apostrophe@ =~= seq!['\'']);
        let t = replace_chars(chars_of(title).as_slice(), quote.as_slice(), apostrophe.as_slice());
        push_all(out, t.as_slice());
        push_str(out, "\")");
    } else {
        push_str(out, ")");
    }
    assert(out@ =~= o0 + md_link(*span, *doc, lv).html);
    assert(events_view(log@) =~= l0 + md_link(*span, *doc, lv).events);
}

#[verifier::rlimit(50)]
fn write_span(span: &Json, doc: &ExportDoc, labels: &Vec<(String, String)>, out: &mut Vec<char>, log: &mut Vec<LossEvent>)
    ensures
        wrote(final(out)@, final(log)@, old(out)@, events_view(old(log)@), md_span(*span, *doc, labels_view(labels@))),
    decreases *span, 2nat,
{
    let ghost lv = labels_view(labels@);
    let ghost o0 = out@;
    let ghost l0 = events_view(log@);
    let t = str_member(span, "type");
    if str_eq(t, "text") || str_eq(t, "hard_break") || str_eq(t, "code") {
        write_plain_span(span, t, out);
        assert(events_view(log@) =~= l0 + md_span(*span, *doc, lv).events);
    } else if str_eq(t, "em") || str_eq(t, "strong") || str_eq(t, "strike") {
        let d = if str_eq(t, "em") {
            "*"
        } else if str_eq(t, "strong") {
            "**"
        } else {
            "~~"
        };
        assert(d@ == md_delim(t@));
        push_str(out, d);
        write_inline(span, "content", doc, labels, out, log);
        push_str(out, d);
        assert(out@ =~= o0 + md_span(*span, *doc, lv).html);
    } else if str_eq(t, "underline") {
        log_record(log, LossClass::Partial, "underline_md", "degraded", "underline", "下划线在 Markdown 中无法表达，退化为普通文本");
        let ghost l1 = events_view(log@);
        write_inline(span, "content", doc, labels, out, log);
        assert(out@ =~= o0 + md_span(*span, *doc, lv).html);
        assert(events_view(log@) =~= l0 + md_span(*span, *doc, lv).events);
    } else if str_eq(t, "link") {
        write_link(span, doc, labels, out, log);
    } else if str_eq(t, "inline_math") || str_eq(t, "inline_image") || str_eq(t, "footnote_ref") || str_eq(t, "unknown")
        || str_eq(t, "mention") || str_eq(t, "cite") {
        write_atom_span(span, t, doc, labels, out, log);
    } else {
        write_inline(span, "content", doc, labels, out, log);
    }
}

} // verus!

verus! {

/// Emphasis spans wrap their content in their own Markdown delimiters:
/// `em` in `*`, `strong` in `**`, `strike` in `~~`; an underline keeps its
/// content unmarked and reports the loss.
pub proof fn law_emphasis_delimiters(span: Json, doc: ExportDoc, labels: Seq<(Seq<char>, Seq<char>)>)
    ensures
        ({
            let t = str_of(get(span, "type"@));
            let inner = md_inline_of(span, "content"@, doc, labels);
            let out = md_span(span, doc, labels);
            &&& t == Some("em"@) ==> out.html == "*"@ + inner.html + "*"@
            &&& t == Some("strong"@) ==> out.html == "**"@ + inner.html + "**"@
            &&& t == Some("strike"@) ==> out.html == "~~"@ + inner.html + "~~"@
            &&& t == Some("underline"@) ==> out.html == inner.html && out.events.len() == inner.events.len() + 1
        }),
{
    reveal_strlit("text");
    reveal_strlit("hard_break");
    reveal_strlit("code");
    reveal_strlit("em");
    reveal_strlit("strong");
    reveal_strlit("underline");
    reveal_strlit("strike");
    assert("text"@.len() == 4 && "hard_break"@.len() == 10 && "code"@.len() == 4);
    assert("em"@.len() == 2 && "strong"@.len() == 6 && "underline"@.len() == 9 && "strike"@.len() == 6);
    assert("strong"@[3] != "strike"@[3]);
    assert("strong"@ != "strike"@);
    let t = str_of(get(span, "type"@));
    let inner = md_inline_of(span, "content"@, doc, labels);
    if t == Some("underline"@) {
        assert(Seq::<char>::empty() + inner.html =~= inner.html);
    }
}

/// A hard break is a backslash ending its line, inline math is its LaTeX
/// between single dollar signs, and a link is its content in square brackets
/// followed by the destination in round brackets, with a quoted title only
/// when the span has one.
pub proof fn law_break_math_link(span: Json, doc: ExportDoc, labels: Seq<(Seq<char>, Seq<char>)>)
    ensures
        ({
            let t = str_of(get(span, "type"@));
            let out = md_span(span, doc, labels);
            let inner = md_inline_of(span, "content"@, doc, labels);
            let dest = cm_dest(str_or_empty(span, "url"@));
            &&& t == Some("hard_break"@) ==> out.html == seq!['\\', '\n'] && out.events.len() == 0
            &&& t == Some("inline_math"@) ==> out.html == seq!['$'] + str_or_empty(span, "latex"@) + seq!['$']
            &&& t == Some("link"@) && str_of(get(span, "title"@)) is None ==> out.html == seq!['['] + inner.html
                + seq![']', '('] + dest + seq![')']
        }),
{
    reveal(md_plain_span);
    reveal(md_atom_span);
    reveal_strlit("text");
    reveal_strlit("hard_break");
    reveal_strlit("code");
    reveal_strlit("em");
    reveal_strlit("strong");
    reveal_strlit("underline");
    reveal_strlit("strike");
    reveal_strlit("link");
    reveal_strlit("inline_math");
    reveal_strlit("\\\n");
    reveal_strlit("$");
    reveal_strlit("[");
    reveal_strlit("](");
    reveal_strlit(")");
    assert("text"@.len() == 4 && "hard_break"@.len() == 10 && "code"@.len() == 4 && "link"@.len() == 4);
    assert("em"@.len() == 2 && "strong"@.len() == 6 && "underline"@.len() == 9 && "strike"@.len() == 6);
    assert("inline_math"@.len() == 11);
    assert("link"@[0] != "text"@[0] && "link"@[0] != "code"@[0]);
    assert("hard_break"@ != "text"@ && "code"@ != "text"@ && "code"@ != "hard_break"@);
    let t = str_of(get(span, "type"@));
    if t == Some("link"@) {
        let inner = md_inline_of(span, "content"@, doc, labels);
        let dest = cm_dest(str_or_empty(span, "url"@));
        assert(md_span(span, doc, labels) == md_link(span, doc, labels));
        if str_of(get(span, "title"@)) is None {
            assert(md_link(span, doc, labels).html == "["@ + inner.html + "]("@ + (dest + ")"@));
            assert(md_span(span, doc, labels).html =~= seq!['['] + inner.html + seq![']', '('] + dest + seq![')']);
        }
    }
}

} // verus!
