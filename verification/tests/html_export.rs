use azodoc::convert::{AssetMeta, ExportDoc, LossEvent};
use azodoc::html::export::{export_html, EMBED_CSS};
use azodoc::json::{Json, JsonNumber};
use azodoc::ooxml::document::LossClass;

fn s(v: &str) -> Json {
    Json::Str(v.to_string())
}

fn n(v: u64) -> Json {
    Json::Number(JsonNumber::PosInt(v))
}

fn arr(items: Vec<Json>) -> Json {
    Json::Array(items)
}

fn obj(members: Vec<(&str, Json)>) -> Json {
    Json::Object(members.into_iter().map(|(k, v)| (k.to_string(), v)).collect())
}

fn text(t: &str) -> Json {
    obj(vec![("type", s("text")), ("text", s(t))])
}

fn para(spans: Vec<Json>) -> Json {
    obj(vec![("type", s("paragraph")), ("id", s("blk_1")), ("content", arr(spans))])
}

fn asset(id: &str, mime: &str) -> AssetMeta {
    AssetMeta {
        id: id.to_string(),
        mime: mime.to_string(),
        storage: "embedded".to_string(),
        url: None,
        filename: "f.bin".to_string(),
        file: None,
    }
}

fn doc_of(blocks: Vec<Json>) -> ExportDoc {
    ExportDoc {
        content: obj(vec![("schema_version", s("1.0")), ("content", arr(blocks))]),
        title: None,
        language: None,
        document_id: None,
        assets: Vec::new(),
        urls: Vec::new(),
        filenames: Vec::new(),
        preserved: Vec::new(),
    }
}

fn body(doc: &ExportDoc) -> (String, Vec<LossEvent>) {
    let mut log = Vec::new();
    let html = export_html(doc, &mut log);
    let start = html.find("<article>\n").unwrap() + "<article>\n".len();
    let end = html.find("</article>").unwrap();
    (html[start..end].to_string(), log)
}

fn nones(log: &[LossEvent]) -> usize {
    log.iter().filter(|e| matches!(e, LossEvent::NodeNone)).count()
}

fn features(log: &[LossEvent]) -> Vec<&'static str> {
    log.iter()
        .filter_map(|e| match e {
            LossEvent::Record(_, f, _, _, _) => Some(*f),
            LossEvent::NodeNone => None,
        })
        .collect()
}

#[test]
fn page_head_uses_defaults_and_escapes() {
    let mut doc = doc_of(vec![]);
    let mut log = Vec::new();
    let html = export_html(&doc, &mut log);
    assert!(html.starts_with("<!doctype html>\n<html lang=\"zh-CN\">\n<head>\n<meta charset=\"utf-8\">\n"));
    assert!(html.contains("<title>未命名文档</title>\n"));
    assert!(html.contains(&format!("<style>{EMBED_CSS}</style>")));
    assert!(html.ends_with("<article>\n</article>\n</body>\n</html>\n"));
    assert!(!html.contains("azodoc.document-id"));
    doc.title = Some("A <b> & \"c\"".to_string());
    doc.language = Some("en\"x".to_string());
    doc.document_id = Some("doc_1".to_string());
    let html = export_html(&doc, &mut log);
    assert!(html.contains("<html lang=\"en&quot;x\">"));
    assert!(html.contains("<meta name=\"azodoc.document-id\" content=\"doc_1\">\n"));
    assert!(html.contains("<title>A &lt;b&gt; &amp; \"c\"</title>"));
    assert!(log.is_empty());
}

#[test]
fn headings_paragraphs_and_marks() {
    let h = obj(vec![("type", s("heading")), ("id", s("blk_h")), ("level", n(2)), ("content", arr(vec![text("T<1>")]))]);
    let p = para(vec![
        text("a "),
        obj(vec![("type", s("strong")), ("content", arr(vec![text("b")]))]),
        obj(vec![("type", s("link")), ("url", s("http://x/?a&b")), ("title", s("t")), ("content", arr(vec![text("l")]))]),
        obj(vec![("type", s("code")), ("text", s("x<y"))]),
        obj(vec![("type", s("hard_break"))]),
    ]);
    let blank = para(vec![text("  ")]);
    let (html, log) = body(&doc_of(vec![h, p, blank]));
    assert_eq!(
        html,
        "<h2 id=\"blk_h\">T&lt;1&gt;</h2>\n<p>a <strong>b</strong><a href=\"http://x/?a&amp;b\" title=\"t\">l</a><code>x&lt;y</code><br>\n</p>\n"
    );
    // heading, link, blank paragraph
    assert_eq!(nones(&log), 3);
}

#[test]
fn lists_unwrap_first_paragraph_and_mark_checks() {
    let item = |checked: Option<bool>, children: Vec<Json>| {
        let mut m = vec![("id", s("li_1")), ("children", arr(children))];
        if let Some(c) = checked {
            m.push(("checked", Json::Bool(c)));
        }
        obj(m)
    };
    let list = obj(vec![
        ("type", s("list")),
        ("id", s("blk_l")),
        ("style", s("ordered")),
        ("start", n(3)),
        (
            "items",
            arr(vec![
                item(Some(true), vec![para(vec![text("one")]), para(vec![text("more")])]),
                item(None, vec![para(vec![text("two")])]),
            ]),
        ),
    ]);
    let (html, _) = body(&doc_of(vec![list]));
    assert_eq!(
        html,
        "<ol start=\"3\">\n<li><input type=\"checkbox\" disabled checked> one\n<p>more</p></li>\n<li>two</li>\n</ol>\n"
    );
}

#[test]
fn tables_put_the_header_row_in_thead() {
    let cell = |t: &str, extra: Vec<(&str, Json)>| {
        let mut m = vec![("id", s("cel_1")), ("column", n(0)), ("children", arr(vec![para(vec![text(t)])]))];
        m.extend(extra);
        obj(m)
    };
    let table = obj(vec![
        ("type", s("table")),
        ("id", s("blk_t")),
        ("header_row", Json::Bool(true)),
        (
            "rows",
            arr(vec![
                obj(vec![("id", s("row_1")), ("cells", arr(vec![cell("H", vec![("colSpan", n(2))])]))]),
                obj(vec![("id", s("row_2")), ("cells", arr(vec![cell("a", vec![]), cell("b", vec![("rowSpan", n(1))])]))]),
            ]),
        ),
    ]);
    let (html, _) = body(&doc_of(vec![table]));
    assert_eq!(
        html,
        "<table>\n<thead>\n<tr><th colspan=\"2\"><p>H</p></th></tr>\n</thead>\n<tr><td><p>a</p></td><td><p>b</p></td></tr>\n</table>\n"
    );
}

#[test]
fn figures_code_math_and_rules() {
    let mut doc = doc_of(vec![
        obj(vec![("type", s("figure")), ("id", s("blk_f")), ("asset", s("as_1")), ("alt", s("a\"b")), ("caption", arr(vec![text("cap")]))]),
        obj(vec![("type", s("code_block")), ("id", s("blk_c")), ("language", s("rust")), ("text", s("a<b"))]),
        obj(vec![("type", s("math_block")), ("id", s("blk_m")), ("latex", s("x<y"))]),
        obj(vec![("type", s("horizontal_rule")), ("id", s("blk_r"))]),
        obj(vec![("type", s("footnote")), ("id", s("blk_n")), ("children", arr(vec![para(vec![text("note")])]))]),
    ]);
    doc.urls = vec![("as_1".to_string(), "assets/as_1.png".to_string())];
    let (html, log) = body(&doc);
    assert_eq!(
        html,
        "<figure><img src=\"assets/as_1.png\" alt=\"a&quot;b\"><figcaption>cap</figcaption>\n</figure>\n\
         <pre><code class=\"language-rust\">a&lt;b</code></pre>\n\
         <p class=\"math\" data-latex=\"x&lt;y\">x&lt;y</p>\n<hr>\n"
    );
    assert_eq!(features(&log), vec!["math_export"]);
    match &log.iter().find(|e| matches!(e, LossEvent::Record(..))).unwrap() {
        LossEvent::Record(class, _, action, detail, _) => {
            assert_eq!(*class, LossClass::Degraded);
            assert_eq!(*action, "degraded");
            assert_eq!(detail, "x<y");
        }
        LossEvent::NodeNone => unreachable!(),
    }
}

#[test]
fn embeds_follow_their_media_type() {
    let embed = |a: &str| obj(vec![("type", s("embed")), ("id", s("blk_e")), ("asset", s(a))]);
    let mut doc = doc_of(vec![embed("assets/as_v.mp4"), embed("as_pdf")]);
    doc.assets = vec![
        asset("as_v", "video/mp4"),
        asset("as_pdf", "application/pdf"),
    ];
    doc.urls = vec![("assets/as_v.mp4".to_string(), "u1".to_string()), ("as_pdf".to_string(), "u2".to_string())];
    doc.filenames = vec![("as_pdf".to_string(), "r<1>.pdf".to_string())];
    let (html, log) = body(&doc);
    assert_eq!(
        html,
        "<p><video controls src=\"u1\"></video></p>\n<p><a href=\"u2\">r&lt;1&gt;.pdf</a></p>\n"
    );
    assert_eq!(features(&log), vec!["embed_html_export"]);
}

#[test]
fn unknown_blocks_use_sanitized_payloads_or_placeholders() {
    let unknown = |p: &str| {
        obj(vec![("type", s("unknown")), ("id", s("blk_u")), ("summary", s("OMML <m>")), ("payload_ref", s(p))])
    };
    let mut doc = doc_of(vec![unknown("preserved/1.html"), unknown("preserved/2.html")]);
    doc.preserved = vec![("preserved/1.html".to_string(), "<p>ok<script>bad()</script></p>".to_string())];
    let (html, log) = body(&doc);
    assert!(html.starts_with("<div data-azodoc-unknown=\"OMML &lt;m&gt;\">"));
    assert!(html.contains("<p>ok</p>"));
    assert!(!html.contains("script"));
    assert!(html.ends_with(
        "<div class=\"azodoc-unknown\" data-azodoc-unknown=\"OMML &lt;m&gt;\">[未能显示: OMML &lt;m&gt;]</div>\n"
    ));
    assert_eq!(features(&log), vec!["active_content", "unknown_block_html"]);
}

#[test]
fn unknown_block_types_fall_back_to_their_children() {
    let doc = doc_of(vec![obj(vec![
        ("type", s("sidebar")),
        ("children", arr(vec![para(vec![text("x")])])),
        ("items", arr(vec![para(vec![text("y")])])),
    ])]);
    let (html, log) = body(&doc);
    assert_eq!(html, "<p>x</p>\n<p>y</p>\n");
    assert_eq!(features(&log), vec!["html_export_fallback"]);
}

#[test]
fn sections_and_callouts_and_quotes() {
    let doc = doc_of(vec![obj(vec![
        ("type", s("section")),
        ("id", s("sec_1")),
        (
            "children",
            arr(vec![
                obj(vec![("type", s("callout")), ("id", s("blk_c")), ("children", arr(vec![para(vec![text("c")])]))]),
                obj(vec![("type", s("quote")), ("id", s("blk_q")), ("children", arr(vec![para(vec![text("q")])]))]),
            ]),
        ),
    ])]);
    let (html, log) = body(&doc);
    assert_eq!(
        html,
        "<div class=\"callout\" data-variant=\"note\"><p>c</p>\n</div>\n<blockquote>\n<p>q</p>\n</blockquote>\n"
    );
    assert_eq!(nones(&log), 2);
}

#[test]
fn footnote_references_are_not_numbered() {
    let doc = doc_of(vec![
        para(vec![obj(vec![("type", s("footnote_ref")), ("id", s("blk_n"))])]),
        obj(vec![("type", s("footnote")), ("id", s("blk_n")), ("children", arr(vec![para(vec![text("note")])]))]),
    ]);
    let mut log = Vec::new();
    let html = export_html(&doc, &mut log);
    assert!(!html.contains("<section class=\"footnotes\">"));
    assert!(!html.contains("<sup>"));
}

#[test]
fn page_breaks_export_as_print_markers() {
    let doc = doc_of(vec![para(vec![text("a")]), obj(vec![("type", s("page_break")), ("id", s("blk_2"))])]);
    let (html, log) = body(&doc);
    assert!(html.contains("<div class=\"page-break\"></div>\n"));
    assert!(!features(&log).contains(&"html_export_fallback"));
    assert_eq!(nones(&log), log.len());
}
