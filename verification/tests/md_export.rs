use azodoc::convert::{ExportDoc, LossEvent};
use azodoc::json::{Json, JsonNumber};
use azodoc::md::export_markdown;
use azodoc::ooxml::document::LossClass;

fn s(v: &str) -> Json {
    Json::Str(v.to_string())
}

fn n(v: u64) -> Json {
    Json::Number(JsonNumber::PosInt(v))
}

fn arr(items: Vec<Json>) -> Json {
    Json::Array(items)
}

fn obj(members: Vec<(&str, Json)>) -> Json {
    Json::Object(members.into_iter().map(|(k, v)| (k.to_string(), v)).collect())
}

fn text(t: &str) -> Json {
    obj(vec![("type", s("text")), ("text", s(t))])
}

fn para(spans: Vec<Json>) -> Json {
    obj(vec![("type", s("paragraph")), ("content", arr(spans))])
}

fn doc_of(blocks: Vec<Json>) -> ExportDoc {
    ExportDoc {
        content: obj(vec![("schema_version", s("1.0")), ("content", arr(blocks))]),
        title: None,
        language: None,
        document_id: None,
        assets: Vec::new(),
        urls: Vec::new(),
        filenames: Vec::new(),
        preserved: Vec::new(),
    }
}

fn export(doc: &ExportDoc) -> (String, Vec<LossEvent>) {
    let mut log = Vec::new();
    let md = export_markdown(doc, &mut log);
    (md, log)
}

fn features(log: &[LossEvent]) -> Vec<&'static str> {
    log.iter()
        .filter_map(|e| match e {
            LossEvent::Record(_, f, _, _, _) => Some(*f),
            LossEvent::NodeNone => None,
        })
        .collect()
}

fn nones(log: &[LossEvent]) -> usize {
    log.iter().filter(|e| matches!(e, LossEvent::NodeNone)).count()
}

#[test]
fn underline_export_is_partial() {
    let doc = doc_of(vec![obj(vec![
        ("id", s("blk_10000000000000000000000000")),
        ("type", s("paragraph")),
        (
            "content",
            arr(vec![text("前 "), obj(vec![("type", s("underline")), ("content", arr(vec![text("线")]))])]),
        ),
    ])]);
    let (md, log) = export(&doc);
    let e = log
        .iter()
        .find_map(|e| match e {
            LossEvent::Record(c, f, _, _, _) if *f == "underline_md" => Some(*c),
            _ => None,
        })
        .expect("下划线导出应记 PARTIAL");
    assert_eq!(e, LossClass::Partial);
    assert!(md.contains("前 线"));
}

#[test]
fn merged_cell_export_is_partial() {
    let cell = obj(vec![
        ("id", s("cel_10000000000000000000000000")),
        ("column", n(0)),
        ("colSpan", n(2)),
        (
            "children",
            arr(vec![obj(vec![
                ("id", s("blk_20000000000000000000000000")),
                ("type", s("paragraph")),
                ("content", arr(vec![text("跨列")])),
            ])]),
        ),
    ]);
    let table = obj(vec![
        ("id", s("blk_10000000000000000000000000")),
        ("type", s("table")),
        ("header_row", Json::Bool(true)),
        (
            "columns",
            arr(vec![
                obj(vec![("id", s("col_10000000000000000000000000")), ("name", s("a"))]),
                obj(vec![("id", s("col_20000000000000000000000000")), ("name", s("b"))]),
            ]),
        ),
        ("rows", arr(vec![obj(vec![("id", s("row_10000000000000000000000000")), ("cells", arr(vec![cell]))])])),
    ]);
    let (md, log) = export(&doc_of(vec![table]));
    let e = log
        .iter()
        .find_map(|e| match e {
            LossEvent::Record(c, f, _, _, _) if *f == "merged_cell" => Some(*c),
            _ => None,
        })
        .expect("合并单元格导出应记 PARTIAL");
    assert_eq!(e, LossClass::Partial);
    assert_eq!(md, "| a | b |\n| --- | --- |\n| 跨列 |  |\n\n");
}

#[test]
fn md_heading_and_paragraph() {
    let heading = obj(vec![("type", s("heading")), ("level", n(2)), ("content", arr(vec![text("Title")]))]);
    let plain = obj(vec![("type", s("heading")), ("content", arr(vec![text("One")]))]);
    let (md, log) = export(&doc_of(vec![heading, plain, para(vec![text("Hello")]), para(vec![text("  ")])]));
    assert_eq!(md, "## Title\n\n# One\n\nHello\n\n");
    assert!(log.is_empty());
}

#[test]
fn md_inline_marks_and_escapes() {
    let spans = vec![
        text("a*b"),
        obj(vec![("type", s("em")), ("content", arr(vec![text("x")]))]),
        obj(vec![("type", s("strong")), ("content", arr(vec![text("y")]))]),
        obj(vec![("type", s("strike")), ("content", arr(vec![text("z")]))]),
        obj(vec![("type", s("code")), ("text", s("a`b"))]),
        obj(vec![("type", s("code")), ("text", s("`q"))]),
        text("c\u{1}d 50%%"),
    ];
    let (md, log) = export(&doc_of(vec![para(spans)]));
    assert_eq!(md, "a\\*b*x***y**~~z~~``a`b```` `q ``c&#1;d 50\\%%\n\n");
    assert!(log.is_empty());
}

#[test]
fn md_link_and_atom_spans() {
    let link = obj(vec![
        ("type", s("link")),
        ("url", s("http://e.com/a<b>")),
        ("title", s("say \"hi\"")),
        ("content", arr(vec![text("go")])),
    ]);
    let bare = obj(vec![("type", s("link")), ("url", s("u")), ("content", arr(vec![text("t")]))]);
    let math = obj(vec![("type", s("inline_math")), ("latex", s("x^2"))]);
    let mention = obj(vec![("type", s("mention")), ("target", s("@ann"))]);
    let cite = obj(vec![("type", s("cite")), ("key", s("k1"))]);
    let unknown = obj(vec![("type", s("unknown")), ("payload_ref", s("raw/9.xml"))]);
    let (md, log) = export(&doc_of(vec![para(vec![link, bare, math, mention, cite, unknown])]));
    assert_eq!(md, "[go](<http://e.com/a\\<b\\>> \"say 'hi'\")[t](<u>)$x^2$@annk1\n\n");
    assert_eq!(features(&log), vec!["mention_md", "cite_md", "unknown_span_md"]);
    assert_eq!(nones(&log), 3);
}

#[test]
fn md_ordered_list_with_tasks_and_continuation() {
    let item1 = obj(vec![("checked", Json::Bool(true)), ("children", arr(vec![para(vec![text("one")])]))]);
    let item2 = obj(vec![("children", arr(vec![para(vec![text("two")]), para(vec![text("more")])]))]);
    let item3 = obj(vec![("checked", Json::Bool(false)), ("children", arr(vec![para(vec![text("three")])]))]);
    let list = obj(vec![
        ("type", s("list")),
        ("style", s("ordered")),
        ("start", n(3)),
        ("items", arr(vec![item1, item2, item3])),
    ]);
    let (md, log) = export(&doc_of(vec![list]));
    assert_eq!(md, "3. [x] one\n4. two\n   more\n5. [ ] three\n\n");
    assert!(log.is_empty());
}

#[test]
fn md_bullet_item_without_leading_paragraph() {
    let code = obj(vec![("type", s("code_block")), ("text", s("x"))]);
    let list = obj(vec![("type", s("list")), ("items", arr(vec![obj(vec![("children", arr(vec![code]))])]))]);
    let (md, _) = export(&doc_of(vec![list]));
    assert_eq!(md, "  ```\n  x\n  ```\n\n");
}

#[test]
fn md_code_block_fence_outgrows_backticks() {
    let long = obj(vec![("type", s("code_block")), ("text", s("a```b")), ("language", s("rs"))]);
    let short = obj(vec![("type", s("code_block")), ("text", s("x\n"))]);
    let (md, log) = export(&doc_of(vec![long, short]));
    assert_eq!(md, "````rs\na```b\n````\n\n```\nx\n```\n\n");
    assert!(log.is_empty());
}

#[test]
fn md_quote_and_callout() {
    let quote = obj(vec![("type", s("quote")), ("children", arr(vec![para(vec![text("l1")]), para(vec![text("l2")])]))]);
    let callout = obj(vec![
        ("type", s("callout")),
        ("variant", s("warning")),
        ("children", arr(vec![para(vec![text("careful")])])),
    ]);
    let other = obj(vec![("type", s("callout")), ("variant", s("odd")), ("children", arr(vec![]))]);
    let (md, log) = export(&doc_of(vec![quote, callout, other]));
    assert_eq!(md, "> l1\n>\n> l2\n>\n\n> [!WARNING]\n> careful\n>\n\n> [!NOTE]\n\n");
    assert_eq!(nones(&log), 2);
}

fn cell(t: &str) -> Json {
    obj(vec![("children", arr(vec![para(vec![text(t)])]))])
}

fn row(cells: Vec<Json>) -> Json {
    obj(vec![("cells", arr(cells))])
}

#[test]
fn md_table_with_header_row_and_names() {
    let cols = arr(vec![obj(vec![("name", s("a"))]), obj(vec![("name", s("b"))])]);
    let table = obj(vec![
        ("type", s("table")),
        ("header_row", Json::Bool(true)),
        ("columns", cols),
        ("rows", arr(vec![row(vec![cell("h1"), cell("h2")]), row(vec![cell("1"), cell("2 | x")])])),
    ]);
    let (md, log) = export(&doc_of(vec![table]));
    assert_eq!(md, "| a | b |\n| --- | --- |\n| h1 | h2 |\n| 1 | 2 \\| x |\n\n");
    assert_eq!(nones(&log), 1);
    assert!(features(&log).is_empty());
}

#[test]
fn md_table_names_equal_to_header_row_are_not_repeated() {
    let cols = arr(vec![obj(vec![("name", s("h1"))]), obj(vec![("name", s("h2"))])]);
    let table = obj(vec![
        ("type", s("table")),
        ("header_row", Json::Bool(true)),
        ("columns", cols),
        ("rows", arr(vec![row(vec![cell("h1"), cell("h2")]), row(vec![cell("1")])])),
    ]);
    let (md, _) = export(&doc_of(vec![table]));
    assert_eq!(md, "| h1 | h2 |\n| --- | --- |\n| 1 |  |\n\n");
}

#[test]
fn md_table_without_header_row_starts_with_names() {
    let table = obj(vec![("type", s("table")), ("rows", arr(vec![row(vec![cell("1"), cell("2")])]))]);
    let (md, _) = export(&doc_of(vec![table]));
    assert_eq!(md, "|  |  |  |\n| --- | --- |\n| 1 | 2 |\n\n");
    let empty = obj(vec![("type", s("table")), ("header_row", Json::Bool(true))]);
    let (md, log) = export(&doc_of(vec![empty]));
    assert_eq!(md, "");
    assert_eq!(nones(&log), 1);
}

#[test]
fn md_figure_caption_is_partial() {
    let fig = obj(vec![
        ("type", s("figure")),
        ("asset", s("a1")),
        ("alt", s("pic")),
        ("caption", arr(vec![text("cap")])),
    ]);
    let mut doc = doc_of(vec![fig]);
    doc.urls.push(("a1".to_string(), "media/a.png".to_string()));
    let (md, log) = export(&doc);
    assert_eq!(md, "![pic](<media/a.png>)\n*cap*\n\n");
    match &log[0] {
        LossEvent::Record(c, f, a, d, _) => {
            assert_eq!(*c, LossClass::Partial);
            assert_eq!(*f, "figure_caption_md");
            assert_eq!(*a, "degraded");
            assert_eq!(d, "cap");
        }
        LossEvent::NodeNone => panic!("expected a record"),
    }
}

#[test]
fn md_footnotes_are_labelled_and_listed() {
    let r = obj(vec![("type", s("footnote_ref")), ("id", s("f1"))]);
    let missing = obj(vec![("type", s("footnote_ref")), ("id", s("nope"))]);
    let f1 = obj(vec![("type", s("footnote")), ("id", s("f1")), ("children", arr(vec![para(vec![text("note")])]))]);
    let f2 = obj(vec![
        ("type", s("footnote")),
        ("id", s("f2")),
        ("label", s("z")),
        ("children", arr(vec![para(vec![text("n2")]), para(vec![text("m")])])),
    ]);
    let f3 = obj(vec![("type", s("footnote")), ("id", s("f3"))]);
    let (md, log) = export(&doc_of(vec![para(vec![text("x"), r, missing]), f1, f2, f3]));
    assert_eq!(md, "x[^1]\n\n[^1]: note\n[^z]: n2 m\n[^2]: \n");
    assert_eq!(nones(&log), 2);
}

#[test]
fn md_leaf_blocks() {
    let embed = obj(vec![("type", s("embed")), ("asset", s("e1"))]);
    let unknown = obj(vec![("type", s("unknown")), ("summary", s("w:foo")), ("payload_ref", s("raw/1.xml"))]);
    let hr = obj(vec![("type", s("horizontal_rule"))]);
    let math = obj(vec![("type", s("math_block")), ("latex", s("x^2"))]);
    let image = obj(vec![("type", s("image")), ("asset", s("a")), ("alt", s("i"))]);
    let mut doc = doc_of(vec![embed, unknown, hr, math, image]);
    doc.filenames.push(("e1".to_string(), "doc.pdf".to_string()));
    doc.urls.push(("e1".to_string(), "media/doc.pdf".to_string()));
    let (md, log) = export(&doc);
    assert_eq!(
        md,
        "[doc.pdf](<media/doc.pdf>)\n\n<!-- azodoc: unsupported w:foo，原文见 raw/1.xml -->\n\n---\n\n$$x^2$$\n\n![i](<>)\n\n"
    );
    assert_eq!(features(&log), vec!["embed_md", "unknown_block_md"]);
    assert_eq!(nones(&log), 2);
    match &log[1] {
        LossEvent::Record(c, _, a, d, _) => {
            assert_eq!(*c, LossClass::PreservedRaw);
            assert_eq!(*a, "preserved");
            assert_eq!(d, "raw/1.xml");
        }
        LossEvent::NodeNone => panic!("expected a record"),
    }
}

#[test]
fn md_unknown_block_type_falls_back_to_children() {
    let weird = obj(vec![
        ("type", s("weird")),
        ("children", arr(vec![para(vec![text("c")])])),
        ("items", arr(vec![para(vec![text("i")])])),
    ]);
    let section = obj(vec![("type", s("section")), ("children", arr(vec![para(vec![text("s")])]))]);
    let (md, log) = export(&doc_of(vec![weird, section]));
    assert_eq!(md, "c\n\ni\n\ns\n\n");
    assert_eq!(features(&log), vec!["md_export_fallback"]);
    match &log[0] {
        LossEvent::Record(_, _, _, d, _) => assert_eq!(d, "weird"),
        LossEvent::NodeNone => panic!("expected a record"),
    }
}
