use azodoc::convert::{AssetMeta, ExportDoc, LossEvent};
use azodoc::docx::ast_out::{asset_file_name, prima_to_ast};
use azodoc::json::{Json, JsonNumber};
use azodoc::ooxml::document::LossClass;

fn s(v: &str) -> Json {
    Json::Str(v.to_string())
}

fn n(v: u64) -> Json {
    Json::Number(JsonNumber::PosInt(v))
}

fn arr(items: Vec<Json>) -> Json {
    Json::Array(items)
}

fn obj(members: Vec<(&str, Json)>) -> Json {
    Json::Object(members.into_iter().map(|(k, v)| (k.to_string(), v)).collect())
}

fn text(t: &str) -> Json {
    obj(vec![("type", s("text")), ("text", s(t))])
}

fn para(spans: Vec<Json>) -> Json {
    obj(vec![("type", s("paragraph")), ("content", arr(spans))])
}

fn doc_of(blocks: Vec<Json>) -> ExportDoc {
    ExportDoc {
        content: obj(vec![("schema_version", s("1.0")), ("content", arr(blocks))]),
        title: None,
        language: None,
        document_id: None,
        assets: Vec::new(),
        urls: Vec::new(),
        filenames: Vec::new(),
        preserved: Vec::new(),
    }
}

/// Compact JSON text of a value, members in order.
fn show(j: &Json) -> String {
    match j {
        Json::Null => "null".to_string(),
        Json::Bool(b) => b.to_string(),
        Json::Number(JsonNumber::PosInt(u)) => u.to_string(),
        Json::Number(JsonNumber::NegInt(i)) => i.to_string(),
        Json::Number(JsonNumber::Float(bits)) => format!("{:?}", f64::from_bits(*bits)),
        Json::Str(t) => format!("\"{}\"", t.replace('"', "\\\"")),
        Json::Array(a) => format!("[{}]", a.iter().map(show).collect::<Vec<_>>().join(",")),
        Json::Object(ms) => format!(
            "{{{}}}",
            ms.iter().map(|(k, v)| format!("\"{}\":{}", k, show(v))).collect::<Vec<_>>().join(",")
        ),
    }
}

fn blocks_of(doc: &ExportDoc) -> (String, Vec<LossEvent>) {
    let mut log = Vec::new();
    let ast = prima_to_ast(doc, &mut log);
    let blocks = match &ast {
        Json::Object(ms) => ms.iter().find(|(k, _)| k == "blocks").map(|(_, v)| show(v)).unwrap(),
        _ => panic!("the AST is an object"),
    };
    (blocks, log)
}

fn nones(log: &[LossEvent]) -> usize {
    log.iter().filter(|e| matches!(e, LossEvent::NodeNone)).count()
}

fn features(log: &[LossEvent]) -> Vec<&'static str> {
    log.iter()
        .filter_map(|e| match e {
            LossEvent::Record(_, f, _, _, _) => Some(*f),
            LossEvent::NodeNone => None,
        })
        .collect()
}

const ATTRS: &str = "[\"\",[],[]]";

#[test]
fn ast_document_shape_and_meta() {
    let mut doc = doc_of(vec![]);
    let mut log = Vec::new();
    let ast = prima_to_ast(&doc, &mut log);
    assert_eq!(show(&ast), "{\"pandoc-api-version\":[1,23,1],\"meta\":{},\"blocks\":[]}");
    doc.title = Some("T".to_string());
    doc.language = Some("en".to_string());
    let ast = prima_to_ast(&doc, &mut log);
    assert_eq!(
        show(&ast),
        "{\"pandoc-api-version\":[1,23,1],\"meta\":{\"title\":{\"t\":\"MetaInlines\",\"c\":[{\"t\":\"Str\",\"c\":\"T\"}]},\"language\":{\"t\":\"MetaString\",\"c\":\"en\"}},\"blocks\":[]}"
    );
    assert!(log.is_empty());
}

#[test]
fn ast_heading_and_words() {
    let h = obj(vec![("type", s("heading")), ("level", n(2)), ("content", arr(vec![text("Hi there")]))]);
    let (b, log) = blocks_of(&doc_of(vec![h, para(vec![text(" a  b ")]), para(vec![])]));
    assert_eq!(
        b,
        format!(
            "[{{\"t\":\"Header\",\"c\":[2,{ATTRS},[{{\"t\":\"Str\",\"c\":\"Hi\"}},{{\"t\":\"Space\"}},{{\"t\":\"Str\",\"c\":\"there\"}}]]}},{{\"t\":\"Para\",\"c\":[{{\"t\":\"Space\"}},{{\"t\":\"Str\",\"c\":\"a\"}},{{\"t\":\"Space\"}},{{\"t\":\"Space\"}},{{\"t\":\"Str\",\"c\":\"b\"}},{{\"t\":\"Space\"}}]}}]"
        )
    );
    assert_eq!(nones(&log), 4);
}

#[test]
fn ast_inline_kinds() {
    let spans = vec![
        obj(vec![("type", s("strong")), ("content", arr(vec![text("b")]))]),
        obj(vec![("type", s("underline")), ("content", arr(vec![text("u")]))]),
        obj(vec![("type", s("code")), ("text", s("x y"))]),
        obj(vec![("type", s("hard_break"))]),
        obj(vec![("type", s("inline_math")), ("latex", s("e"))]),
        obj(vec![("type", s("link")), ("url", s("http://a")), ("content", arr(vec![text("l")]))]),
        obj(vec![("type", s("footnote_ref")), ("id", s("fn1"))]),
        obj(vec![("type", s("mention")), ("target", s("@a b"))]),
        obj(vec![("type", s("unknown")), ("payload_ref", s("raw/1"))]),
    ];
    let (b, log) = blocks_of(&doc_of(vec![para(spans)]));
    assert_eq!(
        b,
        format!(
            "[{{\"t\":\"Para\",\"c\":[{{\"t\":\"Strong\",\"c\":[{{\"t\":\"Str\",\"c\":\"b\"}}]}},{{\"t\":\"Underline\",\"c\":[{{\"t\":\"Str\",\"c\":\"u\"}}]}},{{\"t\":\"Code\",\"c\":[{ATTRS},\"x y\"]}},{{\"t\":\"LineBreak\"}},{{\"t\":\"Math\",\"c\":[{{\"t\":\"InlineMath\"}},\"e\"]}},{{\"t\":\"Link\",\"c\":[{ATTRS},[{{\"t\":\"Str\",\"c\":\"l\"}}],[\"http://a\",\"\"]]}},{{\"t\":\"Str\",\"c\":\"@a\"}},{{\"t\":\"Space\"}},{{\"t\":\"Str\",\"c\":\"b\"}}]}}]"
        )
    );
    assert_eq!(features(&log), vec!["mention_docx", "unknown_span_docx"]);
    assert_eq!(nones(&log), 9);
}

#[test]
fn ast_lists() {
    let item = |t: &str| obj(vec![("children", arr(vec![para(vec![text(t)])]))]);
    let ordered = obj(vec![
        ("type", s("list")),
        ("style", s("ordered")),
        ("start", n(2)),
        ("items", arr(vec![item("a"), item("b")])),
    ]);
    let bullet = obj(vec![("type", s("list")), ("items", arr(vec![item("c")]))]);
    let (b, log) = blocks_of(&doc_of(vec![ordered, bullet]));
    assert_eq!(
        b,
        "[{\"t\":\"OrderedList\",\"c\":[[2,{\"t\":\"Decimal\"},{\"t\":\"Period\"}],[[{\"t\":\"Para\",\"c\":[{\"t\":\"Str\",\"c\":\"a\"}]}],[{\"t\":\"Para\",\"c\":[{\"t\":\"Str\",\"c\":\"b\"}]}]]]},{\"t\":\"BulletList\",\"c\":[[{\"t\":\"Para\",\"c\":[{\"t\":\"Str\",\"c\":\"c\"}]}]]}]"
    );
    assert_eq!(nones(&log), 5);
}

fn cell(t: &str, extra: Vec<(&str, Json)>) -> Json {
    let mut m = vec![("children", arr(vec![para(vec![text(t)])]))];
    m.extend(extra);
    obj(m)
}

#[test]
fn ast_table_with_header_row_and_spans() {
    let table = obj(vec![
        ("type", s("table")),
        ("header_row", Json::Bool(true)),
        ("columns", arr(vec![obj(vec![("name", s("a"))]), obj(vec![])])),
        (
            "rows",
            arr(vec![
                obj(vec![("cells", arr(vec![cell("h", vec![("colSpan", n(2))])]))]),
                obj(vec![("cells", arr(vec![cell("x", vec![]), cell("y", vec![])]))]),
            ]),
        ),
    ]);
    let (b, log) = blocks_of(&doc_of(vec![table]));
    let colspec = "[{\"t\":\"AlignDefault\"},{\"t\":\"ColWidth\",\"c\":0.0}]";
    let c = |t: &str, cs: u64| {
        format!("[{ATTRS},{{\"t\":\"AlignDefault\"}},1,{cs},[{{\"t\":\"Para\",\"c\":[{{\"t\":\"Str\",\"c\":\"{t}\"}}]}}]]")
    };
    let expected = format!(
        "[{{\"t\":\"Table\",\"c\":[{ATTRS},[null,[]],[{colspec},{colspec}],[{ATTRS},[[{ATTRS},[{}]]]],[[{ATTRS},0,[],[[{ATTRS},[{},{}]]]]],[{ATTRS},[]]]}}]",
        c("h", 2),
        c("x", 1),
        c("y", 1)
    );
    assert_eq!(b, expected);
    assert!(features(&log).is_empty());
    assert_eq!(nones(&log), 4);
}

#[test]
fn ast_table_without_header_row_loses_column_names() {
    let table = obj(vec![
        ("type", s("table")),
        ("columns", arr(vec![obj(vec![("name", s("a"))])])),
        ("rows", arr(vec![obj(vec![("cells", arr(vec![cell("x", vec![])]))])])),
    ]);
    let (b, log) = blocks_of(&doc_of(vec![table]));
    assert!(b.contains(&format!("[{ATTRS},[]],[[{ATTRS},0,[],[[{ATTRS},[")));
    assert_eq!(features(&log), vec!["column_names"]);
    match &log[0] {
        LossEvent::Record(c, _, a, d, _) => {
            assert_eq!(*c, LossClass::Partial);
            assert_eq!(*a, "degraded");
            assert_eq!(d, "table");
        }
        LossEvent::NodeNone => panic!("expected a record"),
    }
}

fn asset(id: &str, storage: &str, url: Option<&str>, file: Option<&str>) -> AssetMeta {
    AssetMeta {
        id: id.to_string(),
        mime: "image/png".to_string(),
        storage: storage.to_string(),
        url: url.map(str::to_string),
        filename: "a.png".to_string(),
        file: file.map(str::to_string),
    }
}

#[test]
fn ast_figures_and_asset_paths() {
    let fig = obj(vec![
        ("type", s("figure")),
        ("asset", s("asset://as_1/a.png")),
        ("alt", s("A")),
        ("caption", arr(vec![text("cap")])),
    ]);
    let ext = obj(vec![("type", s("image")), ("asset", s("asset://as_2")), ("alt", s("B"))]);
    let bare = obj(vec![("type", s("image")), ("asset", s("plain.png")), ("alt", s("C"))]);
    let mut doc = doc_of(vec![fig, ext, bare]);
    doc.assets.push(asset("as_1", "embedded", Some("ignored"), Some("/tmp/out/as_1_a.png")));
    doc.assets.push(asset("as_2", "external", Some("https://e/b.png"), Some("/never")));
    let (b, log) = blocks_of(&doc);
    let img = |alt: &str, url: &str| {
        format!("{{\"t\":\"Image\",\"c\":[{ATTRS},[{{\"t\":\"Str\",\"c\":\"{alt}\"}}],[\"{url}\",\"\"]]}}")
    };
    let expected = format!(
        "[{{\"t\":\"Figure\",\"c\":[{ATTRS},[null,[{{\"t\":\"Para\",\"c\":[{{\"t\":\"Str\",\"c\":\"cap\"}}]}}]],[{{\"t\":\"Plain\",\"c\":[{}]}}]]}},{{\"t\":\"Para\",\"c\":[{}]}},{{\"t\":\"Para\",\"c\":[{}]}}]",
        img("A", "/tmp/out/as_1_a.png"),
        img("B", "https://e/b.png"),
        img("C", "plain.png")
    );
    assert_eq!(b, expected);
    assert_eq!(nones(&log), 4);
}

#[test]
fn ast_callout_embed_unknown_and_fallback() {
    let callout = obj(vec![("type", s("callout")), ("variant", s("tip")), ("children", arr(vec![para(vec![text("t")])]))]);
    let embed = obj(vec![("type", s("embed")), ("asset", s("e1"))]);
    let unknown = obj(vec![("type", s("unknown")), ("payload_ref", s("raw/2"))]);
    let odd = obj(vec![("type", s("odd")), ("children", arr(vec![para(vec![text("o")])]))]);
    let note = obj(vec![("type", s("footnote")), ("id", s("f")), ("children", arr(vec![para(vec![text("n")])]))]);
    let mut doc = doc_of(vec![callout, embed, unknown, odd, note]);
    doc.filenames.push(("e1".to_string(), "doc.pdf".to_string()));
    let (b, log) = blocks_of(&doc);
    assert_eq!(
        b,
        format!(
            "[{{\"t\":\"Div\",\"c\":[[\"\",[\"tip\"],[]],[{{\"t\":\"Para\",\"c\":[{{\"t\":\"Str\",\"c\":\"t\"}}]}}]]}},{{\"t\":\"Para\",\"c\":[{{\"t\":\"Link\",\"c\":[{ATTRS},[{{\"t\":\"Str\",\"c\":\"doc.pdf\"}}],[\"e1\",\"\"]]}}]}},{{\"t\":\"Para\",\"c\":[{{\"t\":\"Str\",\"c\":\"o\"}}]}}]"
        )
    );
    assert_eq!(features(&log), vec!["callout_docx", "embed_docx", "unknown_block_docx", "docx_export_fallback"]);
}

#[test]
fn ast_code_rule_and_math_blocks() {
    let code = obj(vec![("type", s("code_block")), ("text", s("x")), ("language", s("rs"))]);
    let plain = obj(vec![("type", s("code_block")), ("text", s("y"))]);
    let hr = obj(vec![("type", s("horizontal_rule"))]);
    let math = obj(vec![("type", s("math_block")), ("latex", s("m"))]);
    let section = obj(vec![("type", s("section")), ("children", arr(vec![hr]))]);
    let (b, log) = blocks_of(&doc_of(vec![code, plain, section, math]));
    assert_eq!(
        b,
        "[{\"t\":\"CodeBlock\",\"c\":[[\"\",[\"rs\"],[]],\"x\"]},{\"t\":\"CodeBlock\",\"c\":[[\"\",[],[]],\"y\"]},{\"t\":\"HorizontalRule\"},{\"t\":\"Para\",\"c\":[{\"t\":\"Math\",\"c\":[{\"t\":\"DisplayMath\"},\"m\"]}]}]"
    );
    assert_eq!(nones(&log), 5);
}

#[test]
fn ast_asset_file_names() {
    assert_eq!(asset_file_name("asset_abcdef123", "pic.png"), "def123_pic.png");
    assert_eq!(asset_file_name("ab", "pic.png"), "ab_pic.png");
    assert_eq!(asset_file_name("资产abc", "p.png"), "产abc_p.png");
    assert_eq!(asset_file_name("资产", "p.png"), "资产_p.png");
}

#[test]
fn ast_words_and_spaces_spell_the_text() {
    for t in ["", " ", "a", " a  b ", "one two  three"] {
        let (b, _) = blocks_of(&doc_of(vec![para(vec![text(t)])]));
        let mut back = String::new();
        let mut rest = b.as_str();
        while let Some(i) = rest.find("{\"t\":\"") {
            rest = &rest[i + 6..];
            if rest.starts_with("Space\"}") {
                back.push(' ');
            } else if let Some(r) = rest.strip_prefix("Str\",\"c\":\"") {
                let end = r.find('"').unwrap();
                back.push_str(&r[..end]);
            }
        }
        assert_eq!(back, t);
    }
}
