use azodoc::json::{Json, JsonNumber};
use azodoc::validate::{check_content, Ctx, Issue, Level};

fn s(v: &str) -> Json {
    Json::Str(v.to_string())
}

fn n(v: u64) -> Json {
    Json::Number(JsonNumber::PosInt(v))
}

fn f(v: f64) -> Json {
    Json::Number(JsonNumber::Float(v.to_bits()))
}

fn arr(items: Vec<Json>) -> Json {
    Json::Array(items)
}

fn obj(members: Vec<(&str, Json)>) -> Json {
    Json::Object(members.into_iter().map(|(k, v)| (k.to_string(), v)).collect())
}

fn doc(nodes: Vec<Json>) -> Json {
    obj(vec![("schema_version", s("1.0")), ("content", arr(nodes))])
}

fn para(id: &str, spans: Vec<Json>) -> Json {
    obj(vec![("type", s("paragraph")), ("id", s(id)), ("content", arr(spans))])
}

fn text(t: &str) -> Json {
    obj(vec![("type", s("text")), ("text", s(t))])
}

const BLK: &str = "blk_01JAVG3QK2M4N6P8R0T2V4X6Z8";
const BLK2: &str = "blk_01JAVG2Z7Q4M8XK3N5P9R2T6W8";
const SEC: &str = "sec_01JAVG3QK2M4N6P8R0T2V4X6Z8";
const ROW: &str = "row_01JAVG3QK2M4N6P8R0T2V4X6Z8";
const CEL: &str = "cel_01JAVG3QK2M4N6P8R0T2V4X6Z8";

fn no_ctx() -> Ctx {
    Ctx { entries: Vec::new() }
}

fn codes(issues: &[Issue]) -> Vec<(Level, String, String)> {
    issues.iter().map(|i| (i.level, i.code.clone(), i.path.clone())).collect()
}

#[test]
fn missing_content_is_one_error() {
    let (issues, assets) = check_content(&obj(vec![("schema_version", s("1.0"))]), &no_ctx());
    assert_eq!(codes(&issues), vec![(Level::Error, "content.missing".to_string(), "<root>".to_string())]);
    assert_eq!(issues[0].message, "缺少 content 数组");
    assert!(assets.is_empty());
}

#[test]
fn clean_document_has_no_issues() {
    let d = doc(vec![
        obj(vec![
            ("type", s("section")),
            ("id", s(SEC)),
            ("children", arr(vec![para(BLK, vec![text("hello")])])),
        ]),
        obj(vec![("type", s("heading")), ("id", s(BLK2)), ("level", n(2)), ("content", arr(vec![text("T")]))]),
    ]);
    let (issues, assets) = check_content(&d, &no_ctx());
    assert!(issues.is_empty(), "{issues:?}");
    assert!(assets.is_empty());
}

#[test]
fn wrong_prefix_and_bad_level_are_errors() {
    let d = doc(vec![obj(vec![("type", s("heading")), ("id", s(SEC)), ("level", n(7))])]);
    let (issues, _) = check_content(&d, &no_ctx());
    assert_eq!(
        codes(&issues),
        vec![
            (Level::Error, "id.wrong_prefix".to_string(), "content[0].id".to_string()),
            (Level::Error, "heading.level".to_string(), "content[0]".to_string()),
        ]
    );
    assert_eq!(
        issues[0].message,
        format!("类型 `heading` 的 id 前缀应为 blk_，实际为 `{SEC}`")
    );
}

#[test]
fn invalid_and_missing_ids() {
    let d = doc(vec![
        obj(vec![("type", s("paragraph")), ("id", s("nounderscore"))]),
        obj(vec![("type", s("paragraph"))]),
        s("not an object"),
        obj(vec![("id", s(BLK))]),
    ]);
    let (issues, _) = check_content(&d, &no_ctx());
    assert_eq!(
        codes(&issues),
        vec![
            (Level::Error, "id.invalid".to_string(), "content[0].id".to_string()),
            (Level::Error, "node.missing_id".to_string(), "content[1]".to_string()),
            (Level::Error, "node.not_object".to_string(), "content[2]".to_string()),
            (Level::Error, "node.missing_type".to_string(), "content[3]".to_string()),
        ]
    );
    assert_eq!(issues[0].message, "缺少下划线分隔的前缀: `nounderscore`");
}

#[test]
fn unknown_types_are_information() {
    let d = doc(vec![obj(vec![
        ("type", s("sidebar")),
        ("id", s(BLK)),
        ("content", arr(vec![obj(vec![("type", s("sparkle"))])])),
    ])]);
    let (issues, _) = check_content(&d, &no_ctx());
    assert_eq!(
        codes(&issues),
        vec![
            (Level::Info, "node.unknown_type".to_string(), "content[0]".to_string()),
            (Level::Info, "span.unknown_type".to_string(), "content[0].content[0]".to_string()),
        ]
    );
    assert_eq!(issues[0].message, "未知节点类型 `sidebar`（按 R3 处理，原样保留）");
}

#[test]
fn dangling_footnote_reference_is_reported_twice() {
    let fref = obj(vec![("type", s("footnote_ref")), ("id", s("fn-9"))]);
    let d = doc(vec![para(BLK, vec![fref])]);
    let (issues, _) = check_content(&d, &no_ctx());
    assert_eq!(
        codes(&issues),
        vec![
            (Level::Error, "footnote_ref.dangling".to_string(), "content[0].content[0]".to_string()),
            (Level::Error, "footnote_ref.dangling".to_string(), "content[0].content[0].id".to_string()),
        ]
    );
    assert_eq!(issues[1].message, "footnote_ref 指向不存在的脚注块: fn-9");
}

#[test]
fn defined_footnote_satisfies_reference() {
    let fref = obj(vec![("type", s("footnote_ref")), ("id", s(BLK2))]);
    let note = obj(vec![("type", s("footnote")), ("id", s(BLK2)), ("children", arr(vec![]))]);
    let d = doc(vec![para(BLK, vec![fref]), note]);
    let (issues, _) = check_content(&d, &no_ctx());
    assert!(issues.is_empty(), "{issues:?}");
}

#[test]
fn span_checks() {
    let d = doc(vec![para(
        BLK,
        vec![
            obj(vec![("type", s("code"))]),
            obj(vec![("type", s("link")), ("content", arr(vec![text("x")]))]),
            obj(vec![("type", s("footnote_ref"))]),
            obj(vec![("type", s("inline_math"))]),
            obj(vec![("text", s("no type"))]),
        ],
    )]);
    let (issues, _) = check_content(&d, &no_ctx());
    assert_eq!(
        codes(&issues),
        vec![
            (Level::Error, "span.text".to_string(), "content[0].content[0]".to_string()),
            (Level::Error, "link.url".to_string(), "content[0].content[1]".to_string()),
            (Level::Error, "footnote_ref.id".to_string(), "content[0].content[2]".to_string()),
            (Level::Error, "inline_math.latex".to_string(), "content[0].content[3]".to_string()),
            (Level::Error, "span.missing_type".to_string(), "content[0].content[4]".to_string()),
        ]
    );
    assert_eq!(issues[0].message, "code 缺少 text");
}

fn cell(column: u64, extra: Vec<(&str, Json)>) -> Json {
    let mut m = vec![("id", s(CEL)), ("column", n(column)), ("children", arr(vec![]))];
    m.extend(extra);
    obj(m)
}

#[test]
fn irregular_table_is_a_warning() {
    let table = obj(vec![
        ("type", s("table")),
        ("id", s(BLK)),
        ("columns", arr(vec![obj(vec![]), obj(vec![])])),
        (
            "rows",
            arr(vec![
                obj(vec![("id", s(ROW)), ("cells", arr(vec![cell(0, vec![("rowSpan", n(2))]), cell(1, vec![("colSpan", n(2))])]))]),
                obj(vec![("id", s(ROW)), ("cells", arr(vec![cell(0, vec![])]))]),
            ]),
        ),
    ]);
    let (issues, _) = check_content(&doc(vec![table]), &no_ctx());
    assert_eq!(
        codes(&issues),
        vec![
            (Level::Warning, "table.irregular".to_string(), "content[0].rows[0].cells[1]".to_string()),
            (Level::Warning, "table.irregular".to_string(), "content[0].rows[1].cells[0]".to_string()),
        ]
    );
    assert_eq!(
        issues[0].message,
        "单元格 column(1) + colSpan(2) 超出声明列数(2)——不规则表，仅诊断不自动重写"
    );
    assert_eq!(issues[1].message, "单元格与既有占位重叠——不规则表，仅诊断不自动重写");
}

#[test]
fn row_span_past_the_end_and_missing_parts() {
    let table = obj(vec![
        ("type", s("table")),
        ("id", s(BLK)),
        (
            "rows",
            arr(vec![obj(vec![("cells", arr(vec![obj(vec![("id", s("bad")), ("rowSpan", n(3))]), cell(0, vec![("rowSpan", n(3))])]))])]),
        ),
    ]);
    let (issues, _) = check_content(&doc(vec![table]), &no_ctx());
    assert_eq!(
        codes(&issues),
        vec![
            (Level::Error, "table.columns".to_string(), "content[0]".to_string()),
            (Level::Warning, "table.irregular".to_string(), "content[0].rows[0].cells[1]".to_string()),
            (Level::Error, "node.missing_id".to_string(), "content[0].rows[0]".to_string()),
            (Level::Error, "id.invalid".to_string(), "content[0].rows[0].cells[0].id".to_string()),
            (Level::Error, "cell.column".to_string(), "content[0].rows[0].cells[0]".to_string()),
        ]
    );
    assert_eq!(issues[1].message, "单元格 rowSpan(3) 超出剩余行数(1)——不规则表，仅诊断不自动重写");
    assert_eq!(issues[2].message, "表格行缺少 id");
    assert_eq!(issues[3].message, "单元格 id 非法");
}

#[test]
fn format_extension_values_are_checked() {
    let fmt = obj(vec![
        (
            "paragraph",
            obj(vec![
                ("align", s("middle")),
                ("indentStartPt", f(12.5)),
                ("spaceAfterPt", f(1000.0)),
                ("lineHeight", f(0.25)),
            ]),
        ),
        (
            "character",
            obj(vec![
                ("fontSizePt", f(0.5)),
                ("color", s("#12345G")),
                ("highlight", s("#ABCDEF")),
                ("fontFamily", s("Times; x")),
                ("verticalAlign", s("baseline")),
            ]),
        ),
    ]);
    let d = doc(vec![obj(vec![("type", s("paragraph")), ("id", s(BLK)), ("x-athanor-format", fmt)])]);
    let (issues, _) = check_content(&d, &no_ctx());
    let p = "content[0].x-athanor-format";
    assert_eq!(
        codes(&issues),
        vec![
            (Level::Error, "format.align".to_string(), format!("{p}.paragraph.align")),
            (Level::Error, "format.range".to_string(), format!("{p}.paragraph.spaceAfterPt")),
            (Level::Error, "format.lineHeight".to_string(), format!("{p}.paragraph.lineHeight")),
            (Level::Error, "format.fontSizePt".to_string(), format!("{p}.character.fontSizePt")),
            (Level::Error, "format.color".to_string(), format!("{p}.character.color")),
            (Level::Error, "format.fontFamily".to_string(), format!("{p}.character.fontFamily")),
            (Level::Error, "format.verticalAlign".to_string(), format!("{p}.character.verticalAlign")),
        ]
    );
    assert_eq!(issues[0].message, "align 必须是 left|center|right|justify，实际为 `middle`");
    assert_eq!(issues[1].message, "spaceAfterPt 必须是 0–999 的数值（pt）");
    assert_eq!(issues[4].message, "color 必须是 #RRGGBB 形式，实际为 `#12345G`");
}

#[test]
fn format_ranges_accept_bounds_and_negative_zero() {
    let fmt = obj(vec![
        ("paragraph", obj(vec![("indentStartPt", f(-0.0)), ("indentEndPt", n(999)), ("firstLinePt", f(999.0)), ("lineHeight", n(5))])),
        ("character", obj(vec![("fontSizePt", n(1)), ("fontFamily", s(&"a".repeat(200)))])),
    ]);
    let d = doc(vec![obj(vec![("type", s("paragraph")), ("id", s(BLK)), ("x-athanor-format", fmt)])]);
    let (issues, _) = check_content(&d, &no_ctx());
    assert!(issues.is_empty(), "{issues:?}");
    let long = obj(vec![("character", obj(vec![("fontFamily", s(&"字".repeat(67)))]))]);
    let d = doc(vec![obj(vec![("type", s("paragraph")), ("id", s(BLK)), ("x-athanor-format", long)])]);
    let (issues, _) = check_content(&d, &no_ctx());
    assert_eq!(issues.len(), 1);
    assert_eq!(issues[0].code, "format.fontFamily");
}

#[test]
fn unknown_nodes_need_payload_and_summary() {
    let raw = |payload: &str| {
        obj(vec![
            ("type", s("unknown")),
            ("id", s(BLK)),
            ("loss_class", s("preserved_raw")),
            ("payload_ref", s(payload)),
            ("summary", s("raw OMML")),
        ])
    };
    let ctx = Ctx { entries: vec!["payloads/1.xml".to_string()] };
    let (issues, _) = check_content(&doc(vec![raw("payloads/1.xml")]), &ctx);
    assert!(issues.is_empty(), "{issues:?}");
    let (issues, _) = check_content(&doc(vec![raw("payloads/2.xml")]), &ctx);
    assert_eq!(codes(&issues), vec![(Level::Error, "unknown.payload_missing".to_string(), "content[0]".to_string())]);
    assert_eq!(issues[0].message, "payload_ref 指向不存在的条目: payloads/2.xml");
    let bare = obj(vec![("type", s("unknown")), ("id", s(BLK)), ("loss_class", s("lost"))]);
    let (issues, _) = check_content(&doc(vec![bare]), &ctx);
    assert_eq!(
        codes(&issues),
        vec![
            (Level::Error, "unknown.loss_class".to_string(), "content[0]".to_string()),
            (Level::Error, "unknown.summary".to_string(), "content[0]".to_string()),
        ]
    );
}

#[test]
fn type_specific_requirements() {
    let d = doc(vec![
        obj(vec![("type", s("list")), ("id", s(BLK)), ("style", s("dashed")), ("start", n(0))]),
        obj(vec![("type", s("code_block")), ("id", s(BLK))]),
        obj(vec![("type", s("callout")), ("id", s(BLK)), ("variant", s("tip"))]),
        obj(vec![("type", s("math_block")), ("id", s(BLK))]),
    ]);
    let (issues, _) = check_content(&d, &no_ctx());
    assert_eq!(
        codes(&issues),
        vec![
            (Level::Error, "list.style".to_string(), "content[0]".to_string()),
            (Level::Error, "list.start".to_string(), "content[0]".to_string()),
            (Level::Error, "code_block.text".to_string(), "content[1]".to_string()),
            (Level::Error, "math_block.latex".to_string(), "content[3]".to_string()),
        ]
    );
}

#[test]
fn list_items_are_checked_under_items_twice() {
    let item = obj(vec![("type", s("list_item")), ("id", s(BLK)), ("children", arr(vec![]))]);
    let list = obj(vec![("type", s("list")), ("id", s(BLK2)), ("style", s("bullet")), ("items", arr(vec![item]))]);
    let (issues, _) = check_content(&doc(vec![list]), &no_ctx());
    assert_eq!(
        codes(&issues),
        vec![
            (Level::Error, "id.wrong_prefix".to_string(), "content[0].items[0].id".to_string()),
            (Level::Error, "id.wrong_prefix".to_string(), "content[0].items[0].id".to_string()),
        ]
    );
}

#[test]
fn asset_references_are_gathered_in_order() {
    let fig = obj(vec![
        ("type", s("figure")),
        ("id", s(BLK)),
        ("asset", s("as_1")),
        ("caption", arr(vec![obj(vec![("type", s("inline_image")), ("asset", s("as_2"))])])),
    ]);
    let (issues, assets) = check_content(&doc(vec![fig]), &no_ctx());
    assert!(issues.is_empty(), "{issues:?}");
    assert_eq!(
        assets,
        vec![
            ("content[0]".to_string(), "as_1".to_string()),
            ("content[0].caption[0]".to_string(), "as_2".to_string()),
        ]
    );
}
