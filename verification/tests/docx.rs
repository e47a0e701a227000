use azodoc::docx::ast_in::meta_title;
use azodoc::docx::{inventory_summary, pandoc_available};
use azodoc::json::{Json, JsonNumber};
use azodoc::docx::{
    block_status, converter_name, core_title, loss_issues, not_found_friendly, span_status, DocxError,
    DocxReadPath, Inventory,
};

#[test]
fn converter_names() {
    assert_eq!(converter_name(), "athanor-docx");
    assert_eq!(DocxReadPath::Native.converter_name(), "athanor-docx");
    assert_eq!(DocxReadPath::Pandoc.converter_name(), "athanor-docx-pandoc");
    assert_eq!(azodoc::html::converter_name(), "athanor-html");
    assert_eq!(azodoc::md::converter_name(), "athanor-md");
}

#[test]
fn capability_statuses() {
    assert_eq!(block_status("paragraph"), "supported");
    assert_eq!(block_status("footnote"), "supported");
    assert_eq!(block_status("callout"), "degraded");
    assert_eq!(block_status("embed"), "degraded");
    assert_eq!(block_status("unknown_block"), "preserved");
    assert_eq!(block_status("whatever"), "degraded");
    assert_eq!(span_status("line_break"), "supported");
    assert_eq!(span_status("cite"), "degraded");
    assert_eq!(span_status("unknown"), "preserved");
    assert_eq!(span_status("unknown_block"), "degraded");
}

#[test]
fn loss_issues_follow_inventory() {
    let mut inv = Inventory::new();
    assert!(loss_issues(&inv).is_empty());
    inv.has_headers = true;
    inv.has_comments = true;
    let issues = loss_issues(&inv);
    assert_eq!(issues.len(), 2);
    assert_eq!(issues[0].0, "docx_headers");
    assert_eq!(issues[0].1, "页眉");
    assert_eq!(issues[1].0, "docx_comments");
    assert_eq!(issues[1].2, "批注在 Pandoc AST 中无对应表达，已丢弃");
}

#[test]
fn inventory_counts_entries_case_insensitively() {
    let mut inv = Inventory::new();
    assert!(!inv.note_entry("Word/Header1.xml"));
    assert!(!inv.note_entry("word/footer2.xml"));
    assert!(!inv.note_entry("word/media/image1.png"));
    assert!(!inv.note_entry("word/media/image2.png"));
    assert!(inv.note_entry("docProps/core.xml"));
    assert!(!inv.note_entry("word/document.xml"));
    assert!(inv.has_headers && inv.has_footers && !inv.has_comments);
    assert_eq!(inv.media_count, 2);
}

#[test]
fn core_title_is_trimmed_and_decoded() {
    let xml = r#"<cp:coreProperties><dc:title xml:lang="en"> A &amp;lt; B &gt; C </dc:title></cp:coreProperties>"#;
    assert_eq!(core_title(xml).as_deref(), Some("A < B > C"));
    assert_eq!(core_title("<dc:title>  </dc:title>"), None);
    assert_eq!(core_title("<dc:creator>x</dc:creator>"), None);
    assert_eq!(core_title("<dc:title>open"), None);
}

#[test]
fn docx_error_friendly_texts() {
    let e = DocxError::PandocFailed { exit: Some(2), stderr: "bad".into() };
    assert_eq!(
        e.friendly(),
        "错误：Pandoc 执行失败（退出码 Some(2)）: bad\n输入文件可能不是有效的 DOCX。建议：\n1. 用 Word/LibreOffice 打开确认文件可读\n2. 将完整错误信息提交 issue"
    );
    let t = DocxError::Timeout { timeout_secs: 120 };
    assert_eq!(t.message(), "Pandoc 超时（120s），进程已终止");
    let n = DocxError::PandocNotFound { searched: "PATH".into() };
    assert!(n.friendly().contains("\n   （或 choco install pandoc"));
    assert_eq!(not_found_friendly(&Ok("/usr/bin/pandoc".into())), "Pandoc 位于 /usr/bin/pandoc");
    assert_eq!(not_found_friendly(&Err(DocxError::BadJson("x".into()))), "错误：Pandoc 输出不是合法 JSON: x\n建议：检查输入与运行环境后重试。");
}

fn js(v: &str) -> Json {
    Json::Str(v.to_string())
}

fn jobj(members: Vec<(&str, Json)>) -> Json {
    Json::Object(members.into_iter().map(|(k, v)| (k.to_string(), v)).collect())
}

#[test]
fn meta_title_reads_strings_and_inlines() {
    let string = jobj(vec![("meta", jobj(vec![("title", jobj(vec![("t", js("MetaString")), ("c", js(" T "))]))]))]);
    assert_eq!(meta_title(&string), Some(" T ".to_string()));
    let inl = |t: &str, c: Option<&str>| match c {
        Some(c) => jobj(vec![("t", js(t)), ("c", js(c))]),
        None => jobj(vec![("t", js(t))]),
    };
    let inlines = Json::Array(vec![inl("Space", None), inl("Str", Some("My")), inl("Space", None), inl("Str", Some("Doc")), inl("Emph", Some("x"))]);
    let ast = jobj(vec![("meta", jobj(vec![("title", jobj(vec![("t", js("MetaInlines")), ("c", inlines)]))]))]);
    assert_eq!(meta_title(&ast), Some("My Doc".to_string()));
    let blank = jobj(vec![("meta", jobj(vec![("title", jobj(vec![("t", js("MetaBlocks")), ("c", Json::Array(vec![inl("Space", None)]))]))]))]);
    assert_eq!(meta_title(&blank), None);
    let other = jobj(vec![("meta", jobj(vec![("title", jobj(vec![("t", js("MetaBool")), ("c", Json::Bool(true))]))]))]);
    assert_eq!(meta_title(&other), None);
    assert_eq!(meta_title(&jobj(vec![])), None);
}

#[test]
fn inventory_summary_and_pandoc_availability() {
    let inv = Inventory {
        title: Some("T".to_string()),
        has_headers: true,
        has_footers: false,
        has_comments: true,
        media_count: 2,
    };
    match inventory_summary(&inv) {
        Json::Object(ms) => {
            let keys: Vec<&str> = ms.iter().map(|(k, _)| k.as_str()).collect();
            assert_eq!(keys, vec!["title", "headers", "footers", "comments", "media"]);
            assert!(matches!(&ms[0].1, Json::Str(t) if t == "T"));
            assert!(matches!(ms[1].1, Json::Bool(true)));
            assert!(matches!(ms[2].1, Json::Bool(false)));
            assert!(matches!(ms[4].1, Json::Number(JsonNumber::PosInt(2))));
        }
        _ => panic!("the summary is an object"),
    }
    let none = Inventory { title: None, has_headers: false, has_footers: false, has_comments: false, media_count: 0 };
    match inventory_summary(&none) {
        Json::Object(ms) => assert!(matches!(ms[0].1, Json::Null)),
        _ => panic!("the summary is an object"),
    }
    assert!(pandoc_available(&Ok("/usr/bin/pandoc".to_string())));
    assert!(!pandoc_available(&Err(DocxError::PandocNotFound { searched: "PATH".to_string() })));
}

#[test]
fn every_bridge_error_renders_headline_message_and_advice() {
    let all = vec![
        DocxError::PandocNotFound { searched: "PATH; tools".into() },
        DocxError::PandocFailed { exit: Some(2), stderr: "bad".into() },
        DocxError::Timeout { timeout_secs: 120 },
        DocxError::BadJson("j".into()),
        DocxError::Io("i".into()),
    ];
    for e in &all {
        let f = e.friendly();
        assert!(f.starts_with("错误："));
        assert!(f.contains('\n'));
        match e {
            DocxError::PandocNotFound { searched } => {
                assert!(f.contains(searched.as_str()));
                assert!(f.contains("AZODOC_PANDOC_PATH"));
            }
            _ => assert!(f.contains(&e.message())),
        }
    }
}
