use azodoc::ooxml::comments::Comments;
use azodoc::ooxml::document::{
    agg_message, collect_m_text, Agg, LossClass, TrackedStats, BOOKMARK, FIELD, TAB, TRACKED,
};
use azodoc::ooxml::error::OoxmlError;
use azodoc::ooxml::numbering::{num_pr_of, Numbering};
use azodoc::ooxml::xml::parse_xml;

#[test]
fn num_pr_extraction() {
    let ppr = parse_xml(
        "p.xml",
        br#"<w:pPr xmlns:w="urn"><w:numPr><w:ilvl w:val="1"/><w:numId w:val="7"/></w:numPr></w:pPr>"#,
    )
    .unwrap();
    assert_eq!(num_pr_of(&ppr), Some(("7".to_string(), 1)));
}

#[test]
fn num_pr_defaults_level_and_needs_num_id() {
    let ppr = parse_xml("p.xml", br#"<w:pPr><w:numPr><w:numId w:val="2"/></w:numPr></w:pPr>"#).unwrap();
    assert_eq!(num_pr_of(&ppr), Some(("2".to_string(), 0)));
    let none = parse_xml("p.xml", br#"<w:pPr><w:numPr><w:ilvl w:val="1"/></w:numPr></w:pPr>"#).unwrap();
    assert_eq!(num_pr_of(&none), None);
}

const NUMBERING: &[u8] = br#"<w:numbering xmlns:w="urn"><w:abstractNum w:abstractNumId="0"><w:lvl w:ilvl="0"><w:start w:val="3"/><w:numFmt w:val="decimal"/></w:lvl><w:lvl w:ilvl="1"><w:numFmt w:val="bullet"/></w:lvl><w:lvl w:ilvl="x"/></w:abstractNum><w:num w:numId="7"><w:abstractNumId w:val="0"/></w:num><w:num w:numId="8"><w:abstractNumId w:val="9"/></w:num></w:numbering>"#;

#[test]
fn numbering_levels_format_and_start() {
    let doc = parse_xml("word/numbering.xml", NUMBERING).unwrap();
    let n = Numbering::from_doc(&doc);
    assert!(n.is_ordered("7", 0));
    assert_eq!(n.start("7", 0), 3);
    assert!(!n.is_ordered("7", 1));
    assert_eq!(n.start("7", 1), 1);
    assert!(!n.is_ordered("9", 0));
    assert!(n.level("8", 0).is_none());
    assert_eq!(n.level("7", 0).unwrap().fmt, "decimal");
    assert!(Numbering::new().level("7", 0).is_none());
}

#[test]
fn later_definitions_replace_earlier_ones() {
    let doc = parse_xml(
        "word/numbering.xml",
        br#"<w:numbering><w:abstractNum w:abstractNumId="1"><w:lvl w:ilvl="0"><w:numFmt w:val="none"/></w:lvl></w:abstractNum><w:num w:numId="1"><w:abstractNumId w:val="1"/></w:num><w:abstractNum w:abstractNumId="1"><w:lvl w:ilvl="0"><w:numFmt w:val="lowerLetter"/><w:start w:val="5"/></w:lvl></w:abstractNum></w:numbering>"#,
    )
    .unwrap();
    let n = Numbering::from_doc(&doc);
    assert!(n.is_ordered("1", 0));
    assert_eq!(n.start("1", 0), 5);
}

#[test]
fn comments_join_paragraphs_and_default_author() {
    let doc = parse_xml(
        "word/comments.xml",
        br#"<w:comments><w:comment w:id="0" w:author="Ann" w:date="2024-01-01T00:00:00Z"><w:p><w:r><w:t>one</w:t></w:r></w:p><w:p><w:r><w:t>two</w:t></w:r></w:p></w:comment><w:comment w:id="1">bare text</w:comment><w:comment w:author="x"/></w:comments>"#,
    )
    .unwrap();
    let c = Comments::from_doc(&doc);
    assert_eq!(c.by_id.len(), 2);
    let first = c.get("0").unwrap();
    assert_eq!(first.author, "Ann");
    assert_eq!(first.date.as_deref(), Some("2024-01-01T00:00:00Z"));
    assert_eq!(first.text, "one\ntwo");
    let second = c.get("1").unwrap();
    assert_eq!(second.author, "unknown");
    assert_eq!(second.date, None);
    assert_eq!(second.text, "bare text");
    assert!(c.get("2").is_none());
}

#[test]
fn aggregated_messages_name_feature_and_count() {
    assert_eq!(agg_message(TAB, 3), "制表位退化为空格（3 处）");
    assert_eq!(agg_message(TRACKED, 1), "修订（tracked changes）按终稿视图导入（1 处）");
    assert_eq!(agg_message("docx_other", 0), "已按损失规范处理（0 处）");
    assert_ne!(LossClass::Partial, LossClass::Unsupported);
}

#[test]
fn tracked_total_sums_both_kinds() {
    let mut t = TrackedStats::new();
    assert_eq!(t.total(), 0);
    t.authors.push(("a".into(), 2, 1));
    t.authors.push(("b".into(), 0, 4));
    assert_eq!(t.total(), 7);
}

#[test]
fn math_text_collects_m_t_in_order() {
    let m = parse_xml("t.xml", br#"<m:oMath><m:r><m:t>x</m:t></m:r><m:sSup><m:e><m:r><m:t>y</m:t></m:r></m:e><w:t>no</w:t></m:sSup></m:oMath>"#).unwrap();
    assert_eq!(collect_m_text(&m), "xy");
}

#[test]
fn ooxml_error_friendly_is_four_part() {
    let e = OoxmlError::NotZip("bad".into());
    assert!(e.friendly().starts_with("错误：输入不是有效的 ZIP/OOXML 包: bad\n"));
    let t = OoxmlError::TooLarge { part: "p".into(), size: 10, limit: 5 };
    assert_eq!(t.message(), "部件 p 解压后 10 字节，超过安全上限 5 字节");
    assert_eq!(
        OoxmlError::TooManyEntries { limit: 10000 }.message(),
        "OOXML 包条目数超过安全上限 10000"
    );
}

#[test]
fn aggregate_counts_per_feature_in_name_order() {
    let mut agg = Agg::new();
    agg.bump(TAB, LossClass::Partial, "degraded", String::new());
    agg.bump(BOOKMARK, LossClass::Partial, "dropped", "_Toc1".to_string());
    agg.bump(TAB, LossClass::Degraded, "other", String::new());
    agg.bump(FIELD, LossClass::Partial, "degraded", "PAGE".to_string());
    let list = agg.entry_list();
    let names: Vec<&str> = list.iter().map(|e| e.feature.as_str()).collect();
    assert_eq!(names, vec!["docx_bookmark", "docx_field", "docx_tab"]);
    let tab = &list[2];
    assert_eq!(tab.count, 2);
    // The class and action of the first occurrence stay.
    assert_eq!(tab.class, LossClass::Partial);
    assert_eq!(tab.action, "degraded");
    assert!(tab.samples.is_empty());
}

#[test]
fn aggregate_keeps_three_distinct_samples() {
    let mut agg = Agg::new();
    for s in ["a", "b", "a", "", "c", "d"] {
        agg.bump(FIELD, LossClass::Partial, "degraded", s.to_string());
    }
    let e = &agg.entry_list()[0];
    assert_eq!(e.count, 6);
    assert_eq!(e.samples, vec!["a".to_string(), "b".to_string(), "c".to_string()]);
}

#[test]
fn aggregate_flush_gives_one_event_per_feature() {
    let mut agg = Agg::new();
    agg.bump(TAB, LossClass::Partial, "degraded", String::new());
    agg.bump(TAB, LossClass::Partial, "degraded", String::new());
    agg.bump(FIELD, LossClass::Partial, "degraded", "PAGE".to_string());
    agg.bump(FIELD, LossClass::Partial, "degraded", "NUMPAGES".to_string());
    let events = agg.flush();
    assert_eq!(events.len(), 2);
    assert_eq!(events[0].feature, "docx_field");
    assert_eq!(events[0].detail, "count=2; sample=PAGE | NUMPAGES");
    assert_eq!(events[0].message, "域指令无法建模（结果文本已保留）（2 处）");
    assert_eq!(events[0].action, "degraded");
    assert_eq!(events[1].feature, "docx_tab");
    assert_eq!(events[1].detail, "count=2");
    assert_eq!(events[1].class, LossClass::Partial);
}

#[test]
fn every_ooxml_error_renders_headline_message_and_advice() {
    let all = vec![
        OoxmlError::NotZip("z".into()),
        OoxmlError::MissingPart("word/document.xml".into()),
        OoxmlError::BadXml { part: "p".into(), msg: "m".into() },
        OoxmlError::Encrypted { part: "p".into() },
        OoxmlError::TooLarge { part: "p".into(), size: 9, limit: 8 },
        OoxmlError::TooManyEntries { limit: 10000 },
        OoxmlError::UnsafeName("../x".into()),
        OoxmlError::Io("i".into()),
    ];
    for e in &all {
        let f = e.friendly();
        assert!(f.starts_with("错误："));
        assert!(f[("错误：".len())..].starts_with(&e.message()));
        assert!(f.contains('\n'));
    }
}
