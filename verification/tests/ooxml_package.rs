use azodoc::ooxml::error::OoxmlError;
use azodoc::ooxml::package::{normalize_part_name, sanitize_part_name, ContentTypes, Relationship};
use azodoc::ooxml::xml::parse_xml;

fn chars(s: &str) -> Vec<char> {
    s.chars().collect()
}

#[test]
fn sanitize_rejects_traversal() {
    assert!(sanitize_part_name("word/media/../evil").is_err());
    assert!(sanitize_part_name("/abs/path.xml").is_ok());
    assert_eq!(sanitize_part_name("/word/a.xml").unwrap(), "word/a.xml");
    assert!(sanitize_part_name("C:/evil.xml").is_err());
}

#[test]
fn sanitize_rejects_empty_segments_and_nul() {
    assert!(matches!(sanitize_part_name(""), Err(OoxmlError::UnsafeName(n)) if n.is_empty()));
    assert!(sanitize_part_name("/").is_err());
    assert!(sanitize_part_name("a//b").is_err());
    assert!(sanitize_part_name("a/b/").is_err());
    assert!(sanitize_part_name("a\0b").is_err());
    assert_eq!(sanitize_part_name("word\\media\\x.png").unwrap(), "word/media/x.png");
    assert_eq!(sanitize_part_name("a/./b").unwrap(), "a/./b");
    match sanitize_part_name("x/../y") {
        Err(OoxmlError::UnsafeName(n)) => assert_eq!(n, "x/../y"),
        _ => panic!("expected an unsafe-name error"),
    }
}

#[test]
fn sanitizing_twice_changes_nothing() {
    for name in ["/word/document.xml", "customXml\\item1.xml", "[Content_Types].xml"] {
        let once = sanitize_part_name(name).unwrap();
        assert_eq!(sanitize_part_name(&once).unwrap(), once);
    }
}

#[test]
fn normalizing_turns_backslashes_and_drops_one_slash() {
    assert_eq!(normalize_part_name(&chars("\\word\\a.xml")), chars("word/a.xml"));
    assert_eq!(normalize_part_name(&chars("//x")), chars("/x"));
    assert_eq!(normalize_part_name(&chars("")), chars(""));
}

const CT: &[u8] = br#"<Types xmlns="http://schemas.openxmlformats.org/package/2006/content-types"><Default Extension="XML" ContentType="application/xml"/><Default Extension="png" ContentType="image/png"/><Override PartName="/word/document.xml" ContentType="application/vnd.openxmlformats-officedocument.wordprocessingml.document.main+xml"/><Other/></Types>"#;

#[test]
fn content_types_resolve_overrides_then_defaults() {
    let doc = parse_xml("[Content_Types].xml", CT).unwrap();
    let ct = ContentTypes::parse(&doc);
    assert_eq!(ct.defaults.len(), 2);
    assert_eq!(ct.defaults[0].0, "xml");
    assert_eq!(ct.overrides[0].0, "word/document.xml");
    assert_eq!(
        ct.of("word/document.xml"),
        Some("application/vnd.openxmlformats-officedocument.wordprocessingml.document.main+xml")
    );
    assert_eq!(ct.of("/word/document.xml"), ct.of("word/document.xml"));
    assert_eq!(ct.of("docProps/core.xml"), Some("application/xml"));
    assert_eq!(ct.of("word/media/a.PNG"), Some("image/png"));
    assert_eq!(ct.of("word/media/a.gif"), None);
    assert_eq!(ContentTypes::new().of("x.xml"), None);
}

fn rel(target: &str, external: bool) -> Relationship {
    Relationship { id: "rId1".into(), rel_type: "t".into(), target: target.into(), external }
}

#[test]
fn relationship_targets_resolve_against_the_source() {
    assert_eq!(rel("media/image1.png", false).resolve("word/document.xml"), "word/media/image1.png");
    assert_eq!(rel("https://a.example/", true).resolve("word/document.xml"), "https://a.example/");
    assert_eq!(rel("../docProps/core.xml", false).resolve("word/document.xml"), "docProps/core.xml");
}

#[test]
fn relative_targets_walk_segments() {
    assert_eq!(rel("./a/./b.xml", false).resolve("word/document.xml"), "word/a/b.xml");
    assert_eq!(rel("../../../x.xml", false).resolve("word/sub/doc.xml"), "x.xml");
    assert_eq!(rel("/word/abs.xml", false).resolve("customXml/item.xml"), "customXml/word/abs.xml");
    assert_eq!(rel("a.xml", false).resolve("root.xml"), "a.xml");
    assert_eq!(rel("", false).resolve("word/document.xml"), "word");
}
