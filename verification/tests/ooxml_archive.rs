use azodoc::docx::{inventory, loss_issues};
use azodoc::ooxml::comments::Comments;
use azodoc::ooxml::error::OoxmlError;
use azodoc::ooxml::numbering::Numbering;
use azodoc::ooxml::package::{admit_part, check_entry_count, rels_part_name, OoxmlPackage, MAX_PART_BYTES, MAX_TOTAL_BYTES};
use azodoc::ooxml::styles::Styles;
use std::io::{Cursor, Write};
use zip::write::SimpleFileOptions;
use zip::ZipWriter;

fn make_pkg(entries: &[(&str, &[u8])]) -> Vec<u8> {
    let cursor = Cursor::new(Vec::new());
    let mut w = ZipWriter::new(cursor);
    for (name, data) in entries {
        w.start_file(*name, SimpleFileOptions::default()).unwrap();
        w.write_all(data).unwrap();
    }
    w.finish().unwrap().into_inner()
}

const CT: &[u8] = br#"<Types xmlns="http://schemas.openxmlformats.org/package/2006/content-types"><Default Extension="xml" ContentType="application/xml"/><Override PartName="/word/document.xml" ContentType="application/vnd.openxmlformats-officedocument.wordprocessingml.document.main+xml"/></Types>"#;

#[test]
fn opens_and_resolves_content_types() {
    let bytes = make_pkg(&[("[Content_Types].xml", CT), ("word/document.xml", b"<w:document/>")]);
    let mut pkg = OoxmlPackage::open(&bytes).unwrap();
    assert_eq!(
        pkg.content_type("word/document.xml").as_deref(),
        Some("application/vnd.openxmlformats-officedocument.wordprocessingml.document.main+xml")
    );
    assert_eq!(pkg.content_type("docProps/core.xml").as_deref(), Some("application/xml"));
    assert!(pkg.has_part("word/document.xml"));
    assert!(!pkg.has_part("word/nope.xml"));
}

#[test]
fn rejects_non_zip() {
    let err = match OoxmlPackage::open(b"not a zip at all") {
        Err(e) => e,
        Ok(_) => panic!("expected open failure"),
    };
    assert!(matches!(err, OoxmlError::NotZip(_)));
    assert!(err.friendly().contains("错误："));
}

#[test]
fn rels_resolution_relative_and_external() {
    let bytes = make_pkg(&[
        ("[Content_Types].xml", CT),
        (
            "word/_rels/document.xml.rels",
            br#"<Relationships xmlns="http://schemas.openxmlformats.org/package/2006/relationships"><Relationship Id="rId1" Type="http://x/image" Target="media/image1.png"/><Relationship Id="rId2" Type="http://x/hyper" Target="https://a.example/" TargetMode="External"/><Relationship Id="rId3" Type="http://x/core" Target="../docProps/core.xml"/></Relationships>"#,
        ),
    ]);
    let mut pkg = OoxmlPackage::open(&bytes).unwrap();
    let rels = pkg.rels("word/document.xml").unwrap();
    assert_eq!(rels.len(), 3);
    assert_eq!(rels[0].resolve("word/document.xml"), "word/media/image1.png");
    assert_eq!(rels[1].resolve("word/document.xml"), "https://a.example/");
    assert!(rels[1].external);
    assert_eq!(rels[2].resolve("word/document.xml"), "docProps/core.xml");
}

#[test]
fn part_names_preserve_archive_order() {
    let bytes = make_pkg(&[("b.xml", b"<b/>"), ("a.xml", b"<a/>")]);
    let mut pkg = OoxmlPackage::open(&bytes).unwrap();
    assert_eq!(pkg.part_names(), vec!["b.xml", "a.xml"]);
}

#[test]
fn parses_num_fmt_and_start_via_package() {
    let bytes = make_pkg(&[(
        "word/numbering.xml",
        br#"<w:numbering xmlns:w="urn"><w:abstractNum w:abstractNumId="0"><w:lvl w:ilvl="0"><w:start w:val="3"/><w:numFmt w:val="decimal"/></w:lvl><w:lvl w:ilvl="1"><w:numFmt w:val="bullet"/></w:lvl></w:abstractNum><w:num w:numId="7"><w:abstractNumId w:val="0"/></w:num></w:numbering>"#,
    )]);
    let mut pkg = OoxmlPackage::open(&bytes).unwrap();
    let n = Numbering::parse(&mut pkg).unwrap();
    assert!(n.is_ordered("7", 0));
    assert_eq!(n.start("7", 0), 3);
    assert!(!n.is_ordered("7", 1));
    assert!(!n.is_ordered("9", 0));
}

fn make_docx_zip(entries: &[(&str, Vec<u8>)]) -> Vec<u8> {
    let buf = Cursor::new(Vec::new());
    let mut z = ZipWriter::new(buf);
    for (name, data) in entries {
        z.start_file(*name, SimpleFileOptions::default()).unwrap();
        z.write_all(data).unwrap();
    }
    z.finish().unwrap().into_inner()
}

#[test]
fn inventory_detects_dropped_parts() {
    let docx = make_docx_zip(&[
        (
            "docProps/core.xml",
            r#"<cp:coreProperties><dc:title>清点标题</dc:title></cp:coreProperties>"#.as_bytes().to_vec(),
        ),
        ("word/header1.xml", b"<w:ftr/>".to_vec()),
        ("word/footer1.xml", b"<w:ftr/>".to_vec()),
        ("word/comments.xml", b"<w:comments/>".to_vec()),
        ("word/media/image1.png", vec![0x89, b'P', b'N', b'G']),
    ]);
    let inv = inventory(&docx).unwrap();
    assert_eq!(inv.title.as_deref(), Some("清点标题"));
    assert!(inv.has_headers && inv.has_footers && inv.has_comments);
    assert_eq!(inv.media_count, 1);
    let issues = loss_issues(&inv);
    assert_eq!(issues.len(), 3, "one event each for headers, footers and comments");
}

#[test]
fn inventory_on_plain_document_is_clean() {
    let docx = make_docx_zip(&[("word/document.xml", b"<w:document/>".to_vec())]);
    let inv = inventory(&docx).unwrap();
    assert_eq!(inv.title, None);
    assert!(!inv.has_headers);
    assert_eq!(loss_issues(&inv).len(), 0);
}

#[test]
fn inventory_rejects_non_zip() {
    let err = inventory(b"plain text").unwrap_err();
    assert!(err.starts_with("docx 不是有效 ZIP: "));
}

#[test]
fn read_part_guards_names_and_presence() {
    let bytes = make_pkg(&[("/word/lead.xml", b"<x/>"), ("word/plain.xml", b"<y>t</y>")]);
    let mut pkg = OoxmlPackage::open(&bytes).unwrap();
    assert!(matches!(pkg.read_part("../escape.xml"), Err(OoxmlError::UnsafeName(_))));
    assert!(matches!(pkg.read_part("word/missing.xml"), Err(OoxmlError::MissingPart(p)) if p == "word/missing.xml"));
    assert_eq!(pkg.read_part("word/lead.xml").unwrap(), b"<x/>".to_vec());
    assert_eq!(pkg.read_part("/word/plain.xml").unwrap(), b"<y>t</y>".to_vec());
    let tree = pkg.part_tree("word/plain.xml").unwrap();
    assert_eq!(tree.all_text(), "t");
    assert!(pkg.has_part("word/lead.xml"));
    assert!(pkg.rels("word/plain.xml").unwrap().is_empty());
}

#[test]
fn absent_parts_give_empty_tables() {
    let bytes = make_pkg(&[("word/document.xml", b"<w:document/>")]);
    let mut pkg = OoxmlPackage::open(&bytes).unwrap();
    assert!(Styles::parse(&mut pkg).unwrap().by_id.is_empty());
    assert!(Comments::parse(&mut pkg).unwrap().by_id.is_empty());
    assert!(Numbering::parse(&mut pkg).unwrap().level("1", 0).is_none());
    assert_eq!(pkg.content_type("word/document.xml"), None);
}

#[test]
fn safety_limits() {
    assert!(check_entry_count(10000).is_ok());
    assert!(matches!(check_entry_count(10001), Err(OoxmlError::TooManyEntries { limit: 10000 })));
    let (t, v) = admit_part("p", None, 5);
    assert_eq!(t, 5);
    assert!(matches!(v, Err(OoxmlError::MissingPart(_))));
    let (t, v) = admit_part("p", Some((true, 1)), 5);
    assert_eq!(t, 5);
    assert!(matches!(v, Err(OoxmlError::Encrypted { .. })));
    let (t, v) = admit_part("p", Some((false, MAX_PART_BYTES + 1)), 5);
    assert_eq!(t, 5);
    assert!(matches!(v, Err(OoxmlError::TooLarge { limit, .. }) if limit == MAX_PART_BYTES));
    let (t, v) = admit_part("p", Some((false, 10)), MAX_TOTAL_BYTES - 5);
    assert_eq!(t, MAX_TOTAL_BYTES + 5);
    assert!(matches!(v, Err(OoxmlError::TooLarge { size, limit, .. }) if size == MAX_TOTAL_BYTES + 5 && limit == MAX_TOTAL_BYTES));
    let (t, v) = admit_part("p", Some((false, 10)), 7);
    assert_eq!(t, 17);
    assert!(v.is_ok());
}

#[test]
fn rels_part_names() {
    assert_eq!(rels_part_name("word/document.xml"), "word/_rels/document.xml.rels");
    assert_eq!(rels_part_name("root.xml"), "_rels/root.xml.rels");
    assert_eq!(rels_part_name("a/b/c.xml"), "a/b/_rels/c.xml.rels");
}

#[test]
fn present_parts_are_read_and_broken_ones_refused() {
    let comments = br#"<w:comments xmlns:w="urn:w"><w:comment w:id="7" w:author="Ann"><w:p><w:r><w:t>hi</w:t></w:r></w:p></w:comment></w:comments>"#;
    let bytes = make_pkg(&[("[Content_Types].xml", CT), ("word/comments.xml", comments)]);
    let mut pkg = OoxmlPackage::open(&bytes).unwrap();
    let c = Comments::parse(&mut pkg).unwrap();
    assert_eq!(c.by_id.len(), 1);
    assert_eq!(c.by_id[0].id, "7");
    assert_eq!(c.by_id[0].author, "Ann");

    let broken = make_pkg(&[("word/styles.xml", b"<w:styles><w:style></w:styles>")]);
    let mut pkg = OoxmlPackage::open(&broken).unwrap();
    assert!(matches!(Styles::parse(&mut pkg), Err(OoxmlError::BadXml { .. })));

    let bad_ct = make_pkg(&[("[Content_Types].xml", b"<Types><Default")]);
    assert!(matches!(OoxmlPackage::open(&bad_ct), Err(OoxmlError::BadXml { .. })));
}
