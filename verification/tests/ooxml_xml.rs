use azodoc::ooxml::error::OoxmlError;
use azodoc::ooxml::xml::{el_to_xml, parse_xml, resolve_entity, split_qn, El};

#[test]
fn parses_namespaces_and_attrs() {
    let doc = parse_xml(
        "t.xml",
        br#"<w:document xmlns:w="urn:x"><w:body><w:p w:numId="3"><w:r><w:t xml:space="preserve">a &amp; b</w:t></w:r></w:p></w:body></w:document>"#,
    )
    .unwrap();
    assert!(doc.is("w", "document"));
    let p = doc.child("w", "body").unwrap().child("w", "p").unwrap();
    assert_eq!(p.attr("w:numId"), Some("3"));
    let t = p.child("w", "r").unwrap().child("w", "t").unwrap();
    assert_eq!(t.text, "a & b");
    assert_eq!(t.attr("xml:space"), Some("preserve"));
}

#[test]
fn parses_unprefixed_content_types_shape() {
    let doc = parse_xml(
        "[Content_Types].xml",
        br#"<Types xmlns="http://x"><Default Extension="xml" ContentType="a/b"/><Override PartName="/w.xml" ContentType="c/d"/></Types>"#,
    )
    .unwrap();
    assert_eq!(doc.prefix, "");
    assert_eq!(doc.local, "Types");
    let d = doc.child("", "Default").unwrap();
    assert_eq!(d.attr("ContentType"), Some("a/b"));
}

#[test]
fn empty_elements_and_descendants() {
    let doc = parse_xml("t.xml", br#"<a><b><c v="1"/><c v="2"/></b><c v="3"/></a>"#).unwrap();
    let mut cs = Vec::new();
    doc.descendants("", "c", &mut cs);
    assert_eq!(cs.len(), 3);
    assert_eq!(cs[0].attr("v"), Some("1"));
    assert!(doc.find_descendant("", "b").unwrap().child("", "c").is_some());
}

#[test]
fn serializes_roundtrip_minimal() {
    let doc = parse_xml("t.xml", br#"<m:oMath><m:r><m:t>x+1</m:t></m:r></m:oMath>"#).unwrap();
    let xml = el_to_xml(&doc);
    assert!(xml.contains("<m:oMath>"));
    assert!(xml.contains("x+1"));
    assert!(xml.ends_with("</m:oMath>"));
}

#[test]
fn bad_xml_is_reported() {
    let err = parse_xml("t.xml", b"<a><b></a>").unwrap_err();
    assert!(matches!(err, OoxmlError::BadXml { .. }));
}

#[test]
fn local_attribute_and_child_lookup() {
    let doc = parse_xml("t.xml", br#"<r:x r:embed="rId5"><p:y/><q:y k="2"/></r:x>"#).unwrap();
    assert_eq!(doc.attr_local("embed"), Some("rId5"));
    assert_eq!(doc.attr("embed"), None);
    assert!(doc.child_local("y").unwrap().is("p", "y"));
    assert!(doc.has_child("q", "y"));
    assert!(!doc.has_child("z", "y"));
}

#[test]
fn all_text_concatenates_in_document_order() {
    let doc = parse_xml("t.xml", br#"<a>1<b>2<c>3</c></b><d>4</d></a>"#).unwrap();
    assert_eq!(doc.all_text(), "1234");
}

#[test]
fn serialization_escapes_text_and_attributes() {
    let doc = parse_xml("t.xml", br#"<a k="&quot;&lt;">x &lt; y &amp; z</a>"#).unwrap();
    assert_eq!(doc.attr("k"), Some("\"<"));
    assert_eq!(el_to_xml(&doc), r#"<a k="&quot;&lt;">x &lt; y &amp; z</a>"#);
    let empty = parse_xml("t.xml", b"<w:br/>").unwrap();
    assert_eq!(el_to_xml(&empty), "<w:br/>");
}

#[test]
fn qualified_names_split_at_first_colon() {
    let q: Vec<char> = "w:t".chars().collect();
    assert_eq!(split_qn(&q), ("w".to_string(), "t".to_string()));
    let q: Vec<char> = "plain".chars().collect();
    assert_eq!(split_qn(&q), (String::new(), "plain".to_string()));
}

#[test]
fn entities_resolve_to_their_characters() {
    assert_eq!(resolve_entity("amp"), "&");
    assert_eq!(resolve_entity("#65"), "A");
    assert_eq!(resolve_entity("#x4e2d"), "中");
    let doc = parse_xml("t.xml", b"<a>&#x41;&#66;&apos;</a>").unwrap();
    assert_eq!(doc.text, "AB'");
}

#[test]
fn default_element_is_empty() {
    let e = El::default();
    assert_eq!(e.local, "");
    assert!(e.children.is_empty());
    assert_eq!(e.all_text(), "");
}

#[test]
fn attribute_values_are_normalised_or_kept_raw() {
    let doc = parse_xml("t.xml", b"<a t=\"x\ty\" k=\"a&unknown;b\" q=\"&#65;&amp;\"/>").unwrap();
    assert_eq!(doc.attr("t"), Some("x y"));
    assert_eq!(doc.attr("k"), Some("a&unknown;b"));
    assert_eq!(doc.attr("q"), Some("A&"));
    assert_eq!(doc.attrs.len(), 3);
}

#[test]
fn bad_xml_names_the_part_and_a_missing_root() {
    match parse_xml("t.xml", b"<a><b></a>") {
        Err(OoxmlError::BadXml { part, msg }) => {
            assert_eq!(part, "t.xml");
            assert!(!msg.is_empty());
        }
        _ => panic!("mismatched end tag must be refused"),
    }
    match parse_xml("t.xml", b"") {
        Err(OoxmlError::BadXml { part, msg }) => {
            assert_eq!(part, "t.xml");
            assert_eq!(msg, "无文档根元素");
        }
        _ => panic!("no root element must be refused"),
    }
}
