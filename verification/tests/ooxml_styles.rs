use azodoc::ooxml::styles::{
    assign_slug, half_points_to_pt, parse_doc_defaults, parse_run_flags, twips_to_pt, RunFlags, Styles,
};
use azodoc::ooxml::xml::parse_xml;

#[test]
fn slug_rules_match_theme_schema() {
    let mut used: Vec<String> = Vec::new();
    let mut seq = 0usize;
    assert_eq!(assign_slug("Heading 1", &mut used, &mut seq), "heading-1");
    assert_eq!(assign_slug("标题 1", &mut used, &mut seq), "style-1");
    assert_eq!(assign_slug("Quote", &mut used, &mut seq), "quote");
    assert_eq!(assign_slug("Quote", &mut used, &mut seq), "style-2");
    assert_eq!(assign_slug("9 Point", &mut used, &mut seq), "style-3");
}

#[test]
fn fallback_slugs_skip_names_already_taken() {
    let mut used: Vec<String> = vec!["style-1".into(), "style-2".into()];
    let mut seq = 0usize;
    assert_eq!(assign_slug("", &mut used, &mut seq), "style-3");
    assert_eq!(seq, 3);
    assert_eq!(assign_slug("Style 4", &mut used, &mut seq), "style-4");
    assert_eq!(assign_slug("--", &mut used, &mut seq), "style-5");
    assert_eq!(used.len(), 5);
    assert_eq!(assign_slug("  Body Text!  ", &mut used, &mut seq), "body-text");
}

#[test]
fn pt_formatting() {
    assert_eq!(half_points_to_pt(22), "11pt");
    assert_eq!(half_points_to_pt(21), "10.5pt");
    assert_eq!(twips_to_pt(1440), "72pt");
    assert_eq!(twips_to_pt(1684), "84.2pt");
}

fn float_pt(pt: f64) -> String {
    if (pt - pt.round()).abs() < f64::EPSILON {
        format!("{}pt", pt.round() as i64)
    } else {
        format!("{pt:.1}pt")
    }
}

#[test]
fn point_values_agree_with_double_formatting() {
    for v in -5000i64..5000 {
        assert_eq!(twips_to_pt(v), float_pt(v as f64 / 20.0), "twips {v}");
        assert_eq!(half_points_to_pt(v), float_pt(v as f64 / 2.0), "half points {v}");
    }
    for v in [
        123456789i64, 987654321, 1_000_000_007, 4_503_599_627_370_495, 9_007_199_254_740_991,
        -9_007_199_254_740_991, 2_251_799_813_685_253, 77_777_777_777_777,
    ] {
        assert_eq!(twips_to_pt(v), float_pt(v as f64 / 20.0), "twips {v}");
        assert_eq!(half_points_to_pt(v), float_pt(v as f64 / 2.0), "half points {v}");
    }
}

#[test]
fn run_flags_honour_off_values() {
    let rpr = parse_xml(
        "s.xml",
        br#"<w:rPr><w:b/><w:i w:val="0"/><w:u w:val="single"/><w:dstrike/></w:rPr>"#,
    )
    .unwrap();
    let f = parse_run_flags(&rpr);
    assert_eq!(f, RunFlags { bold: true, italic: false, underline: true, strike: true });
    assert!(!f.is_plain());
    let none = parse_xml("s.xml", br#"<w:rPr><w:b w:val="false"/><w:u w:val="none"/></w:rPr>"#).unwrap();
    assert!(parse_run_flags(&none).is_plain());
    assert!(RunFlags::default().is_plain());
}

const STYLES: &str = r#"<w:styles xmlns:w="urn">
<w:docDefaults><w:rPrDefault><w:rPr><w:rFonts w:ascii="Calibri"/><w:sz w:val="22"/></w:rPr></w:rPrDefault></w:docDefaults>
<w:style w:type="paragraph" w:default="1" w:styleId="Normal"><w:name w:val="Normal"/><w:rPr><w:sz w:val="24"/></w:rPr></w:style>
<w:style w:type="paragraph" w:styleId="Heading1"><w:name w:val="heading 1"/><w:basedOn w:val="Normal"/><w:pPr><w:outlineLvl w:val="0"/></w:pPr><w:rPr><w:b/><w:rFonts w:ascii="Arial"/></w:rPr></w:style>
<w:style w:type="paragraph" w:styleId="Heading2"><w:name w:val="Heading 2"/><w:basedOn w:val="Heading1"/><w:rPr><w:i/></w:rPr></w:style>
<w:style w:type="paragraph" w:styleId="Heading 3"><w:name w:val="标题 3"/></w:style>
<w:style w:type="character" w:styleId="Loop"><w:name w:val="Loop"/><w:basedOn w:val="Loop"/><w:rPr><w:strike/></w:rPr></w:style>
<w:style w:type="paragraph" w:styleId=""><w:name w:val="Ignored"/></w:style>
<w:style w:type="paragraph" w:default="1" w:styleId="Other"><w:name w:val="Heading 7"/></w:style>
</w:styles>"#;

#[test]
fn style_sheet_reads_defaults_styles_and_slugs() {
    let doc = parse_xml("word/styles.xml", STYLES.as_bytes()).unwrap();
    let st = Styles::from_doc(&doc);
    assert_eq!(st.defaults.font.as_deref(), Some("Calibri"));
    assert_eq!(st.defaults.size_half_points, Some(22));
    assert_eq!(st.order, vec!["Normal", "Heading1", "Heading2", "Heading 3", "Loop", "Other"]);
    assert_eq!(st.default_paragraph.as_deref(), Some("Normal"));
    let h1 = st.get("Heading1").unwrap();
    assert_eq!(h1.slug, "heading-1");
    assert_eq!(h1.outline_level, Some(0));
    assert_eq!(h1.based_on.as_deref(), Some("Normal"));
    assert_eq!(st.get("Heading 3").unwrap().slug, "style-1");
    assert_eq!(st.get("Loop").unwrap().kind, "character");
    assert!(st.get("missing").is_none());
}

#[test]
fn heading_levels_from_outline_name_or_id() {
    let doc = parse_xml("word/styles.xml", STYLES.as_bytes()).unwrap();
    let st = Styles::from_doc(&doc);
    assert_eq!(st.heading_level("Heading1"), Some(1));
    assert_eq!(st.heading_level("Heading2"), Some(2));
    assert_eq!(st.heading_level("Heading 3"), Some(3));
    assert_eq!(st.heading_level("Normal"), None);
    assert_eq!(st.heading_level("Other"), None);
    assert_eq!(st.heading_level("nope"), None);
}

#[test]
fn effective_formatting_follows_based_on_and_stops_on_cycles() {
    let doc = parse_xml("word/styles.xml", STYLES.as_bytes()).unwrap();
    let st = Styles::from_doc(&doc);
    let (flags, font, size) = st.resolve_effective("Heading2");
    assert_eq!(flags, RunFlags { bold: true, italic: true, underline: false, strike: false });
    assert_eq!(font.as_deref(), Some("Arial"));
    assert_eq!(size, Some(24));
    let (lf, lfont, lsize) = st.resolve_effective("Loop");
    assert!(lf.strike);
    assert_eq!(lfont, None);
    assert_eq!(lsize, None);
    let (nf, _, _) = st.resolve_effective("absent");
    assert!(nf.is_plain());
}

#[test]
fn doc_defaults_need_the_rpr_default_path() {
    let dd = parse_xml("s.xml", br#"<w:docDefaults><w:rPr><w:sz w:val="20"/></w:rPr></w:docDefaults>"#).unwrap();
    let d = parse_doc_defaults(&dd);
    assert_eq!(d.font, None);
    assert_eq!(d.size_half_points, None);
}
