use azodoc::json::Json;
use azodoc::ooxml::styles::{assign_slug, PageProps, RunFlags, StyleInfo, Styles};
use azodoc::ooxml::theme::build_theme;

fn member<'a>(j: &'a Json, key: &str) -> &'a Json {
    match j {
        Json::Object(ms) => &ms.iter().find(|(k, _)| k == key).unwrap_or_else(|| panic!("no member {key}")).1,
        _ => panic!("not an object"),
    }
}

fn text(j: &Json) -> &str {
    match j {
        Json::Str(s) => s.as_str(),
        _ => panic!("not a string"),
    }
}

fn has(j: &Json, key: &str) -> bool {
    match j {
        Json::Object(ms) => ms.iter().any(|(k, _)| k == key),
        _ => false,
    }
}

fn style(id: &str, name: &str, kind: &str, flags: RunFlags, size: Option<i64>, slug: String) -> StyleInfo {
    StyleInfo {
        style_id: id.into(),
        name: name.into(),
        kind: kind.into(),
        is_default: false,
        outline_level: None,
        based_on: None,
        flags,
        font: None,
        size_half_points: size,
        slug,
    }
}

#[test]
fn build_theme_emits_slug_titles_and_css() {
    let mut used: Vec<String> = Vec::new();
    let mut seq = 0usize;
    let mut styles = Styles::new();
    styles.defaults.font = Some("Calibri".into());
    styles.defaults.size_half_points = Some(22);
    styles.order.push("Heading1".into());
    let flags = RunFlags { bold: true, ..Default::default() };
    styles.by_id.push(StyleInfo {
        outline_level: Some(0),
        ..style("Heading1", "heading 1", "paragraph", flags, Some(32), assign_slug("heading 1", &mut used, &mut seq))
    });
    let theme = build_theme(&styles, &["Heading1".to_string()], None);
    assert_eq!(text(member(member(&theme, "defaults"), "base_font")), "Calibri");
    assert_eq!(text(member(member(&theme, "defaults"), "base_size")), "11pt");
    let entry = match member(&theme, "styles") {
        Json::Array(a) => &a[0],
        _ => panic!("styles is an array"),
    };
    assert_eq!(text(member(entry, "name")), "heading-1");
    assert_eq!(text(member(entry, "title")), "heading 1");
    assert_eq!(text(member(member(entry, "css_like"), "font-weight")), "bold");
    assert_eq!(text(member(member(entry, "css_like"), "font-size")), "16pt");
}

#[test]
fn theme_page_margins_and_character_styles() {
    let mut styles = Styles::new();
    let flags = RunFlags { underline: true, strike: true, italic: true, ..Default::default() };
    styles.by_id.push(style("Em", "Emphasis", "character", flags, None, "emphasis".into()));
    styles.by_id.push(style("Plain", "Plain", "paragraph", RunFlags::default(), None, "plain".into()));
    let page = PageProps {
        width: 11906,
        height: 16838,
        margin_top: 1440,
        margin_right: 1440,
        margin_bottom: 1440,
        margin_left: 1440,
    };
    let ids = ["Em".to_string(), "Missing".to_string(), "Plain".to_string()];
    let theme = build_theme(&styles, &ids, Some(&page));
    let p = member(member(&theme, "defaults"), "page");
    assert_eq!(text(member(p, "size")), "595.3pt × 841.9pt");
    assert_eq!(text(member(p, "margin")), "72pt");
    let entries = match member(&theme, "styles") {
        Json::Array(a) => a,
        _ => panic!("styles is an array"),
    };
    assert_eq!(entries.len(), 2);
    let em = &entries[0];
    match member(em, "applies_to") {
        Json::Array(a) => assert_eq!(text(&a[0]), "text"),
        _ => panic!("applies_to is an array"),
    }
    let css = member(em, "css_like");
    assert_eq!(text(member(css, "text-decoration")), "underline line-through");
    assert_eq!(text(member(css, "font-style")), "italic");
    assert!(!has(css, "font-weight"));
    assert!(!has(&entries[1], "css_like"));
    let odd = PageProps { margin_left: 720, ..page };
    let theme = build_theme(&Styles::new(), &[], Some(&odd));
    let p = member(member(&theme, "defaults"), "page");
    assert_eq!(text(member(p, "margin")), "72pt 72pt 72pt 36pt");
    assert!(!has(&theme, "styles"));
    let bare = build_theme(&Styles::new(), &[], None);
    assert!(!has(&bare, "defaults"));
    assert!(has(&bare, "schema_version"));
}
