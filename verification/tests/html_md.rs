use azodoc::html::{collapse_ws, escape_attr, escape_text, is_custom_element, is_inline_tag, mime_ext};
use azodoc::md::{indent_block, mime_to_ext};

#[test]
fn media_types_map_to_extensions() {
    assert_eq!(mime_ext("image/png"), "png");
    assert_eq!(mime_ext("audio/mpeg"), "mp3");
    assert_eq!(mime_ext("video/mp4"), "mp4");
    assert_eq!(mime_ext("text/plain"), "bin");
    assert_eq!(mime_to_ext("image/jpeg"), "jpg");
    assert_eq!(mime_to_ext("image/svg+xml"), "svg");
    assert_eq!(mime_to_ext("video/mp4"), "bin");
}

#[test]
fn tag_classes() {
    assert!(is_inline_tag("em"));
    assert!(is_inline_tag("big"));
    assert!(!is_inline_tag("div"));
    assert!(!is_inline_tag("EM"));
    assert!(is_custom_element("my-widget"));
    assert!(!is_custom_element("section"));
}

#[test]
fn escaping_text_and_attributes() {
    assert_eq!(escape_text("a<b>&\"c\""), "a&lt;b&gt;&amp;\"c\"");
    assert_eq!(escape_attr("a<b>&\"c\""), "a&lt;b&gt;&amp;&quot;c&quot;");
}

#[test]
fn whitespace_collapses_and_trims() {
    assert_eq!(collapse_ws("  a \n\t b  c  "), "a b c");
    assert_eq!(collapse_ws("\u{3000}x\u{a0}\u{a0}y"), "x y");
    assert_eq!(collapse_ws("   "), "");
    assert_eq!(collapse_ws(""), "");
    let once = collapse_ws(" p  q\n r ");
    assert_eq!(collapse_ws(&once), once);
}

#[test]
fn indentation_of_blocks() {
    assert_eq!(indent_block("a\nb\n", "> ", false), "> a\n> b\n");
    assert_eq!(indent_block("a\n\nb", "  ", true), "a\n\n  b");
    assert_eq!(indent_block("", "> ", false), "");
    assert_eq!(indent_block("\n", "> ", false), "\n");
    assert_eq!(indent_block("x", "- ", true), "x");
}
