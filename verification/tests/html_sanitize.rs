use azodoc::html::sanitize::sanitize_fragment;

#[test]
fn sanitized_fragment_removes_active_content() {
    let (clean, removed) = sanitize_fragment("<p onclick=\"x()\">好<script>bad()</script></p>");
    assert!(removed);
    assert!(clean.contains("好"));
    assert!(!clean.contains("script"));
    assert!(!clean.contains("onclick"));
}

#[test]
fn javascript_urls_are_dropped_and_clean_input_is_kept() {
    let (clean, removed) = sanitize_fragment("<a href=\"  JavaScript:alert(1)\" title=\"t\">x</a><img src=\"p.png\">");
    assert!(removed);
    assert!(!clean.contains("href"));
    assert!(clean.contains("<a title=\"t\">x</a>"));
    assert!(clean.contains("<img src=\"p.png\"></img>"));
    let (plain, none) = sanitize_fragment("<p>a &amp; b<!--note--></p>");
    assert!(!none);
    assert!(plain.contains("<p>a &amp; b<!--note--></p>"));
}
