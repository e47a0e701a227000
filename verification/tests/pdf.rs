use azodoc::pdf::browser::{fingerprint, to_hex, Browser};
use azodoc::pdf::cdp::{parse_ws_url, url_from_path};
use azodoc::pdf::count::{find, pdf_page_count};
use azodoc::pdf::error::PdfError;
use azodoc::pdf::paged::{augment_print_html, escape_html, PAGED_CSS};

#[test]
fn augment_injects_config_polyfill_css_and_title_anchor() {
    let html = "<html><head><title>t</title></head><body><p>x</p></body></html>";
    let out = augment_print_html(html, Some("炼金术 <手册> &\"指南\""));
    assert!(out.contains("window.PagedConfig"), "PagedConfig must be injected");
    assert!(out.contains("window.__azodocPagedDone"), "the completion hook must be injected");
    assert!(out.contains("<script src=\"./paged.polyfill.js\"></script>"));
    assert!(out.contains(PAGED_CSS), "the margin-box CSS must be injected");
    assert!(
        out.contains("炼金术 &lt;手册&gt; &amp;&quot;指南&quot;"),
        "the title must be escaped"
    );
    assert!(out.find("window.PagedConfig").unwrap() < out.find("</head>").unwrap());
    assert!(out.ends_with("</body></html>"));
}

#[test]
fn augment_without_head_appends() {
    let out = augment_print_html("<p>x</p>", None);
    assert!(out.contains("paged.polyfill.js"));
    assert!(
        !out.contains("<span class=\"azodoc-doctitle\""),
        "no running-head anchor without a title"
    );
}

#[test]
fn parse_ws_url_from_stderr_line() {
    let line = "[xyz:123:456] DevTools listening on ws://127.0.0.1:52341/devtools/browser/abc-def";
    assert_eq!(
        parse_ws_url(line).as_deref(),
        Some("ws://127.0.0.1:52341/devtools/browser/abc-def")
    );
    assert_eq!(parse_ws_url("no url here"), None);
    assert_eq!(
        parse_ws_url("url \"ws://127.0.0.1:1/devtools/browser/x\" tail").as_deref(),
        Some("ws://127.0.0.1:1/devtools/browser/x")
    );
}

#[test]
fn file_urls_escape_reserved_chars() {
    assert_eq!(url_from_path(r"C:\tmp dir\a b.html"), "file:///C:/tmp%20dir/a%20b.html");
    assert_eq!(url_from_path("/tmp/x.html"), "file:///tmp/x.html");
}

#[test]
fn file_urls_escape_hash_percent_and_question_mark() {
    assert_eq!(url_from_path("//a#b%c?d"), "file:///a%23b%25c%3Fd");
}

#[test]
fn augmented_document_places_injection_before_last_head_close() {
    let html = "<head></head><head></head>";
    let out = augment_print_html(html, None);
    assert!(out.starts_with("<head></head><head><script>"));
    assert!(out.ends_with("</style></head>"));
    let plain = augment_print_html("x", Some("T"));
    assert!(plain.starts_with("x\n<script>"));
    assert!(plain.ends_with(">T</span>"));
}

#[test]
fn escape_html_covers_quotes() {
    assert_eq!(escape_html("a<b>&\"c\""), "a&lt;b&gt;&amp;&quot;c&quot;");
    assert_eq!(escape_html("plain"), "plain");
}

#[test]
fn page_count_takes_largest_count() {
    let pdf = b"%PDF /Type /Pages /Count 3 ... /Count 12 >> /Count 7";
    assert_eq!(pdf_page_count(pdf), Some(12));
    assert_eq!(pdf_page_count(b"/Count 0"), None);
    assert_eq!(pdf_page_count(b"no pages here"), None);
    assert_eq!(pdf_page_count(b"/Count"), None);
    assert_eq!(pdf_page_count(b"/Count   42/Kids"), Some(42));
    assert_eq!(pdf_page_count(b"/Count                  9"), None);
    assert_eq!(pdf_page_count(b"/Count 1234567890123456789"), Some(123456789012345));
}

#[test]
fn find_gives_first_position() {
    assert_eq!(find(b"abcabc", b"bc"), Some(1));
    assert_eq!(find(b"abc", b"abcd"), None);
    assert_eq!(find(b"abc", b"x"), None);
}

#[test]
fn pdf_error_texts() {
    let e = PdfError::PrintFailed { exit: Some(3), stderr: "boom".into() };
    assert_eq!(e.message(), "浏览器打印失败（退出码 Some(3)）: boom");
    assert_eq!(
        e.friendly(),
        "错误：浏览器打印失败（退出码 Some(3)）: boom\n建议：确认浏览器版本较新（需支持 --headless --print-to-pdf）。"
    );
    let t = PdfError::Timeout { timeout_secs: 180 };
    assert_eq!(t.message(), "打印超时（180s）");
    assert_eq!(t.friendly(), "错误：打印超时（180s）\n建议：检查运行环境后重试。");
    let n = PdfError::PrintFailed { exit: None, stderr: String::new() };
    assert_eq!(n.message(), "浏览器打印失败（退出码 None）: ");
    let c = PdfError::Cdp("x".into());
    assert_eq!(
        c.friendly(),
        "错误：CDP 会话失败: x\n建议：确认浏览器版本较新（Chromium 90+）；或用 --no-paged 回退 Chromium 直印（无页码边盒）。"
    );
    let b = PdfError::BrowserNotFound { searched: "PATH".into() };
    assert!(b.friendly().starts_with("错误：PDF 出版需要无头 Chromium/Edge，但未找到（已搜索: PATH）。\n文件不受影响"));
    assert_eq!(b.message(), "未找到可用的 Chromium/Edge 浏览器（已搜索: PATH）");
}

#[test]
fn fingerprint_is_sha256_hex_of_path_size_and_time() {
    assert_eq!(
        to_hex(&[0x00, 0x0f, 0xa0, 0xff]),
        "000fa0ff"
    );
    let fp = fingerprint("", 0, 0);
    // SHA-256 of sixteen zero bytes.
    assert_eq!(fp, "374708fff7719dd5979ec875d56cd2286f6d3cf7ec317a3b25632aab28ec37bb");
    let other = fingerprint("/usr/bin/chromium", 1024, 1700000000);
    assert_eq!(other.len(), 64);
    assert_ne!(other, fp);
    let b = Browser { path: "/usr/bin/chromium".into(), fingerprint: other.clone() };
    assert_eq!(b.fingerprint, fingerprint("/usr/bin/chromium", 1024, 1700000000));
}

#[test]
fn every_pdf_error_renders_headline_message_and_advice() {
    let all = vec![
        PdfError::BrowserNotFound { searched: "PATH; C:/x".into() },
        PdfError::PrintFailed { exit: Some(1), stderr: "e".into() },
        PdfError::Timeout { timeout_secs: 5 },
        PdfError::BadOutput("o".into()),
        PdfError::Cdp("c".into()),
        PdfError::Paged("p".into()),
        PdfError::Io("i".into()),
    ];
    for e in &all {
        let f = e.friendly();
        assert!(f.starts_with("错误："));
        assert!(f.contains('\n'));
        match e {
            PdfError::BrowserNotFound { searched } => {
                assert!(f.contains(searched.as_str()));
                assert!(f.contains("AZODOC_BROWSER_PATH"));
            }
            _ => assert!(f.contains(&e.message())),
        }
        if matches!(e, PdfError::Cdp(_) | PdfError::Paged(_)) {
            assert!(f.contains("--no-paged"));
        }
    }
}
