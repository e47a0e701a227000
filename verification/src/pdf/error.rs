//! Errors of PDF publishing, with their friendly rendering.

use vstd::prelude::*;
use crate::text::{dec, dec_int, fmt_i64, fmt_u64, has_prefix, lemma_occurs_in_concat, occurs, push_all, push_str, string_of};

verus! {

/// What went wrong while printing to PDF.
#[derive(Debug)]
#[allow(inconsistent_fields)]
pub enum PdfError {
    /// No Chromium/Edge browser was found.
    BrowserNotFound { searched: String },
    /// The browser exited unsuccessfully.
    PrintFailed { exit: Option<i32>, stderr: String },
    /// Printing took too long.
    Timeout { timeout_secs: u64 },
    /// The produced PDF is unusable.
    BadOutput(String),
    /// The DevTools session failed.
    Cdp(String),
    /// Paged.js pagination failed.
    Paged(String),
    /// An I/O operation failed.
    Io(String),
}

/// `{:?}` of an optional exit code.
pub open spec fn exit_debug(exit: Option<i32>) -> Seq<char> {
    match exit {
        Some(c) => "Some("@ + dec_int(c as int) + ")"@,
        None => "None"@,
    }
}

/// The one-line description of an error.
pub open spec fn pdf_message(e: PdfError) -> Seq<char> {
    match e {
        PdfError::BrowserNotFound { searched } => "未找到可用的 Chromium/Edge 浏览器（已搜索: "@ + searched@ + "）"@,
        PdfError::PrintFailed { exit, stderr } => "浏览器打印失败（退出码 "@ + exit_debug(exit) + "）: "@ + stderr@,
        PdfError::Timeout { timeout_secs } => "打印超时（"@ + dec(timeout_secs as nat) + "s）"@,
        PdfError::BadOutput(m) => "PDF 产物异常: "@ + m@,
        PdfError::Cdp(m) => "CDP 会话失败: "@ + m@,
        PdfError::Paged(m) => "Paged.js 分页失败: "@ + m@,
        PdfError::Io(m) => "IO 错误: "@ + m@,
    }
}

/// The friendly rendering: what happened, the state of things, and advice.
pub open spec fn pdf_friendly(e: PdfError) -> Seq<char> {
    match e {
        PdfError::BrowserNotFound { searched } => "错误：PDF 出版需要无头 Chromium/Edge，但未找到（已搜索: "@ + searched@
            + "）。\n文件不受影响；Athanor 其余功能不受影响。你可以：\n1. Windows 自带的 Microsoft Edge 即可使用（确认未卸载）\n2. 或安装 Chrome\n3. 或指定路径: 设置环境变量 AZODOC_BROWSER_PATH 指向 msedge.exe/chrome.exe"@,
        PdfError::PrintFailed { .. } => "错误："@ + pdf_message(e) + "\n建议：确认浏览器版本较新（需支持 --headless --print-to-pdf）。"@,
        PdfError::Cdp(_) => "错误："@ + pdf_message(e) + "\n建议：确认浏览器版本较新（Chromium 90+）；或用 --no-paged 回退 Chromium 直印（无页码边盒）。"@,
        PdfError::Paged(_) => "错误："@ + pdf_message(e) + "\n建议：确认浏览器版本较新（Chromium 90+）；或用 --no-paged 回退 Chromium 直印（无页码边盒）。"@,
        _ => "错误："@ + pdf_message(e) + "\n建议：检查运行环境后重试。"@,
    }
}

impl PdfError {
    /// The one-line description.
    pub fn message(&self) -> (r: String)
        ensures
            r@ == pdf_message(*self),
    {
        let mut v: Vec<char> = Vec::new();
        match self {
            PdfError::BrowserNotFound { searched } => {
                push_str(&mut v, "未找到可用的 Chromium/Edge 浏览器（已搜索: ");
                push_str(&mut v, searched.as_str());
                push_str(&mut v, "）");
            },
            PdfError::PrintFailed { exit, stderr } => {
                push_str(&mut v, "浏览器打印失败（退出码 ");
                match exit {
                    Some(c) => {
                        push_str(&mut v, "Some(");
                        let d = fmt_i64(*c as i64);
                        push_all(&mut v, d.as_slice());
                        push_str(&mut v, ")");
                    },
                    None => push_str(&mut v, "None"),
                }
                push_str(&mut v, "）: ");
                push_str(&mut v, stderr.as_str());
            },
            PdfError::Timeout { timeout_secs } => {
                push_str(&mut v, "打印超时（");
                let d = fmt_u64(*timeout_secs);
                push_all(&mut v, d.as_slice());
                push_str(&mut v, "s）");
            },
            PdfError::BadOutput(m) => {
                push_str(&mut v, "PDF 产物异常: ");
                push_str(&mut v, m.as_str());
            },
            PdfError::Cdp(m) => {
                push_str(&mut v, "CDP 会话失败: ");
                push_str(&mut v, m.as_str());
            },
            PdfError::Paged(m) => {
                push_str(&mut v, "Paged.js 分页失败: ");
                push_str(&mut v, m.as_str());
            },
            PdfError::Io(m) => {
                push_str(&mut v, "IO 错误: ");
                push_str(&mut v, m.as_str());
            },
        }
        assert(v@ =~= pdf_message(*self));
        string_of(v.as_slice())
    }

    /// The friendly rendering shown to users.
    pub fn friendly(&self) -> (r: String)
        ensures
            r@ == pdf_friendly(*self),
    {
        let mut v: Vec<char> = Vec::new();
        match self {
            PdfError::BrowserNotFound { searched } => {
                push_str(&mut v, "错误：PDF 出版需要无头 Chromium/Edge，但未找到（已搜索: ");
                push_str(&mut v, searched.as_str());
                push_str(&mut v, "）。\n文件不受影响；Athanor 其余功能不受影响。你可以：\n1. Windows 自带的 Microsoft Edge 即可使用（确认未卸载）\n2. 或安装 Chrome\n3. 或指定路径: 设置环境变量 AZODOC_BROWSER_PATH 指向 msedge.exe/chrome.exe");
            },
            PdfError::PrintFailed { .. } => {
                push_str(&mut v, "错误：");
                let m = self.message();
                push_str(&mut v, m.as_str());
                push_str(&mut v, "\n建议：确认浏览器版本较新（需支持 --headless --print-to-pdf）。");
            },
            PdfError::Cdp(_) | PdfError::Paged(_) => {
                push_str(&mut v, "错误：");
                let m = self.message();
                push_str(&mut v, m.as_str());
                push_str(&mut v, "\n建议：确认浏览器版本较新（Chromium 90+）；或用 --no-paged 回退 Chromium 直印（无页码边盒）。");
            },
            _ => {
                push_str(&mut v, "错误：");
                let m = self.message();
                push_str(&mut v, m.as_str());
                push_str(&mut v, "\n建议：检查运行环境后重试。");
            },
        }
        assert(v@ =~= pdf_friendly(*self));
        string_of(v.as_slice())
    }
}

/// Every friendly rendering of a printing error opens with the headline
/// marker `错误：` and goes on over further lines; a missing browser names
/// the places searched and the variable that points at a browser, every
/// other error carries its own one-line description, and a failed paged
/// session names the `--no-paged` fallback.
pub proof fn law_pdf_friendly_shape(e: PdfError)
    ensures
        has_prefix(pdf_friendly(e), "错误："@),
        pdf_friendly(e).contains('\n'),
        e matches PdfError::BrowserNotFound { searched } ==> occurs(pdf_friendly(e), searched@) && occurs(
            pdf_friendly(e),
            "AZODOC_BROWSER_PATH"@,
        ),
        !(e is BrowserNotFound) ==> occurs(pdf_friendly(e), pdf_message(e)),
        (e is Cdp || e is Paged) ==> occurs(pdf_friendly(e), "--no-paged"@),
{
    reveal_strlit("错误：");
    let f = pdf_friendly(e);
    match e {
        PdfError::BrowserNotFound { searched } => {
            reveal_strlit("错误：PDF 出版需要无头 Chromium/Edge，但未找到（已搜索: ");
            reveal_strlit("）。\n文件不受影响；Athanor 其余功能不受影响。你可以：\n1. Windows 自带的 Microsoft Edge 即可使用（确认未卸载）\n2. 或安装 Chrome\n3. 或指定路径: 设置环境变量 AZODOC_BROWSER_PATH 指向 msedge.exe/chrome.exe");
            reveal_strlit("AZODOC_BROWSER_PATH");
            let p1 = "错误：PDF 出版需要无头 Chromium/Edge，但未找到（已搜索: "@;
            let p2 = "）。\n文件不受影响；Athanor 其余功能不受影响。你可以：\n1. Windows 自带的 Microsoft Edge 即可使用（确认未卸载）\n2. 或安装 Chrome\n3. 或指定路径: 设置环境变量 AZODOC_BROWSER_PATH 指向 msedge.exe/chrome.exe"@;
            let w = searched@;
            assert(f == p1 + w + p2);
            assert(f.take(3) =~= "错误："@);
            assert(w.subrange(0, w.len() as int) =~= w);
            lemma_occurs_in_concat(p1, w, p2, w, 0);
            assert(p2.subrange(105, 124) =~= "AZODOC_BROWSER_PATH"@);
            lemma_occurs_in_concat(p1 + w, p2, Seq::<char>::empty(), "AZODOC_BROWSER_PATH"@, 105);
            assert(p1 + w + p2 + Seq::<char>::empty() =~= f);
            assert(f[p1.len() + w.len() + 2int] == '\n');
        },
        _ => {
            let m = pdf_message(e);
            let tail = f.skip(3 + m.len() as int);
            assert(f =~= "错误："@ + m + tail);
            assert(f.take(3) =~= "错误："@);
            assert(m.subrange(0, m.len() as int) =~= m);
            lemma_occurs_in_concat("错误："@, m, tail, m, 0);
            reveal_strlit("\n建议：确认浏览器版本较新（需支持 --headless --print-to-pdf）。");
            reveal_strlit("\n建议：确认浏览器版本较新（Chromium 90+）；或用 --no-paged 回退 Chromium 直印（无页码边盒）。");
            reveal_strlit("\n建议：检查运行环境后重试。");
            assert(tail[0] == '\n');
            assert(f[3 + m.len() as int] == '\n');
            if e is Cdp || e is Paged {
                reveal_strlit("--no-paged");
                assert(tail == "\n建议：确认浏览器版本较新（Chromium 90+）；或用 --no-paged 回退 Chromium 直印（无页码边盒）。"@);
                assert(tail.subrange(31, 41) =~= "--no-paged"@);
                lemma_occurs_in_concat("错误："@ + m, tail, Seq::<char>::empty(), "--no-paged"@, 31);
                assert("错误："@ + m + tail + Seq::<char>::empty() =~= f);
            }
        },
    }
}

} // verus!
