//! DOCX conversion around the OOXML reader: which reader ran, the errors of
//! the Pandoc bridge, the export capability of each content type, and the
//! inventory of package parts that the Pandoc route drops.

pub mod ast_out;
pub mod capabilities;
pub mod ast_in;

use vstd::prelude::*;
use crate::json::{int_v, jstr, jv, jv_members, push_member, Json, JsonNumber, JsonV};
use crate::pdf::error::exit_debug;
use crate::ooxml::package::{archive_bytes, zip_data, zip_len, zip_len_of, zip_name_at, zip_name_of, zip_open, zip_opens, zip_read, Archive};
use vstd::utf8::{decode_utf8, valid_utf8};
use crate::text::{
    lemma_occurs_in_concat, occurs,
    chars_of, dec, fmt_i64, fmt_u64, index_of, index_of_from, lemma_index_of, lower_seq, lower_vec,
    push_all, push_str, replace_all, replace_chars, slice_vec, str_eq, string_of, trim, trim_seq, has_prefix,
};

verus! {

/// The name of the DOCX converter.
pub fn converter_name() -> (r: &'static str)
    ensures
        r@ == "athanor-docx"@,
{
    "athanor-docx"
}

/// Which reader produced an import.
#[derive(Debug, Clone, Copy, PartialEq, Eq, Structural)]
pub enum DocxReadPath {
    /// The in-process OOXML reader.
    Native,
    /// The Pandoc bridge.
    Pandoc,
}

impl DocxReadPath {
    /// The converter name recorded for the reader.
    pub fn converter_name(&self) -> (r: &'static str)
        ensures
            r@ == (match *self {
                DocxReadPath::Native => "athanor-docx"@,
                DocxReadPath::Pandoc => "athanor-docx-pandoc"@,
            }),
    {
        match self {
            DocxReadPath::Native => "athanor-docx",
            DocxReadPath::Pandoc => "athanor-docx-pandoc",
        }
    }
}

// ------------------------------------------------------------------ bridge errors

/// What went wrong on the Pandoc bridge.
#[derive(Debug)]
#[allow(inconsistent_fields)]
pub enum DocxError {
    /// Pandoc was not found.
    PandocNotFound { searched: String },
    /// Pandoc exited unsuccessfully.
    PandocFailed { exit: Option<i32>, stderr: String },
    /// Pandoc took too long and was stopped.
    Timeout { timeout_secs: u64 },
    /// Pandoc's output is not JSON.
    BadJson(String),
    /// An I/O operation failed.
    Io(String),
}

/// The one-line description of a bridge error.
pub open spec fn docx_message(e: DocxError) -> Seq<char> {
    match e {
        DocxError::PandocNotFound { searched } => "未找到 Pandoc（已搜索: "@ + searched@ + "）"@,
        DocxError::PandocFailed { exit, stderr } => "Pandoc 执行失败（退出码 "@ + exit_debug(exit) + "）: "@ + stderr@,
        DocxError::Timeout { timeout_secs } => "Pandoc 超时（"@ + dec(timeout_secs as nat) + "s），进程已终止"@,
        DocxError::BadJson(m) => "Pandoc 输出不是合法 JSON: "@ + m@,
        DocxError::Io(m) => "IO 错误: "@ + m@,
    }
}

/// The four-part friendly rendering.
pub open spec fn docx_friendly(e: DocxError) -> Seq<char> {
    match e {
        DocxError::PandocNotFound { searched } => "错误：DOCX 转换需要 Pandoc，但未找到（已搜索: "@ + searched@
            + "）。\n文件不受影响；Athanor 其余功能不受影响。你可以：\n1. 安装 Pandoc: winget install --id JohnMacFarlane.Pandoc\n   （或 choco install pandoc，或从 https://github.com/jgm/pandoc/releases 下载便携版\n   解压到仓库 tools/pandoc-3.11/ 即可被自动发现）\n2. 指定路径: 设置环境变量 AZODOC_PANDOC_PATH 指向 pandoc 可执行文件"@,
        DocxError::PandocFailed { .. } => "错误："@ + docx_message(e)
            + "\n输入文件可能不是有效的 DOCX。建议：\n1. 用 Word/LibreOffice 打开确认文件可读\n2. 将完整错误信息提交 issue"@,
        DocxError::Timeout { .. } => "错误："@ + docx_message(e)
            + "\n文件可能异常复杂或损坏。建议：\n1. 用 Word/LibreOffice 确认文件可读\n2. 尝试拆分文档后重试"@,
        _ => "错误："@ + docx_message(e) + "\n建议：检查输入与运行环境后重试。"@,
    }
}

impl DocxError {
    /// The one-line description.
    pub fn message(&self) -> (r: String)
        ensures
            r@ == docx_message(*self),
    {
        let mut v: Vec<char> = Vec::new();
        match self {
            DocxError::PandocNotFound { searched } => {
                push_str(&mut v, "未找到 Pandoc（已搜索: ");
                push_str(&mut v, searched.as_str());
                push_str(&mut v, "）");
            },
            DocxError::PandocFailed { exit, stderr } => {
                push_str(&mut v, "Pandoc 执行失败（退出码 ");
                match exit {
                    Some(c) => {
                        push_str(&mut v, "Some(");
                        let d = fmt_i64(*c as i64);
                        push_all(&mut v, d.as_slice());
                        push_str(&mut v, ")");
                    },
                    None => push_str(&mut v, "None"),
                }
                push_str(&mut v, "）: ");
                push_str(&mut v, stderr.as_str());
            },
            DocxError::Timeout { timeout_secs } => {
                push_str(&mut v, "Pandoc 超时（");
                let d = fmt_u64(*timeout_secs);
                push_all(&mut v, d.as_slice());
                push_str(&mut v, "s），进程已终止");
            },
            DocxError::BadJson(m) => {
                push_str(&mut v, "Pandoc 输出不是合法 JSON: ");
                push_str(&mut v, m.as_str());
            },
            DocxError::Io(m) => {
                push_str(&mut v, "IO 错误: ");
                push_str(&mut v, m.as_str());
            },
        }
        assert(v@ =~= docx_message(*self));
        string_of(v.as_slice())
    }

    /// The four-part friendly rendering shown to users.
    pub fn friendly(&self) -> (r: String)
        ensures
            r@ == docx_friendly(*self),
    {
        let mut v: Vec<char> = Vec::new();
        match self {
            DocxError::PandocNotFound { searched } => {
                push_str(&mut v, "错误：DOCX 转换需要 Pandoc，但未找到（已搜索: ");
                push_str(&mut v, searched.as_str());
                push_str(&mut v, "）。\n文件不受影响；Athanor 其余功能不受影响。你可以：\n1. 安装 Pandoc: winget install --id JohnMacFarlane.Pandoc\n   （或 choco install pandoc，或从 https://github.com/jgm/pandoc/releases 下载便携版\n   解压到仓库 tools/pandoc-3.11/ 即可被自动发现）\n2. 指定路径: 设置环境变量 AZODOC_PANDOC_PATH 指向 pandoc 可执行文件");
            },
            DocxError::PandocFailed { .. } => {
                push_str(&mut v, "错误：");
                let m = self.message();
                push_str(&mut v, m.as_str());
                push_str(&mut v, "\n输入文件可能不是有效的 DOCX。建议：\n1. 用 Word/LibreOffice 打开确认文件可读\n2. 将完整错误信息提交 issue");
            },
            DocxError::Timeout { .. } => {
                push_str(&mut v, "错误：");
                let m = self.message();
                push_str(&mut v, m.as_str());
                push_str(&mut v, "\n文件可能异常复杂或损坏。建议：\n1. 用 Word/LibreOffice 确认文件可读\n2. 尝试拆分文档后重试");
            },
            _ => {
                push_str(&mut v, "错误：");
                let m = self.message();
                push_str(&mut v, m.as_str());
                push_str(&mut v, "\n建议：检查输入与运行环境后重试。");
            },
        }
        assert(v@ =~= docx_friendly(*self));
        string_of(v.as_slice())
    }
}

/// Every friendly rendering of a bridge error opens with the headline marker
/// `错误：` and goes on over further lines; a missing Pandoc names the places
/// searched and the variable that points at Pandoc, and every other error
/// carries its own one-line description.
pub proof fn law_docx_friendly_shape(e: DocxError)
    ensures
        has_prefix(docx_friendly(e), "错误："@),
        docx_friendly(e).contains('\n'),
        e matches DocxError::PandocNotFound { searched } ==> occurs(docx_friendly(e), searched@) && occurs(
            docx_friendly(e),
            "AZODOC_PANDOC_PATH"@,
        ),
        !(e is PandocNotFound) ==> occurs(docx_friendly(e), docx_message(e)),
{
    reveal_strlit("错误：");
    let f = docx_friendly(e);
    match e {
        DocxError::PandocNotFound { searched } => {
            reveal_strlit("错误：DOCX 转换需要 Pandoc，但未找到（已搜索: ");
            reveal_strlit("）。\n文件不受影响；Athanor 其余功能不受影响。你可以：\n1. 安装 Pandoc: winget install --id JohnMacFarlane.Pandoc\n   （或 choco install pandoc，或从 https://github.com/jgm/pandoc/releases 下载便携版\n   解压到仓库 tools/pandoc-3.11/ 即可被自动发现）\n2. 指定路径: 设置环境变量 AZODOC_PANDOC_PATH 指向 pandoc 可执行文件");
            reveal_strlit("AZODOC_PANDOC_PATH");
            let p1 = "错误：DOCX 转换需要 Pandoc，但未找到（已搜索: "@;
            let p2 = "）。\n文件不受影响；Athanor 其余功能不受影响。你可以：\n1. 安装 Pandoc: winget install --id JohnMacFarlane.Pandoc\n   （或 choco install pandoc，或从 https://github.com/jgm/pandoc/releases 下载便携版\n   解压到仓库 tools/pandoc-3.11/ 即可被自动发现）\n2. 指定路径: 设置环境变量 AZODOC_PANDOC_PATH 指向 pandoc 可执行文件"@;
            let w = searched@;
            assert(f == p1 + w + p2);
            assert(f.take(3) =~= "错误："@);
            assert(w.subrange(0, w.len() as int) =~= w);
            lemma_occurs_in_concat(p1, w, p2, w, 0);
            assert(p2.subrange(216, 234) =~= "AZODOC_PANDOC_PATH"@);
            lemma_occurs_in_concat(p1 + w, p2, Seq::<char>::empty(), "AZODOC_PANDOC_PATH"@, 216);
            assert(p1 + w + p2 + Seq::<char>::empty() =~= f);
            assert(f[p1.len() + w.len() + 2int] == '\n');
        },
        _ => {
            let m = docx_message(e);
            let tail = f.skip(3 + m.len() as int);
            assert(f =~= "错误："@ + m + tail);
            assert(f.take(3) =~= "错误："@);
            assert(m.subrange(0, m.len() as int) =~= m);
            lemma_occurs_in_concat("错误："@, m, tail, m, 0);
            reveal_strlit("\n输入文件可能不是有效的 DOCX。建议：\n1. 用 Word/LibreOffice 打开确认文件可读\n2. 将完整错误信息提交 issue");
            reveal_strlit("\n文件可能异常复杂或损坏。建议：\n1. 用 Word/LibreOffice 确认文件可读\n2. 尝试拆分文档后重试");
            reveal_strlit("\n建议：检查输入与运行环境后重试。");
            assert(tail[0] == '\n');
            assert(f[3 + m.len() as int] == '\n');
        },
    }
}

/// The message about Pandoc for the command line: where it is, or why it
/// could not be found.
pub open spec fn pandoc_status_text(found: Result<Seq<char>, DocxError>) -> Seq<char> {
    match found {
        Ok(p) => "Pandoc 位于 "@ + p,
        Err(e) => docx_friendly(e),
    }
}

/// The view of a Pandoc lookup result.
pub open spec fn lookup_view(found: &Result<String, DocxError>) -> Result<Seq<char>, DocxError> {
    match found {
        Ok(p) => Ok(p@),
        Err(e) => Err(*e),
    }
}

/// Whether Pandoc was found, from the result of looking it up.
pub fn pandoc_available(found: &Result<String, DocxError>) -> (r: bool)
    ensures
        r == (found is Ok),
{
    found.is_ok()
}

/// Renders the result of looking Pandoc up (its path as text, or the error).
pub fn not_found_friendly(found: &Result<String, DocxError>) -> (r: String)
    ensures
        r@ == pandoc_status_text(lookup_view(found)),
{
    match found {
        Ok(p) => {
            let mut v: Vec<char> = Vec::new();
            push_str(&mut v, "Pandoc 位于 ");
            push_str(&mut v, p.as_str());
            string_of(v.as_slice())
        },
        Err(e) => e.friendly(),
    }
}

// ------------------------------------------------------------------ export capabilities

/// The export capability of a block type.
pub open spec fn block_status_spec(t: Seq<char>) -> Seq<char> {
    if t == "section"@ || t == "heading"@ || t == "paragraph"@ || t == "quote"@ || t == "list"@
        || t == "list_item"@ || t == "code_block"@ || t == "horizontal_rule"@ || t == "page_break"@
        || t == "table"@ || t == "table_row"@ || t == "table_cell"@ || t == "table_header"@
        || t == "figure"@ || t == "image"@ || t == "math_block"@ || t == "footnote"@ {
        "supported"@
    } else if t == "unknown"@ || t == "unknown_block"@ {
        "preserved"@
    } else {
        "degraded"@
    }
}

/// The export capability of an inline type.
pub open spec fn span_status_spec(t: Seq<char>) -> Seq<char> {
    if t == "text"@ || t == "hard_break"@ || t == "code"@ || t == "em"@ || t == "strong"@ || t == "strike"@
        || t == "underline"@ || t == "link"@ || t == "inline_math"@ || t == "inline_image"@
        || t == "footnote_ref"@ || t == "line_break"@ {
        "supported"@
    } else if t == "unknown"@ {
        "preserved"@
    } else {
        "degraded"@
    }
}

/// The export capability of a block type: `supported`, `degraded` (callout,
/// embed, and unknown kinds) or `preserved`.
pub fn block_status(t: &str) -> (r: &'static str)
    ensures
        r@ == block_status_spec(t@),
{
    if str_eq(t, "section") || str_eq(t, "heading") || str_eq(t, "paragraph") || str_eq(t, "quote")
        || str_eq(t, "list") || str_eq(t, "list_item") || str_eq(t, "code_block") || str_eq(t, "horizontal_rule")
        || str_eq(t, "page_break") || str_eq(t, "table") || str_eq(t, "table_row") || str_eq(t, "table_cell")
        || str_eq(t, "table_header") || str_eq(t, "figure") || str_eq(t, "image") || str_eq(t, "math_block")
        || str_eq(t, "footnote") {
        "supported"
    } else if str_eq(t, "unknown") || str_eq(t, "unknown_block") {
        "preserved"
    } else {
        "degraded"
    }
}

/// The export capability of an inline type: `supported`, `degraded`
/// (mention, cite, and unknown kinds) or `preserved`.
pub fn span_status(t: &str) -> (r: &'static str)
    ensures
        r@ == span_status_spec(t@),
{
    if str_eq(t, "text") || str_eq(t, "hard_break") || str_eq(t, "code") || str_eq(t, "em")
        || str_eq(t, "strong") || str_eq(t, "strike") || str_eq(t, "underline") || str_eq(t, "link")
        || str_eq(t, "inline_math") || str_eq(t, "inline_image") || str_eq(t, "footnote_ref")
        || str_eq(t, "line_break") {
        "supported"
    } else if str_eq(t, "unknown") {
        "preserved"
    } else {
        "degraded"
    }
}

// ------------------------------------------------------------------ inventory

/// What a DOCX package holds beyond what the Pandoc route keeps.
#[derive(Debug, Clone)]
pub struct Inventory {
    /// The `dc:title` of `docProps/core.xml`.
    pub title: Option<String>,
    pub has_headers: bool,
    pub has_footers: bool,
    pub has_comments: bool,
    /// Number of files under `word/media/`.
    pub media_count: usize,
}

impl Inventory {
    /// Nothing found yet.
    pub fn new() -> (r: Self)
        ensures
            r.title is None,
            !r.has_headers && !r.has_footers && !r.has_comments,
            r.media_count == 0,
    {
        Inventory { title: None, has_headers: false, has_footers: false, has_comments: false, media_count: 0 }
    }
}

/// The loss events the inventory calls for: feature, what, message.
pub open spec fn loss_issues_spec(inv: Inventory) -> Seq<(Seq<char>, Seq<char>, Seq<char>)> {
    let h = if inv.has_headers {
        seq![("docx_headers"@, "页眉"@, "页眉在 Pandoc AST 中无对应表达，已丢弃"@)]
    } else {
        Seq::empty()
    };
    let f = if inv.has_footers {
        seq![("docx_footers"@, "页脚"@, "页脚在 Pandoc AST 中无对应表达，已丢弃"@)]
    } else {
        Seq::empty()
    };
    let c = if inv.has_comments {
        seq![("docx_comments"@, "批注"@, "批注在 Pandoc AST 中无对应表达，已丢弃"@)]
    } else {
        Seq::empty()
    };
    h + f + c
}

/// The plain view of a list of loss events.
pub open spec fn issues_view(v: Seq<(String, String, String)>) -> Seq<(Seq<char>, Seq<char>, Seq<char>)> {
    v.map_values(|t: (String, String, String)| (t.0@, t.1@, t.2@))
}

/// The loss events for parts the Pandoc route drops silently: headers,
/// footers and comments.
pub fn loss_issues(inv: &Inventory) -> (r: Vec<(String, String, String)>)
    ensures
        issues_view(r@) == loss_issues_spec(*inv),
{
    let mut out: Vec<(String, String, String)> = Vec::new();
    if inv.has_headers {
        out.push(("docx_headers".to_owned(), "页眉".to_owned(), "页眉在 Pandoc AST 中无对应表达，已丢弃".to_owned()));
    }
    let ghost a = issues_view(out@);
    if inv.has_footers {
        out.push(("docx_footers".to_owned(), "页脚".to_owned(), "页脚在 Pandoc AST 中无对应表达，已丢弃".to_owned()));
    }
    let ghost b = issues_view(out@);
    if inv.has_comments {
        out.push(("docx_comments".to_owned(), "批注".to_owned(), "批注在 Pandoc AST 中无对应表达，已丢弃".to_owned()));
    }
    assert(issues_view(out@) =~= loss_issues_spec(*inv));
    out
}

/// How an entry name counts in the inventory (compared lower-cased).
pub open spec fn note_entry_spec(inv: Inventory, name: Seq<char>) -> (bool, bool, bool, int, bool) {
    let l = lower_seq(name);
    if has_prefix(l, "word/header"@) {
        (true, inv.has_footers, inv.has_comments, inv.media_count as int, false)
    } else if has_prefix(l, "word/footer"@) {
        (inv.has_headers, true, inv.has_comments, inv.media_count as int, false)
    } else if has_prefix(l, "word/comments"@) {
        (inv.has_headers, inv.has_footers, true, inv.media_count as int, false)
    } else if has_prefix(l, "word/media/"@) {
        (inv.has_headers, inv.has_footers, inv.has_comments, inv.media_count + 1, false)
    } else {
        (inv.has_headers, inv.has_footers, inv.has_comments, inv.media_count as int, l == "docprops/core.xml"@)
    }
}

impl Inventory {
    /// Counts one package entry; returns whether it is the core-properties
    /// part, whose title the caller reads.
    pub fn note_entry(&mut self, name: &str) -> (is_core: bool)
        requires
            old(self).media_count < usize::MAX,
        ensures
            ({
                let n = note_entry_spec(*old(self), name@);
                &&& final(self).has_headers == n.0
                &&& final(self).has_footers == n.1
                &&& final(self).has_comments == n.2
                &&& final(self).media_count == n.3
                &&& is_core == n.4
                &&& final(self).title == old(self).title
            }),
    {
        let v = chars_of(name);
        let l = lower_vec(v.as_slice());
        let header = chars_of("word/header");
        let footer = chars_of("word/footer");
        let comments = chars_of("word/comments");
        let media = chars_of("word/media/");
        if crate::text::starts_with(l.as_slice(), header.as_slice()) {
            self.has_headers = true;
            false
        } else if crate::text::starts_with(l.as_slice(), footer.as_slice()) {
            self.has_footers = true;
            false
        } else if crate::text::starts_with(l.as_slice(), comments.as_slice()) {
            self.has_comments = true;
            false
        } else if crate::text::starts_with(l.as_slice(), media.as_slice()) {
            self.media_count = self.media_count + 1;
            false
        } else {
            crate::text::eq_str(l.as_slice(), "docprops/core.xml")
        }
    }
}

/// The title of `docProps/core.xml`: the trimmed text between `<dc:title…>`
/// and `</dc:title>`, with `&amp;`, `&lt;` and `&gt;` decoded in that
/// order; none when absent or empty.
pub open spec fn core_title_spec(xml: Seq<char>) -> Option<Seq<char>> {
    let start = index_of(xml, "<dc:title"@);
    if start < 0 {
        None
    } else {
        let after_open = xml.skip(start);
        let tag_end = index_of(after_open, ">"@);
        if tag_end < 0 {
            None
        } else {
            let rest = after_open.skip(tag_end + 1);
            let close = index_of(rest, "</dc:title>"@);
            if close < 0 {
                None
            } else {
                let inner = trim_seq(rest.take(close));
                if inner.len() == 0 {
                    None
                } else {
                    Some(replace_all(replace_all(replace_all(inner, "&amp;"@, "&"@), "&lt;"@, "<"@), "&gt;"@, ">"@))
                }
            }
        }
    }
}

/// Reads the title out of the text of `docProps/core.xml`.
pub fn core_title(xml: &str) -> (r: Option<String>)
    ensures
        match r {
            Some(t) => core_title_spec(xml@) == Some(t@),
            None => core_title_spec(xml@) is None,
        },
{
    let x = chars_of(xml);
    let open = chars_of("<dc:title");
    let gt = chars_of(">");
    let close_tag = chars_of("</dc:title>");
    assert(x@.skip(0) =~= x@);
    let start = match index_of_from(x.as_slice(), 0, open.as_slice()) {
        Some(s) => s,
        None => return None,
    };
    proof { lemma_index_of(x@, open@); }
    let ghost after_open = x@.skip(start as int);
    let tag_end = match index_of_from(x.as_slice(), start, gt.as_slice()) {
        Some(p) => p,
        None => return None,
    };
    proof { reveal_strlit(">"); }
    let rest_at = tag_end + 1;
    assert(after_open.skip((tag_end - start) + 1) =~= x@.skip(rest_at as int));
    let close = match index_of_from(x.as_slice(), rest_at, close_tag.as_slice()) {
        Some(p) => p,
        None => return None,
    };
    let inner_raw = slice_vec(x.as_slice(), rest_at, close);
    assert(inner_raw@ =~= x@.skip(rest_at as int).take(close - rest_at));
    let inner = trim(inner_raw.as_slice());
    if inner.len() == 0 {
        return None;
    }
    proof {
        reveal_strlit("&amp;");
        reveal_strlit("&lt;");
        reveal_strlit("&gt;");
    }
    let amp = chars_of("&amp;");
    let lt = chars_of("&lt;");
    let gtn = chars_of("&gt;");
    let amp_r = chars_of("&");
    let lt_r = chars_of("<");
    let gt_r = chars_of(">");
    let a = replace_chars(inner.as_slice(), amp.as_slice(), amp_r.as_slice());
    let b = replace_chars(a.as_slice(), lt.as_slice(), lt_r.as_slice());
    let c = replace_chars(b.as_slice(), gtn.as_slice(), gt_r.as_slice());
    Some(string_of(c.as_slice()))
}


/// An inventory as plain values: title, headers, footers, comments, media.
pub open spec fn inventory_view(inv: Inventory) -> (Option<Seq<char>>, bool, bool, bool, nat) {
    (
        match inv.title {
            Some(t) => Some(t@),
            None => None,
        },
        inv.has_headers,
        inv.has_footers,
        inv.has_comments,
        inv.media_count as nat,
    )
}

/// The title read from an entry of the archive: its contents must decode
/// as UTF-8.
pub open spec fn title_from_entry(bytes: Seq<u8>, name: Seq<char>) -> Option<Seq<char>> {
    match zip_data(bytes, name) {
        Some(d) => if valid_utf8(d) { core_title_spec(decode_utf8(d)) } else { None },
        None => None,
    }
}

/// The inventory after the first `k` entries, or none when one of their
/// names cannot be read.
pub open spec fn inventory_upto(bytes: Seq<u8>, k: nat) -> Option<(Option<Seq<char>>, bool, bool, bool, nat)>
    decreases k,
{
    if k == 0 {
        Some((None, false, false, false, 0))
    } else {
        match inventory_upto(bytes, (k - 1) as nat) {
            None => None,
            Some(st) => match zip_name_of(bytes, k - 1) {
                None => None,
                Some(n) => {
                    let inv = Inventory { title: None, has_headers: st.1, has_footers: st.2, has_comments: st.3, media_count: 0 };
                    let e = note_entry_spec(inv, n);
                    let media: nat = if has_prefix(lower_seq(n), "word/header"@) || has_prefix(lower_seq(n), "word/footer"@)
                        || has_prefix(lower_seq(n), "word/comments"@) || !has_prefix(lower_seq(n), "word/media/"@) {
                        st.4
                    } else {
                        st.4 + 1
                    };
                    Some((if e.4 { title_from_entry(bytes, n) } else { st.0 }, e.0, e.1, e.2, media))
                },
            },
        }
    }
}

fn read_core_title(name: &str, a: &mut Archive) -> (r: Option<String>)
    ensures
        archive_bytes(*final(a)) == archive_bytes(*old(a)),
        match r {
            Some(t) => title_from_entry(archive_bytes(*old(a)), name@) == Some(t@),
            None => title_from_entry(archive_bytes(*old(a)), name@) is None,
        },
{
    let data = match zip_read(a, name) {
        Ok(d) => d,
        Err(_) => return None,
    };
    let text = match crate::ooxml::xml::utf8_text(data.as_slice()) {
        Ok(t) => t,
        Err(_) => return None,
    };
    proof {
        vstd::utf8::encode_utf8_decode_utf8(text@);
    }
    core_title(text.as_str())
}

/// Takes stock of a DOCX package: headers, footers, comments, media files
/// and the core-properties title, looked up in archive order.
pub fn inventory(docx_bytes: &[u8]) -> (r: Result<Inventory, String>)
    ensures
        !zip_opens(docx_bytes@) ==> (r matches Err(m) && has_prefix(m@, "docx 不是有效 ZIP: "@)),
        zip_opens(docx_bytes@) ==> (r is Ok <==> inventory_upto(docx_bytes@, zip_len_of(docx_bytes@)) is Some),
        r matches Ok(inv) ==> inventory_upto(docx_bytes@, zip_len_of(docx_bytes@)) == Some(inventory_view(inv)),
{
    let mut a = match zip_open(docx_bytes) {
        Ok(a) => a,
        Err(e) => {
            let mut v: Vec<char> = Vec::new();
            push_str(&mut v, "docx 不是有效 ZIP: ");
            let ghost p = v@;
            push_str(&mut v, e.as_str());
            assert(v@.take(p.len() as int) =~= p);
            return Err(string_of(v.as_slice()));
        },
    };
    let n = zip_len(&a);
    let ghost b = docx_bytes@;
    let mut inv = Inventory::new();
    let mut i: usize = 0;
    while i < n
        invariant
            i <= n,
            n == zip_len_of(b),
            archive_bytes(a) == b,
            b == docx_bytes@,
            zip_opens(b),
            inv.media_count <= i,
            inventory_upto(b, i as nat) == Some(inventory_view(inv)),
        decreases n - i,
    {
        let name = match zip_name_at(&mut a, i) {
            Ok(x) => x,
            Err(e) => {
                let mut v: Vec<char> = Vec::new();
                push_str(&mut v, "docx 条目读取失败: ");
                push_str(&mut v, e.as_str());
                proof {
                    assert(inventory_upto(b, (i + 1) as nat) is None);
                    lemma_inventory_none(b, (i + 1) as nat, zip_len_of(b));
                }
                return Err(string_of(v.as_slice()));
            },
        };
        let is_core = inv.note_entry(name.as_str());
        if is_core {
            inv.title = read_core_title(name.as_str(), &mut a);
        }
        i = i + 1;
    }
    Ok(inv)
}

proof fn lemma_inventory_none(bytes: Seq<u8>, k: nat, m: nat)
    requires
        k <= m,
        inventory_upto(bytes, k) is None,
    ensures
        inventory_upto(bytes, m) is None,
    decreases m - k,
{
    if k < m {
        lemma_inventory_none(bytes, k + 1, m);
    }
}

/// The structured summary of an inventory: title (or null), which side
/// parts exist, and how many media files.
pub open spec fn inventory_summary_v(inv: Inventory) -> JsonV {
    JsonV::Object(seq![
        ("title"@, match inv.title {
            Some(t) => JsonV::Str(t@),
            None => JsonV::Null,
        }),
        ("headers"@, JsonV::Bool(inv.has_headers)),
        ("footers"@, JsonV::Bool(inv.has_footers)),
        ("comments"@, JsonV::Bool(inv.has_comments)),
        ("media"@, int_v(inv.media_count as int)),
    ])
}

/// The structured summary of an inventory, for tests and reports.
pub fn inventory_summary(inv: &Inventory) -> (r: Json)
    ensures
        jv(r) == inventory_summary_v(*inv),
{
    let mut m: Vec<(String, Json)> = Vec::new();
    assert(jv_members(m@) =~= Seq::empty());
    let title = match &inv.title {
        Some(t) => jstr(t.as_str()),
        None => Json::Null,
    };
    push_member(&mut m, "title", title);
    push_member(&mut m, "headers", Json::Bool(inv.has_headers));
    push_member(&mut m, "footers", Json::Bool(inv.has_footers));
    push_member(&mut m, "comments", Json::Bool(inv.has_comments));
    push_member(&mut m, "media", Json::Number(JsonNumber::PosInt(inv.media_count as u64)));
    assert(jv_members(m@) =~= seq![
        ("title"@, match inv.title {
            Some(t) => JsonV::Str(t@),
            None => JsonV::Null,
        }),
        ("headers"@, JsonV::Bool(inv.has_headers)),
        ("footers"@, JsonV::Bool(inv.has_footers)),
        ("comments"@, JsonV::Bool(inv.has_comments)),
        ("media"@, int_v(inv.media_count as int)),
    ]);
    Json::Object(m)
}

} // verus!
