//! Errors of native OOXML reading, with a four-part friendly rendering.

use vstd::prelude::*;
use crate::text::{dec, fmt_u64, occurs, has_prefix, lemma_occurs_in_concat, occurs_at, push_all, push_str, string_of};

verus! {

/// What went wrong while reading an OOXML package.
#[derive(Debug)]
#[allow(inconsistent_fields)]
pub enum OoxmlError {
    /// The input is not a ZIP archive.
    NotZip(String),
    /// A required part is missing.
    MissingPart(String),
    /// A part is not well-formed XML.
    BadXml { part: String, msg: String },
    /// A part is encrypted.
    Encrypted { part: String },
    /// A part (or the total read) exceeds a safety limit.
    TooLarge { part: String, size: u64, limit: u64 },
    /// The archive holds more entries than the safety limit.
    TooManyEntries { limit: usize },
    /// An entry name would escape the package (path traversal).
    UnsafeName(String),
    /// Reading an entry failed.
    Io(String),
}

/// The one-line description of an error.
pub open spec fn ooxml_message(e: OoxmlError) -> Seq<char> {
    match e {
        OoxmlError::NotZip(m) => "输入不是有效的 ZIP/OOXML 包: "@ + m@,
        OoxmlError::MissingPart(p) => "OOXML 包缺少必需部件: "@ + p@,
        OoxmlError::BadXml { part, msg } => "部件 "@ + part@ + " 不是合法 XML: "@ + msg@,
        OoxmlError::Encrypted { part } => "部件 "@ + part@ + " 已加密，无法读取"@,
        OoxmlError::TooLarge { part, size, limit } => "部件 "@ + part@ + " 解压后 "@ + dec(size as nat)
            + " 字节，超过安全上限 "@ + dec(limit as nat) + " 字节"@,
        OoxmlError::TooManyEntries { limit } => "OOXML 包条目数超过安全上限 "@ + dec(limit as nat),
        OoxmlError::UnsafeName(n) => "条目名不安全（疑似路径穿越）: "@ + n@,
        OoxmlError::Io(m) => "IO 错误: "@ + m@,
    }
}

/// The advice that follows the description in the friendly rendering.
pub open spec fn ooxml_advice(e: OoxmlError) -> Seq<char> {
    match e {
        OoxmlError::NotZip(_) => "\n文件可能不是 .docx（OOXML）格式，或已损坏；Athanor 其余功能不受影响。你可以：\n1. 用 Word/LibreOffice 打开确认文件可读\n2. 重新另存为 .docx 后重试\n3. 需要最高兼容性时可安装 Pandoc 后用 --reader pandoc"@,
        OoxmlError::Encrypted { .. } => "\n输入是带密码保护的 DOCX；Athanor 不做密码求解。你可以：\n1. 在 Word/LibreOffice 中另存为无密码副本后重试"@,
        OoxmlError::TooLarge { .. } => "\n触发的是安全护栏而非文件损坏。如确认来源可信且确需处理，可拆分文档后重试。"@,
        OoxmlError::TooManyEntries { .. } => "\n触发的是安全护栏而非文件损坏。如确认来源可信且确需处理，可拆分文档后重试。"@,
        OoxmlError::UnsafeName(_) => "\n输入包结构异常，已拒绝处理以保护本机文件系统。建议用 Word/LibreOffice 重新另存。"@,
        OoxmlError::MissingPart(_) => "\n文件可能不是 Word 生成的完整 OOXML 包。你可以：\n1. 用 Word/LibreOffice 打开确认并另存为 .docx\n2. 安装 Pandoc 后用 --reader pandoc 走兼容桥"@,
        _ => "\n建议检查输入文件后重试；需要时可安装 Pandoc 用 --reader pandoc 走兼容桥。"@,
    }
}

impl OoxmlError {
    /// The one-line description.
    pub fn message(&self) -> (r: String)
        ensures
            r@ == ooxml_message(*self),
    {
        let mut v: Vec<char> = Vec::new();
        match self {
            OoxmlError::NotZip(m) => {
                push_str(&mut v, "输入不是有效的 ZIP/OOXML 包: ");
                push_str(&mut v, m.as_str());
            },
            OoxmlError::MissingPart(p) => {
                push_str(&mut v, "OOXML 包缺少必需部件: ");
                push_str(&mut v, p.as_str());
            },
            OoxmlError::BadXml { part, msg } => {
                push_str(&mut v, "部件 ");
                push_str(&mut v, part.as_str());
                push_str(&mut v, " 不是合法 XML: ");
                push_str(&mut v, msg.as_str());
            },
            OoxmlError::Encrypted { part } => {
                push_str(&mut v, "部件 ");
                push_str(&mut v, part.as_str());
                push_str(&mut v, " 已加密，无法读取");
            },
            OoxmlError::TooLarge { part, size, limit } => {
                push_str(&mut v, "部件 ");
                push_str(&mut v, part.as_str());
                push_str(&mut v, " 解压后 ");
                let a = fmt_u64(*size);
                push_all(&mut v, a.as_slice());
                push_str(&mut v, " 字节，超过安全上限 ");
                let b = fmt_u64(*limit);
                push_all(&mut v, b.as_slice());
                push_str(&mut v, " 字节");
            },
            OoxmlError::TooManyEntries { limit } => {
                push_str(&mut v, "OOXML 包条目数超过安全上限 ");
                let a = fmt_u64(*limit as u64);
                push_all(&mut v, a.as_slice());
            },
            OoxmlError::UnsafeName(n) => {
                push_str(&mut v, "条目名不安全（疑似路径穿越）: ");
                push_str(&mut v, n.as_str());
            },
            OoxmlError::Io(m) => {
                push_str(&mut v, "IO 错误: ");
                push_str(&mut v, m.as_str());
            },
        }
        assert(v@ =~= ooxml_message(*self));
        string_of(v.as_slice())
    }

    /// Four parts: what happened / the file's state / advice / the way out.
    pub fn friendly(&self) -> (r: String)
        ensures
            r@ == "错误："@ + ooxml_message(*self) + ooxml_advice(*self),
    {
        let mut v: Vec<char> = Vec::new();
        push_str(&mut v, "错误：");
        let m = self.message();
        push_str(&mut v, m.as_str());
        match self {
            OoxmlError::NotZip(_) => push_str(&mut v, "\n文件可能不是 .docx（OOXML）格式，或已损坏；Athanor 其余功能不受影响。你可以：\n1. 用 Word/LibreOffice 打开确认文件可读\n2. 重新另存为 .docx 后重试\n3. 需要最高兼容性时可安装 Pandoc 后用 --reader pandoc"),
            OoxmlError::Encrypted { .. } => push_str(&mut v, "\n输入是带密码保护的 DOCX；Athanor 不做密码求解。你可以：\n1. 在 Word/LibreOffice 中另存为无密码副本后重试"),
            OoxmlError::TooLarge { .. } => push_str(&mut v, "\n触发的是安全护栏而非文件损坏。如确认来源可信且确需处理，可拆分文档后重试。"),
            OoxmlError::TooManyEntries { .. } => push_str(&mut v, "\n触发的是安全护栏而非文件损坏。如确认来源可信且确需处理，可拆分文档后重试。"),
            OoxmlError::UnsafeName(_) => push_str(&mut v, "\n输入包结构异常，已拒绝处理以保护本机文件系统。建议用 Word/LibreOffice 重新另存。"),
            OoxmlError::MissingPart(_) => push_str(&mut v, "\n文件可能不是 Word 生成的完整 OOXML 包。你可以：\n1. 用 Word/LibreOffice 打开确认并另存为 .docx\n2. 安装 Pandoc 后用 --reader pandoc 走兼容桥"),
            _ => push_str(&mut v, "\n建议检查输入文件后重试；需要时可安装 Pandoc 用 --reader pandoc 走兼容桥。"),
        }
        assert(v@ =~= "错误："@ + ooxml_message(*self) + ooxml_advice(*self));
        string_of(v.as_slice())
    }
}

/// Every friendly rendering opens with the headline marker `错误：`, follows
/// it with the error's own one-line description, and goes on to the state
/// and advice on further lines.
pub proof fn law_ooxml_friendly_shape(e: OoxmlError)
    ensures
        ({
            let f = "错误："@ + ooxml_message(e) + ooxml_advice(e);
            &&& has_prefix(f, "错误："@)
            &&& occurs_at(f, ooxml_message(e), 3)
            &&& occurs(f, ooxml_message(e))
            &&& f.contains('\n')
        }),
{
    reveal_strlit("错误：");
    let m = ooxml_message(e);
    let a = ooxml_advice(e);
    let f = "错误："@ + m + a;
    assert(f.take(3) =~= "错误："@);
    assert(m.subrange(0, m.len() as int) =~= m);
    lemma_occurs_in_concat("错误："@, m, a, m, 0);
    assert(a.len() > 0 && a[0] == '\n') by {
        reveal_strlit("\n文件可能不是 .docx（OOXML）格式，或已损坏；Athanor 其余功能不受影响。你可以：\n1. 用 Word/LibreOffice 打开确认文件可读\n2. 重新另存为 .docx 后重试\n3. 需要最高兼容性时可安装 Pandoc 后用 --reader pandoc");
        reveal_strlit("\n输入是带密码保护的 DOCX；Athanor 不做密码求解。你可以：\n1. 在 Word/LibreOffice 中另存为无密码副本后重试");
        reveal_strlit("\n触发的是安全护栏而非文件损坏。如确认来源可信且确需处理，可拆分文档后重试。");
        reveal_strlit("\n输入包结构异常，已拒绝处理以保护本机文件系统。建议用 Word/LibreOffice 重新另存。");
        reveal_strlit("\n文件可能不是 Word 生成的完整 OOXML 包。你可以：\n1. 用 Word/LibreOffice 打开确认并另存为 .docx\n2. 安装 Pandoc 后用 --reader pandoc 走兼容桥");
        reveal_strlit("\n建议检查输入文件后重试；需要时可安装 Pandoc 用 --reader pandoc 走兼容桥。");
    }
    assert(f[3 + m.len() as int] == a[0]);
}

} // verus!
