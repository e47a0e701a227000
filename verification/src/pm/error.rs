//! Errors of the Prima ↔ ProseMirror conversion.

use vstd::prelude::*;
use crate::text::{push_str, string_of};

verus! {

/// What went wrong in a conversion.
#[derive(Debug)]
pub enum PmError {
    /// An editor node type that no definition names.
    UnknownPmNode(String),
    /// An editor mark type that no definition names.
    UnknownPmMark(String),
    /// The input does not have the expected structure.
    BadStructure(String),
    /// JSON handling failed.
    Json(String),
}

/// The one-line description of an error.
pub open spec fn pm_message(e: PmError) -> Seq<char> {
    match e {
        PmError::UnknownPmNode(t) => "未知的 ProseMirror 节点类型: `"@ + t@ + "`"@,
        PmError::UnknownPmMark(t) => "未知的 ProseMirror 标记类型: `"@ + t@ + "`"@,
        PmError::BadStructure(m) => "结构不符合预期: "@ + m@,
        PmError::Json(m) => "JSON 处理失败: "@ + m@,
    }
}

impl PmError {
    /// The one-line description.
    pub fn message(&self) -> (r: String)
        ensures
            r@ == pm_message(*self),
    {
        let mut v: Vec<char> = Vec::new();
        match self {
            PmError::UnknownPmNode(t) => {
                push_str(&mut v, "未知的 ProseMirror 节点类型: `");
                push_str(&mut v, t.as_str());
                push_str(&mut v, "`");
            },
            PmError::UnknownPmMark(t) => {
                push_str(&mut v, "未知的 ProseMirror 标记类型: `");
                push_str(&mut v, t.as_str());
                push_str(&mut v, "`");
            },
            PmError::BadStructure(m) => {
                push_str(&mut v, "结构不符合预期: ");
                push_str(&mut v, m.as_str());
            },
            PmError::Json(m) => {
                push_str(&mut v, "JSON 处理失败: ");
                push_str(&mut v, m.as_str());
            },
        }
        assert(v@ =~= pm_message(*self));
        string_of(v.as_slice())
    }
}

} // verus!
