//! The Prima ↔ ProseMirror mapping tables: one node definition per block
//! or atomic inline type, one mark definition per formatting span.
//!
//! In every definition `id`, where present, is the first attribute and
//! `extra`, where present, the last; every other attribute names a field of
//! the Prima type.

use vstd::prelude::*;
use crate::id::IdKind;
use crate::text::str_eq;

verus! {

/// How an attribute is typed, with its default.
#[derive(Debug, Clone, Copy)]
pub enum AttrSpec {
    /// A non-empty string, with its default.
    Text(&'static str),
    /// A non-null integer, with its default.
    Int(i64),
    /// A nullable string.
    OptText,
    /// A nullable integer.
    OptInt,
    /// A span count (`colSpan`/`rowSpan`); 1 is the default on the editor side.
    Span,
    /// A nullable boolean.
    OptBool,
    /// Pass-through JSON (object or array), nullable.
    OptJson,
}

/// One attribute: its Prima field name and type.
#[derive(Debug, Clone, Copy)]
pub struct AttrDef {
    pub name: &'static str,
    pub spec: AttrSpec,
}

/// A node type of the editor schema.
#[derive(Debug)]
pub struct NodeDef {
    pub pm_name: &'static str,
    /// The Prima `type` tag; `None` for untagged structures (the document,
    /// list items, table rows and cells).
    pub prima_type: Option<&'static str>,
    /// `block`, `inline`, or empty when the node is referenced by name only.
    pub group: &'static str,
    /// The content expression; `None` for atoms.
    pub content: Option<&'static str>,
    /// Text content is code.
    pub code: bool,
    /// The kind of id the node carries, if it has an identity of its own.
    pub id_kind: Option<IdKind>,
    pub attrs: Vec<AttrDef>,
    /// Every declared field of the Prima type, in declaration order.
    pub prima_fields: Vec<&'static str>,
}

/// A mark type of the editor schema.
#[derive(Debug)]
pub struct MarkDef {
    pub pm_name: &'static str,
    /// The Prima span `type`; `None` for the synthetic `span_extra` mark.
    pub prima_type: Option<&'static str>,
    /// Nesting order when spans are rebuilt (ascending = outside in).
    pub rank: u8,
    pub attrs: Vec<AttrDef>,
    pub prima_fields: Vec<&'static str>,
}

/// Rank of the code mark: innermost, as Prima code is a text leaf.
pub const CODE_RANK: u8 = 5;
/// Rank of `span_extra`, which never takes part in nesting.
pub const SPAN_EXTRA_RANK: u8 = 99;

// ------------------------------------------------------------------ plain views

/// An attribute type as a plain value.
pub enum AttrSpecView {
    Text(Seq<char>),
    Int(int),
    OptText,
    OptInt,
    Span,
    OptBool,
    OptJson,
}

pub open spec fn attr_spec_view(s: AttrSpec) -> AttrSpecView {
    match s {
        AttrSpec::Text(t) => AttrSpecView::Text(t@),
        AttrSpec::Int(i) => AttrSpecView::Int(i as int),
        AttrSpec::OptText => AttrSpecView::OptText,
        AttrSpec::OptInt => AttrSpecView::OptInt,
        AttrSpec::Span => AttrSpecView::Span,
        AttrSpec::OptBool => AttrSpecView::OptBool,
        AttrSpec::OptJson => AttrSpecView::OptJson,
    }
}

/// The plain views of a list of attributes.
pub open spec fn attrs_view(v: Seq<AttrDef>) -> Seq<(Seq<char>, AttrSpecView)> {
    v.map_values(|a: AttrDef| (a.name@, attr_spec_view(a.spec)))
}

/// The plain views of a list of names.
pub open spec fn names_view(v: Seq<&str>) -> Seq<Seq<char>> {
    v.map_values(|s: &str| s@)
}

/// The text behind an optional name.
pub open spec fn opt_name(o: Option<&str>) -> Option<Seq<char>> {
    match o {
        Some(s) => Some(s@),
        None => None,
    }
}

/// A node definition as plain values.
#[verifier::ext_equal]
pub struct NodeView {
    pub pm_name: Seq<char>,
    pub prima_type: Option<Seq<char>>,
    pub group: Seq<char>,
    pub content: Option<Seq<char>>,
    pub code: bool,
    pub id_kind: Option<IdKind>,
    pub attrs: Seq<(Seq<char>, AttrSpecView)>,
    pub prima_fields: Seq<Seq<char>>,
}

/// A mark definition as plain values.
#[verifier::ext_equal]
pub struct MarkView {
    pub pm_name: Seq<char>,
    pub prima_type: Option<Seq<char>>,
    pub rank: int,
    pub attrs: Seq<(Seq<char>, AttrSpecView)>,
    pub prima_fields: Seq<Seq<char>>,
}

impl View for NodeDef {
    type V = NodeView;

    open spec fn view(&self) -> NodeView {
        NodeView {
            pm_name: self.pm_name@,
            prima_type: opt_name(self.prima_type),
            group: self.group@,
            content: opt_name(self.content),
            code: self.code,
            id_kind: self.id_kind,
            attrs: attrs_view(self.attrs@),
            prima_fields: names_view(self.prima_fields@),
        }
    }
}

impl View for MarkDef {
    type V = MarkView;

    open spec fn view(&self) -> MarkView {
        MarkView {
            pm_name: self.pm_name@,
            prima_type: opt_name(self.prima_type),
            rank: self.rank as int,
            attrs: attrs_view(self.attrs@),
            prima_fields: names_view(self.prima_fields@),
        }
    }
}

// ------------------------------------------------------------------ the tables

/// Every node definition, in schema order.
pub open spec fn node_table() -> Seq<NodeView> {
    seq![
        NodeView {
            pm_name: "doc"@,
            prima_type: None,
            group: ""@,
            content: Some("block*"@),
            code: false,
            id_kind: None,
            attrs: seq![("schema_version"@, AttrSpecView::Text("1.0"@)), ("extra"@, AttrSpecView::OptJson)],
            prima_fields: seq!["schema_version"@],
        },
        NodeView {
            pm_name: "section"@,
            prima_type: Some("section"@),
            group: "block"@,
            content: Some("block*"@),
            code: false,
            id_kind: Some(IdKind::Sec),
            attrs: seq![("id"@, AttrSpecView::Text(""@)), ("extra"@, AttrSpecView::OptJson)],
            prima_fields: seq!["children"@],
        },
        NodeView {
            pm_name: "paragraph"@,
            prima_type: Some("paragraph"@),
            group: "block"@,
            content: Some("inline*"@),
            code: false,
            id_kind: Some(IdKind::Blk),
            attrs: seq![("id"@, AttrSpecView::Text(""@)), ("extra"@, AttrSpecView::OptJson)],
            prima_fields: seq!["content"@],
        },
        NodeView {
            pm_name: "heading"@,
            prima_type: Some("heading"@),
            group: "block"@,
            content: Some("inline*"@),
            code: false,
            id_kind: Some(IdKind::Blk),
            attrs: seq![("id"@, AttrSpecView::Text(""@)), ("level"@, AttrSpecView::Int(1)), ("extra"@, AttrSpecView::OptJson)],
            prima_fields: seq!["level"@, "content"@],
        },
        NodeView {
            pm_name: "quote"@,
            prima_type: Some("quote"@),
            group: "block"@,
            content: Some("block*"@),
            code: false,
            id_kind: Some(IdKind::Blk),
            attrs: seq![("id"@, AttrSpecView::Text(""@)), ("extra"@, AttrSpecView::OptJson)],
            prima_fields: seq!["children"@],
        },
        NodeView {
            pm_name: "list"@,
            prima_type: Some("list"@),
            group: "block"@,
            content: Some("list_item*"@),
            code: false,
            id_kind: Some(IdKind::Blk),
            attrs: seq![("id"@, AttrSpecView::Text(""@)), ("style"@, AttrSpecView::Text("bullet"@)), ("start"@, AttrSpecView::OptInt), ("extra"@, AttrSpecView::OptJson)],
            prima_fields: seq!["style"@, "start"@, "items"@],
        },
        NodeView {
            pm_name: "list_item"@,
            prima_type: None,
            group: ""@,
            content: Some("block*"@),
            code: false,
            id_kind: Some(IdKind::Li),
            attrs: seq![("id"@, AttrSpecView::Text(""@)), ("checked"@, AttrSpecView::OptBool), ("extra"@, AttrSpecView::OptJson)],
            prima_fields: seq!["checked"@, "children"@],
        },
        NodeView {
            pm_name: "code_block"@,
            prima_type: Some("code_block"@),
            group: "block"@,
            content: Some("text*"@),
            code: true,
            id_kind: Some(IdKind::Blk),
            attrs: seq![("id"@, AttrSpecView::Text(""@)), ("language"@, AttrSpecView::OptText), ("extra"@, AttrSpecView::OptJson)],
            prima_fields: seq!["language"@, "text"@],
        },
        NodeView {
            pm_name: "table"@,
            prima_type: Some("table"@),
            group: "block"@,
            content: Some("table_row*"@),
            code: false,
            id_kind: Some(IdKind::Blk),
            attrs: seq![("id"@, AttrSpecView::Text(""@)), ("header_row"@, AttrSpecView::OptBool), ("columns"@, AttrSpecView::OptJson), ("extra"@, AttrSpecView::OptJson)],
            prima_fields: seq!["header_row"@, "columns"@, "rows"@],
        },
        NodeView {
            pm_name: "table_row"@,
            prima_type: None,
            group: ""@,
            content: Some("(table_cell | table_header)*"@),
            code: false,
            id_kind: Some(IdKind::Row),
            attrs: seq![("id"@, AttrSpecView::Text(""@)), ("extra"@, AttrSpecView::OptJson)],
            prima_fields: seq!["cells"@],
        },
        NodeView {
            pm_name: "table_cell"@,
            prima_type: None,
            group: ""@,
            content: Some("block*"@),
            code: false,
            id_kind: Some(IdKind::Cel),
            attrs: seq![("id"@, AttrSpecView::Text(""@)), ("column"@, AttrSpecView::Int(0)), ("colSpan"@, AttrSpecView::Span), ("rowSpan"@, AttrSpecView::Span), ("role"@, AttrSpecView::OptText), ("colwidth"@, AttrSpecView::OptJson), ("extra"@, AttrSpecView::OptJson)],
            prima_fields: seq!["column"@, "colSpan"@, "rowSpan"@, "role"@, "children"@],
        },
        NodeView {
            pm_name: "table_header"@,
            prima_type: None,
            group: ""@,
            content: Some("block*"@),
            code: false,
            id_kind: Some(IdKind::Cel),
            attrs: seq![("id"@, AttrSpecView::Text(""@)), ("column"@, AttrSpecView::Int(0)), ("colSpan"@, AttrSpecView::Span), ("rowSpan"@, AttrSpecView::Span), ("role"@, AttrSpecView::OptText), ("colwidth"@, AttrSpecView::OptJson), ("extra"@, AttrSpecView::OptJson)],
            prima_fields: seq!["column"@, "colSpan"@, "rowSpan"@, "role"@, "children"@],
        },
        NodeView {
            pm_name: "figure"@,
            prima_type: Some("figure"@),
            group: "block"@,
            content: None,
            code: false,
            id_kind: Some(IdKind::Blk),
            attrs: seq![("id"@, AttrSpecView::Text(""@)), ("asset"@, AttrSpecView::Text(""@)), ("alt"@, AttrSpecView::Text(""@)), ("caption"@, AttrSpecView::OptJson), ("extra"@, AttrSpecView::OptJson)],
            prima_fields: seq!["asset"@, "alt"@, "caption"@],
        },
        NodeView {
            pm_name: "image"@,
            prima_type: Some("image"@),
            group: "block"@,
            content: None,
            code: false,
            id_kind: Some(IdKind::Blk),
            attrs: seq![("id"@, AttrSpecView::Text(""@)), ("asset"@, AttrSpecView::Text(""@)), ("alt"@, AttrSpecView::Text(""@)), ("extra"@, AttrSpecView::OptJson)],
            prima_fields: seq!["asset"@, "alt"@],
        },
        NodeView {
            pm_name: "horizontal_rule"@,
            prima_type: Some("horizontal_rule"@),
            group: "block"@,
            content: None,
            code: false,
            id_kind: Some(IdKind::Blk),
            attrs: seq![("id"@, AttrSpecView::Text(""@)), ("extra"@, AttrSpecView::OptJson)],
            prima_fields: seq![],
        },
        NodeView {
            pm_name: "page_break"@,
            prima_type: Some("page_break"@),
            group: "block"@,
            content: None,
            code: false,
            id_kind: Some(IdKind::Blk),
            attrs: seq![("id"@, AttrSpecView::Text(""@)), ("extra"@, AttrSpecView::OptJson)],
            prima_fields: seq![],
        },
        NodeView {
            pm_name: "math_block"@,
            prima_type: Some("math_block"@),
            group: "block"@,
            content: None,
            code: false,
            id_kind: Some(IdKind::Blk),
            attrs: seq![("id"@, AttrSpecView::Text(""@)), ("latex"@, AttrSpecView::Text(""@)), ("extra"@, AttrSpecView::OptJson)],
            prima_fields: seq!["latex"@],
        },
        NodeView {
            pm_name: "callout"@,
            prima_type: Some("callout"@),
            group: "block"@,
            content: Some("block*"@),
            code: false,
            id_kind: Some(IdKind::Blk),
            attrs: seq![("id"@, AttrSpecView::Text(""@)), ("variant"@, AttrSpecView::Text("info"@)), ("extra"@, AttrSpecView::OptJson)],
            prima_fields: seq!["variant"@, "children"@],
        },
        NodeView {
            pm_name: "embed"@,
            prima_type: Some("embed"@),
            group: "block"@,
            content: None,
            code: false,
            id_kind: Some(IdKind::Blk),
            attrs: seq![("id"@, AttrSpecView::Text(""@)), ("asset"@, AttrSpecView::Text(""@)), ("extra"@, AttrSpecView::OptJson)],
            prima_fields: seq!["asset"@],
        },
        NodeView {
            pm_name: "footnote"@,
            prima_type: Some("footnote"@),
            group: "block"@,
            content: Some("block*"@),
            code: false,
            id_kind: Some(IdKind::Blk),
            attrs: seq![("id"@, AttrSpecView::Text(""@)), ("extra"@, AttrSpecView::OptJson)],
            prima_fields: seq!["children"@],
        },
        NodeView {
            pm_name: "unknown_block"@,
            prima_type: Some("unknown"@),
            group: "block"@,
            content: Some("inline*"@),
            code: false,
            id_kind: Some(IdKind::Blk),
            attrs: seq![("id"@, AttrSpecView::Text(""@)), ("origin"@, AttrSpecView::Text(""@)), ("loss_class"@, AttrSpecView::Text(""@)), ("summary"@, AttrSpecView::Text(""@)), ("payload_ref"@, AttrSpecView::OptText), ("extra"@, AttrSpecView::OptJson)],
            prima_fields: seq!["origin"@, "loss_class"@, "summary"@, "payload_ref"@, "content"@],
        },
        NodeView {
            pm_name: "text"@,
            prima_type: Some("text"@),
            group: "inline"@,
            content: None,
            code: false,
            id_kind: None,
            attrs: seq![],
            prima_fields: seq!["text"@],
        },
        NodeView {
            pm_name: "hard_break"@,
            prima_type: Some("hard_break"@),
            group: "inline"@,
            content: None,
            code: false,
            id_kind: None,
            attrs: seq![("extra"@, AttrSpecView::OptJson)],
            prima_fields: seq![],
        },
        NodeView {
            pm_name: "footnote_ref"@,
            prima_type: Some("footnote_ref"@),
            group: "inline"@,
            content: None,
            code: false,
            id_kind: None,
            attrs: seq![("id"@, AttrSpecView::Text(""@)), ("extra"@, AttrSpecView::OptJson)],
            prima_fields: seq![],
        },
        NodeView {
            pm_name: "inline_math"@,
            prima_type: Some("inline_math"@),
            group: "inline"@,
            content: None,
            code: false,
            id_kind: None,
            attrs: seq![("latex"@, AttrSpecView::Text(""@)), ("extra"@, AttrSpecView::OptJson)],
            prima_fields: seq!["latex"@],
        },
        NodeView {
            pm_name: "inline_image"@,
            prima_type: Some("inline_image"@),
            group: "inline"@,
            content: None,
            code: false,
            id_kind: None,
            attrs: seq![("asset"@, AttrSpecView::Text(""@)), ("alt"@, AttrSpecView::Text(""@)), ("extra"@, AttrSpecView::OptJson)],
            prima_fields: seq!["asset"@, "alt"@],
        },
        NodeView {
            pm_name: "mention"@,
            prima_type: Some("mention"@),
            group: "inline"@,
            content: None,
            code: false,
            id_kind: None,
            attrs: seq![("target"@, AttrSpecView::Text(""@)), ("extra"@, AttrSpecView::OptJson)],
            prima_fields: seq!["target"@],
        },
        NodeView {
            pm_name: "cite"@,
            prima_type: Some("cite"@),
            group: "inline"@,
            content: None,
            code: false,
            id_kind: None,
            attrs: seq![("key"@, AttrSpecView::Text(""@)), ("extra"@, AttrSpecView::OptJson)],
            prima_fields: seq!["key"@],
        },
        NodeView {
            pm_name: "unknown_span"@,
            prima_type: Some("unknown"@),
            group: "inline"@,
            content: Some("inline*"@),
            code: false,
            id_kind: None,
            attrs: seq![("origin"@, AttrSpecView::Text(""@)), ("loss_class"@, AttrSpecView::Text(""@)), ("summary"@, AttrSpecView::Text(""@)), ("payload_ref"@, AttrSpecView::OptText), ("extra"@, AttrSpecView::OptJson)],
            prima_fields: seq!["origin"@, "loss_class"@, "summary"@, "payload_ref"@, "content"@],
        },
    ]
}

/// Every mark definition, in schema order (ascending rank).
pub open spec fn mark_table() -> Seq<MarkView> {
    seq![
        MarkView {
            pm_name: "link"@,
            prima_type: Some("link"@),
            rank: 0 as int,
            attrs: seq![("url"@, AttrSpecView::Text(""@)), ("title"@, AttrSpecView::OptText), ("extra"@, AttrSpecView::OptJson)],
            prima_fields: seq!["url"@, "title"@, "content"@],
        },
        MarkView {
            pm_name: "strong"@,
            prima_type: Some("strong"@),
            rank: 1 as int,
            attrs: seq![("extra"@, AttrSpecView::OptJson)],
            prima_fields: seq!["content"@],
        },
        MarkView {
            pm_name: "em"@,
            prima_type: Some("em"@),
            rank: 2 as int,
            attrs: seq![("extra"@, AttrSpecView::OptJson)],
            prima_fields: seq!["content"@],
        },
        MarkView {
            pm_name: "underline"@,
            prima_type: Some("underline"@),
            rank: 3 as int,
            attrs: seq![("extra"@, AttrSpecView::OptJson)],
            prima_fields: seq!["content"@],
        },
        MarkView {
            pm_name: "strike"@,
            prima_type: Some("strike"@),
            rank: 4 as int,
            attrs: seq![("extra"@, AttrSpecView::OptJson)],
            prima_fields: seq!["content"@],
        },
        MarkView {
            pm_name: "code"@,
            prima_type: Some("code"@),
            rank: CODE_RANK as int,
            attrs: seq![("extra"@, AttrSpecView::OptJson)],
            prima_fields: seq!["text"@],
        },
        MarkView {
            pm_name: "span_extra"@,
            prima_type: None,
            rank: SPAN_EXTRA_RANK as int,
            attrs: seq![("data"@, AttrSpecView::OptJson)],
            prima_fields: seq![],
        },
    ]
}

/// The Prima block types.
pub open spec fn known_node_type_table() -> Seq<Seq<char>> {
    seq!["section"@, "paragraph"@, "heading"@, "quote"@, "list"@, "list_item"@, "code_block"@, "table"@, "figure"@, "image"@, "horizontal_rule"@, "page_break"@, "math_block"@, "callout"@, "embed"@, "footnote"@, "unknown"@]
}

/// The Prima span types.
pub open spec fn known_span_type_table() -> Seq<Seq<char>> {
    seq!["text"@, "hard_break"@, "strong"@, "em"@, "underline"@, "strike"@, "code"@, "link"@, "footnote_ref"@, "inline_math"@, "inline_image"@, "mention"@, "cite"@, "unknown"@]
}

fn attr(name: &'static str, spec: AttrSpec) -> (r: AttrDef)
    ensures
        r.name == name,
        r.spec == spec,
{
    AttrDef { name, spec }
}

fn node(
    pm_name: &'static str,
    prima_type: Option<&'static str>,
    group: &'static str,
    content: Option<&'static str>,
    code: bool,
    id_kind: Option<IdKind>,
    attrs: Vec<AttrDef>,
    prima_fields: Vec<&'static str>,
) -> (r: NodeDef)
    ensures
        r.pm_name == pm_name,
        r.prima_type == prima_type,
        r.group == group,
        r.content == content,
        r.code == code,
        r.id_kind == id_kind,
        r.attrs == attrs,
        r.prima_fields == prima_fields,
{
    NodeDef { pm_name, prima_type, group, content, code, id_kind, attrs, prima_fields }
}

fn mark(
    pm_name: &'static str,
    prima_type: Option<&'static str>,
    rank: u8,
    attrs: Vec<AttrDef>,
    prima_fields: Vec<&'static str>,
) -> (r: MarkDef)
    ensures
        r.pm_name == pm_name,
        r.prima_type == prima_type,
        r.rank == rank,
        r.attrs == attrs,
        r.prima_fields == prima_fields,
{
    MarkDef { pm_name, prima_type, rank, attrs, prima_fields }
}

/// The node definitions.
#[verifier::spinoff_prover]
#[verifier::rlimit(50)]
pub fn nodes() -> (r: Vec<NodeDef>)
    ensures
        r@.map_values(|d: NodeDef| d@) == node_table(),
{
    let mut v: Vec<NodeDef> = Vec::new();
    v.push(node(
        "doc",
        None,
        "",
        Some("block*"),
        false,
        None,
        vec![attr("schema_version", AttrSpec::Text("1.0")), attr("extra", AttrSpec::OptJson)],
        vec!["schema_version"],
    ));
    v.push(node(
        "section",
        Some("section"),
        "block",
        Some("block*"),
        false,
        Some(IdKind::Sec),
        vec![attr("id", AttrSpec::Text("")), attr("extra", AttrSpec::OptJson)],
        vec!["children"],
    ));
    v.push(node(
        "paragraph",
        Some("paragraph"),
        "block",
        Some("inline*"),
        false,
        Some(IdKind::Blk),
        vec![attr("id", AttrSpec::Text("")), attr("extra", AttrSpec::OptJson)],
        vec!["content"],
    ));
    v.push(node(
        "heading",
        Some("heading"),
        "block",
        Some("inline*"),
        false,
        Some(IdKind::Blk),
        vec![attr("id", AttrSpec::Text("")), attr("level", AttrSpec::Int(1)), attr("extra", AttrSpec::OptJson)],
        vec!["level", "content"],
    ));
    v.push(node(
        "quote",
        Some("quote"),
        "block",
        Some("block*"),
        false,
        Some(IdKind::Blk),
        vec![attr("id", AttrSpec::Text("")), attr("extra", AttrSpec::OptJson)],
        vec!["children"],
    ));
    v.push(node(
        "list",
        Some("list"),
        "block",
        Some("list_item*"),
        false,
        Some(IdKind::Blk),
        vec![attr("id", AttrSpec::Text("")), attr("style", AttrSpec::Text("bullet")), attr("start", AttrSpec::OptInt), attr("extra", AttrSpec::OptJson)],
        vec!["style", "start", "items"],
    ));
    v.push(node(
        "list_item",
        None,
        "",
        Some("block*"),
        false,
        Some(IdKind::Li),
        vec![attr("id", AttrSpec::Text("")), attr("checked", AttrSpec::OptBool), attr("extra", AttrSpec::OptJson)],
        vec!["checked", "children"],
    ));
    v.push(node(
        "code_block",
        Some("code_block"),
        "block",
        Some("text*"),
        true,
        Some(IdKind::Blk),
        vec![attr("id", AttrSpec::Text("")), attr("language", AttrSpec::OptText), attr("extra", AttrSpec::OptJson)],
        vec!["language", "text"],
    ));
    v.push(node(
        "table",
        Some("table"),
        "block",
        Some("table_row*"),
        false,
        Some(IdKind::Blk),
        vec![attr("id", AttrSpec::Text("")), attr("header_row", AttrSpec::OptBool), attr("columns", AttrSpec::OptJson), attr("extra", AttrSpec::OptJson)],
        vec!["header_row", "columns", "rows"],
    ));
    v.push(node(
        "table_row",
        None,
        "",
        Some("(table_cell | table_header)*"),
        false,
        Some(IdKind::Row),
        vec![attr("id", AttrSpec::Text("")), attr("extra", AttrSpec::OptJson)],
        vec!["cells"],
    ));
    v.push(node(
        "table_cell",
        None,
        "",
        Some("block*"),
        false,
        Some(IdKind::Cel),
        vec![attr("id", AttrSpec::Text("")), attr("column", AttrSpec::Int(0)), attr("colSpan", AttrSpec::Span), attr("rowSpan", AttrSpec::Span), attr("role", AttrSpec::OptText), attr("colwidth", AttrSpec::OptJson), attr("extra", AttrSpec::OptJson)],
        vec!["column", "colSpan", "rowSpan", "role", "children"],
    ));
    v.push(node(
        "table_header",
        None,
        "",
        Some("block*"),
        false,
        Some(IdKind::Cel),
        vec![attr("id", AttrSpec::Text("")), attr("column", AttrSpec::Int(0)), attr("colSpan", AttrSpec::Span), attr("rowSpan", AttrSpec::Span), attr("role", AttrSpec::OptText), attr("colwidth", AttrSpec::OptJson), attr("extra", AttrSpec::OptJson)],
        vec!["column", "colSpan", "rowSpan", "role", "children"],
    ));
    v.push(node(
        "figure",
        Some("figure"),
        "block",
        None,
        false,
        Some(IdKind::Blk),
        vec![attr("id", AttrSpec::Text("")), attr("asset", AttrSpec::Text("")), attr("alt", AttrSpec::Text("")), attr("caption", AttrSpec::OptJson), attr("extra", AttrSpec::OptJson)],
        vec!["asset", "alt", "caption"],
    ));
    v.push(node(
        "image",
        Some("image"),
        "block",
        None,
        false,
        Some(IdKind::Blk),
        vec![attr("id", AttrSpec::Text("")), attr("asset", AttrSpec::Text("")), attr("alt", AttrSpec::Text("")), attr("extra", AttrSpec::OptJson)],
        vec!["asset", "alt"],
    ));
    v.push(node(
        "horizontal_rule",
        Some("horizontal_rule"),
        "block",
        None,
        false,
        Some(IdKind::Blk),
        vec![attr("id", AttrSpec::Text("")), attr("extra", AttrSpec::OptJson)],
        vec![],
    ));
    v.push(node(
        "page_break",
        Some("page_break"),
        "block",
        None,
        false,
        Some(IdKind::Blk),
        vec![attr("id", AttrSpec::Text("")), attr("extra", AttrSpec::OptJson)],
        vec![],
    ));
    v.push(node(
        "math_block",
        Some("math_block"),
        "block",
        None,
        false,
        Some(IdKind::Blk),
        vec![attr("id", AttrSpec::Text("")), attr("latex", AttrSpec::Text("")), attr("extra", AttrSpec::OptJson)],
        vec!["latex"],
    ));
    v.push(node(
        "callout",
        Some("callout"),
        "block",
        Some("block*"),
        false,
        Some(IdKind::Blk),
        vec![attr("id", AttrSpec::Text("")), attr("variant", AttrSpec::Text("info")), attr("extra", AttrSpec::OptJson)],
        vec!["variant", "children"],
    ));
    v.push(node(
        "embed",
        Some("embed"),
        "block",
        None,
        false,
        Some(IdKind::Blk),
        vec![attr("id", AttrSpec::Text("")), attr("asset", AttrSpec::Text("")), attr("extra", AttrSpec::OptJson)],
        vec!["asset"],
    ));
    v.push(node(
        "footnote",
        Some("footnote"),
        "block",
        Some("block*"),
        false,
        Some(IdKind::Blk),
        vec![attr("id", AttrSpec::Text("")), attr("extra", AttrSpec::OptJson)],
        vec!["children"],
    ));
    v.push(node(
        "unknown_block",
        Some("unknown"),
        "block",
        Some("inline*"),
        false,
        Some(IdKind::Blk),
        vec![attr("id", AttrSpec::Text("")), attr("origin", AttrSpec::Text("")), attr("loss_class", AttrSpec::Text("")), attr("summary", AttrSpec::Text("")), attr("payload_ref", AttrSpec::OptText), attr("extra", AttrSpec::OptJson)],
        vec!["origin", "loss_class", "summary", "payload_ref", "content"],
    ));
    v.push(node(
        "text",
        Some("text"),
        "inline",
        None,
        false,
        None,
        vec![],
        vec!["text"],
    ));
    v.push(node(
        "hard_break",
        Some("hard_break"),
        "inline",
        None,
        false,
        None,
        vec![attr("extra", AttrSpec::OptJson)],
        vec![],
    ));
    v.push(node(
        "footnote_ref",
        Some("footnote_ref"),
        "inline",
        None,
        false,
        None,
        vec![attr("id", AttrSpec::Text("")), attr("extra", AttrSpec::OptJson)],
        vec![],
    ));
    v.push(node(
        "inline_math",
        Some("inline_math"),
        "inline",
        None,
        false,
        None,
        vec![attr("latex", AttrSpec::Text("")), attr("extra", AttrSpec::OptJson)],
        vec!["latex"],
    ));
    v.push(node(
        "inline_image",
        Some("inline_image"),
        "inline",
        None,
        false,
        None,
        vec![attr("asset", AttrSpec::Text("")), attr("alt", AttrSpec::Text("")), attr("extra", AttrSpec::OptJson)],
        vec!["asset", "alt"],
    ));
    v.push(node(
        "mention",
        Some("mention"),
        "inline",
        None,
        false,
        None,
        vec![attr("target", AttrSpec::Text("")), attr("extra", AttrSpec::OptJson)],
        vec!["target"],
    ));
    v.push(node(
        "cite",
        Some("cite"),
        "inline",
        None,
        false,
        None,
        vec![attr("key", AttrSpec::Text("")), attr("extra", AttrSpec::OptJson)],
        vec!["key"],
    ));
    v.push(node(
        "unknown_span",
        Some("unknown"),
        "inline",
        Some("inline*"),
        false,
        None,
        vec![attr("origin", AttrSpec::Text("")), attr("loss_class", AttrSpec::Text("")), attr("summary", AttrSpec::Text("")), attr("payload_ref", AttrSpec::OptText), attr("extra", AttrSpec::OptJson)],
        vec!["origin", "loss_class", "summary", "payload_ref", "content"],
    ));
    assert(v@.map_values(|d: NodeDef| d@) =~~= node_table());
    v
}

/// The mark definitions.
pub fn marks() -> (r: Vec<MarkDef>)
    ensures
        r@.map_values(|d: MarkDef| d@) == mark_table(),
{
    let mut v: Vec<MarkDef> = Vec::new();
    v.push(mark(
        "link",
        Some("link"),
        0,
        vec![attr("url", AttrSpec::Text("")), attr("title", AttrSpec::OptText), attr("extra", AttrSpec::OptJson)],
        vec!["url", "title", "content"],
    ));
    v.push(mark(
        "strong",
        Some("strong"),
        1,
        vec![attr("extra", AttrSpec::OptJson)],
        vec!["content"],
    ));
    v.push(mark(
        "em",
        Some("em"),
        2,
        vec![attr("extra", AttrSpec::OptJson)],
        vec!["content"],
    ));
    v.push(mark(
        "underline",
        Some("underline"),
        3,
        vec![attr("extra", AttrSpec::OptJson)],
        vec!["content"],
    ));
    v.push(mark(
        "strike",
        Some("strike"),
        4,
        vec![attr("extra", AttrSpec::OptJson)],
        vec!["content"],
    ));
    v.push(mark(
        "code",
        Some("code"),
        CODE_RANK,
        vec![attr("extra", AttrSpec::OptJson)],
        vec!["text"],
    ));
    v.push(mark(
        "span_extra",
        None,
        SPAN_EXTRA_RANK,
        vec![attr("data", AttrSpec::OptJson)],
        vec![],
    ));
    assert(v@.map_values(|d: MarkDef| d@) =~~= mark_table());
    v
}

/// The Prima block type names.
pub fn known_node_types() -> (r: Vec<&'static str>)
    ensures
        names_view(r@) == known_node_type_table(),
{
    let v: Vec<&'static str> = vec!["section", "paragraph", "heading", "quote", "list", "list_item", "code_block", "table", "figure", "image", "horizontal_rule", "page_break", "math_block", "callout", "embed", "footnote", "unknown"];
    assert(names_view(v@) =~= known_node_type_table());
    v
}

/// The Prima span type names.
pub fn known_span_types() -> (r: Vec<&'static str>)
    ensures
        names_view(r@) == known_span_type_table(),
{
    let v: Vec<&'static str> = vec!["text", "hard_break", "strong", "em", "underline", "strike", "code", "link", "footnote_ref", "inline_math", "inline_image", "mention", "cite", "unknown"];
    assert(names_view(v@) =~= known_span_type_table());
    v
}


// ------------------------------------------------------------------ laws of the tables

/// The editor names of every node and mark definition.
pub open spec fn pm_names() -> Seq<Seq<char>> {
    node_table().map_values(|d: NodeView| d.pm_name) + mark_table().map_values(|d: MarkView| d.pm_name)
}

/// Attribute lists keep their shape: `id` first when present, `extra` last
/// when present, and every other attribute names a Prima field (unless the
/// definition is synthetic).
pub open spec fn attrs_well_formed(
    attrs: Seq<(Seq<char>, AttrSpecView)>,
    fields: Seq<Seq<char>>,
    synthetic: bool,
) -> bool {
    &&& forall|i: int| 0 <= i < attrs.len() && #[trigger] attrs[i].0 == "id"@ ==> attrs[0].0 == "id"@
    &&& forall|i: int| 0 <= i < attrs.len() && #[trigger] attrs[i].0 == "extra"@ ==> attrs.last().0 == "extra"@
    &&& forall|i: int|
        0 <= i < attrs.len() && attrs[i].0 != "id"@ && attrs[i].0 != "extra"@ ==> synthetic
            || fields.contains(#[trigger] attrs[i].0)
}

/// A number that tells apart the names of the tables: length, first two
/// and last character.
pub open spec fn name_code(s: Seq<char>) -> int {
    s.len() * 16777216 + (s[0] as int) * 65536 + (s[1] as int) * 256 + (s.last() as int)
}

/// `x` does not occur in `s`.
pub open spec fn absent(x: int, s: Seq<int>) -> bool
    decreases s.len(),
{
    s.len() == 0 || (s.last() != x && absent(x, s.drop_last()))
}

/// No number occurs twice in `s`.
pub open spec fn distinct_ints(s: Seq<int>) -> bool
    decreases s.len(),
{
    s.len() == 0 || (absent(s.last(), s.drop_last()) && distinct_ints(s.drop_last()))
}

proof fn lemma_absent(x: int, s: Seq<int>)
    requires
        absent(x, s),
    ensures
        forall|i: int| 0 <= i < s.len() ==> s[i] != x,
    decreases s.len(),
{
    if s.len() > 0 {
        lemma_absent(x, s.drop_last());
        assert forall|i: int| 0 <= i < s.len() implies s[i] != x by {
            if i < s.len() - 1 {
                assert(s[i] == s.drop_last()[i]);
            }
        }
    }
}

proof fn lemma_distinct_ints(s: Seq<int>)
    requires
        distinct_ints(s),
    ensures
        forall|i: int, j: int| 0 <= i < j < s.len() ==> s[i] != s[j],
    decreases s.len(),
{
    if s.len() > 0 {
        let t = s.drop_last();
        lemma_distinct_ints(t);
        lemma_absent(s.last(), t);
        assert forall|i: int, j: int| 0 <= i < j < s.len() implies s[i] != s[j] by {
            if j < s.len() - 1 {
                assert(s[i] == t[i] && s[j] == t[j]);
            } else {
                assert(s[i] == t[i]);
            }
        }
    }
}

proof fn lemma_name_codes()
    ensures
        name_code("doc"@) == 56913763,
        name_code("section"@) == 125003118,
        name_code("paragraph"@) == 158359912,
        name_code("heading"@) == 124282215,
        name_code("quote"@) == 91321701,
        name_code("list"@) == 74213748,
        name_code("list_item"@) == 158099821,
        name_code("code_block"@) == 174288747,
        name_code("table"@) == 91513189,
        name_code("table_row"@) == 158622071,
        name_code("table_cell"@) == 175399276,
        name_code("table_header"@) == 208953714,
        name_code("figure"@) == 107374949,
        name_code("image"@) == 90795365,
        name_code("horizontal_rule"@) == 258502501,
        name_code("page_break"@) == 175137131,
        name_code("math_block"@) == 174940523,
        name_code("callout"@) == 123953524,
        name_code("embed"@) == 90533220,
        name_code("footnote"@) == 140930917,
        name_code("unknown_block"@) == 225799787,
        name_code("text"@) == 74737012,
        name_code("hard_break"@) == 174612843,
        name_code("footnote_ref"@) == 208039782,
        name_code("inline_math"@) == 191458920,
        name_code("inline_image"@) == 208236133,
        name_code("mention"@) == 124609902,
        name_code("cite"@) == 73623909,
        name_code("unknown_span"@) == 209022574,
        name_code("link"@) == 74213739,
        name_code("strong"@) == 108229735,
        name_code("em"@) == 40201581,
        name_code("underline"@) == 158690917,
        name_code("strike"@) == 108229733,
        name_code("code"@) == 73625445,
        name_code("span_extra"@) == 175337569,
        name_code("alt"@) == 56716404,
        name_code("asset"@) == 90272628,
        name_code("caption"@) == 123953518,
        name_code("checked"@) == 123955300,
        name_code("colSpan"@) == 123957102,
        name_code("column"@) == 107179886,
        name_code("columns"@) == 123957107,
        name_code("colwidth"@) == 140734312,
        name_code("data"@) == 73687393,
        name_code("extra"@) == 90536033,
        name_code("header_row"@) == 174613879,
        name_code("id"@) == 40461412,
        name_code("key"@) == 57369977,
        name_code("language"@) == 141320549,
        name_code("latex"@) == 90988920,
        name_code("level"@) == 90989932,
        name_code("loss_class"@) == 174878579,
        name_code("origin"@) == 107967086,
        name_code("payload_ref"@) == 191914342,
        name_code("role"@) == 74608485,
        name_code("rowSpan"@) == 124940142,
        name_code("schema_version"@) == 242443118,
        name_code("start"@) == 91452532,
        name_code("style"@) == 91452517,
        name_code("summary"@) == 125007225,
        name_code("target"@) == 108290420,
        name_code("title"@) == 91515237,
        name_code("url"@) == 58028652,
        name_code("variant"@) == 125198708,
{
    reveal_strlit("doc");
    reveal_strlit("section");
    reveal_strlit("paragraph");
    reveal_strlit("heading");
    reveal_strlit("quote");
    reveal_strlit("list");
    reveal_strlit("list_item");
    reveal_strlit("code_block");
    reveal_strlit("table");
    reveal_strlit("table_row");
    reveal_strlit("table_cell");
    reveal_strlit("table_header");
    reveal_strlit("figure");
    reveal_strlit("image");
    reveal_strlit("horizontal_rule");
    reveal_strlit("page_break");
    reveal_strlit("math_block");
    reveal_strlit("callout");
    reveal_strlit("embed");
    reveal_strlit("footnote");
    reveal_strlit("unknown_block");
    reveal_strlit("text");
    reveal_strlit("hard_break");
    reveal_strlit("footnote_ref");
    reveal_strlit("inline_math");
    reveal_strlit("inline_image");
    reveal_strlit("mention");
    reveal_strlit("cite");
    reveal_strlit("unknown_span");
    reveal_strlit("link");
    reveal_strlit("strong");
    reveal_strlit("em");
    reveal_strlit("underline");
    reveal_strlit("strike");
    reveal_strlit("code");
    reveal_strlit("span_extra");
    reveal_strlit("alt");
    reveal_strlit("asset");
    reveal_strlit("caption");
    reveal_strlit("checked");
    reveal_strlit("colSpan");
    reveal_strlit("column");
    reveal_strlit("columns");
    reveal_strlit("colwidth");
    reveal_strlit("data");
    reveal_strlit("extra");
    reveal_strlit("header_row");
    reveal_strlit("id");
    reveal_strlit("key");
    reveal_strlit("language");
    reveal_strlit("latex");
    reveal_strlit("level");
    reveal_strlit("loss_class");
    reveal_strlit("origin");
    reveal_strlit("payload_ref");
    reveal_strlit("role");
    reveal_strlit("rowSpan");
    reveal_strlit("schema_version");
    reveal_strlit("start");
    reveal_strlit("style");
    reveal_strlit("summary");
    reveal_strlit("target");
    reveal_strlit("title");
    reveal_strlit("url");
    reveal_strlit("variant");
}

/// Editor node and mark names are all different.
pub proof fn law_pm_names_unique()
    ensures
        forall|i: int, j: int| 0 <= i < j < pm_names().len() ==> pm_names()[i] != pm_names()[j],
{
    let n = pm_names();
    assert(n =~= seq!["doc"@, "section"@, "paragraph"@, "heading"@, "quote"@, "list"@, "list_item"@, "code_block"@, "table"@, "table_row"@, "table_cell"@, "table_header"@, "figure"@, "image"@, "horizontal_rule"@, "page_break"@, "math_block"@, "callout"@, "embed"@, "footnote"@, "unknown_block"@, "text"@, "hard_break"@, "footnote_ref"@, "inline_math"@, "inline_image"@, "mention"@, "cite"@, "unknown_span"@, "link"@, "strong"@, "em"@, "underline"@, "strike"@, "code"@, "span_extra"@]);
    lemma_name_codes();
    let codes = n.map_values(|s: Seq<char>| name_code(s));
    assert(codes =~= seq![56913763, 125003118, 158359912, 124282215, 91321701, 74213748, 158099821, 174288747, 91513189, 158622071, 175399276, 208953714, 107374949, 90795365, 258502501, 175137131, 174940523, 123953524, 90533220, 140930917, 225799787, 74737012, 174612843, 208039782, 191458920, 208236133, 124609902, 73623909, 209022574, 74213739, 108229735, 40201581, 158690917, 108229733, 73625445, 175337569]);
    assert(distinct_ints(codes)) by {
        reveal_with_fuel(distinct_ints, 37);
        reveal_with_fuel(absent, 37);
    }
    lemma_distinct_ints(codes);
    assert forall|i: int, j: int| 0 <= i < j < n.len() implies n[i] != n[j] by {
        assert(codes[i] != codes[j]);
    }
}

/// Some node definition has `t` as its Prima type or as its editor name.
pub open spec fn node_covers(t: Seq<char>, tab: Seq<NodeView>) -> bool
    decreases tab.len(),
{
    tab.len() > 0 && (tab.last().prima_type == Some(t) || tab.last().pm_name == t || node_covers(
        t,
        tab.drop_last(),
    ))
}

/// Some mark definition has `t` as its Prima type.
pub open spec fn mark_covers(t: Seq<char>, tab: Seq<MarkView>) -> bool
    decreases tab.len(),
{
    tab.len() > 0 && (tab.last().prima_type == Some(t) || mark_covers(t, tab.drop_last()))
}

/// Some node definition has `t` as its Prima type.
pub open spec fn atom_covers(t: Seq<char>, tab: Seq<NodeView>) -> bool
    decreases tab.len(),
{
    tab.len() > 0 && (tab.last().prima_type == Some(t) || atom_covers(t, tab.drop_last()))
}

/// Every block type in `ts` has a node definition.
pub open spec fn blocks_covered(ts: Seq<Seq<char>>) -> bool
    decreases ts.len(),
{
    ts.len() == 0 || (node_covers(ts.last(), node_table()) && blocks_covered(ts.drop_last()))
}

/// Every span type in `ts` has a mark or an atomic inline node.
pub open spec fn spans_covered(ts: Seq<Seq<char>>) -> bool
    decreases ts.len(),
{
    ts.len() == 0 || ((mark_covers(ts.last(), mark_table()) || atom_covers(ts.last(), node_table()))
        && spans_covered(ts.drop_last()))
}

proof fn lemma_blocks_covered(ts: Seq<Seq<char>>)
    requires
        blocks_covered(ts),
    ensures
        forall|k: int| 0 <= k < ts.len() ==> node_covers(#[trigger] ts[k], node_table()),
    decreases ts.len(),
{
    if ts.len() > 0 {
        lemma_blocks_covered(ts.drop_last());
        assert forall|k: int| 0 <= k < ts.len() implies node_covers(#[trigger] ts[k], node_table()) by {
            if k < ts.len() - 1 {
                assert(ts[k] == ts.drop_last()[k]);
            }
        }
    }
}

proof fn lemma_spans_covered(ts: Seq<Seq<char>>)
    requires
        spans_covered(ts),
    ensures
        forall|k: int|
            0 <= k < ts.len() ==> mark_covers(#[trigger] ts[k], mark_table()) || atom_covers(ts[k], node_table()),
    decreases ts.len(),
{
    if ts.len() > 0 {
        lemma_spans_covered(ts.drop_last());
        assert forall|k: int| 0 <= k < ts.len() implies mark_covers(#[trigger] ts[k], mark_table())
            || atom_covers(ts[k], node_table()) by {
            if k < ts.len() - 1 {
                assert(ts[k] == ts.drop_last()[k]);
            }
        }
    }
}

/// Every Prima block type has a node definition (by Prima type, or by
/// editor name for the untagged list item), and every Prima span type a
/// mark or an atomic inline node.
pub proof fn law_mapping_covers_known_types()
    ensures
        forall|k: int|
            0 <= k < known_node_type_table().len() ==> node_covers(
                #[trigger] known_node_type_table()[k],
                node_table(),
            ),
        forall|k: int|
            0 <= k < known_span_type_table().len() ==> mark_covers(
                #[trigger] known_span_type_table()[k],
                mark_table(),
            ) || atom_covers(known_span_type_table()[k], node_table()),
{
    assert(blocks_covered(known_node_type_table())) by {
        reveal_with_fuel(blocks_covered, 18);
        reveal_with_fuel(node_covers, 30);
    }
    assert(spans_covered(known_span_type_table())) by {
        reveal_with_fuel(spans_covered, 15);
        reveal_with_fuel(mark_covers, 8);
        reveal_with_fuel(atom_covers, 30);
    }
    lemma_blocks_covered(known_node_type_table());
    lemma_spans_covered(known_span_type_table());
}

/// Some attribute is called `x`.
pub open spec fn has_attr(a: Seq<(Seq<char>, AttrSpecView)>, x: Seq<char>) -> bool
    decreases a.len(),
{
    a.len() > 0 && (a.last().0 == x || has_attr(a.drop_last(), x))
}

/// `x` is one of `fields`.
pub open spec fn has_field(fields: Seq<Seq<char>>, x: Seq<char>) -> bool
    decreases fields.len(),
{
    fields.len() > 0 && (fields.last() == x || has_field(fields.drop_last(), x))
}

/// Every attribute other than `id` and `extra` is a field (or the
/// definition is synthetic).
pub open spec fn fields_cover(a: Seq<(Seq<char>, AttrSpecView)>, fields: Seq<Seq<char>>, synthetic: bool) -> bool
    decreases a.len(),
{
    a.len() == 0 || ((a.last().0 == "id"@ || a.last().0 == "extra"@ || synthetic || has_field(
        fields,
        a.last().0,
    )) && fields_cover(a.drop_last(), fields, synthetic))
}

/// The shape rule of an attribute list, checked element by element.
pub open spec fn attrs_ok(a: Seq<(Seq<char>, AttrSpecView)>, fields: Seq<Seq<char>>, synthetic: bool) -> bool {
    &&& (!has_attr(a, "id"@) || a[0].0 == "id"@)
    &&& (!has_attr(a, "extra"@) || a.last().0 == "extra"@)
    &&& fields_cover(a, fields, synthetic)
}

/// Every node definition has a well-shaped attribute list.
pub open spec fn nodes_ok(tab: Seq<NodeView>) -> bool
    decreases tab.len(),
{
    tab.len() == 0 || (attrs_ok(tab.last().attrs, tab.last().prima_fields, tab.last().prima_type is None)
        && nodes_ok(tab.drop_last()))
}

/// Every mark definition has a well-shaped attribute list.
pub open spec fn marks_ok(tab: Seq<MarkView>) -> bool
    decreases tab.len(),
{
    tab.len() == 0 || (attrs_ok(tab.last().attrs, tab.last().prima_fields, tab.last().prima_type is None)
        && marks_ok(tab.drop_last()))
}

proof fn lemma_has_attr(a: Seq<(Seq<char>, AttrSpecView)>, x: Seq<char>)
    ensures
        has_attr(a, x) <== exists|i: int| 0 <= i < a.len() && a[i].0 == x,
    decreases a.len(),
{
    if a.len() > 0 {
        lemma_has_attr(a.drop_last(), x);
        if exists|i: int| 0 <= i < a.len() && a[i].0 == x {
            let i = choose|i: int| 0 <= i < a.len() && a[i].0 == x;
            if i < a.len() - 1 {
                assert(a.drop_last()[i] == a[i]);
            }
        }
    }
}

proof fn lemma_has_field(fields: Seq<Seq<char>>, x: Seq<char>)
    requires
        has_field(fields, x),
    ensures
        fields.contains(x),
    decreases fields.len(),
{
    if fields.last() != x {
        lemma_has_field(fields.drop_last(), x);
        let i = choose|i: int| 0 <= i < fields.drop_last().len() && fields.drop_last()[i] == x;
        assert(fields[i] == x);
    }
}

proof fn lemma_fields_cover(a: Seq<(Seq<char>, AttrSpecView)>, fields: Seq<Seq<char>>, synthetic: bool)
    requires
        fields_cover(a, fields, synthetic),
    ensures
        forall|i: int|
            0 <= i < a.len() && a[i].0 != "id"@ && a[i].0 != "extra"@ ==> synthetic
                || fields.contains(#[trigger] a[i].0),
    decreases a.len(),
{
    if a.len() > 0 {
        lemma_fields_cover(a.drop_last(), fields, synthetic);
        if a.last().0 != "id"@ && a.last().0 != "extra"@ && !synthetic {
            lemma_has_field(fields, a.last().0);
        }
        assert forall|i: int| 0 <= i < a.len() && a[i].0 != "id"@ && a[i].0 != "extra"@ implies synthetic
            || fields.contains(#[trigger] a[i].0) by {
            if i < a.len() - 1 {
                assert(a.drop_last()[i] == a[i]);
            }
        }
    }
}

proof fn lemma_attrs_ok(a: Seq<(Seq<char>, AttrSpecView)>, fields: Seq<Seq<char>>, synthetic: bool)
    requires
        attrs_ok(a, fields, synthetic),
    ensures
        attrs_well_formed(a, fields, synthetic),
{
    lemma_has_attr(a, "id"@);
    lemma_has_attr(a, "extra"@);
    lemma_fields_cover(a, fields, synthetic);
}

proof fn lemma_nodes_ok(tab: Seq<NodeView>)
    requires
        nodes_ok(tab),
    ensures
        forall|i: int| 0 <= i < tab.len() ==> attrs_well_formed(
            #[trigger] tab[i].attrs,
            tab[i].prima_fields,
            tab[i].prima_type is None,
        ),
    decreases tab.len(),
{
    if tab.len() > 0 {
        lemma_nodes_ok(tab.drop_last());
        lemma_attrs_ok(tab.last().attrs, tab.last().prima_fields, tab.last().prima_type is None);
        assert forall|i: int| 0 <= i < tab.len() implies attrs_well_formed(
            #[trigger] tab[i].attrs,
            tab[i].prima_fields,
            tab[i].prima_type is None,
        ) by {
            if i < tab.len() - 1 {
                assert(tab.drop_last()[i] == tab[i]);
            }
        }
    }
}

proof fn lemma_marks_ok(tab: Seq<MarkView>)
    requires
        marks_ok(tab),
    ensures
        forall|i: int| 0 <= i < tab.len() ==> attrs_well_formed(
            #[trigger] tab[i].attrs,
            tab[i].prima_fields,
            tab[i].prima_type is None,
        ),
    decreases tab.len(),
{
    if tab.len() > 0 {
        lemma_marks_ok(tab.drop_last());
        lemma_attrs_ok(tab.last().attrs, tab.last().prima_fields, tab.last().prima_type is None);
        assert forall|i: int| 0 <= i < tab.len() implies attrs_well_formed(
            #[trigger] tab[i].attrs,
            tab[i].prima_fields,
            tab[i].prima_type is None,
        ) by {
            if i < tab.len() - 1 {
                assert(tab.drop_last()[i] == tab[i]);
            }
        }
    }
}

/// Every node and mark definition has a well-shaped attribute list.
pub proof fn law_attrs_are_well_formed()
    ensures
        forall|i: int| 0 <= i < node_table().len() ==> attrs_well_formed(
            #[trigger] node_table()[i].attrs,
            node_table()[i].prima_fields,
            node_table()[i].prima_type is None,
        ),
        forall|i: int| 0 <= i < mark_table().len() ==> attrs_well_formed(
            #[trigger] mark_table()[i].attrs,
            mark_table()[i].prima_fields,
            mark_table()[i].prima_type is None,
        ),
{
    lemma_name_codes();
    assert(nodes_ok(node_table())) by {
        reveal_with_fuel(nodes_ok, 30);
        reveal_with_fuel(has_attr, 8);
        reveal_with_fuel(has_field, 6);
        reveal_with_fuel(fields_cover, 8);
    }
    assert(marks_ok(mark_table())) by {
        reveal_with_fuel(marks_ok, 8);
        reveal_with_fuel(has_attr, 8);
        reveal_with_fuel(has_field, 6);
        reveal_with_fuel(fields_cover, 8);
    }
    lemma_nodes_ok(node_table());
    lemma_marks_ok(mark_table());
}

// ------------------------------------------------------------------ lookups

/// The editor attribute name: `colSpan` and `rowSpan` follow the table
/// plugin's `colspan` and `rowspan`; other names stay.
pub open spec fn pm_attr_name_spec(name: Seq<char>) -> Seq<char> {
    if name == "colSpan"@ {
        "colspan"@
    } else if name == "rowSpan"@ {
        "rowspan"@
    } else {
        name
    }
}

/// The editor name of a Prima attribute.
pub fn pm_attr_name(name: &str) -> (r: &str)
    ensures
        r@ == pm_attr_name_spec(name@),
{
    if str_eq(name, "colSpan") {
        "colspan"
    } else if str_eq(name, "rowSpan") {
        "rowspan"
    } else {
        name
    }
}

/// The table plugin role of a node.
pub open spec fn table_role_spec(pm_name: Seq<char>) -> Option<Seq<char>> {
    if pm_name == "table"@ {
        Some("table"@)
    } else if pm_name == "table_row"@ {
        Some("row"@)
    } else if pm_name == "table_cell"@ {
        Some("cell"@)
    } else if pm_name == "table_header"@ {
        Some("header_cell"@)
    } else {
        None
    }
}

/// The table plugin role of a node (`table`, `row`, `cell`, `header_cell`).
pub fn table_role(pm_name: &str) -> (r: Option<&'static str>)
    ensures
        opt_name(r) == table_role_spec(pm_name@),
{
    if str_eq(pm_name, "table") {
        Some("table")
    } else if str_eq(pm_name, "table_row") {
        Some("row")
    } else if str_eq(pm_name, "table_cell") {
        Some("cell")
    } else if str_eq(pm_name, "table_header") {
        Some("header_cell")
    } else {
        None
    }
}

/// Index of the first node definition with this editor name, or -1.
pub open spec fn node_index_by_pm(tab: Seq<NodeView>, pm_name: Seq<char>) -> int
    decreases tab.len(),
{
    if tab.len() == 0 {
        -1
    } else if tab[0].pm_name == pm_name {
        0
    } else {
        let r = node_index_by_pm(tab.drop_first(), pm_name);
        if r < 0 { -1 } else { r + 1 }
    }
}

/// Index of the first node definition with this Prima type, or -1.
pub open spec fn node_index_by_prima(tab: Seq<NodeView>, t: Seq<char>) -> int
    decreases tab.len(),
{
    if tab.len() == 0 {
        -1
    } else if tab[0].prima_type == Some(t) {
        0
    } else {
        let r = node_index_by_prima(tab.drop_first(), t);
        if r < 0 { -1 } else { r + 1 }
    }
}

/// Index of the first mark definition with this editor name, or -1.
pub open spec fn mark_index_by_pm(tab: Seq<MarkView>, pm_name: Seq<char>) -> int
    decreases tab.len(),
{
    if tab.len() == 0 {
        -1
    } else if tab[0].pm_name == pm_name {
        0
    } else {
        let r = mark_index_by_pm(tab.drop_first(), pm_name);
        if r < 0 { -1 } else { r + 1 }
    }
}

/// Index of the first mark definition with this Prima type, or -1.
pub open spec fn mark_index_by_prima(tab: Seq<MarkView>, t: Seq<char>) -> int
    decreases tab.len(),
{
    if tab.len() == 0 {
        -1
    } else if tab[0].prima_type == Some(t) {
        0
    } else {
        let r = mark_index_by_prima(tab.drop_first(), t);
        if r < 0 { -1 } else { r + 1 }
    }
}

/// The node definition with this editor name.
pub fn node_by_pm(pm_name: &str) -> (r: Option<NodeDef>)
    ensures
        match r {
            Some(d) => 0 <= node_index_by_pm(node_table(), pm_name@)
                && d@ == node_table()[node_index_by_pm(node_table(), pm_name@)],
            None => node_index_by_pm(node_table(), pm_name@) == -1,
        },
{
    let mut all = nodes();
    let ghost tab = node_table();
    let mut i: usize = 0;
    assert(tab.skip(0) =~= tab);
    while i < all.len()
        invariant
            i <= all.len(),
            all@.map_values(|d: NodeDef| d@) == tab,
            tab == node_table(),
            node_index_by_pm(tab, pm_name@) == (if node_index_by_pm(tab.skip(i as int), pm_name@) < 0 {
                -1
            } else {
                i + node_index_by_pm(tab.skip(i as int), pm_name@)
            }),
        decreases all.len() - i,
    {
        assert(tab.skip(i as int)[0] == tab[i as int]);
        assert(tab.skip(i as int).drop_first() =~= tab.skip(i + 1));
        if str_eq(all[i].pm_name, pm_name) {
            let d = all.remove(i);
            return Some(d);
        }
        i = i + 1;
    }
    None
}

/// The mark definition with this editor name.
pub fn mark_by_pm(pm_name: &str) -> (r: Option<MarkDef>)
    ensures
        match r {
            Some(d) => 0 <= mark_index_by_pm(mark_table(), pm_name@)
                && d@ == mark_table()[mark_index_by_pm(mark_table(), pm_name@)],
            None => mark_index_by_pm(mark_table(), pm_name@) == -1,
        },
{
    let mut all = marks();
    let ghost tab = mark_table();
    let mut i: usize = 0;
    assert(tab.skip(0) =~= tab);
    while i < all.len()
        invariant
            i <= all.len(),
            all@.map_values(|d: MarkDef| d@) == tab,
            tab == mark_table(),
            mark_index_by_pm(tab, pm_name@) == (if mark_index_by_pm(tab.skip(i as int), pm_name@) < 0 {
                -1
            } else {
                i + mark_index_by_pm(tab.skip(i as int), pm_name@)
            }),
        decreases all.len() - i,
    {
        assert(tab.skip(i as int)[0] == tab[i as int]);
        assert(tab.skip(i as int).drop_first() =~= tab.skip(i + 1));
        if str_eq(all[i].pm_name, pm_name) {
            let d = all.remove(i);
            return Some(d);
        }
        i = i + 1;
    }
    None
}

} // verus!

verus! {

proof fn lemma_node_index(tab: Seq<NodeView>, n: Seq<char>)
    ensures
        -1 <= node_index_by_pm(tab, n) < tab.len(),
        node_index_by_pm(tab, n) >= 0 ==> tab[node_index_by_pm(tab, n)].pm_name == n,
        node_index_by_pm(tab, n) < 0 ==> forall|i: int| 0 <= i < tab.len() ==> #[trigger] tab[i].pm_name != n,
    decreases tab.len(),
{
    if tab.len() > 0 && tab[0].pm_name != n {
        lemma_node_index(tab.drop_first(), n);
        if node_index_by_pm(tab, n) < 0 {
            assert forall|i: int| 0 <= i < tab.len() implies #[trigger] tab[i].pm_name != n by {
                if i > 0 {
                    assert(tab[i] == tab.drop_first()[i - 1]);
                }
            }
        }
    }
}

proof fn lemma_mark_index(tab: Seq<MarkView>, n: Seq<char>)
    ensures
        -1 <= mark_index_by_pm(tab, n) < tab.len(),
        mark_index_by_pm(tab, n) >= 0 ==> tab[mark_index_by_pm(tab, n)].pm_name == n,
        mark_index_by_pm(tab, n) < 0 ==> forall|i: int| 0 <= i < tab.len() ==> #[trigger] tab[i].pm_name != n,
    decreases tab.len(),
{
    if tab.len() > 0 && tab[0].pm_name != n {
        lemma_mark_index(tab.drop_first(), n);
        if mark_index_by_pm(tab, n) < 0 {
            assert forall|i: int| 0 <= i < tab.len() implies #[trigger] tab[i].pm_name != n by {
                if i > 0 {
                    assert(tab[i] == tab.drop_first()[i - 1]);
                }
            }
        }
    }
}

/// No editor name finds both a node and a mark.
pub proof fn law_lookups_disjoint(n: Seq<char>)
    ensures
        !(node_index_by_pm(node_table(), n) >= 0 && mark_index_by_pm(mark_table(), n) >= 0),
{
    lemma_node_index(node_table(), n);
    lemma_mark_index(mark_table(), n);
    law_pm_names_unique();
    let i = node_index_by_pm(node_table(), n);
    let j = mark_index_by_pm(mark_table(), n);
    if i >= 0 && j >= 0 {
        let names = pm_names();
        let k = node_table().len() + j;
        assert(names[i] == node_table()[i].pm_name);
        assert(names[k] == mark_table()[j].pm_name);
        assert(names[i] != names[k]);
    }
}

/// What the node lookup finds carries the name it was looked up by and a
/// well-shaped attribute list.
pub proof fn law_node_lookup_shape(n: Seq<char>)
    ensures
        node_index_by_pm(node_table(), n) >= 0 ==> ({
            let d = node_table()[node_index_by_pm(node_table(), n)];
            d.pm_name == n && attrs_well_formed(d.attrs, d.prima_fields, d.prima_type is None)
        }),
{
    lemma_node_index(node_table(), n);
    law_attrs_are_well_formed();
}

/// What the mark lookup finds carries the name it was looked up by and a
/// well-shaped attribute list; exactly the seven mark names find one.
pub proof fn law_mark_lookup_shape(n: Seq<char>)
    ensures
        mark_index_by_pm(mark_table(), n) >= 0 ==> ({
            let d = mark_table()[mark_index_by_pm(mark_table(), n)];
            d.pm_name == n && attrs_well_formed(d.attrs, d.prima_fields, d.prima_type is None)
        }),
        mark_index_by_pm(mark_table(), n) >= 0 <==> seq![
            "link"@,
            "strong"@,
            "em"@,
            "underline"@,
            "strike"@,
            "code"@,
            "span_extra"@,
        ].contains(n),
{
    lemma_mark_index(mark_table(), n);
    law_attrs_are_well_formed();
    let names = seq!["link"@, "strong"@, "em"@, "underline"@, "strike"@, "code"@, "span_extra"@];
    let tab = mark_table();
    assert(tab.map_values(|d: MarkView| d.pm_name) =~= names);
    assert forall|i: int| 0 <= i < tab.len() implies #[trigger] tab[i].pm_name == names[i] by {
        assert(tab.map_values(|d: MarkView| d.pm_name)[i] == tab[i].pm_name);
    }
    if names.contains(n) {
        let k = choose|k: int| 0 <= k < names.len() && names[k] == n;
        assert(tab[k].pm_name == n);
    }
    if mark_index_by_pm(tab, n) >= 0 {
        let j = mark_index_by_pm(tab, n);
        assert(names[j] == n);
    }
}

} // verus!
