use azodoc::id::IdKind;
use azodoc::pm::error::PmError;
use azodoc::pm::from_prima::{known_keys, mark_def_of, node_def_of};
use azodoc::pm::mapping::{
    known_node_types, known_span_types, mark_by_pm, marks, node_by_pm, nodes, pm_attr_name, table_role,
    AttrDef, AttrSpec,
};

#[test]
fn mapping_covers_all_known_types() {
    let node_defs = nodes();
    let mark_defs = marks();
    for t in known_node_types() {
        let covered = node_defs.iter().any(|d| d.prima_type == Some(t) || d.pm_name == t);
        assert!(covered, "block type `{t}` has no node mapping");
    }
    for t in known_span_types() {
        let covered = mark_defs.iter().any(|d| d.prima_type == Some(t))
            || node_defs.iter().any(|d| d.prima_type == Some(t));
        assert!(covered, "span type `{t}` has no mark or atom mapping");
    }
}

#[test]
fn pm_names_unique() {
    let mut names: Vec<&str> = nodes().iter().map(|d| d.pm_name).collect();
    names.extend(marks().iter().map(|d| d.pm_name));
    let len = names.len();
    names.sort_unstable();
    names.dedup();
    assert_eq!(names.len(), len, "editor node and mark names must be unique");
}

#[test]
fn attrs_are_well_formed() {
    let check = |attrs: &[AttrDef], fields: &[&str], synthetic: bool| {
        if attrs.is_empty() {
            return;
        }
        if let Some(pos) = attrs.iter().position(|a| a.name == "id") {
            assert_eq!(pos, 0, "id must be the first attr when present");
        }
        if attrs.iter().any(|a| a.name == "extra") {
            assert_eq!(attrs.last().unwrap().name, "extra", "extra must be the last attr");
        }
        for a in attrs {
            if a.name == "id" || a.name == "extra" {
                continue;
            }
            assert!(fields.contains(&a.name) || synthetic, "attr `{}` is not a prima field", a.name);
        }
    };
    for d in nodes() {
        check(&d.attrs, &d.prima_fields, d.prima_type.is_none());
    }
    for d in marks() {
        check(&d.attrs, &d.prima_fields, d.prima_type.is_none());
    }
}

#[test]
fn table_plugin_names_and_roles() {
    assert_eq!(pm_attr_name("colSpan"), "colspan");
    assert_eq!(pm_attr_name("rowSpan"), "rowspan");
    assert_eq!(pm_attr_name("column"), "column");
    assert_eq!(table_role("table"), Some("table"));
    assert_eq!(table_role("table_row"), Some("row"));
    assert_eq!(table_role("table_cell"), Some("cell"));
    assert_eq!(table_role("table_header"), Some("header_cell"));
    assert_eq!(table_role("paragraph"), None);
}

#[test]
fn lookups_by_editor_name() {
    let h = node_by_pm("heading").unwrap();
    assert_eq!(h.prima_type, Some("heading"));
    assert_eq!(h.id_kind, Some(IdKind::Blk));
    assert!(matches!(h.attrs[1].spec, AttrSpec::Int(1)));
    assert!(node_by_pm("nope").is_none());
    let code = mark_by_pm("code").unwrap();
    assert_eq!(code.rank, 5);
    let extra = mark_by_pm("span_extra").unwrap();
    assert_eq!(extra.rank, 99);
    assert_eq!(extra.prima_type, None);
    assert!(mark_by_pm("heading").is_none());
}

#[test]
fn lookups_by_prima_type() {
    let u = node_def_of("unknown").unwrap();
    assert_eq!(u.pm_name, "unknown_block");
    let li = node_def_of("list").unwrap();
    assert_eq!(li.content, Some("list_item*"));
    match node_def_of("bogus") {
        Err(PmError::BadStructure(m)) => {
            assert_eq!(m, "未知的 Prima 节点类型 `bogus`（读取方应先经 validate 盘点）")
        }
        _ => panic!("expected a structure error"),
    }
    assert_eq!(mark_def_of("link").unwrap().pm_name, "link");
    match mark_def_of("text") {
        Err(PmError::BadStructure(m)) => assert_eq!(m, "未知的 Prima span 类型 `text`"),
        _ => panic!("expected a structure error"),
    }
}

#[test]
fn known_keys_lists_type_attrs_and_fields() {
    let d = node_by_pm("list").unwrap();
    let mut out = Vec::new();
    known_keys(&d.attrs, &d.prima_fields, true, &mut out);
    assert_eq!(out, vec!["type", "id", "style", "start", "style", "start", "items"]);
    let m = mark_by_pm("span_extra").unwrap();
    let mut out2 = vec!["x"];
    known_keys(&m.attrs, &m.prima_fields, false, &mut out2);
    assert_eq!(out2, vec!["x", "data"]);
}

#[test]
fn pm_error_messages() {
    assert_eq!(PmError::UnknownPmNode("foo".into()).message(), "未知的 ProseMirror 节点类型: `foo`");
    assert_eq!(PmError::UnknownPmMark("bar".into()).message(), "未知的 ProseMirror 标记类型: `bar`");
    assert_eq!(PmError::BadStructure("x".into()).message(), "结构不符合预期: x");
}

#[test]
fn tables_have_expected_sizes_and_order() {
    let n = nodes();
    assert_eq!(n.len(), 29);
    assert_eq!(n[0].pm_name, "doc");
    assert_eq!(n[28].pm_name, "unknown_span");
    let m = marks();
    assert_eq!(m.len(), 7);
    let ranks: Vec<u8> = m.iter().map(|d| d.rank).collect();
    assert_eq!(ranks, vec![0, 1, 2, 3, 4, 5, 99]);
    assert_eq!(known_node_types().len(), 17);
    assert_eq!(known_span_types().len(), 14);
}

#[test]
fn lookups_find_their_own_names_and_never_both() {
    let names = [
        "doc", "section", "paragraph", "heading", "quote", "list", "list_item", "code_block", "table", "table_row",
        "table_cell", "table_header", "figure", "image", "horizontal_rule", "page_break", "math_block", "callout",
        "embed", "footnote", "unknown_block", "text", "hard_break", "footnote_ref", "inline_math", "inline_image",
        "mention", "cite", "unknown_span", "link", "strong", "em", "underline", "strike", "code", "span_extra", "nope",
    ];
    let marks = ["link", "strong", "em", "underline", "strike", "code", "span_extra"];
    for n in names {
        let node = node_by_pm(n);
        let mark = mark_by_pm(n);
        assert!(!(node.is_some() && mark.is_some()));
        if let Some(d) = node {
            assert_eq!(d.pm_name, n);
        }
        if let Some(d) = mark {
            assert_eq!(d.pm_name, n);
        }
        assert_eq!(mark_by_pm(n).is_some(), marks.contains(&n));
    }
}
