//! Lookups used when Prima content is turned into editor JSON: which
//! definition a Prima type has, and which keys of a Prima object the
//! definition accounts for.

use vstd::prelude::*;
use crate::pm::error::PmError;
use crate::pm::mapping::{
    attrs_view, mark_index_by_prima, mark_table, marks, names_view, node_index_by_prima, node_table, nodes,
    AttrDef, MarkDef, NodeDef, MarkView, NodeView,
};
use crate::text::{push_str, str_eq, string_of};

verus! {

/// The keys a definition accounts for: `type` when the Prima type is
/// tagged, every attribute but `extra`, then the Prima fields.
pub open spec fn known_keys_spec(
    attrs: Seq<(Seq<char>, crate::pm::mapping::AttrSpecView)>,
    fields: Seq<Seq<char>>,
    tagged: bool,
) -> Seq<Seq<char>>
    decreases attrs.len(),
{
    if attrs.len() == 0 {
        (if tagged { seq!["type"@] } else { Seq::empty() }) + fields
    } else {
        let r = known_keys_spec(attrs.drop_last(), Seq::empty(), tagged);
        let a = attrs.last();
        (if a.0 == "extra"@ { r } else { r.push(a.0) }) + fields
    }
}

/// Appends the keys a definition accounts for.
pub fn known_keys(attr_defs: &[AttrDef], prima_fields: &[&'static str], tagged: bool, out: &mut Vec<&'static str>)
    ensures
        names_view(final(out)@) == names_view(old(out)@) + known_keys_spec(
            attrs_view(attr_defs@),
            names_view(prima_fields@),
            tagged,
        ),
{
    let ghost start = names_view(out@);
    let ghost av = attrs_view(attr_defs@);
    if tagged {
        out.push("type");
    }
    let ghost base = if tagged { seq!["type"@] } else { Seq::<Seq<char>>::empty() };
    assert(names_view(out@) =~= start + base);
    let mut i: usize = 0;
    while i < attr_defs.len()
        invariant
            i <= attr_defs.len(),
            av == attrs_view(attr_defs@),
            names_view(out@) == start + known_keys_spec(av.take(i as int), Seq::empty(), tagged),
        decreases attr_defs.len() - i,
    {
        let ghost t = av.take(i + 1);
        assert(t.drop_last() =~= av.take(i as int));
        let ghost prev = known_keys_spec(av.take(i as int), Seq::empty(), tagged);
        assert(prev + Seq::<Seq<char>>::empty() =~= prev);
        let a = attr_defs[i];
        if !str_eq(a.name, "extra") {
            let ghost before = out@;
            out.push(a.name);
            assert(out@ =~= before.push(a.name));
            assert(names_view(out@) =~= names_view(before).push(a.name@));
            assert(names_view(out@) =~= start + prev.push(a.name@));
        }
        proof {
            let nxt = known_keys_spec(t, Seq::empty(), tagged);
            assert(nxt =~= (if a.name@ == "extra"@ { prev } else { prev.push(a.name@) }));
        }
        i = i + 1;
    }
    assert(av.take(attr_defs.len() as int) =~= av);
    let ghost mid = names_view(out@);
    let mut j: usize = 0;
    while j < prima_fields.len()
        invariant
            j <= prima_fields.len(),
            names_view(out@) == mid + names_view(prima_fields@).take(j as int),
        decreases prima_fields.len() - j,
    {
        let ghost before = out@;
        out.push(prima_fields[j]);
        assert(out@ =~= before.push(prima_fields@[j as int]));
        assert(names_view(out@) =~= names_view(before).push(prima_fields@[j as int]@));
        j = j + 1;
        assert(names_view(out@) =~= mid + names_view(prima_fields@).take(j as int));
    }
    proof {
        let f = names_view(prima_fields@);
        assert(f.take(prima_fields.len() as int) =~= f);
        lemma_known_keys_split(av, f, tagged);
    }
}

proof fn lemma_known_keys_split(
    attrs: Seq<(Seq<char>, crate::pm::mapping::AttrSpecView)>,
    fields: Seq<Seq<char>>,
    tagged: bool,
)
    ensures
        known_keys_spec(attrs, fields, tagged) == known_keys_spec(attrs, Seq::empty(), tagged) + fields,
{
    if attrs.len() == 0 {
        let b = if tagged { seq!["type"@] } else { Seq::<Seq<char>>::empty() };
        assert(b + Seq::<Seq<char>>::empty() =~= b);
    } else {
        let r = known_keys_spec(attrs.drop_last(), Seq::empty(), tagged);
        let a = attrs.last();
        let x = if a.0 == "extra"@ { r } else { r.push(a.0) };
        assert(x + Seq::<Seq<char>>::empty() =~= x);
    }
}

/// The bad-structure message for a Prima node type without definition.
pub open spec fn unknown_node_msg(t: Seq<char>) -> Seq<char> {
    "未知的 Prima 节点类型 `"@ + t + "`（读取方应先经 validate 盘点）"@
}

/// The bad-structure message for a Prima span type without definition.
pub open spec fn unknown_span_msg(t: Seq<char>) -> Seq<char> {
    "未知的 Prima span 类型 `"@ + t + "`"@
}

/// The node definition of a Prima type.
pub fn node_def_of(prima_type: &str) -> (r: Result<NodeDef, PmError>)
    ensures
        match r {
            Ok(d) => 0 <= node_index_by_prima(node_table(), prima_type@)
                && d@ == node_table()[node_index_by_prima(node_table(), prima_type@)],
            Err(e) => node_index_by_prima(node_table(), prima_type@) == -1
                && (e matches PmError::BadStructure(m) && m@ == unknown_node_msg(prima_type@)),
        },
{
    let mut all = nodes();
    let ghost tab = node_table();
    let mut i: usize = 0;
    assert(tab.skip(0) =~= tab);
    while i < all.len()
        invariant
            i <= all.len(),
            all@.map_values(|d: NodeDef| d@) == tab,
            tab == node_table(),
            node_index_by_prima(tab, prima_type@) == (if node_index_by_prima(tab.skip(i as int), prima_type@) < 0 {
                -1
            } else {
                i + node_index_by_prima(tab.skip(i as int), prima_type@)
            }),
        decreases all.len() - i,
    {
        assert(tab.skip(i as int)[0] == tab[i as int]);
        assert(tab.skip(i as int).drop_first() =~= tab.skip(i + 1));
        let hit = match all[i].prima_type {
            Some(t) => str_eq(t, prima_type),
            None => false,
        };
        if hit {
            let d = all.remove(i);
            return Ok(d);
        }
        i = i + 1;
    }
    let mut v: Vec<char> = Vec::new();
    push_str(&mut v, "未知的 Prima 节点类型 `");
    push_str(&mut v, prima_type);
    push_str(&mut v, "`（读取方应先经 validate 盘点）");
    assert(v@ =~= unknown_node_msg(prima_type@));
    Err(PmError::BadStructure(string_of(v.as_slice())))
}

/// The mark definition of a Prima span type.
pub fn mark_def_of(prima_type: &str) -> (r: Result<MarkDef, PmError>)
    ensures
        match r {
            Ok(d) => 0 <= mark_index_by_prima(mark_table(), prima_type@)
                && d@ == mark_table()[mark_index_by_prima(mark_table(), prima_type@)],
            Err(e) => mark_index_by_prima(mark_table(), prima_type@) == -1
                && (e matches PmError::BadStructure(m) && m@ == unknown_span_msg(prima_type@)),
        },
{
    let mut all = marks();
    let ghost tab = mark_table();
    let mut i: usize = 0;
    assert(tab.skip(0) =~= tab);
    while i < all.len()
        invariant
            i <= all.len(),
            all@.map_values(|d: MarkDef| d@) == tab,
            tab == mark_table(),
            mark_index_by_prima(tab, prima_type@) == (if mark_index_by_prima(tab.skip(i as int), prima_type@) < 0 {
                -1
            } else {
                i + mark_index_by_prima(tab.skip(i as int), prima_type@)
            }),
        decreases all.len() - i,
    {
        assert(tab.skip(i as int)[0] == tab[i as int]);
        assert(tab.skip(i as int).drop_first() =~= tab.skip(i + 1));
        let hit = match all[i].prima_type {
            Some(t) => str_eq(t, prima_type),
            None => false,
        };
        if hit {
            let d = all.remove(i);
            return Ok(d);
        }
        i = i + 1;
    }
    let mut v: Vec<char> = Vec::new();
    push_str(&mut v, "未知的 Prima span 类型 `");
    push_str(&mut v, prima_type);
    push_str(&mut v, "`");
    assert(v@ =~= unknown_span_msg(prima_type@));
    Err(PmError::BadStructure(string_of(v.as_slice())))
}

} // verus!
