//! The DOCX export capability matrix: every typed object of a content tree,
//! classed as `supported`, `degraded` or `preserved` by what the DOCX export
//! does with it, counted per status and per type (types in order).

use vstd::prelude::*;
use crate::convert::str_or_empty;
use crate::docx::{block_status, block_status_spec, span_status, span_status_spec};
use crate::json::{
    get, int_v, jint, jstr, jv, jv_items, jv_members, kids, push_item, push_member, Json, JsonNumber, JsonV,
};
use crate::convert::str_member;
use crate::text::{lemma_seq_lt_order, lemma_seq_lt_trans, seq_lt, str_eq, str_less};

verus! {

/// The version of the matrix layout.
pub const MATRIX_VERSION: &'static str = "1.0";

/// The block types the matrix knows.
pub open spec fn cap_block(t: Seq<char>) -> bool {
    t == "section"@ || t == "heading"@ || t == "paragraph"@ || t == "quote"@ || t == "list"@ || t == "list_item"@
        || t == "code_block"@ || t == "horizontal_rule"@ || t == "page_break"@ || t == "table"@ || t == "table_row"@
        || t == "table_cell"@ || t == "table_header"@ || t == "figure"@ || t == "image"@ || t == "math_block"@
        || t == "footnote"@ || t == "callout"@ || t == "embed"@ || t == "unknown_block"@
}

/// The inline types the matrix knows.
pub open spec fn cap_span(t: Seq<char>) -> bool {
    t == "text"@ || t == "hard_break"@ || t == "code"@ || t == "em"@ || t == "strong"@ || t == "strike"@
        || t == "underline"@ || t == "link"@ || t == "inline_math"@ || t == "inline_image"@ || t == "footnote_ref"@
        || t == "line_break"@ || t == "mention"@ || t == "cite"@
}

/// The status of a typed object: by its block type, else by its inline type
/// when it is one (or has contents, or is `unknown`), else as an unknown
/// block.
pub open spec fn status_of(v: Json, t: Seq<char>) -> Seq<char> {
    if cap_block(t) {
        block_status_spec(t)
    } else if cap_span(t) || get(v, "content"@) is Some || t == "unknown"@ {
        span_status_spec(t)
    } else {
        block_status_spec("unknown_block"@)
    }
}

/// One row of the matrix: a type, its status, how often it occurs.
pub struct CapRow {
    pub ty: Seq<char>,
    pub status: Seq<char>,
    pub count: nat,
}

/// The matrix so far: rows in type order and the count of each status.
pub struct Tally {
    pub rows: Seq<CapRow>,
    pub supported: nat,
    pub degraded: nat,
    pub preserved: nat,
}

/// Nothing counted.
pub open spec fn no_tally() -> Tally {
    Tally { rows: Seq::empty(), supported: 0, degraded: 0, preserved: 0 }
}

/// The number of objects counted.
pub open spec fn tally_total(t: Tally) -> nat {
    t.supported + t.degraded + t.preserved
}

/// Index of the first row whose type is not below `ty`.
pub open spec fn row_pos(rows: Seq<CapRow>, ty: Seq<char>) -> nat
    decreases rows.len(),
{
    if rows.len() == 0 {
        0
    } else if seq_lt(rows[0].ty, ty) {
        1 + row_pos(rows.drop_first(), ty)
    } else {
        0
    }
}

/// The matrix after one object of type `ty` and status `status`: its row
/// counts it and takes the status (the last one seen wins); a new row goes
/// in its sorted place.
pub open spec fn tally_bump(st: Tally, ty: Seq<char>, status: Seq<char>) -> Tally {
    let p = row_pos(st.rows, ty) as int;
    let rows = if p < st.rows.len() && st.rows[p].ty == ty {
        st.rows.update(p, CapRow { ty, status, count: st.rows[p].count + 1 })
    } else {
        st.rows.insert(p, CapRow { ty, status, count: 1 })
    };
    Tally {
        rows,
        supported: st.supported + if status == "supported"@ { 1nat } else { 0nat },
        degraded: st.degraded + if status == "degraded"@ { 1nat } else { 0nat },
        preserved: st.preserved + if status == "preserved"@ { 1nat } else { 0nat },
    }
}

/// The matrix after the objects of `v`, depth first, members in order.
pub open spec fn tally_value(v: Json, st: Tally) -> Tally
    decreases v, 1nat,
{
    match v {
        Json::Array(a) => {
            proof {
                assert(decreases_to!(v => a));
                assert(decreases_to!(a => a@));
            }
            tally_seq(a@, st)
        },
        Json::Object(ms) => {
            proof {
                assert(decreases_to!(v => ms));
                assert(decreases_to!(ms => ms@));
            }
            let t = str_or_empty(v, "type"@);
            let st1 = if t.len() > 0 && t != "doc"@ { tally_bump(st, t, status_of(v, t)) } else { st };
            tally_members(ms@, st1)
        },
        _ => st,
    }
}

/// The matrix after a list of values, in order.
pub open spec fn tally_seq(vs: Seq<Json>, st: Tally) -> Tally
    decreases vs, 0nat,
{
    if vs.len() == 0 {
        st
    } else {
        tally_value(vs.last(), tally_seq(vs.drop_last(), st))
    }
}

/// The matrix after the values of object members, in order.
pub open spec fn tally_members(ms: Seq<(String, Json)>, st: Tally) -> Tally
    decreases ms, 0nat,
{
    if ms.len() == 0 {
        st
    } else {
        proof {
            assert(decreases_to!(ms => ms.last()));
            assert(decreases_to!(ms.last() => ms.last().1));
        }
        tally_value(ms.last().1, tally_members(ms.drop_last(), st))
    }
}

/// The number of objects in a value.
pub open spec fn object_count(v: Json) -> nat
    decreases v, 1nat,
{
    match v {
        Json::Array(a) => {
            proof {
                assert(decreases_to!(v => a));
                assert(decreases_to!(a => a@));
            }
            objects_in(a@)
        },
        Json::Object(ms) => {
            proof {
                assert(decreases_to!(v => ms));
                assert(decreases_to!(ms => ms@));
            }
            1 + objects_in_members(ms@)
        },
        _ => 0,
    }
}

/// The number of objects in a list of values.
pub open spec fn objects_in(vs: Seq<Json>) -> nat
    decreases vs, 0nat,
{
    if vs.len() == 0 {
        0
    } else {
        object_count(vs[0]) + objects_in(vs.drop_first())
    }
}

/// The number of objects in the values of object members.
pub open spec fn objects_in_members(ms: Seq<(String, Json)>) -> nat
    decreases ms, 0nat,
{
    if ms.len() == 0 {
        0
    } else {
        proof {
            assert(decreases_to!(ms => ms[0]));
            assert(decreases_to!(ms[0] => ms[0].1));
        }
        object_count(ms[0].1) + objects_in_members(ms.drop_first())
    }
}

/// The matrix of a content file: the objects under its `content` member.
pub open spec fn doc_tally(content: Json) -> Tally {
    tally_seq(kids(content, "content"@), no_tally())
}

/// A row as JSON.
pub open spec fn row_v(r: CapRow) -> JsonV {
    JsonV::Object(seq![("type"@, JsonV::Str(r.ty)), ("status"@, JsonV::Str(r.status)), ("count"@, int_v(r.count as int))])
}

/// The matrix as JSON: version, target, status counts (in key order) and
/// one feature per type (in type order).
pub open spec fn matrix_v(st: Tally) -> JsonV {
    JsonV::Object(seq![
        ("matrix_version"@, JsonV::Str("1.0"@)),
        ("target"@, JsonV::Str("docx"@)),
        ("counts"@, JsonV::Object(seq![
            ("degraded"@, int_v(st.degraded as int)),
            ("preserved"@, int_v(st.preserved as int)),
            ("supported"@, int_v(st.supported as int)),
            ("unsupported"@, int_v(0)),
        ])),
        ("features"@, JsonV::Array(st.rows.map_values(|r: CapRow| row_v(r)))),
    ])
}

// ------------------------------------------------------------------ counting

/// A row of the matrix: type, status, count.
pub struct Feature {
    pub ty: String,
    pub status: &'static str,
    pub count: u64,
}

impl View for Feature {
    type V = CapRow;

    open spec fn view(&self) -> CapRow {
        CapRow { ty: self.ty@, status: self.status@, count: self.count as nat }
    }
}

/// The matrix being counted.
pub struct Counter {
    pub rows: Vec<Feature>,
    pub supported: u64,
    pub degraded: u64,
    pub preserved: u64,
}

/// The counts as plain values.
pub open spec fn counter_view(c: Counter) -> Tally {
    Tally {
        rows: c.rows@.map_values(|f: Feature| f@),
        supported: c.supported as nat,
        degraded: c.degraded as nat,
        preserved: c.preserved as nat,
    }
}

/// Rows in strict type order, none counting more objects than the matrix.
pub open spec fn tally_wf(t: Tally) -> bool {
    &&& forall|i: int, j: int| 0 <= i < j < t.rows.len() ==> seq_lt(t.rows[i].ty, t.rows[j].ty)
    &&& forall|i: int| 0 <= i < t.rows.len() ==> #[trigger] t.rows[i].count <= tally_total(t)
}

proof fn lemma_status_names()
    ensures
        "supported"@ != "degraded"@,
        "supported"@ != "preserved"@,
        "degraded"@ != "preserved"@,
{
    reveal_strlit("supported");
    reveal_strlit("degraded");
    reveal_strlit("preserved");
    assert("supported"@.len() == 9);
    assert("degraded"@.len() == 8);
    assert("preserved"@.len() == 9);
    assert("supported"@[0] != "preserved"@[0]);
}

fn bump(c: &mut Counter, ty: &str, status: &'static str)
    requires
        tally_wf(counter_view(*old(c))),
        tally_total(counter_view(*old(c))) + 1 <= u64::MAX,
        status@ == "supported"@ || status@ == "degraded"@ || status@ == "preserved"@,
    ensures
        tally_wf(counter_view(*final(c))),
        counter_view(*final(c)) == tally_bump(counter_view(*old(c)), ty@, status@),
        tally_total(counter_view(*final(c))) == tally_total(counter_view(*old(c))) + 1,
{
    proof { lemma_status_names(); }
    let ghost st = counter_view(*c);
    let ghost rs = st.rows;
    let mut i: usize = 0;
    assert(rs.skip(0) =~= rs);
    while i < c.rows.len() && str_less(c.rows[i].ty.as_str(), ty)
        invariant
            i <= c.rows.len(),
            rs == c.rows@.map_values(|f: Feature| f@),
            row_pos(rs, ty@) == i + row_pos(rs.skip(i as int), ty@),
            forall|j: int| 0 <= j < i ==> seq_lt(#[trigger] rs[j].ty, ty@),
        decreases c.rows.len() - i,
    {
        assert(rs.skip(i as int).drop_first() =~= rs.skip(i + 1));
        i = i + 1;
    }
    proof {
        if i < rs.len() {
            assert(!seq_lt(rs.skip(i as int)[0].ty, ty@));
        }
        assert(row_pos(rs, ty@) == i);
    }
    if i < c.rows.len() && str_eq(c.rows[i].ty.as_str(), ty) {
        let mut f = c.rows.remove(i);
        assert(f@ == rs[i as int]);
        f.count = f.count + 1;
        f.status = status;
        c.rows.insert(i, f);
        assert(c.rows@.map_values(|f: Feature| f@) =~= rs.update(i as int, CapRow { ty: ty@, status: status@, count: rs[i as int].count + 1 }));
    } else {
        let f = Feature { ty: ty.to_owned(), status, count: 1 };
        c.rows.insert(i, f);
        assert(c.rows@.map_values(|f: Feature| f@) =~= rs.insert(i as int, CapRow { ty: ty@, status: status@, count: 1 }));
        proof {
            if i < rs.len() {
                lemma_seq_lt_order(rs[i as int].ty, ty@);
                assert forall|j: int| i < j < rs.len() implies seq_lt(ty@, #[trigger] rs[j].ty) by {
                    lemma_seq_lt_trans(ty@, rs[i as int].ty, rs[j].ty);
                }
            }
        }
    }
    if str_eq(status, "supported") {
        c.supported = c.supported + 1;
    } else if str_eq(status, "degraded") {
        c.degraded = c.degraded + 1;
    } else {
        c.preserved = c.preserved + 1;
    }
    proof {
        let ns = counter_view(*c);
        assert(ns == tally_bump(st, ty@, status@));
        assert forall|k: int| 0 <= k < ns.rows.len() implies #[trigger] ns.rows[k].count <= tally_total(ns) by {
            if ns.rows.len() == rs.len() {
                if k != i {
                    assert(ns.rows[k] == rs[k]);
                }
            } else if k < i {
                assert(ns.rows[k] == rs[k]);
            } else if k > i {
                assert(ns.rows[k] == rs[k - 1]);
            }
        }
    }
}

fn is_cap_block(t: &str) -> (r: bool)
    ensures
        r == cap_block(t@),
{
    str_eq(t, "section") || str_eq(t, "heading") || str_eq(t, "paragraph") || str_eq(t, "quote") || str_eq(t, "list") || str_eq(t, "list_item") || str_eq(t, "code_block") || str_eq(t, "horizontal_rule") || str_eq(t, "page_break") || str_eq(t, "table") || str_eq(t, "table_row") || str_eq(t, "table_cell") || str_eq(t, "table_header") || str_eq(t, "figure") || str_eq(t, "image") || str_eq(t, "math_block") || str_eq(t, "footnote") || str_eq(t, "callout") || str_eq(t, "embed") || str_eq(t, "unknown_block")
}

fn is_cap_span(t: &str) -> (r: bool)
    ensures
        r == cap_span(t@),
{
    str_eq(t, "text") || str_eq(t, "hard_break") || str_eq(t, "code") || str_eq(t, "em") || str_eq(t, "strong") || str_eq(t, "strike") || str_eq(t, "underline") || str_eq(t, "link") || str_eq(t, "inline_math") || str_eq(t, "inline_image") || str_eq(t, "footnote_ref") || str_eq(t, "line_break") || str_eq(t, "mention") || str_eq(t, "cite")
}

fn status_for(v: &Json, t: &str) -> (r: &'static str)
    ensures
        r@ == status_of(*v, t@),
{
    if is_cap_block(t) {
        block_status(t)
    } else if is_cap_span(t) || v.get("content").is_some() || str_eq(t, "unknown") {
        span_status(t)
    } else {
        block_status("unknown_block")
    }
}

proof fn lemma_statuses(v: Json, t: Seq<char>)
    ensures
        status_of(v, t) == "supported"@ || status_of(v, t) == "degraded"@ || status_of(v, t) == "preserved"@,
{
}

fn tally_walk(v: &Json, c: &mut Counter)
    requires
        tally_wf(counter_view(*old(c))),
        tally_total(counter_view(*old(c))) + object_count(*v) <= u64::MAX,
    ensures
        tally_wf(counter_view(*final(c))),
        counter_view(*final(c)) == tally_value(*v, counter_view(*old(c))),
        tally_total(counter_view(*final(c))) <= tally_total(counter_view(*old(c))) + object_count(*v),
    decreases *v, 1nat,
{
    let ghost st0 = counter_view(*c);
    match v {
        Json::Array(a) => {
            assert(decreases_to!(*v => a));
            assert(decreases_to!(a => a@));
            let mut i: usize = 0;
            assert(a@.take(0) =~= Seq::<Json>::empty());
            assert(a@.skip(0) =~= a@);
            while i < a.len()
                invariant
                    i <= a.len(),
                    *v == Json::Array(*a),
                    decreases_to!(*v => a@),
                    tally_wf(counter_view(*c)),
                    counter_view(*c) == tally_seq(a@.take(i as int), st0),
                    tally_total(counter_view(*c)) + objects_in(a@.skip(i as int)) <= tally_total(st0) + objects_in(a@),
                    tally_total(st0) + objects_in(a@) <= u64::MAX,
                decreases a.len() - i,
            {
                assert(decreases_to!(a@ => a@[i as int]));
                assert(a@.skip(i as int).drop_first() =~= a@.skip(i + 1));
                assert(a@.skip(i as int)[0] == a@[i as int]);
                tally_walk(&a[i], c);
                proof {
                    let t = a@.take(i + 1);
                    assert(t.drop_last() =~= a@.take(i as int));
                    assert(t.last() == a@[i as int]);
                }
                i = i + 1;
            }
            assert(a@.take(a.len() as int) =~= a@);
        },
        Json::Object(ms) => {
            assert(decreases_to!(*v => ms));
            assert(decreases_to!(ms => ms@));
            let t = str_member(v, "type");
            if crate::text::chars_of(t).len() > 0 && !str_eq(t, "doc") {
                let status = status_for(v, t);
                proof { lemma_statuses(*v, t@); }
                bump(c, t, status);
            }
            proof {
                reveal_strlit("doc");
            }
            let ghost st1 = counter_view(*c);
            assert(st1 == (if t@.len() > 0 && t@ != "doc"@ { tally_bump(st0, t@, status_of(*v, t@)) } else { st0 }));
            let mut i: usize = 0;
            assert(ms@.take(0) =~= Seq::<(String, Json)>::empty());
            assert(ms@.skip(0) =~= ms@);
            while i < ms.len()
                invariant
                    i <= ms.len(),
                    *v == Json::Object(*ms),
                    decreases_to!(*v => ms@),
                    tally_wf(counter_view(*c)),
                    counter_view(*c) == tally_members(ms@.take(i as int), st1),
                    tally_total(counter_view(*c)) + objects_in_members(ms@.skip(i as int)) <= tally_total(st1)
                        + objects_in_members(ms@),
                    tally_total(st1) + objects_in_members(ms@) <= u64::MAX,
                    tally_total(st1) <= tally_total(st0) + 1,
                decreases ms.len() - i,
            {
                assert(decreases_to!(ms@ => ms@[i as int]));
                assert(decreases_to!(ms@[i as int] => ms@[i as int].1));
                assert(ms@.skip(i as int).drop_first() =~= ms@.skip(i + 1));
                assert(ms@.skip(i as int)[0] == ms@[i as int]);
                tally_walk(&ms[i].1, c);
                proof {
                    let tk = ms@.take(i + 1);
                    assert(tk.drop_last() =~= ms@.take(i as int));
                    assert(tk.last() == ms@[i as int]);
                }
                i = i + 1;
            }
            assert(ms@.take(ms.len() as int) =~= ms@);
        },
        _ => {},
    }
}

fn row_json(f: &Feature) -> (r: Json)
    ensures
        jv(r) == row_v(f@),
{
    let mut m: Vec<(String, Json)> = Vec::new();
    assert(jv_members(m@) =~= Seq::empty());
    push_member(&mut m, "type", jstr(f.ty.as_str()));
    push_member(&mut m, "status", jstr(f.status));
    push_member(&mut m, "count", count_json(f.count));
    assert(jv_members(m@) =~= seq![("type"@, JsonV::Str(f.ty@)), ("status"@, JsonV::Str(f.status@)), ("count"@, int_v(f.count as int))]);
    Json::Object(m)
}

fn count_json(n: u64) -> (r: Json)
    ensures
        jv(r) == int_v(n as int),
{
    Json::Number(JsonNumber::PosInt(n))
}

/// The DOCX export capability matrix of a content file: each typed object
/// under its `content` member (other than the document itself) is counted
/// under its status and its type. Requires the count of objects to fit
/// `u64`.
pub fn capability_matrix(content: &Json) -> (r: Json)
    requires
        objects_in(kids(*content, "content"@)) <= u64::MAX,
    ensures
        jv(r) == matrix_v(doc_tally(*content)),
{
    let mut c = Counter { rows: Vec::new(), supported: 0, degraded: 0, preserved: 0 };
    assert(counter_view(c).rows =~= Seq::<CapRow>::empty());
    assert(counter_view(c) == no_tally());
    if let Some(arr) = content.get_array("content") {
        let mut i: usize = 0;
        assert(arr@.take(0) =~= Seq::<Json>::empty());
        assert(arr@.skip(0) =~= arr@);
        while i < arr.len()
            invariant
                i <= arr.len(),
                arr@ == kids(*content, "content"@),
                tally_wf(counter_view(c)),
                counter_view(c) == tally_seq(arr@.take(i as int), no_tally()),
                tally_total(counter_view(c)) + objects_in(arr@.skip(i as int)) <= objects_in(arr@),
                objects_in(arr@) <= u64::MAX,
            decreases arr.len() - i,
        {
            assert(arr@.skip(i as int).drop_first() =~= arr@.skip(i + 1));
            assert(arr@.skip(i as int)[0] == arr@[i as int]);
            tally_walk(&arr[i], &mut c);
            proof {
                let t = arr@.take(i + 1);
                assert(t.drop_last() =~= arr@.take(i as int));
            }
            i = i + 1;
        }
        assert(arr@.take(arr.len() as int) =~= arr@);
    }
    let ghost st = counter_view(c);
    let mut feats: Vec<Json> = Vec::new();
    assert(jv_items(feats@) =~= Seq::<JsonV>::empty());
    let mut k: usize = 0;
    while k < c.rows.len()
        invariant
            k <= c.rows.len(),
            st == counter_view(c),
            jv_items(feats@) == st.rows.take(k as int).map_values(|r: CapRow| row_v(r)),
        decreases c.rows.len() - k,
    {
        let ghost before = jv_items(feats@);
        push_item(&mut feats, row_json(&c.rows[k]));
        assert(st.rows[k as int] == c.rows@[k as int]@);
        assert(st.rows.take(k + 1).map_values(|r: CapRow| row_v(r)) =~= before.push(row_v(st.rows[k as int])));
        k = k + 1;
    }
    assert(st.rows.take(c.rows.len() as int) =~= st.rows);
    let mut counts: Vec<(String, Json)> = Vec::new();
    assert(jv_members(counts@) =~= Seq::empty());
    push_member(&mut counts, "degraded", count_json(c.degraded));
    push_member(&mut counts, "preserved", count_json(c.preserved));
    push_member(&mut counts, "supported", count_json(c.supported));
    push_member(&mut counts, "unsupported", count_json(0));
    let mut top: Vec<(String, Json)> = Vec::new();
    assert(jv_members(top@) =~= Seq::empty());
    push_member(&mut top, "matrix_version", jstr(MATRIX_VERSION));
    push_member(&mut top, "target", jstr("docx"));
    push_member(&mut top, "counts", Json::Object(counts));
    push_member(&mut top, "features", Json::Array(feats));
    let r = Json::Object(top);
    proof {
        if kids(*content, "content"@).len() == 0 {
            assert(doc_tally(*content) == no_tally());
        }
        assert(st == doc_tally(*content));
        assert(jv_members(counts@) =~= seq![
            ("degraded"@, int_v(st.degraded as int)),
            ("preserved"@, int_v(st.preserved as int)),
            ("supported"@, int_v(st.supported as int)),
            ("unsupported"@, int_v(0)),
        ]);
        assert(jv_members(top@) =~= seq![
            ("matrix_version"@, JsonV::Str("1.0"@)),
            ("target"@, JsonV::Str("docx"@)),
            ("counts"@, JsonV::Object(jv_members(counts@))),
            ("features"@, JsonV::Array(st.rows.map_values(|r: CapRow| row_v(r)))),
        ]);
    }
    r
}

// ------------------------------------------------------------------ laws

/// The objects counted in the rows.
pub open spec fn rows_sum(rows: Seq<CapRow>) -> nat
    decreases rows.len(),
{
    if rows.len() == 0 {
        0
    } else {
        rows_sum(rows.drop_last()) + rows.last().count
    }
}

proof fn lemma_rows_sum_update(rows: Seq<CapRow>, p: int, r: CapRow)
    requires
        0 <= p < rows.len(),
    ensures
        rows_sum(rows.update(p, r)) + rows[p].count == rows_sum(rows) + r.count,
    decreases rows.len(),
{
    let u = rows.update(p, r);
    if p == rows.len() - 1 {
        assert(u.drop_last() =~= rows.drop_last());
    } else {
        lemma_rows_sum_update(rows.drop_last(), p, r);
        assert(u.drop_last() =~= rows.drop_last().update(p, r));
    }
}

proof fn lemma_rows_sum_insert(rows: Seq<CapRow>, p: int, r: CapRow)
    requires
        0 <= p <= rows.len(),
    ensures
        rows_sum(rows.insert(p, r)) == rows_sum(rows) + r.count,
    decreases rows.len(),
{
    let u = rows.insert(p, r);
    if p == rows.len() {
        assert(u.drop_last() =~= rows);
    } else {
        lemma_rows_sum_insert(rows.drop_last(), p, r);
        assert(u.drop_last() =~= rows.drop_last().insert(p, r));
    }
}

proof fn lemma_row_pos_bound(rows: Seq<CapRow>, ty: Seq<char>)
    ensures
        row_pos(rows, ty) <= rows.len(),
    decreases rows.len(),
{
    if rows.len() > 0 {
        lemma_row_pos_bound(rows.drop_first(), ty);
    }
}

/// The rows count every object once.
pub open spec fn adds_up(st: Tally) -> bool {
    rows_sum(st.rows) == tally_total(st)
}

proof fn lemma_bump_adds_up(st: Tally, ty: Seq<char>, status: Seq<char>)
    requires
        adds_up(st),
        status == "supported"@ || status == "degraded"@ || status == "preserved"@,
    ensures
        adds_up(tally_bump(st, ty, status)),
{
    lemma_status_names();
    lemma_row_pos_bound(st.rows, ty);
    let p = row_pos(st.rows, ty) as int;
    if p < st.rows.len() && st.rows[p].ty == ty {
        lemma_rows_sum_update(st.rows, p, CapRow { ty, status, count: st.rows[p].count + 1 });
    } else {
        lemma_rows_sum_insert(st.rows, p, CapRow { ty, status, count: 1 });
    }
}

proof fn lemma_value_adds_up(v: Json, st: Tally)
    requires
        adds_up(st),
    ensures
        adds_up(tally_value(v, st)),
    decreases v, 1nat,
{
    match v {
        Json::Array(a) => {
            assert(decreases_to!(v => a));
            assert(decreases_to!(a => a@));
            lemma_seq_adds_up(a@, st);
        },
        Json::Object(ms) => {
            assert(decreases_to!(v => ms));
            assert(decreases_to!(ms => ms@));
            let t = str_or_empty(v, "type"@);
            if t.len() > 0 && t != "doc"@ {
                lemma_statuses(v, t);
                lemma_bump_adds_up(st, t, status_of(v, t));
            }
            let st1 = if t.len() > 0 && t != "doc"@ { tally_bump(st, t, status_of(v, t)) } else { st };
            lemma_members_adds_up(ms@, st1);
        },
        _ => {},
    }
}

proof fn lemma_seq_adds_up(vs: Seq<Json>, st: Tally)
    requires
        adds_up(st),
    ensures
        adds_up(tally_seq(vs, st)),
    decreases vs, 0nat,
{
    if vs.len() > 0 {
        lemma_seq_adds_up(vs.drop_last(), st);
        lemma_value_adds_up(vs.last(), tally_seq(vs.drop_last(), st));
    }
}

proof fn lemma_members_adds_up(ms: Seq<(String, Json)>, st: Tally)
    requires
        adds_up(st),
    ensures
        adds_up(tally_members(ms, st)),
    decreases ms, 0nat,
{
    if ms.len() > 0 {
        assert(decreases_to!(ms => ms.last()));
        assert(decreases_to!(ms.last() => ms.last().1));
        lemma_members_adds_up(ms.drop_last(), st);
        lemma_value_adds_up(ms.last().1, tally_members(ms.drop_last(), st));
    }
}

/// The per-type counts of the matrix add up to its per-status counts:
/// every object is counted once under its type and once under its status.
pub proof fn law_matrix_counts_add_up(content: Json)
    ensures
        rows_sum(doc_tally(content).rows) == doc_tally(content).supported + doc_tally(content).degraded
            + doc_tally(content).preserved,
{
    assert(rows_sum(no_tally().rows) == 0);
    lemma_seq_adds_up(kids(content, "content"@), no_tally());
}

} // verus!
