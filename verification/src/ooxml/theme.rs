//! The presentation theme of an imported DOCX: the document defaults (base
//! font, base size, page size and margins) and one entry per style the body
//! uses, with its CSS-like formatting.

use vstd::prelude::*;
use crate::json::{jv, jv_items, jv_members, jstr, push_item, push_member, Json, JsonV};
use crate::ooxml::styles::{
    effective_of, half_points_text, half_points_to_pt, style_of, twips_text, twips_to_pt, Effective, PageProps,
    StyleInfo, Styles, EXACT_LIMIT,
};
use crate::ooxml::xml::{int_opt, string_opt};
use crate::text::{push_all, push_str, seq_eq, str_eq, string_of};

verus! {

/// A string value.
pub open spec fn s_v(s: Seq<char>) -> JsonV {
    JsonV::Str(s)
}

/// The page margin: one length when all four agree, else top, right,
/// bottom and left.
pub open spec fn margin_text(p: PageProps) -> Seq<char> {
    let t = twips_text(p.margin_top as int);
    let r = twips_text(p.margin_right as int);
    let b = twips_text(p.margin_bottom as int);
    let l = twips_text(p.margin_left as int);
    if t == r && r == b && b == l {
        t
    } else {
        t + " "@ + r + " "@ + b + " "@ + l
    }
}

/// The page entry: size (`W × H`) and margin.
pub open spec fn page_v(p: PageProps) -> JsonV {
    JsonV::Object(seq![
        ("size"@, s_v(twips_text(p.width as int) + " × "@ + twips_text(p.height as int))),
        ("margin"@, s_v(margin_text(p))),
    ])
}

/// The defaults: base font, base size and page, each when known.
pub open spec fn defaults_members(styles: Styles, page: Option<PageProps>) -> Seq<(Seq<char>, JsonV)> {
    (match styles.defaults.font {
        Some(f) => seq![("base_font"@, s_v(f@))],
        None => Seq::empty(),
    }) + (match styles.defaults.size_half_points {
        Some(sz) => seq![("base_size"@, s_v(half_points_text(sz as int)))],
        None => Seq::empty(),
    }) + (match page {
        Some(p) => seq![("page"@, page_v(p))],
        None => Seq::empty(),
    })
}

/// The text decoration of a style: underline, line-through, or both.
pub open spec fn decoration(e: Effective) -> Seq<char> {
    if e.flags.underline && e.flags.strike {
        "underline line-through"@
    } else if e.flags.underline {
        "underline"@
    } else {
        "line-through"@
    }
}

/// The CSS-like formatting of a style's effective properties.
pub open spec fn css_members(e: Effective) -> Seq<(Seq<char>, JsonV)> {
    (if e.flags.underline || e.flags.strike { seq![("text-decoration"@, s_v(decoration(e)))] } else { Seq::empty() })
        + (if e.flags.bold { seq![("font-weight"@, s_v("bold"@))] } else { Seq::empty() })
        + (if e.flags.italic { seq![("font-style"@, s_v("italic"@))] } else { Seq::empty() })
        + (match e.font {
        Some(f) => seq![("font-family"@, s_v(f))],
        None => Seq::empty(),
    }) + (match e.size {
        Some(sz) => seq![("font-size"@, s_v(half_points_text(sz)))],
        None => Seq::empty(),
    })
}

/// What a style applies to: text for character styles, else paragraphs.
pub open spec fn applies_to(info: StyleInfo) -> Seq<char> {
    if info.kind@ == "character"@ {
        "text"@
    } else {
        "paragraph"@
    }
}

/// The theme entry of a style.
pub open spec fn style_entry(info: StyleInfo, e: Effective) -> JsonV {
    let css = css_members(e);
    JsonV::Object(
        seq![
            ("name"@, s_v(info.slug@)),
            ("title"@, s_v(info.name@)),
            ("applies_to"@, JsonV::Array(seq![s_v(applies_to(info))])),
        ] + if css.len() > 0 { seq![("css_like"@, JsonV::Object(css))] } else { Seq::empty() },
    )
}

/// The entries of the used styles that the sheet has, in order of use.
pub open spec fn style_entries(ss: Seq<StyleInfo>, used: Seq<Seq<char>>) -> Seq<JsonV>
    decreases used.len(),
{
    if used.len() == 0 {
        Seq::empty()
    } else {
        let prev = style_entries(ss, used.drop_last());
        match style_of(ss, used.last()) {
            Some(info) => prev.push(style_entry(info, effective_of(ss, used.last()))),
            None => prev,
        }
    }
}

/// The theme: schema version, then the defaults and the styles when there
/// are any.
pub open spec fn theme_v(styles: Styles, used: Seq<Seq<char>>, page: Option<PageProps>) -> JsonV {
    let d = defaults_members(styles, page);
    let es = style_entries(styles.by_id@, used);
    JsonV::Object(
        seq![("schema_version"@, s_v("1.0"@))] + (if d.len() > 0 { seq![("defaults"@, JsonV::Object(d))] } else {
            Seq::empty()
        }) + (if es.len() > 0 { seq![("styles"@, JsonV::Array(es))] } else { Seq::empty() }),
    )
}

/// A length the point formatting handles exactly.
pub open spec fn exact(n: int) -> bool {
    -EXACT_LIMIT < n < EXACT_LIMIT
}

/// Every size and length the theme formats is in the exact range.
pub open spec fn theme_exact(styles: Styles, used: Seq<Seq<char>>, page: Option<PageProps>) -> bool {
    &&& (match styles.defaults.size_half_points {
        Some(sz) => exact(sz as int),
        None => true,
    })
    &&& (match page {
        Some(p) => exact(p.width as int) && exact(p.height as int) && exact(p.margin_top as int) && exact(
            p.margin_right as int,
        ) && exact(p.margin_bottom as int) && exact(p.margin_left as int),
        None => true,
    })
    &&& forall|k: int|
        0 <= k < used.len() ==> match (#[trigger] effective_of(styles.by_id@, used[k])).size {
            Some(sz) => exact(sz),
            None => true,
        }
}

/// An optional page as a plain value.
pub open spec fn page_of(page: Option<&PageProps>) -> Option<PageProps> {
    match page {
        Some(p) => Some(*p),
        None => None,
    }
}

/// The style ids as plain values.
pub open spec fn ids_view(ids: Seq<String>) -> Seq<Seq<char>> {
    ids.map_values(|s: String| s@)
}

fn str_member_j(ms: &mut Vec<(String, Json)>, key: &str, v: &str)
    ensures
        jv_members(final(ms)@) == jv_members(old(ms)@).push((key@, s_v(v@))),
{
    push_member(ms, key, jstr(v));
}

fn margin_string(p: &PageProps) -> (r: String)
    requires
        exact(p.margin_top as int),
        exact(p.margin_right as int),
        exact(p.margin_bottom as int),
        exact(p.margin_left as int),
    ensures
        r@ == margin_text(*p),
{
    let t = twips_to_pt(p.margin_top);
    let r = twips_to_pt(p.margin_right);
    let b = twips_to_pt(p.margin_bottom);
    let l = twips_to_pt(p.margin_left);
    if str_eq(t.as_str(), r.as_str()) && str_eq(r.as_str(), b.as_str()) && str_eq(b.as_str(), l.as_str()) {
        t
    } else {
        let mut v: Vec<char> = Vec::new();
        push_str(&mut v, t.as_str());
        push_str(&mut v, " ");
        push_str(&mut v, r.as_str());
        push_str(&mut v, " ");
        push_str(&mut v, b.as_str());
        push_str(&mut v, " ");
        push_str(&mut v, l.as_str());
        assert(v@ =~= margin_text(*p));
        string_of(v.as_slice())
    }
}

fn page_json(p: &PageProps) -> (r: Json)
    requires
        exact(p.width as int),
        exact(p.height as int),
        exact(p.margin_top as int),
        exact(p.margin_right as int),
        exact(p.margin_bottom as int),
        exact(p.margin_left as int),
    ensures
        jv(r) == page_v(*p),
{
    let mut size: Vec<char> = Vec::new();
    push_str(&mut size, twips_to_pt(p.width).as_str());
    push_str(&mut size, " × ");
    push_str(&mut size, twips_to_pt(p.height).as_str());
    let size_s = string_of(size.as_slice());
    let margin = margin_string(p);
    let mut m: Vec<(String, Json)> = Vec::new();
    assert(jv_members(m@) =~= Seq::empty());
    str_member_j(&mut m, "size", size_s.as_str());
    str_member_j(&mut m, "margin", margin.as_str());
    assert(jv_members(m@) =~= seq![
        ("size"@, s_v(twips_text(p.width as int) + " × "@ + twips_text(p.height as int))),
        ("margin"@, s_v(margin_text(*p))),
    ]);
    Json::Object(m)
}

fn style_json(info: &StyleInfo, styles: &Styles, id: &str) -> (r: Json)
    requires
        style_of(styles.by_id@, id@) == Some(*info),
        match effective_of(styles.by_id@, id@).size {
            Some(sz) => exact(sz),
            None => true,
        },
    ensures
        jv(r) == style_entry(*info, effective_of(styles.by_id@, id@)),
{
    let ghost e = effective_of(styles.by_id@, id@);
    let (flags, font, size) = styles.resolve_effective(id);
    let mut css: Vec<(String, Json)> = Vec::new();
    assert(jv_members(css@) =~= Seq::empty());
    let ghost c0 = jv_members(css@);
    if flags.underline || flags.strike {
        let deco = if flags.underline && flags.strike {
            "underline line-through"
        } else if flags.underline {
            "underline"
        } else {
            "line-through"
        };
        str_member_j(&mut css, "text-decoration", deco);
    }
    let ghost c1 = jv_members(css@);
    if flags.bold {
        str_member_j(&mut css, "font-weight", "bold");
    }
    let ghost c2 = jv_members(css@);
    if flags.italic {
        str_member_j(&mut css, "font-style", "italic");
    }
    let ghost c3 = jv_members(css@);
    if let Some(f) = &font {
        str_member_j(&mut css, "font-family", f.as_str());
    }
    let ghost c4 = jv_members(css@);
    if let Some(sz) = size {
        let t = half_points_to_pt(sz);
        str_member_j(&mut css, "font-size", t.as_str());
    }
    assert(jv_members(css@) =~= css_members(e));
    proof { crate::json::lemma_jv_members_len(css@); }
    let applies = if str_eq(info.kind.as_str(), "character") { "text" } else { "paragraph" };
    let mut m: Vec<(String, Json)> = Vec::new();
    assert(jv_members(m@) =~= Seq::empty());
    str_member_j(&mut m, "name", info.slug.as_str());
    str_member_j(&mut m, "title", info.name.as_str());
    let mut ap: Vec<Json> = Vec::new();
    assert(jv_items(ap@) =~= Seq::<JsonV>::empty());
    push_item(&mut ap, jstr(applies));
    assert(jv_items(ap@) =~= seq![s_v(applies_to(*info))]);
    push_member(&mut m, "applies_to", Json::Array(ap));
    let ghost m3 = jv_members(m@);
    let has_css = css.len() > 0;
    if has_css {
        push_member(&mut m, "css_like", Json::Object(css));
    }
    assert(jv_members(m@) =~= seq![
        ("name"@, s_v(info.slug@)),
        ("title"@, s_v(info.name@)),
        ("applies_to"@, JsonV::Array(seq![s_v(applies_to(*info))])),
    ] + if css_members(e).len() > 0 { seq![("css_like"@, JsonV::Object(css_members(e)))] } else { Seq::empty() });
    Json::Object(m)
}

/// Builds the presentation theme of an imported DOCX from its style sheet,
/// the ids of the styles its body uses (in order of first use) and its page
/// setup, when known.
pub fn build_theme(styles: &Styles, used_style_ids: &[String], page: Option<&PageProps>) -> (r: Json)
    requires
        theme_exact(*styles, ids_view(used_style_ids@), page_of(page)),
    ensures
        jv(r) == theme_v(*styles, ids_view(used_style_ids@), page_of(page)),
{
    let ghost used = ids_view(used_style_ids@);
    let mut defaults: Vec<(String, Json)> = Vec::new();
    assert(jv_members(defaults@) =~= Seq::empty());
    if let Some(f) = &styles.defaults.font {
        str_member_j(&mut defaults, "base_font", f.as_str());
    }
    if let Some(sz) = styles.defaults.size_half_points {
        let t = half_points_to_pt(sz);
        str_member_j(&mut defaults, "base_size", t.as_str());
    }
    if let Some(p) = page {
        push_member(&mut defaults, "page", page_json(p));
    }
    assert(jv_members(defaults@) =~= defaults_members(*styles, page_of(page)));
    proof { crate::json::lemma_jv_members_len(defaults@); }
    let mut entries: Vec<Json> = Vec::new();
    assert(jv_items(entries@) =~= Seq::<JsonV>::empty());
    let mut i: usize = 0;
    while i < used_style_ids.len()
        invariant
            i <= used_style_ids.len(),
            used == ids_view(used_style_ids@),
            theme_exact(*styles, used, page_of(page)),
            jv_items(entries@) == style_entries(styles.by_id@, used.take(i as int)),
        decreases used_style_ids.len() - i,
    {
        let id = used_style_ids[i].as_str();
        assert(used[i as int] == id@);
        assert(used.take(i + 1).drop_last() =~= used.take(i as int));
        assert(used.take(i + 1).last() == id@);
        if let Some(info) = styles.get(id) {
            let ghost k = i as int;
            assert(match (effective_of(styles.by_id@, used[k])).size {
                Some(sz) => exact(sz),
                None => true,
            });
            push_item(&mut entries, style_json(info, styles, id));
        }
        i = i + 1;
    }
    assert(used.take(used_style_ids.len() as int) =~= used);
    proof { crate::json::lemma_jv_items_len(entries@); }
    let mut theme: Vec<(String, Json)> = Vec::new();
    assert(jv_members(theme@) =~= Seq::empty());
    str_member_j(&mut theme, "schema_version", "1.0");
    let ghost t1 = jv_members(theme@);
    let ghost d = jv_members(defaults@);
    let has_defaults = defaults.len() > 0;
    if has_defaults {
        push_member(&mut theme, "defaults", Json::Object(defaults));
    }
    let ghost t2 = jv_members(theme@);
    let has_entries = entries.len() > 0;
    let ghost es = jv_items(entries@);
    if has_entries {
        push_member(&mut theme, "styles", Json::Array(entries));
    }
    assert(jv_members(theme@) =~= seq![("schema_version"@, s_v("1.0"@))] + (if d.len() > 0 {
        seq![("defaults"@, JsonV::Object(d))]
    } else {
        Seq::empty()
    }) + (if es.len() > 0 { seq![("styles"@, JsonV::Array(es))] } else { Seq::empty() }));
    Json::Object(theme)
}

} // verus!
