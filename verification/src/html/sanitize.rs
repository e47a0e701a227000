//! Sanitising of HTML fragments: html5ever parses the fragment, active
//! content (script-like elements, event attributes, `javascript:` URLs) is
//! removed, and the rest is written back as HTML.
//!
//! The parsed tree is read node by node, each node by its path of child
//! positions; every query parses the fragment again, which gives the same
//! tree since html5ever's result depends on the text alone.

use vstd::prelude::*;
use html5ever::tendril::TendrilSink;
use html5ever::{parse_fragment, LocalName, Namespace, QualName};
use markup5ever_rcdom::{NodeData, RcDom};
use crate::text::{chars_of, esc, escape_into, has_prefix, lower_seq, lower_vec, push_str, starts_with, string_of, trim_start, trim_start_seq};

verus! {

// ------------------------------------------------------------------ the parsed fragment

/// What a DOM node is: an element (by its local name), text, a comment,
/// or any other node.
pub enum HtmlKind {
    Element(String),
    Text(String),
    Comment(String),
    Other,
}

/// What a DOM node is, as plain values.
pub enum HtmlKindView {
    Element(Seq<char>),
    Text(Seq<char>),
    Comment(Seq<char>),
    Other,
}

/// Attribute pairs as plain text.
pub open spec fn pairs_text(a: Seq<(String, String)>) -> Seq<(Seq<char>, Seq<char>)> {
    a.map_values(|p: (String, String)| (p.0@, p.1@))
}

/// A node kind as plain values.
pub open spec fn kind_view(k: HtmlKind) -> HtmlKindView {
    match k {
        HtmlKind::Element(n) => HtmlKindView::Element(n@),
        HtmlKind::Text(t) => HtmlKindView::Text(t@),
        HtmlKind::Comment(c) => HtmlKindView::Comment(c@),
        HtmlKind::Other => HtmlKindView::Other,
    }
}

/// The node that html5ever's `parse_fragment` (default options, `html` as
/// the context element) puts at `path` (child positions from the document
/// node) for a text, with the number of its children; `None` where no node
/// is there.
pub uninterp spec fn html_node_at(html: Seq<char>, path: Seq<usize>) -> Option<(HtmlKindView, nat)>;

/// The attributes (local name, value) of the node at `path` of the same
/// parse, in order; empty for a node that is not an element, `None` where
/// no node is there.
pub uninterp spec fn html_attrs_at(html: Seq<char>, path: Seq<usize>) -> Option<Seq<(Seq<char>, Seq<char>)>>;

/// The kind and child count of a node at a path.
pub open spec fn node_info_view(r: Option<(HtmlKind, usize)>) -> Option<(HtmlKindView, nat)> {
    match r {
        Some((k, n)) => Some((kind_view(k), n as nat)),
        None => None,
    }
}

/// Optional attribute pairs as plain text.
pub open spec fn opt_pairs_text(r: Option<Vec<(String, String)>>) -> Option<Seq<(Seq<char>, Seq<char>)>> {
    match r {
        Some(v) => Some(pairs_text(v@)),
        None => None,
    }
}

/// `html5ever::parse_fragment` into an `RcDom`, the node at `path` below
/// its document, converted to plain values, and its number of children.
#[verifier::external_body]
fn html_node(html: &str, path: &Vec<usize>) -> (r: Option<(HtmlKind, usize)>)
    ensures
        node_info_view(r) == html_node_at(html@, path@),
{
    let q = QualName::new(None, Namespace::from(""), LocalName::from("html"));
    let dom = parse_fragment(RcDom::default(), Default::default(), q, vec![]).one(html);
    let mut h = dom.document.clone();
    for &i in path.iter() {
        let c = h.children.borrow().get(i)?.clone();
        h = c;
    }
    let n = h.children.borrow().len();
    Some((match &h.data {
        NodeData::Element { name, .. } => HtmlKind::Element(name.local.to_string()),
        NodeData::Text { contents } => HtmlKind::Text(contents.borrow().to_string()),
        NodeData::Comment { contents } => HtmlKind::Comment(contents.to_string()),
        _ => HtmlKind::Other,
    }, n))
}

/// `html5ever::parse_fragment` into an `RcDom`, and the attributes of the
/// node at `path` below its document (local name and value each).
#[verifier::external_body]
fn html_attrs(html: &str, path: &Vec<usize>) -> (r: Option<Vec<(String, String)>>)
    ensures
        opt_pairs_text(r) == html_attrs_at(html@, path@),
{
    let q = QualName::new(None, Namespace::from(""), LocalName::from("html"));
    let dom = parse_fragment(RcDom::default(), Default::default(), q, vec![]).one(html);
    let mut h = dom.document.clone();
    for &i in path.iter() {
        let c = h.children.borrow().get(i)?.clone();
        h = c;
    }
    Some(match &h.data {
        NodeData::Element { attrs, .. } => attrs.borrow().iter().map(|a| (a.name.local.to_string(), a.value.to_string())).collect(),
        _ => Vec::new(),
    })
}

// ------------------------------------------------------------------ the tree

/// A DOM node: its kind, its attributes (for an element) and its children.
pub struct HtmlNode {
    pub kind: HtmlKind,
    pub attrs: Vec<(String, String)>,
    pub children: Vec<HtmlNode>,
}

/// A DOM node as plain values.
#[verifier::ext_equal]
pub struct HtmlNodeView {
    pub kind: HtmlKindView,
    pub attrs: Seq<(Seq<char>, Seq<char>)>,
    pub children: Seq<HtmlNodeView>,
}

/// A node as plain values.
pub open spec fn node_view(n: HtmlNode) -> HtmlNodeView
    decreases n, 1nat,
{
    HtmlNodeView { kind: kind_view(n.kind), attrs: pairs_text(n.attrs@), children: nodes_view(n.children@) }
}

/// Nodes as plain values.
pub open spec fn nodes_view(cs: Seq<HtmlNode>) -> Seq<HtmlNodeView>
    decreases cs, 0nat,
{
    if cs.len() == 0 {
        Seq::empty()
    } else {
        nodes_view(cs.drop_last()).push(node_view(cs.last()))
    }
}

/// An optional node as plain values.
pub open spec fn opt_node_view(n: Option<HtmlNode>) -> Option<HtmlNodeView> {
    match n {
        Some(x) => Some(node_view(x)),
        None => None,
    }
}

/// The subtree of the parse of `html` at `path`, down to `fuel` levels
/// below it.
pub open spec fn dom_node(html: Seq<char>, path: Seq<usize>, fuel: nat) -> Option<HtmlNodeView>
    decreases fuel, 0nat, 0nat,
{
    match html_node_at(html, path) {
        None => None,
        Some((k, n)) => Some(
            HtmlNodeView {
                kind: k,
                attrs: match html_attrs_at(html, path) {
                    Some(a) => a,
                    None => Seq::empty(),
                },
                children: if fuel == 0 { Seq::empty() } else { dom_kids(html, path, n, (fuel - 1) as nat) },
            },
        ),
    }
}

/// The subtrees of the first `n` children of the node at `path`.
pub open spec fn dom_kids(html: Seq<char>, path: Seq<usize>, n: nat, fuel: nat) -> Seq<HtmlNodeView>
    decreases fuel, 1nat, n,
{
    if n == 0 {
        Seq::empty()
    } else {
        let rest = dom_kids(html, path, (n - 1) as nat, fuel);
        match dom_node(html, path.push((n - 1) as usize), fuel) {
            Some(x) => rest.push(x),
            None => rest,
        }
    }
}

/// The nodes directly under the document of the parse of `html` (depth
/// unbounded in practice: 2^64 - 1 levels).
pub open spec fn fragment_top(html: Seq<char>) -> Seq<HtmlNodeView> {
    match dom_node(html, Seq::empty(), u64::MAX as nat) {
        Some(d) => d.children,
        None => Seq::empty(),
    }
}

fn build_node(html: &str, path: &Vec<usize>, fuel: u64) -> (r: Option<HtmlNode>)
    ensures
        opt_node_view(r) == dom_node(html@, path@, fuel as nat),
    decreases fuel,
{
    match html_node(html, path) {
        None => None,
        Some((k, n)) => {
            let attrs = match html_attrs(html, path) {
                Some(a) => a,
                None => Vec::new(),
            };
            let mut kids: Vec<HtmlNode> = Vec::new();
            if fuel > 0 {
                let mut i: usize = 0;
                while i < n
                    invariant
                        i <= n,
                        fuel > 0,
                        nodes_view(kids@) == dom_kids(html@, path@, i as nat, (fuel - 1) as nat),
                    decreases n - i,
                {
                    let mut p = path.clone();
                    p.push(i);
                    assert(p@ =~= path@.push(i));
                    let ghost k0 = kids@;
                    let ghost f = (fuel - 1) as nat;
                    assert((((i + 1) as nat) - 1) as usize == i);
                    assert(dom_kids(html@, path@, (i + 1) as nat, f) == match dom_node(html@, path@.push(i), f) {
                        Some(x) => dom_kids(html@, path@, i as nat, f).push(x),
                        None => dom_kids(html@, path@, i as nat, f),
                    });
                    match build_node(html, &p, fuel - 1) {
                        Some(c) => {
                            kids.push(c);
                            assert(kids@.drop_last() =~= k0);
                        },
                        None => {},
                    }
                    i = i + 1;
                }
            }
            let r = HtmlNode { kind: k, attrs, children: kids };
            assert(opt_node_view(Some(r)) =~= dom_node(html@, path@, fuel as nat));
            Some(r)
        },
    }
}

// ------------------------------------------------------------------ sanitising and writing

/// Elements that are removed with everything inside them.
pub open spec fn active_name(name: Seq<char>) -> bool {
    let l = lower_seq(name);
    l == "script"@ || l == "style"@ || l == "iframe"@ || l == "object"@ || l == "embed"@ || l == "link"@ || l == "meta"@
}

/// A node that is removed with its subtree: a script-like element.
pub open spec fn is_active(n: HtmlNodeView) -> bool {
    n.kind matches HtmlKindView::Element(name) && active_name(name)
}

/// An attribute that is removed: an event handler (`on…`), or an `href`
/// or `src` whose value starts (after leading whitespace, in any case)
/// with `javascript:`.
pub open spec fn bad_attr(a: (Seq<char>, Seq<char>)) -> bool {
    let an = lower_seq(a.0);
    has_prefix(an, "on"@) || ((an == "href"@ || an == "src"@) && has_prefix(
        lower_seq(trim_start_seq(a.1)),
        "javascript:"@,
    ))
}

/// The attributes that are kept, in order.
pub open spec fn kept_attrs(a: Seq<(Seq<char>, Seq<char>)>) -> Seq<(Seq<char>, Seq<char>)>
    decreases a.len(),
{
    if a.len() == 0 {
        Seq::empty()
    } else if bad_attr(a.last()) {
        kept_attrs(a.drop_last())
    } else {
        kept_attrs(a.drop_last()).push(a.last())
    }
}

/// Whether some attribute is removed.
pub open spec fn any_bad(a: Seq<(Seq<char>, Seq<char>)>) -> bool
    decreases a.len(),
{
    a.len() > 0 && (any_bad(a.drop_last()) || bad_attr(a.last()))
}

/// A node with active content taken out: active children dropped with
/// their subtrees, removed attributes of an element dropped.
pub open spec fn clean_node(n: HtmlNodeView) -> HtmlNodeView
    decreases n, 1nat,
{
    HtmlNodeView {
        kind: n.kind,
        attrs: if n.kind is Element { kept_attrs(n.attrs) } else { n.attrs },
        children: clean_kids(n.children),
    }
}

/// The children that are kept, each cleaned.
pub open spec fn clean_kids(cs: Seq<HtmlNodeView>) -> Seq<HtmlNodeView>
    decreases cs, 0nat,
{
    if cs.len() == 0 {
        Seq::empty()
    } else if is_active(cs.last()) {
        clean_kids(cs.drop_last())
    } else {
        clean_kids(cs.drop_last()).push(clean_node(cs.last()))
    }
}

/// Whether cleaning a node removes anything.
pub open spec fn removes(n: HtmlNodeView) -> bool
    decreases n, 1nat,
{
    removes_kids(n.children) || (n.kind is Element && any_bad(n.attrs))
}

/// Whether cleaning the children removes anything.
pub open spec fn removes_kids(cs: Seq<HtmlNodeView>) -> bool
    decreases cs, 0nat,
{
    cs.len() > 0 && (removes_kids(cs.drop_last()) || is_active(cs.last()) || removes(cs.last()))
}

/// ` name="value"` for each attribute, the value escaped.
pub open spec fn attrs_html(a: Seq<(Seq<char>, Seq<char>)>) -> Seq<char>
    decreases a.len(),
{
    if a.len() == 0 {
        Seq::empty()
    } else {
        attrs_html(a.drop_last()) + " "@ + a.last().0 + "=\""@ + esc(a.last().1, true) + "\""@
    }
}

/// The HTML text of a node: text escaped, a comment in `<!--…-->`, an
/// element with its attributes and children and an end tag; other nodes
/// give nothing.
pub open spec fn node_html(n: HtmlNodeView) -> Seq<char>
    decreases n, 1nat,
{
    match n.kind {
        HtmlKindView::Text(t) => esc(t, false),
        HtmlKindView::Comment(c) => "<!--"@ + c + "-->"@,
        HtmlKindView::Element(name) => "<"@ + name + attrs_html(n.attrs) + ">"@ + nodes_html(n.children) + "</"@ + name
            + ">"@,
        HtmlKindView::Other => Seq::empty(),
    }
}

/// The HTML text of nodes, in order.
pub open spec fn nodes_html(cs: Seq<HtmlNodeView>) -> Seq<char>
    decreases cs, 0nat,
{
    if cs.len() == 0 {
        Seq::empty()
    } else {
        nodes_html(cs.drop_last()) + node_html(cs.last())
    }
}

/// The cleaned HTML of the top-level nodes.
pub open spec fn clean_top(cs: Seq<HtmlNodeView>) -> Seq<char>
    decreases cs.len(),
{
    if cs.len() == 0 {
        Seq::empty()
    } else {
        clean_top(cs.drop_last()) + node_html(clean_node(cs.last()))
    }
}

/// Whether cleaning the top-level nodes removes anything.
pub open spec fn removes_top(cs: Seq<HtmlNodeView>) -> bool
    decreases cs.len(),
{
    cs.len() > 0 && (removes_top(cs.drop_last()) || removes(cs.last()))
}

/// The sanitised fragment: the clean HTML and whether anything was removed.
pub open spec fn sanitized(html: Seq<char>) -> (Seq<char>, bool) {
    (clean_top(fragment_top(html)), removes_top(fragment_top(html)))
}

fn active_element(n: &HtmlNode) -> (r: bool)
    ensures
        r == is_active(node_view(*n)),
{
    match &n.kind {
        HtmlKind::Element(name) => {
            let v = chars_of(name.as_str());
            let l = lower_vec(v.as_slice());
            let s = l.as_slice();
            crate::text::eq_str(s, "script") || crate::text::eq_str(s, "style") || crate::text::eq_str(s, "iframe")
                || crate::text::eq_str(s, "object") || crate::text::eq_str(s, "embed") || crate::text::eq_str(s, "link")
                || crate::text::eq_str(s, "meta")
        },
        _ => false,
    }
}

fn bad_attribute(key: &str, value: &str) -> (r: bool)
    ensures
        r == bad_attr((key@, value@)),
{
    let k = chars_of(key);
    let an = lower_vec(k.as_slice());
    let on = chars_of("on");
    if starts_with(an.as_slice(), on.as_slice()) {
        return true;
    }
    if crate::text::eq_str(an.as_slice(), "href") || crate::text::eq_str(an.as_slice(), "src") {
        let v = chars_of(value);
        let t = trim_start(v.as_slice());
        let l = lower_vec(t.as_slice());
        let js = chars_of("javascript:");
        starts_with(l.as_slice(), js.as_slice())
    } else {
        false
    }
}

fn write_attrs(attrs: &Vec<(String, String)>, out: &mut Vec<char>) -> (removed: bool)
    ensures
        final(out)@ == old(out)@ + attrs_html(kept_attrs(pairs_text(attrs@))),
        removed == any_bad(pairs_text(attrs@)),
{
    let ghost start = out@;
    let ghost a = pairs_text(attrs@);
    let mut removed = false;
    let mut i: usize = 0;
    while i < attrs.len()
        invariant
            i <= attrs.len(),
            a == pairs_text(attrs@),
            out@ == start + attrs_html(kept_attrs(a.take(i as int))),
            removed == any_bad(a.take(i as int)),
        decreases attrs.len() - i,
    {
        let ghost t = a.take(i + 1);
        assert(t.drop_last() =~= a.take(i as int));
        assert(t.last() == (attrs@[i as int].0@, attrs@[i as int].1@));
        let ghost kt = kept_attrs(a.take(i as int));
        let k = attrs[i].0.as_str();
        let v = attrs[i].1.as_str();
        if bad_attribute(k, v) {
            removed = true;
            assert(kept_attrs(t) == kt);
        } else {
            assert(kept_attrs(t) == kt.push(t.last()));
            assert(kept_attrs(t).drop_last() =~= kt);
            let ghost o0 = out@;
            push_str(out, " ");
            push_str(out, k);
            push_str(out, "=\"");
            let vc = chars_of(v);
            escape_into(out, vc.as_slice(), true);
            push_str(out, "\"");
            assert(out@ =~= o0 + (" "@ + k@ + "=\""@ + esc(v@, true) + "\""@));
        }
        i = i + 1;
    }
    assert(a.take(attrs.len() as int) =~= a);
    removed
}

/// Writes the cleaned HTML of a node; tells whether anything was removed.
fn write_clean(n: &HtmlNode, out: &mut Vec<char>) -> (removed: bool)
    ensures
        final(out)@ == old(out)@ + node_html(clean_node(node_view(*n))),
        removed == removes(node_view(*n)),
    decreases n,
{
    let ghost start = out@;
    let ghost v = node_view(*n);
    let is_el = match &n.kind {
        HtmlKind::Element(_) => true,
        _ => false,
    };
    let mut bad = false;
    match &n.kind {
        HtmlKind::Text(t) => {
            let tc = chars_of(t.as_str());
            escape_into(out, tc.as_slice(), false);
        },
        HtmlKind::Comment(c) => {
            push_str(out, "<!--");
            push_str(out, c.as_str());
            push_str(out, "-->");
        },
        HtmlKind::Element(name) => {
            push_str(out, "<");
            push_str(out, name.as_str());
            bad = write_attrs(&n.attrs, out);
            push_str(out, ">");
        },
        HtmlKind::Other => {},
    }
    let ghost mid = out@;
    let mut sink: Vec<char> = Vec::new();
    let mut kr = false;
    let mut i: usize = 0;
    assert(nodes_view(n.children@.take(0)) =~= Seq::<HtmlNodeView>::empty());
    while i < n.children.len()
        invariant
            i <= n.children.len(),
            is_el == (n.kind is Element),
            is_el ==> out@ == mid + nodes_html(clean_kids(nodes_view(n.children@.take(i as int)))),
            !is_el ==> out@ == mid,
            kr == removes_kids(nodes_view(n.children@.take(i as int))),
        decreases n.children.len() - i,
    {
        let ghost t = n.children@.take(i + 1);
        assert(t.drop_last() =~= n.children@.take(i as int));
        let ghost vs0 = nodes_view(n.children@.take(i as int));
        let ghost cv = node_view(n.children@[i as int]);
        assert(nodes_view(t) == vs0.push(cv));
        assert(vs0.push(cv).drop_last() =~= vs0);
        let c = &n.children[i];
        if active_element(c) {
            kr = true;
            assert(clean_kids(vs0.push(cv)) == clean_kids(vs0));
        } else {
            let ghost ck = clean_kids(vs0);
            assert(clean_kids(vs0.push(cv)) == ck.push(clean_node(cv)));
            assert(ck.push(clean_node(cv)).drop_last() =~= ck);
            if is_el {
                let r = write_clean(c, out);
                kr = kr || r;
            } else {
                let r = write_clean(c, &mut sink);
                kr = kr || r;
            }
        }
        i = i + 1;
    }
    assert(n.children@.take(n.children.len() as int) =~= n.children@);
    if let HtmlKind::Element(name) = &n.kind {
        push_str(out, "</");
        push_str(out, name.as_str());
        push_str(out, ">");
    }
    assert(out@ =~= start + node_html(clean_node(v)));
    kr || bad
}

/// Parses an HTML fragment and removes active content: script, style,
/// iframe, object, embed, link and meta elements with what is inside them,
/// event attributes (`on…`), and `href`/`src` values that start with
/// `javascript:`. Returns the cleaned HTML and whether anything was
/// removed.
pub fn sanitize_fragment(html: &str) -> (r: (String, bool))
    ensures
        (r.0@, r.1) == sanitized(html@),
{
    let top: Vec<usize> = Vec::new();
    assert(top@ =~= Seq::<usize>::empty());
    let root = build_node(html, &top, u64::MAX);
    let mut out: Vec<char> = Vec::new();
    let mut removed = false;
    match &root {
        Some(d) => {
            let ghost cs = nodes_view(d.children@);
            let mut i: usize = 0;
            while i < d.children.len()
                invariant
                    i <= d.children.len(),
                    cs == nodes_view(d.children@),
                    out@ == clean_top(nodes_view(d.children@.take(i as int))),
                    removed == removes_top(nodes_view(d.children@.take(i as int))),
                decreases d.children.len() - i,
            {
                let ghost t = d.children@.take(i + 1);
                assert(t.drop_last() =~= d.children@.take(i as int));
                let ghost vs0 = nodes_view(d.children@.take(i as int));
                let ghost cv = node_view(d.children@[i as int]);
                assert(nodes_view(t) == vs0.push(cv));
                assert(vs0.push(cv).drop_last() =~= vs0);
                let r = write_clean(&d.children[i], &mut out);
                removed = removed || r;
                i = i + 1;
            }
            assert(d.children@.take(d.children.len() as int) =~= d.children@);
        },
        None => {
            assert(fragment_top(html@) =~= Seq::<HtmlNodeView>::empty());
        },
    }
    (string_of(out.as_slice()), removed)
}

// ------------------------------------------------------------------ what cleaning leaves

/// No removable attribute on an element and no active node anywhere below.
pub open spec fn inert(n: HtmlNodeView) -> bool
    decreases n, 1nat,
{
    (!(n.kind is Element) || !any_bad(n.attrs)) && inert_kids(n.children)
}

/// Every node is inert and none is active.
pub open spec fn inert_kids(cs: Seq<HtmlNodeView>) -> bool
    decreases cs, 0nat,
{
    cs.len() == 0 || (inert_kids(cs.drop_last()) && !is_active(cs.last()) && inert(cs.last()))
}

proof fn lemma_kept_clean(a: Seq<(Seq<char>, Seq<char>)>)
    ensures
        !any_bad(kept_attrs(a)),
    decreases a.len(),
{
    if a.len() > 0 {
        lemma_kept_clean(a.drop_last());
        let k = kept_attrs(a.drop_last());
        if !bad_attr(a.last()) {
            assert(kept_attrs(a).drop_last() =~= k);
        }
    }
}

/// Cleaning leaves no active content: no script-like element anywhere in
/// the kept tree and no event attribute or `javascript:` URL on any kept
/// element (the sanitised fragment is the HTML text of such trees).
pub proof fn law_clean_is_inert(n: HtmlNodeView)
    ensures
        inert(clean_node(n)),
    decreases n, 1nat,
{
    if n.kind is Element {
        lemma_kept_clean(n.attrs);
    }
    law_clean_kids_are_inert(n.children);
}

/// Cleaned children are inert and none is active.
pub proof fn law_clean_kids_are_inert(cs: Seq<HtmlNodeView>)
    ensures
        inert_kids(clean_kids(cs)),
    decreases cs, 0nat,
{
    if cs.len() > 0 {
        law_clean_kids_are_inert(cs.drop_last());
        if !is_active(cs.last()) {
            law_clean_is_inert(cs.last());
            let k = clean_kids(cs.drop_last());
            assert(clean_kids(cs).drop_last() =~= k);
        }
    }
}

} // verus!
