//! A light XML element tree. Names are not namespace-resolved: an element is
//! matched by its qualified name split as `prefix:local` (the prefix is empty
//! for unprefixed names).

use vstd::prelude::*;
use crate::ooxml::error::OoxmlError;
use quick_xml::events::Event::{CData, Empty, End, Eof, GeneralRef, Start, Text};
use quick_xml::events::attributes::Attributes;
use quick_xml::{Reader, XmlVersion};
use crate::text::{chars_of, eq_str, parse_u32_radix, parse_u32_radix_exec, starts_with, has_prefix, esc, escape_into, first_index, first_of, last_index, last_of, push_all, push_str, seq_eq, slice_vec, string_of, str_eq};

verus! {

/// One XML element: qualified name, attributes in order of appearance
/// (qualified name, unescaped value), child elements and its own direct text.
#[derive(Debug, Default)]
pub struct El {
    pub prefix: String,
    pub local: String,
    pub attrs: Vec<(String, String)>,
    pub children: Vec<El>,
    pub text: String,
}

/// `el` has exactly this prefix and local name.
pub open spec fn el_is(el: El, prefix: Seq<char>, local: Seq<char>) -> bool {
    el.prefix@ == prefix && el.local@ == local
}

/// The value of the first attribute in `attrs` whose name satisfies `key_ok`.
pub open spec fn first_attr(attrs: Seq<(String, String)>, q: Seq<char>) -> Option<Seq<char>>
    decreases attrs.len(),
{
    if attrs.len() == 0 {
        None
    } else if attrs[0].0@ == q {
        Some(attrs[0].1@)
    } else {
        first_attr(attrs.drop_first(), q)
    }
}

/// The part of an attribute name after its last `:` (the whole name if none).
pub open spec fn local_part(k: Seq<char>) -> Seq<char> {
    let i = last_index(k, ':');
    if i < 0 {
        k
    } else {
        k.skip(i + 1)
    }
}

/// The value of the first attribute whose local part is `l`.
pub open spec fn first_attr_local(attrs: Seq<(String, String)>, l: Seq<char>) -> Option<Seq<char>>
    decreases attrs.len(),
{
    if attrs.len() == 0 {
        None
    } else if local_part(attrs[0].0@) == l {
        Some(attrs[0].1@)
    } else {
        first_attr_local(attrs.drop_first(), l)
    }
}

/// Index of the first child with this prefix and local name, or -1.
pub open spec fn first_child(cs: Seq<El>, prefix: Seq<char>, local: Seq<char>) -> int
    decreases cs.len(),
{
    if cs.len() == 0 {
        -1
    } else if el_is(cs[0], prefix, local) {
        0
    } else {
        let r = first_child(cs.drop_first(), prefix, local);
        if r < 0 {
            -1
        } else {
            r + 1
        }
    }
}

/// Index of the first child with this local name (any prefix), or -1.
pub open spec fn first_child_local(cs: Seq<El>, local: Seq<char>) -> int
    decreases cs.len(),
{
    if cs.len() == 0 {
        -1
    } else if cs[0].local@ == local {
        0
    } else {
        let r = first_child_local(cs.drop_first(), local);
        if r < 0 {
            -1
        } else {
            r + 1
        }
    }
}

proof fn lemma_first_child(cs: Seq<El>, prefix: Seq<char>, local: Seq<char>)
    ensures
        -1 <= first_child(cs, prefix, local) < cs.len(),
        first_child(cs, prefix, local) >= 0 ==> el_is(cs[first_child(cs, prefix, local)], prefix, local),
        forall|j: int| 0 <= j < first_child(cs, prefix, local) ==> !el_is(#[trigger] cs[j], prefix, local),
        first_child(cs, prefix, local) < 0 ==> forall|j: int| 0 <= j < cs.len() ==> !el_is(#[trigger] cs[j], prefix, local),
    decreases cs.len(),
{
    if cs.len() > 0 && !el_is(cs[0], prefix, local) {
        lemma_first_child(cs.drop_first(), prefix, local);
        assert forall|j: int| 0 < j < cs.len() implies #[trigger] cs[j] == cs.drop_first()[j - 1] by {}
    }
}

proof fn lemma_first_child_local(cs: Seq<El>, local: Seq<char>)
    ensures
        -1 <= first_child_local(cs, local) < cs.len(),
        first_child_local(cs, local) >= 0 ==> cs[first_child_local(cs, local)].local@ == local,
        forall|j: int| 0 <= j < first_child_local(cs, local) ==> (#[trigger] cs[j]).local@ != local,
        first_child_local(cs, local) < 0 ==> forall|j: int| 0 <= j < cs.len() ==> (#[trigger] cs[j]).local@ != local,
    decreases cs.len(),
{
    if cs.len() > 0 && cs[0].local@ != local {
        lemma_first_child_local(cs.drop_first(), local);
        assert forall|j: int| 0 < j < cs.len() implies #[trigger] cs[j] == cs.drop_first()[j - 1] by {}
    }
}

/// The first child with this prefix and local name.
pub open spec fn child_of(el: El, prefix: Seq<char>, local: Seq<char>) -> Option<El> {
    let i = first_child(el.children@, prefix, local);
    if i < 0 {
        None
    } else {
        Some(el.children@[i])
    }
}

/// `child_of` through an optional element.
pub open spec fn child_opt(e: Option<El>, prefix: Seq<char>, local: Seq<char>) -> Option<El> {
    match e {
        None => None,
        Some(x) => child_of(x, prefix, local),
    }
}

/// The value of an attribute of an optional element.
pub open spec fn attr_opt(e: Option<El>, qname: Seq<char>) -> Option<Seq<char>> {
    match e {
        None => None,
        Some(x) => first_attr(x.attrs@, qname),
    }
}

/// All text of an element: its own text, then that of each child in order.
pub open spec fn all_text_of(el: El) -> Seq<char>
    decreases el, 0nat,
{
    el.text@ + all_text_seq(el.children@)
}

/// The all-text of each element of `cs`, concatenated.
pub open spec fn all_text_seq(cs: Seq<El>) -> Seq<char>
    decreases cs, 1nat,
{
    if cs.len() == 0 {
        Seq::empty()
    } else {
        all_text_seq(cs.drop_last()) + all_text_of(cs.last())
    }
}

/// Descendants (children, grandchildren, ...) in document order that match.
pub open spec fn descendants_of(el: El, prefix: Seq<char>, local: Seq<char>) -> Seq<El>
    decreases el, 0nat,
{
    descendants_seq(el.children@, prefix, local)
}

/// Matching elements of `cs` and their matching descendants, in document order.
pub open spec fn descendants_seq(cs: Seq<El>, prefix: Seq<char>, local: Seq<char>) -> Seq<El>
    decreases cs, 1nat,
{
    if cs.len() == 0 {
        Seq::empty()
    } else {
        descendants_seq(cs.drop_last(), prefix, local)
            + (if el_is(cs.last(), prefix, local) { seq![cs.last()] } else { Seq::empty() })
            + descendants_of(cs.last(), prefix, local)
    }
}

impl El {
    /// This element has this prefix and local name.
    pub fn is(&self, prefix: &str, local: &str) -> (r: bool)
        ensures
            r == el_is(*self, prefix@, local@),
    {
        str_eq(self.prefix.as_str(), prefix) && str_eq(self.local.as_str(), local)
    }

    /// The value of the first attribute with qualified name `qname`.
    pub fn attr(&self, qname: &str) -> (r: Option<&str>)
        ensures
            match r {
                Some(v) => first_attr(self.attrs@, qname@) == Some(v@),
                None => first_attr(self.attrs@, qname@) is None,
            },
    {
        let mut i: usize = 0;
        assert(self.attrs@.skip(0) =~= self.attrs@);
        while i < self.attrs.len()
            invariant
                i <= self.attrs.len(),
                first_attr(self.attrs@, qname@) == first_attr(self.attrs@.skip(i as int), qname@),
            decreases self.attrs.len() - i,
        {
            assert(self.attrs@.skip(i as int).drop_first() =~= self.attrs@.skip(i + 1));
            if str_eq(self.attrs[i].0.as_str(), qname) {
                return Some(self.attrs[i].1.as_str());
            }
            i = i + 1;
        }
        None
    }

    /// The value of the first attribute whose name, after any `prefix:`, is `local`.
    pub fn attr_local(&self, local: &str) -> (r: Option<&str>)
        ensures
            match r {
                Some(v) => first_attr_local(self.attrs@, local@) == Some(v@),
                None => first_attr_local(self.attrs@, local@) is None,
            },
    {
        let want = chars_of(local);
        let mut i: usize = 0;
        assert(self.attrs@.skip(0) =~= self.attrs@);
        while i < self.attrs.len()
            invariant
                i <= self.attrs.len(),
                want@ == local@,
                first_attr_local(self.attrs@, local@) == first_attr_local(self.attrs@.skip(i as int), local@),
            decreases self.attrs.len() - i,
        {
            assert(self.attrs@.skip(i as int).drop_first() =~= self.attrs@.skip(i + 1));
            let k = chars_of(self.attrs[i].0.as_str());
            let part = local_part_of(k.as_slice());
            if seq_eq(part.as_slice(), want.as_slice()) {
                return Some(self.attrs[i].1.as_str());
            }
            i = i + 1;
        }
        None
    }

    /// The first child with this prefix and local name.
    pub fn child(&self, prefix: &str, local: &str) -> (r: Option<&El>)
        ensures
            match r {
                Some(c) => first_child(self.children@, prefix@, local@) >= 0
                    && *c == self.children@[first_child(self.children@, prefix@, local@)],
                None => first_child(self.children@, prefix@, local@) == -1,
            },
    {
        proof { lemma_first_child(self.children@, prefix@, local@); }
        let mut i: usize = 0;
        while i < self.children.len()
            invariant
                i <= self.children.len(),
                -1 <= first_child(self.children@, prefix@, local@) < self.children@.len(),
                forall|j: int| 0 <= j < first_child(self.children@, prefix@, local@) ==> !el_is(#[trigger] self.children@[j], prefix@, local@),
                first_child(self.children@, prefix@, local@) >= 0 ==> el_is(self.children@[first_child(self.children@, prefix@, local@)], prefix@, local@),
                first_child(self.children@, prefix@, local@) < 0 ==> forall|j: int| 0 <= j < self.children@.len() ==> !el_is(#[trigger] self.children@[j], prefix@, local@),
                forall|j: int| 0 <= j < i ==> !el_is(#[trigger] self.children@[j], prefix@, local@),
            decreases self.children.len() - i,
        {
            if self.children[i].is(prefix, local) {
                return Some(&self.children[i]);
            }
            i = i + 1;
        }
        None
    }

    /// The first child with this local name, whatever its prefix.
    pub fn child_local(&self, local: &str) -> (r: Option<&El>)
        ensures
            match r {
                Some(c) => first_child_local(self.children@, local@) >= 0
                    && *c == self.children@[first_child_local(self.children@, local@)],
                None => first_child_local(self.children@, local@) == -1,
            },
    {
        proof { lemma_first_child_local(self.children@, local@); }
        let mut i: usize = 0;
        while i < self.children.len()
            invariant
                i <= self.children.len(),
                -1 <= first_child_local(self.children@, local@) < self.children@.len(),
                forall|j: int| 0 <= j < first_child_local(self.children@, local@) ==> (#[trigger] self.children@[j]).local@ != local@,
                first_child_local(self.children@, local@) >= 0 ==> self.children@[first_child_local(self.children@, local@)].local@ == local@,
                first_child_local(self.children@, local@) < 0 ==> forall|j: int| 0 <= j < self.children@.len() ==> (#[trigger] self.children@[j]).local@ != local@,
                forall|j: int| 0 <= j < i ==> (#[trigger] self.children@[j]).local@ != local@,
            decreases self.children.len() - i,
        {
            if str_eq(self.children[i].local.as_str(), local) {
                return Some(&self.children[i]);
            }
            i = i + 1;
        }
        None
    }

    /// Some child has this prefix and local name.
    pub fn has_child(&self, prefix: &str, local: &str) -> (r: bool)
        ensures
            r == (first_child(self.children@, prefix@, local@) >= 0),
    {
        self.child(prefix, local).is_some()
    }
}

/// The part of a qualified name after its last `:`.
fn local_part_of(k: &[char]) -> (r: Vec<char>)
    ensures
        r@ == local_part(k@),
{
    proof { crate::text::lemma_last_index(k@, ':'); }
    match last_of(k, ':') {
        None => slice_vec(k, 0, k.len()),
        Some(i) => {
            assert(i < k@.len());
            assert(i < k.len());
            slice_vec(k, i + 1, k.len())
        },
    }
}


/// The qualified name `prefix:local` (just `local` when the prefix is empty).
pub open spec fn qname_of(el: El) -> Seq<char> {
    if el.prefix@.len() == 0 {
        el.local@
    } else {
        el.prefix@ + seq![':'] + el.local@
    }
}

/// ` k="v"` for each attribute, values escaped.
pub open spec fn attrs_xml(attrs: Seq<(String, String)>) -> Seq<char>
    decreases attrs.len(),
{
    if attrs.len() == 0 {
        Seq::empty()
    } else {
        attrs_xml(attrs.drop_last()) + seq![' '] + attrs.last().0@ + seq!['=', '"']
            + esc(attrs.last().1@, true) + seq!['"']
    }
}

/// The XML text of an element: empty-element form when it has neither
/// children nor text, otherwise start tag, escaped text, children, end tag.
pub open spec fn xml_of(el: El) -> Seq<char>
    decreases el, 0nat,
{
    seq!['<'] + qname_of(el) + attrs_xml(el.attrs@) + if el.children@.len() == 0 && el.text@.len() == 0 {
        seq!['/', '>']
    } else {
        seq!['>'] + esc(el.text@, false) + xml_seq(el.children@) + seq!['<', '/'] + qname_of(el) + seq!['>']
    }
}

/// The XML text of a sequence of elements.
pub open spec fn xml_seq(cs: Seq<El>) -> Seq<char>
    decreases cs, 1nat,
{
    if cs.len() == 0 {
        Seq::empty()
    } else {
        xml_seq(cs.drop_last()) + xml_of(cs.last())
    }
}

/// Element references, dereferenced.
pub open spec fn derefs(v: Seq<&El>) -> Seq<El> {
    v.map_values(|e: &El| *e)
}

impl El {
    /// Appends the matching descendants, in document order, to `out`.
    pub fn descendants<'a>(&'a self, prefix: &str, local: &str, out: &mut Vec<&'a El>)
        ensures
            derefs(final(out)@) == derefs(old(out)@) + descendants_of(*self, prefix@, local@),
        decreases self,
    {
        let ghost start = derefs(out@);
        let mut i: usize = 0;
        while i < self.children.len()
            invariant
                i <= self.children.len(),
                derefs(out@) == start + descendants_seq(self.children@.take(i as int), prefix@, local@),
            decreases self.children.len() - i,
        {
            let c = &self.children[i];
            let ghost before = derefs(out@);
            let hit = c.is(prefix, local);
            if hit {
                out.push(c);
                assert(derefs(out@) =~= before + seq![*c]);
            } else {
                assert(derefs(out@) =~= before);
            }
            let ghost mid = derefs(out@);
            assert(mid == before + (if el_is(*c, prefix@, local@) { seq![*c] } else { Seq::<El>::empty() }));
            c.descendants(prefix, local, out);
            assert(derefs(out@) == mid + descendants_of(*c, prefix@, local@));
            proof {
                let t = self.children@.take(i + 1);
                assert(t.drop_last() =~= self.children@.take(i as int));
                assert(t.last() == self.children@[i as int]);
            }
            i = i + 1;
            assert(derefs(out@) =~= start + descendants_seq(self.children@.take(i as int), prefix@, local@));
        }
        assert(self.children@.take(self.children.len() as int) =~= self.children@);
    }

    /// The first matching descendant in document order.
    pub fn find_descendant(&self, prefix: &str, local: &str) -> (r: Option<&El>)
        ensures
            match r {
                Some(e) => descendants_of(*self, prefix@, local@).len() > 0
                    && *e == descendants_of(*self, prefix@, local@)[0],
                None => descendants_of(*self, prefix@, local@).len() == 0,
            },
    {
        let mut out: Vec<&El> = Vec::new();
        self.descendants(prefix, local, &mut out);
        assert(derefs(out@) =~= descendants_of(*self, prefix@, local@));
        if out.len() > 0 {
            assert(derefs(out@)[0] == *out@[0]);
            Some(out[0])
        } else {
            None
        }
    }

    /// Appends the element's text and all descendant text, in document order.
    pub fn all_text_into(&self, out: &mut Vec<char>)
        ensures
            final(out)@ == old(out)@ + all_text_of(*self),
        decreases self,
    {
        let ghost start = out@;
        let t = chars_of(self.text.as_str());
        push_all(out, t.as_slice());
        let mut i: usize = 0;
        while i < self.children.len()
            invariant
                i <= self.children.len(),
                out@ == start + self.text@ + all_text_seq(self.children@.take(i as int)),
            decreases self.children.len() - i,
        {
            self.children[i].all_text_into(out);
            proof {
                let t = self.children@.take(i + 1);
                assert(t.drop_last() =~= self.children@.take(i as int));
            }
            i = i + 1;
            assert(out@ =~= start + self.text@ + all_text_seq(self.children@.take(i as int)));
        }
        assert(self.children@.take(self.children.len() as int) =~= self.children@);
        assert(out@ =~= start + all_text_of(*self));
    }

    /// All text of the element and its descendants.
    pub fn all_text(&self) -> (r: String)
        ensures
            r@ == all_text_of(*self),
    {
        let mut out: Vec<char> = Vec::new();
        self.all_text_into(&mut out);
        assert(out@ =~= all_text_of(*self));
        string_of(out.as_slice())
    }
}

fn qname_chars(el: &El) -> (r: Vec<char>)
    ensures
        r@ == qname_of(*el),
{
    let mut q: Vec<char> = Vec::new();
    if el.prefix.as_str().is_empty() {
        push_str(&mut q, el.local.as_str());
    } else {
        push_str(&mut q, el.prefix.as_str());
        q.push(':');
        push_str(&mut q, el.local.as_str());
    }
    assert(q@ =~= qname_of(*el));
    q
}

/// Appends ` k="v"` for each attribute, values escaped.
fn write_attrs(attrs: &Vec<(String, String)>, out: &mut Vec<char>)
    ensures
        final(out)@ == old(out)@ + attrs_xml(attrs@),
{
    let ghost start = out@;
    let mut i: usize = 0;
    while i < attrs.len()
        invariant
            i <= attrs.len(),
            out@ == start + attrs_xml(attrs@.take(i as int)),
        decreases attrs.len() - i,
    {
        let ghost before = out@;
        out.push(' ');
        push_str(out, attrs[i].0.as_str());
        out.push('=');
        out.push('"');
        let v = chars_of(attrs[i].1.as_str());
        escape_into(out, v.as_slice(), true);
        out.push('"');
        proof {
            let t = attrs@.take(i + 1);
            assert(t.drop_last() =~= attrs@.take(i as int));
            assert(out@ =~= before + (seq![' '] + attrs@[i as int].0@ + seq!['=', '"'] + esc(attrs@[i as int].1@, true)
                + seq!['"']));
        }
        i = i + 1;
    }
    assert(attrs@.take(attrs.len() as int) =~= attrs@);
}

/// The two forms of an element's XML text.
proof fn lemma_xml_of_parts(el: El)
    ensures
        el.children@.len() == 0 && el.text@.len() == 0 ==> xml_of(el) == seq!['<'] + qname_of(el) + attrs_xml(
            el.attrs@,
        ) + seq!['/', '>'],
        !(el.children@.len() == 0 && el.text@.len() == 0) ==> xml_of(el) == seq!['<'] + qname_of(el) + attrs_xml(
            el.attrs@,
        ) + seq!['>'] + esc(el.text@, false) + xml_seq(el.children@) + seq!['<', '/'] + qname_of(el) + seq!['>'],
{
    let h = seq!['<'] + qname_of(el) + attrs_xml(el.attrs@);
    if !(el.children@.len() == 0 && el.text@.len() == 0) {
        assert(h + (seq!['>'] + esc(el.text@, false) + xml_seq(el.children@) + seq!['<', '/'] + qname_of(el)
            + seq!['>']) =~= h + seq!['>'] + esc(el.text@, false) + xml_seq(el.children@) + seq!['<', '/']
            + qname_of(el) + seq!['>']);
    }
}

/// Appends the XML text of `el` to `out`.
pub fn write_el(el: &El, out: &mut Vec<char>)
    ensures
        final(out)@ == old(out)@ + xml_of(*el),
    decreases el,
{
    let ghost start = out@;
    proof { lemma_xml_of_parts(*el); }
    let q = qname_chars(el);
    out.push('<');
    push_all(out, q.as_slice());
    write_attrs(&el.attrs, out);
    let ghost head = out@;
    assert(head =~= start + (seq!['<'] + qname_of(*el) + attrs_xml(el.attrs@)));
    if el.children.len() == 0 && el.text.as_str().is_empty() {
        out.push('/');
        out.push('>');
        assert(out@ =~= start + xml_of(*el));
        return;
    }
    out.push('>');
    let t = chars_of(el.text.as_str());
    escape_into(out, t.as_slice(), false);
    let ghost mid = out@;
    let mut j: usize = 0;
    while j < el.children.len()
        invariant
            j <= el.children.len(),
            out@ == mid + xml_seq(el.children@.take(j as int)),
        decreases el.children.len() - j,
    {
        write_el(&el.children[j], out);
        proof {
            let t = el.children@.take(j + 1);
            assert(t.drop_last() =~= el.children@.take(j as int));
        }
        j = j + 1;
        assert(out@ =~= mid + xml_seq(el.children@.take(j as int)));
    }
    assert(el.children@.take(el.children.len() as int) =~= el.children@);
    out.push('<');
    out.push('/');
    push_all(out, q.as_slice());
    out.push('>');
    assert(out@ =~= start + xml_of(*el));
}

/// The XML text of an element tree.
pub fn el_to_xml(el: &El) -> (r: String)
    ensures
        r@ == xml_of(*el),
{
    let mut out: Vec<char> = Vec::new();
    write_el(el, &mut out);
    assert(out@ =~= xml_of(*el));
    string_of(out.as_slice())
}

/// Splits a qualified name at its first `:` into (prefix, local);
/// a name without `:` has an empty prefix.
pub open spec fn split_qn_spec(name: Seq<char>) -> (Seq<char>, Seq<char>) {
    let i = first_index(name, ':');
    if i < 0 {
        (Seq::empty(), name)
    } else {
        (name.take(i), name.skip(i + 1))
    }
}

/// Splits a qualified name into prefix and local part.
pub fn split_qn(name: &[char]) -> (r: (String, String))
    ensures
        (r.0@, r.1@) == split_qn_spec(name@),
{
    proof { crate::text::lemma_first_index(name@, ':'); }
    match first_of(name, ':') {
        None => (String::new(), string_of(name)),
        Some(i) => {
            assert(i < name.len());
            let p = slice_vec(name, 0, i);
            let l = slice_vec(name, i + 1, name.len());
            assert(p@ =~= name@.take(i as int));
            assert(l@ =~= name@.skip(i + 1));
            (string_of(p.as_slice()), string_of(l.as_slice()))
        },
    }
}

/// Serialising then keeping the same tree gives well-bracketed output:
/// it starts with `<qname` and, unless empty, ends with `</qname>`.
pub proof fn law_xml_brackets(el: El)
    ensures
        xml_of(el).take(qname_of(el).len() as int + 1) == seq!['<'] + qname_of(el),
        el.children@.len() > 0 || el.text@.len() > 0 ==> xml_of(el).skip(
            xml_of(el).len() - (qname_of(el).len() + 3),
        ) == seq!['<', '/'] + qname_of(el) + seq!['>'],
        el.children@.len() == 0 && el.text@.len() == 0 ==> xml_of(el).skip(xml_of(el).len() - 2) == seq!['/', '>'],
{
    let x = xml_of(el);
    let head = seq!['<'] + qname_of(el);
    assert(x.take(qname_of(el).len() as int + 1) =~= head);
    if el.children@.len() > 0 || el.text@.len() > 0 {
        let tail = seq!['<', '/'] + qname_of(el) + seq!['>'];
        assert(x.skip(x.len() - (qname_of(el).len() + 3)) =~= tail);
    } else {
        assert(x.skip(x.len() - 2) =~= seq!['/', '>']);
    }
}


// ------------------------------------------------------------------ entity references

/// A Unicode scalar value (a valid `char`).
pub open spec fn is_scalar(v: nat) -> bool {
    v <= 0x10FFFF && !(0xD800 <= v && v <= 0xDFFF)
}

/// The code point named by a numeric reference body (`#x26`, `#X26`, `#38`).
pub open spec fn entity_code(name: Seq<char>) -> Option<nat> {
    if has_prefix(name, seq!['#', 'x']) || has_prefix(name, seq!['#', 'X']) {
        parse_u32_radix(name.skip(2), 16)
    } else if has_prefix(name, seq!['#']) {
        parse_u32_radix(name.skip(1), 10)
    } else {
        None
    }
}

/// The text an entity reference `&name;` stands for: the five predefined
/// entities, numeric character references, and otherwise the reference kept
/// as written.
pub open spec fn entity_text(name: Seq<char>) -> Seq<char> {
    if name == "amp"@ {
        "&"@
    } else if name == "lt"@ {
        "<"@
    } else if name == "gt"@ {
        ">"@
    } else if name == "quot"@ {
        "\""@
    } else if name == "apos"@ {
        "'"@
    } else {
        match entity_code(name) {
            Some(v) => if is_scalar(v) {
                seq![(v as u32) as char]
            } else {
                "&"@ + name + ";"@
            },
            None => "&"@ + name + ";"@,
        }
    }
}

/// Resolves the entity reference `&name;`.
pub fn resolve_entity(name: &str) -> (r: String)
    ensures
        r@ == entity_text(name@),
{
    if str_eq(name, "amp") {
        return "&".to_owned();
    } else if str_eq(name, "lt") {
        return "<".to_owned();
    } else if str_eq(name, "gt") {
        return ">".to_owned();
    } else if str_eq(name, "quot") {
        return "\"".to_owned();
    } else if str_eq(name, "apos") {
        return "'".to_owned();
    }
    let v = chars_of(name);
    let hex = v.len() >= 2 && v[0] == '#' && (v[1] == 'x' || v[1] == 'X');
    let dec = v.len() >= 1 && v[0] == '#';
    proof {
        if v@.len() >= 2 {
            assert(v@[0] == '#' && v@[1] == 'x' ==> v@.take(2) =~= seq!['#', 'x']);
            assert(v@[0] == '#' && v@[1] == 'X' ==> v@.take(2) =~= seq!['#', 'X']);
        }
        if v@.len() >= 1 {
            assert(v@[0] == '#' ==> v@.take(1) =~= seq!['#']);
        }
        assert(hex == (has_prefix(name@, seq!['#', 'x']) || has_prefix(name@, seq!['#', 'X'])));
        assert(dec == has_prefix(name@, seq!['#'])) by {
            if dec { assert(v@.take(1) =~= seq!['#']); }
            if has_prefix(name@, seq!['#']) { assert(v@.take(1)[0] == '#'); }
        }
    }
    let code: Option<u32> = if hex {
        let rest = slice_vec(v.as_slice(), 2, v.len());
        assert(rest@ =~= name@.skip(2));
        parse_u32_radix_exec(rest.as_slice(), 16)
    } else if dec {
        let rest = slice_vec(v.as_slice(), 1, v.len());
        assert(rest@ =~= name@.skip(1));
        parse_u32_radix_exec(rest.as_slice(), 10)
    } else {
        None
    };
    assert(code matches Some(c) ==> entity_code(name@) == Some(c as nat));
    assert(code is None ==> entity_code(name@) is None);
    let ch = match code {
        Some(c) => char::from_u32(c),
        None => None,
    };
    match ch {
        Some(c) => {
            let mut out: Vec<char> = Vec::new();
            out.push(c);
            proof {
                let k = code.unwrap();
                assert(c as u32 == k);
                vstd::utf8::char_u32_cast(c, k);
                assert((((k as nat) as u32) as char) == c);
            }
            assert(out@ =~= entity_text(name@));
            string_of(out.as_slice())
        },
        None => {
            let mut out: Vec<char> = Vec::new();
            push_str(&mut out, "&");
            push_all(&mut out, v.as_slice());
            push_str(&mut out, ";");
            assert(out@ =~= entity_text(name@));
            string_of(out.as_slice())
        },
    }
}


// ------------------------------------------------------------------ building the tree

/// One parsing event, with names and text already taken out of the reader.
pub enum XmlEvent {
    /// A start tag: qualified name and attributes (name, unescaped value).
    Start { name: String, attrs: Vec<(String, String)> },
    /// An empty-element tag.
    Empty { name: String, attrs: Vec<(String, String)> },
    /// An end tag.
    End,
    /// Text (character data, CDATA or a resolved reference).
    Text(String),
    /// Anything that does not change the tree (declaration, comment, ...).
    Other,
}

/// A fresh element with the given qualified name and attributes.
pub open spec fn fresh_el(e: El, name: Seq<char>, attrs: Seq<(String, String)>) -> bool {
    &&& (e.prefix@, e.local@) == split_qn_spec(name)
    &&& e.attrs@ == attrs
    &&& e.children@.len() == 0
    &&& e.text@.len() == 0
}

/// An element with no name, attributes, children or text.
pub open spec fn empty_el(e: El) -> bool {
    &&& e.prefix@.len() == 0
    &&& e.local@.len() == 0
    &&& e.attrs@.len() == 0
    &&& e.children@.len() == 0
    &&& e.text@.len() == 0
}

/// `b` is `a` with `c` appended to its children.
pub open spec fn with_child(a: El, b: El, c: El) -> bool {
    &&& b.prefix == a.prefix
    &&& b.local == a.local
    &&& b.attrs == a.attrs
    &&& b.text == a.text
    &&& b.children@ == a.children@.push(c)
}

/// `b` is `a` with `t` appended to its text.
pub open spec fn with_text(a: El, b: El, t: Seq<char>) -> bool {
    &&& b.prefix == a.prefix
    &&& b.local == a.local
    &&& b.attrs == a.attrs
    &&& b.children == a.children
    &&& b.text@ == a.text@ + t
}

/// The open elements while reading a document: `stack[0]` is a synthetic
/// root whose first child becomes the document element.
pub struct TreeBuilder {
    stack: Vec<El>,
}

fn new_el(name: &str, attrs: Vec<(String, String)>) -> (r: El)
    ensures
        fresh_el(r, name@, attrs@),
{
    let v = chars_of(name);
    let (prefix, local) = split_qn(v.as_slice());
    El { prefix, local, attrs, children: Vec::new(), text: String::new() }
}

impl TreeBuilder {
    /// The open elements, outermost first.
    pub closed spec fn stack(&self) -> Seq<El> {
        self.stack@
    }

    /// The stack always holds at least the synthetic root.
    pub closed spec fn wf(&self) -> bool {
        self.stack@.len() >= 1
    }

    /// A builder holding only an empty synthetic root.
    pub fn new() -> (r: TreeBuilder)
        ensures
            r.wf(),
            r.stack().len() == 1,
            empty_el(r.stack()[0]),
    {
        let mut stack: Vec<El> = Vec::new();
        stack.push(El { prefix: String::new(), local: String::new(), attrs: Vec::new(), children: Vec::new(), text: String::new() });
        TreeBuilder { stack }
    }

    /// Applies one event:
    /// - a start tag opens a fresh element;
    /// - an empty-element tag appends a fresh element to the innermost open one;
    /// - an end tag closes the innermost element into its parent (closing the
    ///   synthetic root itself restarts from an empty root);
    /// - text is appended to the innermost open element;
    /// - anything else changes nothing.
    pub fn feed(&mut self, ev: XmlEvent)
        requires
            old(self).wf(),
        ensures
            final(self).wf(),
            ({
                let s0 = old(self).stack();
                let s1 = final(self).stack();
                match ev {
                    XmlEvent::Start { name, attrs } => s1.len() == s0.len() + 1 && s1.drop_last() == s0
                        && fresh_el(s1.last(), name@, attrs@),
                    XmlEvent::Empty { name, attrs } => s1.len() == s0.len() && s1.drop_last() == s0.drop_last()
                        && s1.last().children@.len() == s0.last().children@.len() + 1
                        && fresh_el(s1.last().children@.last(), name@, attrs@)
                        && with_child(s0.last(), s1.last(), s1.last().children@.last()),
                    XmlEvent::End => if s0.len() >= 2 {
                        s1.len() == s0.len() - 1 && s1.drop_last() == s0.take(s0.len() - 2)
                            && with_child(s0[s0.len() - 2], s1.last(), s0.last())
                    } else {
                        s1.len() == 1 && empty_el(s1[0])
                    },
                    XmlEvent::Text(t) => s1.len() == s0.len() && s1.drop_last() == s0.drop_last()
                        && with_text(s0.last(), s1.last(), t@),
                    XmlEvent::Other => s1 == s0,
                }
            }),
    {
        let ghost s0 = self.stack@;
        match ev {
            XmlEvent::Start { name, attrs } => {
                let el = new_el(name.as_str(), attrs);
                self.stack.push(el);
                assert(self.stack@.drop_last() =~= s0);
            },
            XmlEvent::Empty { name, attrs } => {
                let el = new_el(name.as_str(), attrs);
                let mut top = self.stack.pop().unwrap();
                let ghost t0 = top;
                top.children.push(el);
                self.stack.push(top);
                assert(self.stack@.drop_last() =~= s0.drop_last());
                assert(with_child(t0, self.stack@.last(), el));
            },
            XmlEvent::End => {
                let el = self.stack.pop().unwrap();
                if self.stack.len() == 0 {
                    self.stack.push(El { prefix: String::new(), local: String::new(), attrs: Vec::new(), children: Vec::new(), text: String::new() });
                } else {
                    let mut parent = self.stack.pop().unwrap();
                    let ghost p0 = parent;
                    parent.children.push(el);
                    self.stack.push(parent);
                    assert(self.stack@.drop_last() =~= s0.take(s0.len() - 2));
                    assert(with_child(p0, self.stack@.last(), el));
                }
            },
            XmlEvent::Text(t) => {
                let mut top = self.stack.pop().unwrap();
                let ghost t0 = top;
                top.text.append(t.as_str());
                self.stack.push(top);
                assert(self.stack@.drop_last() =~= s0.drop_last());
            },
            XmlEvent::Other => {},
        }
    }

    /// The document element: the first child of the synthetic root.
    pub fn finish(self, part: &str) -> (r: Result<El, OoxmlError>)
        requires
            self.wf(),
        ensures
            self.stack()[0].children@.len() > 0 ==> r == Ok::<El, OoxmlError>(self.stack()[0].children@[0]),
            self.stack()[0].children@.len() == 0 ==> (r matches Err(OoxmlError::BadXml { part: p, msg: m })
                && p@ == part@ && m@ == "无文档根元素"@),
    {
        let mut stack = self.stack;
        let mut root = stack.swap_remove(0);
        if root.children.len() > 0 {
            Ok(root.children.swap_remove(0))
        } else {
            Err(OoxmlError::BadXml { part: part.to_owned(), msg: "无文档根元素".to_owned() })
        }
    }
}

/// Every event keeps the builder's stack non-empty, so the innermost open
/// element always exists.
pub proof fn law_builder_stack_nonempty(b: TreeBuilder)
    requires
        b.wf(),
    ensures
        b.stack().len() >= 1,
{
}

// ------------------------------------------------------------------ reading with quick-xml

/// One event of quick-xml's reader, as plain values: a start tag
/// (`empty` for an empty-element tag) with its qualified name and the raw
/// text of its attributes, an end tag, text (character data already
/// unescaped, or a CDATA section), a general reference by name, or anything
/// else.
pub enum RawEvent {
    Tag { empty: bool, name: String, attrs: String },
    End,
    Text(String),
    Reference(String),
    Other,
}

/// A reader event as plain values.
pub enum RawEventView {
    Tag(bool, Seq<char>, Seq<char>),
    End,
    Text(Seq<char>),
    Reference(Seq<char>),
    Other,
}

/// An optional attribute as plain values.
pub open spec fn raw_attr_view(a: Option<(String, String)>) -> Option<(Seq<char>, Seq<char>)> {
    match a {
        Some((k, v)) => Some((k@, v@)),
        None => None,
    }
}

/// Optional attributes as plain values.
pub open spec fn raw_attrs_view(s: Seq<Option<(String, String)>>) -> Seq<Option<(Seq<char>, Seq<char>)>> {
    s.map_values(|a: Option<(String, String)>| raw_attr_view(a))
}

/// A reader event as plain values.
pub open spec fn raw_event_view(e: RawEvent) -> RawEventView {
    match e {
        RawEvent::Tag { empty, name, attrs } => RawEventView::Tag(empty, name@, attrs@),
        RawEvent::End => RawEventView::End,
        RawEvent::Text(t) => RawEventView::Text(t@),
        RawEvent::Reference(n) => RawEventView::Reference(n@),
        RawEvent::Other => RawEventView::Other,
    }
}

/// The events read, or the reader's error text, as plain values.
pub open spec fn raw_events_view(r: Result<Vec<RawEvent>, String>) -> Result<Seq<RawEventView>, Seq<char>> {
    match r {
        Ok(v) => Ok(v@.map_values(|e: RawEvent| raw_event_view(e))),
        Err(m) => Err(m@),
    }
}

/// What quick-xml's reader (`Reader::from_str` with its default settings,
/// then `read_event` until `Eof`) yields for a text: every event before
/// `Eof` in order, or the text of the first error.
pub uninterp spec fn xml_events(text: Seq<char>) -> Result<Seq<RawEventView>, Seq<char>>;

/// `str::from_utf8`, with the decoded text copied out.
///
/// Claims what std documents: success exactly on valid UTF-8, and then the
/// text encodes back to the input bytes. The error's message text is not described.
#[verifier::external_body]
pub(crate) fn utf8_text(bytes: &[u8]) -> (r: Result<String, String>)
    ensures
        (r is Ok) == vstd::utf8::valid_utf8(bytes@),
        r matches Ok(s) ==> vstd::utf8::encode_utf8(s@) == bytes@,
{
    std::str::from_utf8(bytes).map(|s| s.to_owned()).map_err(|e| e.to_string())
}

/// `quick_xml::Reader::from_str` and `Reader::read_event` until `Eof`, each
/// event converted to plain values (`BytesStart::name` and
/// `attributes_raw`, `BytesText::xml_content` under XML 1.0, the CDATA text,
/// the reference's name); on a syntax error, the error's text. The reader's
/// result depends on the text alone.
#[verifier::external_body]
fn xml_event_list(text: &str) -> (r: Result<Vec<RawEvent>, String>)
    ensures
        raw_events_view(r) == xml_events(text@),
{
    let mut rd = Reader::from_str(text);
    let mut out = Vec::new();
    loop {
        let e = rd.read_event().map_err(|e| e.to_string())?;
        if let Eof = e { return Ok(out); }
        out.push(match &e {
            Start(b) | Empty(b) => RawEvent::Tag { empty: matches!(e, Empty(_)), name: b.name().as_ref().to_owned(), attrs: b.attributes_raw().to_owned() },
            End(_) => RawEvent::End,
            Text(t) => RawEvent::Text(t.xml_content(XmlVersion::Explicit1_0).into_owned()),
            CData(t) => RawEvent::Text(t.to_string()),
            GeneralRef(g) => RawEvent::Reference(g.to_string()),
            _ => RawEvent::Other,
        });
    }
}

/// What quick-xml's attribute iterator yields over the raw attribute text
/// of a tag, each item as plain values: `None` for a malformed attribute,
/// else its qualified name and raw value.
pub uninterp spec fn xml_attributes(raw: Seq<char>) -> Seq<Option<(Seq<char>, Seq<char>)>>;

/// `Attributes::new(raw, 0)`, each item converted. `BytesStart::attributes`
/// runs the same iterator over the tag's text from the end of its name; the
/// iterator reads only from its start position on, so this yields the same
/// attributes for the text after the name (`attributes_raw`).
#[verifier::external_body]
fn tag_attributes(raw: &str) -> (r: Vec<Option<(String, String)>>)
    ensures
        raw_attrs_view(r@) == xml_attributes(raw@),
{
    Attributes::new(raw, 0).map(|a| a.ok().map(|a| (a.key.as_ref().to_owned(), a.value.into_owned()))).collect()
}

/// The value of an attribute normalised under XML 1.0 rules (predefined and
/// character references resolved, whitespace characters turned into spaces),
/// as `Attribute::normalized_value` gives it for the raw value `raw`; `None`
/// where quick-xml refuses the value (an unknown or malformed reference).
pub uninterp spec fn xml10_attr_value(raw: Seq<char>) -> Option<Seq<char>>;

/// `Attribute::normalized_value` with `XmlVersion::Explicit1_0`. In
/// quick-xml's source the result depends on the attribute's raw value alone
/// (the key is not read), so the attribute is rebuilt from that value.
#[verifier::external_body]
fn attr_value_normalized(raw: &str) -> (r: Option<String>)
    ensures
        string_opt(r) == xml10_attr_value(raw@),
{
    let a = quick_xml::events::attributes::Attribute {
        key: quick_xml::name::QName(""),
        value: std::borrow::Cow::Borrowed(raw),
    };
    a.normalized_value(quick_xml::XmlVersion::Explicit1_0).ok().map(|v| v.into_owned())
}

/// The value an attribute gets in the tree: its XML 1.0 normalised value,
/// or the raw value where normalisation fails.
pub open spec fn attr_value_of(raw: Seq<char>) -> Seq<char> {
    match xml10_attr_value(raw) {
        Some(v) => v,
        None => raw,
    }
}

/// The attributes of a tag as the tree holds them: the well-formed ones, in
/// order, each with its qualified name and its value as `attr_value_of`
/// gives it; malformed ones are left out.
pub open spec fn tag_attr_list(raw: Seq<Option<(Seq<char>, Seq<char>)>>) -> Seq<(Seq<char>, Seq<char>)>
    decreases raw.len(),
{
    if raw.len() == 0 {
        Seq::empty()
    } else {
        let r = tag_attr_list(raw.drop_last());
        match raw.last() {
            Some((k, v)) => r.push((k, attr_value_of(v))),
            None => r,
        }
    }
}

/// Attribute pairs as plain text.
pub open spec fn attr_pairs(attrs: Seq<(String, String)>) -> Seq<(Seq<char>, Seq<char>)> {
    attrs.map_values(|p: (String, String)| (p.0@, p.1@))
}

/// The attributes of a tag: well-formed ones only, each value normalised,
/// or taken raw where normalisation fails.
fn tag_attrs(raw: &Vec<Option<(String, String)>>) -> (r: Vec<(String, String)>)
    ensures
        attr_pairs(r@) == tag_attr_list(raw_attrs_view(raw@)),
{
    let mut out: Vec<(String, String)> = Vec::new();
    let mut i: usize = 0;
    while i < raw.len()
        invariant
            i <= raw.len(),
            attr_pairs(out@) == tag_attr_list(raw_attrs_view(raw@.take(i as int))),
        decreases raw.len() - i,
    {
        let ghost t = raw@.take(i + 1);
        assert(t.drop_last() =~= raw@.take(i as int));
        assert(raw_attrs_view(t).drop_last() =~= raw_attrs_view(raw@.take(i as int)));
        assert(raw_attrs_view(t).last() == raw_attr_view(raw@[i as int]));
        match &raw[i] {
            Some((k, v)) => {
                let key = k.clone();
                let value = match attr_value_normalized(v.as_str()) {
                    Some(n) => n,
                    None => v.clone(),
                };
                let ghost o0 = attr_pairs(out@);
                out.push((key, value));
                assert(attr_pairs(out@) =~= o0.push((k@, attr_value_of(v@))));
            },
            None => {},
        }
        i = i + 1;
    }
    assert(raw@.take(raw.len() as int) =~= raw@);
    out
}

// ------------------------------------------------------------------ the tree as plain values

/// An element as plain values.
#[verifier::ext_equal]
pub struct ElView {
    pub prefix: Seq<char>,
    pub local: Seq<char>,
    pub attrs: Seq<(Seq<char>, Seq<char>)>,
    pub children: Seq<ElView>,
    pub text: Seq<char>,
}

/// An element as plain values.
pub open spec fn el_view(e: El) -> ElView
    decreases e, 1nat,
{
    ElView {
        prefix: e.prefix@,
        local: e.local@,
        attrs: attr_pairs(e.attrs@),
        children: els_view(e.children@),
        text: e.text@,
    }
}

/// Elements as plain values.
pub open spec fn els_view(cs: Seq<El>) -> Seq<ElView>
    decreases cs, 0nat,
{
    if cs.len() == 0 {
        Seq::empty()
    } else {
        els_view(cs.drop_last()).push(el_view(cs.last()))
    }
}

/// `els_view` keeps length and position.
pub proof fn lemma_els_view(cs: Seq<El>)
    ensures
        els_view(cs).len() == cs.len(),
        forall|i: int| 0 <= i < cs.len() ==> #[trigger] els_view(cs)[i] == el_view(cs[i]),
    decreases cs.len(),
{
    if cs.len() > 0 {
        lemma_els_view(cs.drop_last());
        assert forall|i: int| 0 <= i < cs.len() implies #[trigger] els_view(cs)[i] == el_view(cs[i]) by {
            if i < cs.len() - 1 {
                assert(cs.drop_last()[i] == cs[i]);
            }
        }
    }
}

/// A step of building the tree.
pub enum BuildStep {
    Start(Seq<char>, Seq<(Seq<char>, Seq<char>)>),
    Empty(Seq<char>, Seq<(Seq<char>, Seq<char>)>),
    End,
    Text(Seq<char>),
    Other,
}

/// The step a builder event takes.
pub open spec fn step_of(ev: XmlEvent) -> BuildStep {
    match ev {
        XmlEvent::Start { name, attrs } => BuildStep::Start(name@, attr_pairs(attrs@)),
        XmlEvent::Empty { name, attrs } => BuildStep::Empty(name@, attr_pairs(attrs@)),
        XmlEvent::End => BuildStep::End,
        XmlEvent::Text(t) => BuildStep::Text(t@),
        XmlEvent::Other => BuildStep::Other,
    }
}

/// The step a reader event takes: a tag opens (or, when empty, adds) an
/// element with its attributes as `tag_attr_list` gives them, a reference
/// adds its resolved text.
pub open spec fn step_of_raw(e: RawEventView) -> BuildStep {
    match e {
        RawEventView::Tag(empty, name, attrs) => if empty {
            BuildStep::Empty(name, tag_attr_list(xml_attributes(attrs)))
        } else {
            BuildStep::Start(name, tag_attr_list(xml_attributes(attrs)))
        },
        RawEventView::End => BuildStep::End,
        RawEventView::Text(t) => BuildStep::Text(t),
        RawEventView::Reference(n) => BuildStep::Text(entity_text(n)),
        RawEventView::Other => BuildStep::Other,
    }
}

/// An element with nothing in it.
pub open spec fn empty_view() -> ElView {
    ElView { prefix: Seq::empty(), local: Seq::empty(), attrs: Seq::empty(), children: Seq::empty(), text: Seq::empty() }
}

/// A new element with this qualified name and these attributes.
pub open spec fn fresh_view(name: Seq<char>, attrs: Seq<(Seq<char>, Seq<char>)>) -> ElView {
    ElView {
        prefix: split_qn_spec(name).0,
        local: split_qn_spec(name).1,
        attrs,
        children: Seq::empty(),
        text: Seq::empty(),
    }
}

/// `a` with `c` appended to its children.
pub open spec fn add_child_view(a: ElView, c: ElView) -> ElView {
    ElView { children: a.children.push(c), ..a }
}

/// `a` with `t` appended to its text.
pub open spec fn add_text_view(a: ElView, t: Seq<char>) -> ElView {
    ElView { text: a.text + t, ..a }
}

/// One building step on the stack of open elements (outermost first,
/// `stack[0]` the synthetic root).
pub open spec fn feed_view(stack: Seq<ElView>, step: BuildStep) -> Seq<ElView> {
    match step {
        BuildStep::Start(n, a) => stack.push(fresh_view(n, a)),
        BuildStep::Empty(n, a) => stack.drop_last().push(add_child_view(stack.last(), fresh_view(n, a))),
        BuildStep::End => if stack.len() >= 2 {
            stack.take(stack.len() - 2).push(add_child_view(stack[stack.len() - 2], stack.last()))
        } else {
            seq![empty_view()]
        },
        BuildStep::Text(t) => stack.drop_last().push(add_text_view(stack.last(), t)),
        BuildStep::Other => stack,
    }
}

/// The stack after the reader events `evs`, from an empty synthetic root.
pub open spec fn build_stack(evs: Seq<RawEventView>) -> Seq<ElView>
    decreases evs.len(),
{
    if evs.len() == 0 {
        seq![empty_view()]
    } else {
        feed_view(build_stack(evs.drop_last()), step_of_raw(evs.last()))
    }
}

/// The document element built from reader events: the first child of the
/// synthetic root, if any.
pub open spec fn tree_of_events(evs: Seq<RawEventView>) -> Option<ElView> {
    let root = build_stack(evs)[0];
    if root.children.len() > 0 { Some(root.children[0]) } else { None }
}

/// The document element of an XML part's bytes, when they are UTF-8 that
/// quick-xml reads to the end and that holds an element.
pub open spec fn xml_doc(bytes: Seq<u8>) -> Option<ElView> {
    if vstd::utf8::valid_utf8(bytes) {
        match xml_events(vstd::utf8::decode_utf8(bytes)) {
            Ok(evs) => tree_of_events(evs),
            Err(_) => None,
        }
    } else {
        None
    }
}

proof fn lemma_empty_el_view(e: El)
    requires
        empty_el(e),
    ensures
        el_view(e) == empty_view(),
{
    assert(e.prefix@ =~= Seq::<char>::empty());
    assert(e.local@ =~= Seq::<char>::empty());
    assert(e.text@ =~= Seq::<char>::empty());
    assert(e.children@ =~= Seq::<El>::empty());
    assert(e.attrs@ =~= Seq::<(String, String)>::empty());
    assert(els_view(e.children@) =~= Seq::<ElView>::empty());
    assert(attr_pairs(e.attrs@) =~= Seq::<(Seq<char>, Seq<char>)>::empty());
    assert(el_view(e) =~= empty_view());
}

/// A builder step seen on the elements themselves is the step on their
/// plain values.
proof fn lemma_feed_view(s0: Seq<El>, s1: Seq<El>, ev: XmlEvent)
    requires
        s0.len() >= 1,
        s1.len() >= 1,
        match ev {
            XmlEvent::Start { name, attrs } => s1.len() == s0.len() + 1 && s1.drop_last() == s0
                && fresh_el(s1.last(), name@, attrs@),
            XmlEvent::Empty { name, attrs } => s1.len() == s0.len() && s1.drop_last() == s0.drop_last()
                && s1.last().children@.len() == s0.last().children@.len() + 1
                && fresh_el(s1.last().children@.last(), name@, attrs@)
                && with_child(s0.last(), s1.last(), s1.last().children@.last()),
            XmlEvent::End => if s0.len() >= 2 {
                s1.len() == s0.len() - 1 && s1.drop_last() == s0.take(s0.len() - 2)
                    && with_child(s0[s0.len() - 2], s1.last(), s0.last())
            } else {
                s1.len() == 1 && empty_el(s1[0])
            },
            XmlEvent::Text(t) => s1.len() == s0.len() && s1.drop_last() == s0.drop_last()
                && with_text(s0.last(), s1.last(), t@),
            XmlEvent::Other => s1 == s0,
        },
    ensures
        els_view(s1) == feed_view(els_view(s0), step_of(ev)),
{
    lemma_els_view(s0);
    lemma_els_view(s1);
    let v0 = els_view(s0);
    assert(els_view(s1) == els_view(s1.drop_last()).push(el_view(s1.last())));
    assert(v0 == els_view(s0.drop_last()).push(el_view(s0.last())));
    match ev {
        XmlEvent::Start { name, attrs } => {
            let e = s1.last();
            assert(e.children@ =~= Seq::<El>::empty());
            assert(e.text@ =~= Seq::<char>::empty());
            assert(els_view(e.children@) =~= Seq::<ElView>::empty());
            assert(el_view(e) =~= fresh_view(name@, attr_pairs(attrs@)));
        },
        XmlEvent::Empty { name, attrs } => {
            let a = s0.last();
            let b = s1.last();
            let c = b.children@.last();
            assert(c.children@ =~= Seq::<El>::empty());
            assert(c.text@ =~= Seq::<char>::empty());
            assert(els_view(c.children@) =~= Seq::<ElView>::empty());
            assert(el_view(c) =~= fresh_view(name@, attr_pairs(attrs@)));
            assert(b.children@.drop_last() =~= a.children@);
            assert(els_view(b.children@) == els_view(a.children@).push(el_view(c)));
            assert(el_view(b) =~= add_child_view(el_view(a), el_view(c)));
        },
        XmlEvent::End => {
            if s0.len() >= 2 {
                let a = s0[s0.len() - 2];
                let b = s1.last();
                let c = s0.last();
                assert(b.children@.drop_last() =~= a.children@);
                assert(el_view(b) =~= add_child_view(el_view(a), el_view(c)));
                lemma_els_view(s0.take(s0.len() - 2));
                assert(els_view(s0.take(s0.len() - 2)) =~= v0.take(v0.len() - 2));
                assert(v0[v0.len() - 2] == el_view(a));
            } else {
                let e = s1[0];
                lemma_empty_el_view(e);
                assert(el_view(e) =~= empty_view());
                assert(els_view(s1) =~= seq![empty_view()]);
            }
        },
        XmlEvent::Text(t) => {
            let a = s0.last();
            let b = s1.last();
            assert(el_view(b) =~= add_text_view(el_view(a), t@));
        },
        XmlEvent::Other => {},
    }
}

/// Parses one XML part into its document element. Malformed XML and
/// undecodable bytes are reported as `BadXml` for `part`.
pub fn parse_xml(part: &str, bytes: &[u8]) -> (r: Result<El, OoxmlError>)
    ensures
        (r is Ok) == (xml_doc(bytes@) is Some),
        r matches Ok(t) ==> Some(el_view(t)) == xml_doc(bytes@),
        r matches Err(OoxmlError::BadXml { part: p, .. }) ==> p@ == part@,
        r matches Err(e) ==> e is BadXml,
        vstd::utf8::valid_utf8(bytes@) ==> match xml_events(vstd::utf8::decode_utf8(bytes@)) {
            Err(m) => r matches Err(OoxmlError::BadXml { msg, .. }) && msg@ == m,
            Ok(evs) => tree_of_events(evs) is None ==> (r matches Err(OoxmlError::BadXml { msg, .. })
                && msg@ == "无文档根元素"@),
        },
{
    let text = match utf8_text(bytes) {
        Ok(t) => t,
        Err(msg) => return Err(OoxmlError::BadXml { part: part.to_owned(), msg }),
    };
    proof {
        vstd::utf8::encode_utf8_decode_utf8(text@);
    }
    assert(text@ == vstd::utf8::decode_utf8(bytes@));
    let evs = match xml_event_list(text.as_str()) {
        Ok(v) => v,
        Err(msg) => return Err(OoxmlError::BadXml { part: part.to_owned(), msg }),
    };
    let ghost ev_views = evs@.map_values(|e: RawEvent| raw_event_view(e));
    let mut b = TreeBuilder::new();
    proof {
        lemma_els_view(b.stack());
        lemma_empty_el_view(b.stack()[0]);
        assert(el_view(b.stack()[0]) =~= empty_view());
        assert(els_view(b.stack()) =~= build_stack(ev_views.take(0)));
    }
    let mut i: usize = 0;
    while i < evs.len()
        invariant
            i <= evs.len(),
            b.wf(),
            ev_views == evs@.map_values(|e: RawEvent| raw_event_view(e)),
            els_view(b.stack()) == build_stack(ev_views.take(i as int)),
        decreases evs.len() - i,
    {
        let ghost s0 = b.stack();
        let ev = match &evs[i] {
            RawEvent::Tag { empty, name, attrs } => {
                let items = tag_attributes(attrs.as_str());
                let a = tag_attrs(&items);
                if *empty {
                    XmlEvent::Empty { name: name.clone(), attrs: a }
                } else {
                    XmlEvent::Start { name: name.clone(), attrs: a }
                }
            },
            RawEvent::End => XmlEvent::End,
            RawEvent::Text(t) => XmlEvent::Text(t.clone()),
            RawEvent::Reference(n) => XmlEvent::Text(resolve_entity(n.as_str())),
            RawEvent::Other => XmlEvent::Other,
        };
        let ghost gev = ev;
        assert(step_of(gev) == step_of_raw(ev_views[i as int]));
        b.feed(ev);
        proof {
            lemma_feed_view(s0, b.stack(), gev);
            assert(ev_views.take(i + 1).drop_last() =~= ev_views.take(i as int));
        }
        i = i + 1;
    }
    assert(ev_views.take(evs.len() as int) =~= ev_views);
    let ghost st = b.stack();
    proof {
        lemma_els_view(st);
        lemma_els_view(st[0].children@);
    }
    b.finish(part)
}

} // verus!

verus! {

// ------------------------------------------------------------------ optional lookups

/// The element behind an optional reference.
pub open spec fn deref_opt(o: Option<&El>) -> Option<El> {
    match o {
        Some(x) => Some(*x),
        None => None,
    }
}

/// The text behind an optional string slice.
pub open spec fn str_opt(o: Option<&str>) -> Option<Seq<char>> {
    match o {
        Some(x) => Some(x@),
        None => None,
    }
}

/// The text of an optional owned string.
pub open spec fn string_opt(o: Option<String>) -> Option<Seq<char>> {
    match o {
        Some(x) => Some(x@),
        None => None,
    }
}

/// The value of an optional 64-bit integer.
pub open spec fn int_opt(o: Option<i64>) -> Option<int> {
    match o {
        Some(x) => Some(x as int),
        None => None,
    }
}

/// `str::parse::<i64>` through an optional text.
pub open spec fn parse_opt(o: Option<Seq<char>>) -> Option<int> {
    match o {
        Some(s) => crate::text::parse_int(s),
        None => None,
    }
}

/// The first child with this name, through an optional element.
pub fn opt_child<'a>(e: Option<&'a El>, prefix: &str, local: &str) -> (r: Option<&'a El>)
    ensures
        deref_opt(r) == child_opt(deref_opt(e), prefix@, local@),
{
    match e {
        Some(x) => x.child(prefix, local),
        None => None,
    }
}

/// An attribute value, through an optional element.
pub fn opt_attr<'a>(e: Option<&'a El>, qname: &str) -> (r: Option<&'a str>)
    ensures
        str_opt(r) == attr_opt(deref_opt(e), qname@),
{
    match e {
        Some(x) => x.attr(qname),
        None => None,
    }
}

/// An owned copy of an optional string slice.
pub fn opt_owned(o: Option<&str>) -> (r: Option<String>)
    ensures
        string_opt(r) == str_opt(o),
{
    match o {
        Some(x) => Some(x.to_owned()),
        None => None,
    }
}

/// `str::parse::<i64>` of an optional text.
pub fn opt_parse_i64(o: Option<&str>) -> (r: Option<i64>)
    ensures
        int_opt(r) == parse_opt(str_opt(o)),
{
    match o {
        Some(x) => {
            let v = chars_of(x);
            crate::text::parse_i64(v.as_slice())
        },
        None => None,
    }
}

/// The predefined entity references `&amp;`, `&lt;`, `&gt;` and `&quot;`
/// each stand for one character, and escaping that character (as in an
/// attribute value) writes the same reference back; `&apos;` stands for an
/// apostrophe.
pub proof fn law_entities_undo_escapes(name: Seq<char>)
    ensures
        (name == seq!['a', 'm', 'p'] || name == seq!['l', 't'] || name == seq!['g', 't'] || name == seq![
            'q',
            'u',
            'o',
            't',
        ]) ==> entity_text(name).len() == 1 && esc(entity_text(name), true) == seq!['&'] + name + seq![';'],
        name == seq!['a', 'p', 'o', 's'] ==> entity_text(name) == seq!['\''],
{
    reveal_strlit("amp");
    reveal_strlit("lt");
    reveal_strlit("gt");
    reveal_strlit("quot");
    reveal_strlit("apos");
    reveal_strlit("&");
    reveal_strlit("<");
    reveal_strlit(">");
    reveal_strlit("\"");
    reveal_strlit("'");
    assert("amp"@ =~= seq!['a', 'm', 'p']);
    assert("lt"@ =~= seq!['l', 't']);
    assert("gt"@ =~= seq!['g', 't']);
    assert("quot"@ =~= seq!['q', 'u', 'o', 't']);
    assert("apos"@ =~= seq!['a', 'p', 'o', 's']);
    let t = entity_text(name);
    if t.len() == 1 {
        assert(esc(t, true) == esc(t.drop_last(), true) + crate::text::esc_char(t.last(), true));
        assert(t.drop_last().len() == 0);
        assert(esc(t.drop_last(), true) == Seq::<char>::empty());
    }
    if name == seq!['a', 'm', 'p'] {
        assert(t == seq!['&']);
        assert(esc(t, true) =~= seq!['&'] + name + seq![';']);
    } else if name == seq!['l', 't'] {
        assert(t == seq!['<']);
        assert(esc(t, true) =~= seq!['&'] + name + seq![';']);
    } else if name == seq!['g', 't'] {
        assert(t == seq!['>']);
        assert(esc(t, true) =~= seq!['&'] + name + seq![';']);
    } else if name == seq!['q', 'u', 'o', 't'] {
        assert(t == seq!['"']);
        assert(esc(t, true) =~= seq!['&'] + name + seq![';']);
    }
}

} // verus!
