//! The numbering definitions of `word/numbering.xml`: which list format and
//! start value a paragraph's `(numId, ilvl)` has.

use vstd::prelude::*;
use crate::ooxml::xml::{
    attr_opt, child_of, el_view, first_attr, int_opt, opt_attr, opt_parse_i64, parse_opt, El,
};
use crate::ooxml::error::OoxmlError;
use crate::ooxml::package::{
    actual_name, admitted_total, lemma_word_part_safe, part_doc, part_encrypted, part_present, zip_meta,
    OoxmlPackage,
};
use crate::text::{chars_of, parse_int, str_eq, string_of};

verus! {

/// Format and start value of one list level.
#[derive(Debug, Clone)]
pub struct NumLevel {
    /// `bullet`, `decimal`, `lowerLetter`, ...; anything but `bullet` and
    /// `none` counts as ordered.
    pub fmt: String,
    pub start: i64,
}

/// A list level as plain values: format and start.
pub open spec fn level_view(l: NumLevel) -> (Seq<char>, int) {
    (l.fmt@, l.start as int)
}

/// The value of the last entry with key `k`.
pub open spec fn last_lookup<K, V>(s: Seq<(K, V)>, k: K) -> Option<V>
    decreases s.len(),
{
    if s.len() == 0 {
        None
    } else if s.last().0 == k {
        Some(s.last().1)
    } else {
        last_lookup(s.drop_last(), k)
    }
}

/// The `w:lvl` children of an `abstractNum` with a parsable `w:ilvl`:
/// level, format (`bullet` when absent) and start (1 when absent).
pub open spec fn lvl_entries(cs: Seq<El>) -> Seq<(int, (Seq<char>, int))>
    decreases cs.len(),
{
    if cs.len() == 0 {
        Seq::empty()
    } else {
        let r = lvl_entries(cs.drop_last());
        let l = cs.last();
        let ilvl = parse_opt(first_attr(l.attrs@, "w:ilvl"@));
        if l.prefix@ == "w"@ && l.local@ == "lvl"@ && ilvl is Some {
            let fmt = match attr_opt(child_of(l, "w"@, "numFmt"@), "w:val"@) {
                Some(f) => f,
                None => "bullet"@,
            };
            let start = match parse_opt(attr_opt(child_of(l, "w"@, "start"@), "w:val"@)) {
                Some(v) => v,
                None => 1,
            };
            r.push((ilvl.unwrap(), (fmt, start)))
        } else {
            r
        }
    }
}

/// The `abstractNum` children of the root with an id: id and levels.
pub open spec fn abstract_entries(cs: Seq<El>) -> Seq<(Seq<char>, Seq<(int, (Seq<char>, int))>)>
    decreases cs.len(),
{
    if cs.len() == 0 {
        Seq::empty()
    } else {
        let r = abstract_entries(cs.drop_last());
        let c = cs.last();
        match first_attr(c.attrs@, "w:abstractNumId"@) {
            Some(a) => if c.local@ == "abstractNum"@ {
                r.push((a, lvl_entries(c.children@)))
            } else {
                r
            },
            None => r,
        }
    }
}

/// The `num` children of the root: numId and the abstractNumId it uses.
pub open spec fn num_entries(cs: Seq<El>) -> Seq<(Seq<char>, Seq<char>)>
    decreases cs.len(),
{
    if cs.len() == 0 {
        Seq::empty()
    } else {
        let r = num_entries(cs.drop_last());
        let c = cs.last();
        let n = first_attr(c.attrs@, "w:numId"@);
        let a = attr_opt(child_of(c, "w"@, "abstractNumId"@), "w:val"@);
        if c.local@ == "num"@ && n is Some && a is Some {
            r.push((n.unwrap(), a.unwrap()))
        } else {
            r
        }
    }
}

/// The numbering definitions. A `numId` uses the abstract numbering its
/// last `num` entry names, as its last `abstractNum` with that id defines
/// it; within it the last `lvl` of a level counts.
#[derive(Debug)]
pub struct Numbering {
    nums: Vec<(String, String)>,
    abstracts: Vec<(String, Vec<(i64, NumLevel)>)>,
}

/// The level entries of an abstract numbering, as plain values.
pub open spec fn lvls_view(v: Seq<(i64, NumLevel)>) -> Seq<(int, (Seq<char>, int))> {
    v.map_values(|q: (i64, NumLevel)| (q.0 as int, level_view(q.1)))
}

impl Numbering {
    /// The `num` entries as plain values.
    pub closed spec fn nums_view(&self) -> Seq<(Seq<char>, Seq<char>)> {
        self.nums@.map_values(|p: (String, String)| (p.0@, p.1@))
    }

    /// The `abstractNum` entries as plain values.
    pub closed spec fn abstracts_view(&self) -> Seq<(Seq<char>, Seq<(int, (Seq<char>, int))>)> {
        self.abstracts@.map_values(|p: (String, Vec<(i64, NumLevel)>)| (p.0@, lvls_view(p.1@)))
    }

    /// Format and start of `(numId, ilvl)`.
    pub open spec fn level_of(&self, num_id: Seq<char>, ilvl: int) -> Option<(Seq<char>, int)> {
        match last_lookup(self.nums_view(), num_id) {
            None => None,
            Some(a) => match last_lookup(self.abstracts_view(), a) {
                None => None,
                Some(lv) => last_lookup(lv, ilvl),
            },
        }
    }
}

/// Format and start of `(numId, ilvl)` in a numbering root's children.
pub open spec fn numbering_level(cs: Seq<El>, num_id: Seq<char>, ilvl: int) -> Option<(Seq<char>, int)> {
    match last_lookup(num_entries(cs), num_id) {
        None => None,
        Some(a) => match last_lookup(abstract_entries(cs), a) {
            None => None,
            Some(lv) => last_lookup(lv, ilvl),
        },
    }
}


fn find_num<'a>(v: &'a Vec<(String, String)>, k: &str) -> (r: Option<&'a str>)
    ensures
        str_opt_of(r) == last_lookup(v@.map_values(|p: (String, String)| (p.0@, p.1@)), k@),
{
    let ghost m = v@.map_values(|p: (String, String)| (p.0@, p.1@));
    let mut i: usize = v.len();
    assert(m.take(i as int) =~= m);
    while i > 0
        invariant
            i <= v.len(),
            m == v@.map_values(|p: (String, String)| (p.0@, p.1@)),
            last_lookup(m, k@) == last_lookup(m.take(i as int), k@),
        decreases i,
    {
        let ghost t = m.take(i as int);
        assert(t.drop_last() =~= m.take(i - 1));
        if str_eq(v[i - 1].0.as_str(), k) {
            return Some(v[i - 1].1.as_str());
        }
        i = i - 1;
    }
    None
}

/// The text behind an optional string slice.
pub open spec fn str_opt_of(o: Option<&str>) -> Option<Seq<char>> {
    match o {
        Some(x) => Some(x@),
        None => None,
    }
}

fn find_abstract<'a>(v: &'a Vec<(String, Vec<(i64, NumLevel)>)>, k: &str) -> (r: Option<&'a Vec<(i64, NumLevel)>>)
    ensures
        match r {
            Some(x) => last_lookup(
                v@.map_values(|p: (String, Vec<(i64, NumLevel)>)| (p.0@, lvls_view(p.1@))),
                k@,
            ) == Some(lvls_view(x@)),
            None => last_lookup(
                v@.map_values(|p: (String, Vec<(i64, NumLevel)>)| (p.0@, lvls_view(p.1@))),
                k@,
            ) is None,
        },
{
    let ghost m = v@.map_values(|p: (String, Vec<(i64, NumLevel)>)| (p.0@, lvls_view(p.1@)));
    let mut i: usize = v.len();
    assert(m.take(i as int) =~= m);
    while i > 0
        invariant
            i <= v.len(),
            m == v@.map_values(|p: (String, Vec<(i64, NumLevel)>)| (p.0@, lvls_view(p.1@))),
            last_lookup(m, k@) == last_lookup(m.take(i as int), k@),
        decreases i,
    {
        let ghost t = m.take(i as int);
        assert(t.drop_last() =~= m.take(i - 1));
        if str_eq(v[i - 1].0.as_str(), k) {
            return Some(&v[i - 1].1);
        }
        i = i - 1;
    }
    None
}

fn find_lvl(v: &Vec<(i64, NumLevel)>, k: i64) -> (r: Option<&NumLevel>)
    ensures
        match r {
            Some(x) => last_lookup(lvls_view(v@), k as int) == Some(level_view(*x)),
            None => last_lookup(lvls_view(v@), k as int) is None,
        },
{
    let ghost m = lvls_view(v@);
    let mut i: usize = v.len();
    assert(m.take(i as int) =~= m);
    while i > 0
        invariant
            i <= v.len(),
            m == lvls_view(v@),
            last_lookup(m, k as int) == last_lookup(m.take(i as int), k as int),
        decreases i,
    {
        let ghost t = m.take(i as int);
        assert(t.drop_last() =~= m.take(i - 1));
        if v[i - 1].0 == k {
            return Some(&v[i - 1].1);
        }
        i = i - 1;
    }
    None
}

fn parse_lvls(cs: &Vec<El>) -> (r: Vec<(i64, NumLevel)>)
    ensures
        lvls_view(r@) == lvl_entries(cs@),
{
    let mut out: Vec<(i64, NumLevel)> = Vec::new();
    let mut i: usize = 0;
    while i < cs.len()
        invariant
            i <= cs.len(),
            lvls_view(out@) == lvl_entries(cs@.take(i as int)),
        decreases cs.len() - i,
    {
        let l = &cs[i];
        let ghost t = cs@.take(i + 1);
        assert(t.drop_last() =~= cs@.take(i as int));
        assert(t.last() == *l);
        if l.is("w", "lvl") {
            if let Some(ilvl) = opt_parse_i64(l.attr("w:ilvl")) {
                let fmt = match opt_attr(l.child("w", "numFmt"), "w:val") {
                    Some(f) => f.to_owned(),
                    None => "bullet".to_owned(),
                };
                let start = match opt_parse_i64(opt_attr(l.child("w", "start"), "w:val")) {
                    Some(v) => v,
                    None => 1,
                };
                let ghost o0 = lvls_view(out@);
                out.push((ilvl, NumLevel { fmt, start }));
                assert(lvls_view(out@) =~= o0.push((ilvl as int, (fmt@, start as int))));
            }
        }
        i = i + 1;
    }
    assert(cs@.take(cs.len() as int) =~= cs@);
    out
}

impl Numbering {
    /// No definitions.
    pub fn new() -> (r: Self)
        ensures
            forall|n: Seq<char>, l: int| r.level_of(n, l) is None,
            r.nums_view() == Seq::<(Seq<char>, Seq<char>)>::empty(),
            r.abstracts_view() == Seq::<(Seq<char>, Seq<(int, (Seq<char>, int))>)>::empty(),
    {
        let r = Numbering { nums: Vec::new(), abstracts: Vec::new() };
        assert(r.nums_view() =~= Seq::empty());
        assert(r.abstracts_view() =~= Seq::empty());
        r
    }

    /// Reads the children of a `w:numbering` root.
    pub fn from_doc(doc: &El) -> (r: Self)
        ensures
            forall|n: Seq<char>, l: int| r.level_of(n, l) == numbering_level(doc.children@, n, l),
    {
        let mut out = Numbering::new();
        let mut i: usize = 0;
        while i < doc.children.len()
            invariant
                i <= doc.children.len(),
                out.nums_view() == num_entries(doc.children@.take(i as int)),
                out.abstracts_view() == abstract_entries(doc.children@.take(i as int)),
            decreases doc.children.len() - i,
        {
            let c = &doc.children[i];
            let ghost t = doc.children@.take(i + 1);
            assert(t.drop_last() =~= doc.children@.take(i as int));
            assert(t.last() == *c);
            proof {
                reveal_strlit("abstractNum");
                reveal_strlit("num");
            }
            if str_eq(c.local.as_str(), "abstractNum") {
                assert("abstractNum"@.len() == 11 && "num"@.len() == 3);
                if let Some(abs_id) = c.attr("w:abstractNumId") {
                    let lvls = parse_lvls(&c.children);
                    let ghost a0 = out.abstracts_view();
                    out.abstracts.push((abs_id.to_owned(), lvls));
                    assert(out.abstracts_view() =~= a0.push((abs_id@, lvl_entries(c.children@))));
                }
            } else if str_eq(c.local.as_str(), "num") {
                if let Some(num_id) = c.attr("w:numId") {
                    if let Some(abs) = opt_attr(c.child("w", "abstractNumId"), "w:val") {
                        let ghost n0 = out.nums_view();
                        out.nums.push((num_id.to_owned(), abs.to_owned()));
                        assert(out.nums_view() =~= n0.push((num_id@, abs@)));
                    }
                }
            }
            i = i + 1;
        }
        assert(doc.children@.take(doc.children.len() as int) =~= doc.children@);
        out
    }

    /// The format and start of `(numId, ilvl)`, if defined.
    pub fn level(&self, num_id: &str, ilvl: i64) -> (r: Option<&NumLevel>)
        ensures
            match r {
                Some(l) => self.level_of(num_id@, ilvl as int) == Some(level_view(*l)),
                None => self.level_of(num_id@, ilvl as int) is None,
            },
    {
        let abs = match find_num(&self.nums, num_id) {
            Some(a) => a,
            None => return None,
        };
        let lvls = match find_abstract(&self.abstracts, abs) {
            Some(l) => l,
            None => return None,
        };
        find_lvl(lvls, ilvl)
    }

    /// Whether `(numId, ilvl)` is an ordered list; undefined numbering
    /// counts as unordered.
    pub fn is_ordered(&self, num_id: &str, ilvl: i64) -> (r: bool)
        ensures
            r == match self.level_of(num_id@, ilvl as int) {
                Some(l) => l.0 != "bullet"@ && l.0 != "none"@,
                None => false,
            },
    {
        match self.level(num_id, ilvl) {
            Some(l) => !str_eq(l.fmt.as_str(), "bullet") && !str_eq(l.fmt.as_str(), "none"),
            None => false,
        }
    }

    /// The start value of `(numId, ilvl)` (1 when undefined).
    pub fn start(&self, num_id: &str, ilvl: i64) -> (r: i64)
        ensures
            r == match self.level_of(num_id@, ilvl as int) {
                Some(l) => l.1,
                None => 1,
            },
    {
        match self.level(num_id, ilvl) {
            Some(l) => l.start,
            None => 1,
        }
    }
}

/// The `(numId, ilvl)` of a `w:pPr`: `w:numPr` must name a `w:numId`; the
/// level is 0 when absent or unparsable.
pub open spec fn num_pr_spec(ppr: El) -> Option<(Seq<char>, int)> {
    match child_of(ppr, "w"@, "numPr"@) {
        None => None,
        Some(np) => match attr_opt(child_of(np, "w"@, "numId"@), "w:val"@) {
            None => None,
            Some(n) => Some(
                (
                    n,
                    match parse_opt(attr_opt(child_of(np, "w"@, "ilvl"@), "w:val"@)) {
                        Some(l) => l,
                        None => 0,
                    },
                ),
            ),
        },
    }
}

/// Extracts `(numId, ilvl)` from a paragraph's `w:pPr`.
pub fn num_pr_of(ppr: &El) -> (r: Option<(String, i64)>)
    ensures
        match r {
            Some(p) => num_pr_spec(*ppr) == Some((p.0@, p.1 as int)),
            None => num_pr_spec(*ppr) is None,
        },
{
    let np = match ppr.child("w", "numPr") {
        Some(x) => x,
        None => return None,
    };
    let num_id = match opt_attr(np.child("w", "numId"), "w:val") {
        Some(n) => n.to_owned(),
        None => return None,
    };
    let ilvl = match opt_parse_i64(opt_attr(np.child("w", "ilvl"), "w:val")) {
        Some(l) => l,
        None => 0,
    };
    Some((num_id, ilvl))
}


impl Numbering {
    /// Reads `word/numbering.xml` from a package (no definitions when absent).
    pub fn parse(pkg: &mut OoxmlPackage) -> (r: Result<Numbering, OoxmlError>)
        ensures
            final(pkg).bytes() == old(pkg).bytes(),
            !part_present(old(pkg).bytes(), "word/numbering.xml"@) ==> (r matches Ok(n) && forall|id: Seq<char>, l: int|
                n.level_of(id, l) is None),
            !part_present(old(pkg).bytes(), "word/numbering.xml"@) ==> final(pkg).total() == old(pkg).total(),
            part_present(old(pkg).bytes(), "word/numbering.xml"@) ==> ({
                let name = "word/numbering.xml"@;
                &&& final(pkg).total() == admitted_total(
                    zip_meta(old(pkg).bytes(), actual_name(old(pkg).bytes(), name)),
                    old(pkg).total(),
                )
                &&& (r is Ok) == (part_doc(old(pkg).bytes(), old(pkg).total(), name) is Some)
                &&& r matches Ok(n) ==> exists|doc: El|
                    Some(el_view(doc)) == part_doc(old(pkg).bytes(), old(pkg).total(), name) && forall|id: Seq<char>, l: int| #[trigger] n.level_of(id, l) == numbering_level(doc.children@, id, l)
                &&& part_encrypted(old(pkg).bytes(), name) ==> (r matches Err(OoxmlError::Encrypted { part: p })
                    && p@ == name)
            }),
    {
        proof {
            reveal_strlit("word/numbering.xml");
            reveal_strlit("numbering.xml");
            reveal_strlit("word/");
            assert("word/"@ + "numbering.xml"@ =~= "word/numbering.xml"@);
            lemma_word_part_safe("numbering.xml"@);
        }
        if !pkg.has_part("word/numbering.xml") {
            return Ok(Numbering::new());
        }
        match pkg.part_tree("word/numbering.xml") {
            Ok(doc) => Ok(Numbering::from_doc(&doc)),
            Err(e) => Err(e),
        }
    }
}

} // verus!
