//! The OOXML package model: ZIP entries, `[Content_Types].xml` and the
//! relationships of `_rels` parts. Entry names are sanitised against path
//! traversal; traversal always follows archive order.

use vstd::prelude::*;
use std::io::Read;
use crate::ooxml::error::OoxmlError;
use crate::ooxml::xml::{El, ElView, el_view, first_attr, parse_xml, xml_doc};
use crate::text::{
    chars_of, eq_str, first_index, join_chars, join_with, last_index, last_of, lower_seq, lower_vec, seq_eq, slice_vec,
    split_chars, split_on, string_of,
};

verus! {

/// Largest number of entries an archive may hold.
pub const MAX_ENTRIES: usize = 10000;
/// Largest decompressed size of one part.
pub const MAX_PART_BYTES: u64 = 268435456;
/// Largest decompressed size of all parts read from one package.
pub const MAX_TOTAL_BYTES: u64 = 1073741824;

/// Backslashes become slashes; one leading slash is dropped.
pub open spec fn norm_name(p: Seq<char>) -> Seq<char> {
    let q = p.map_values(|c: char| if c == '\\' { '/' } else { c });
    if q.len() > 0 && q[0] == '/' {
        q.drop_first()
    } else {
        q
    }
}

/// Normalises a part name.
pub fn normalize_part_name(p: &[char]) -> (r: Vec<char>)
    ensures
        r@ == norm_name(p@),
{
    let ghost q = p@.map_values(|c: char| if c == '\\' { '/' } else { c });
    let mut out: Vec<char> = Vec::new();
    let mut i: usize = 0;
    while i < p.len()
        invariant
            i <= p.len(),
            out@ == q.take(i as int),
            q == p@.map_values(|c: char| if c == '\\' { '/' } else { c }),
        decreases p.len() - i,
    {
        let c = p[i];
        out.push(if c == '\\' { '/' } else { c });
        i = i + 1;
        assert(out@ =~= q.take(i as int));
    }
    assert(q.take(p.len() as int) =~= q);
    if out.len() > 0 && out[0] == '/' {
        let r = slice_vec(out.as_slice(), 1, out.len());
        assert(r@ =~= q.drop_first());
        r
    } else {
        out
    }
}

/// A path segment that the OPC naming rules forbid: empty, `..`, or
/// holding `:` (a drive letter).
pub open spec fn bad_segment(seg: Seq<char>) -> bool {
    seg.len() == 0 || seg == seq!['.', '.'] || seg.contains(':')
}

/// A normalised name that names a part safely.
pub open spec fn safe_name(n: Seq<char>) -> bool {
    &&& n.len() > 0
    &&& forall|i: int| 0 <= i < split_on(n, '/').len() ==> !bad_segment(#[trigger] split_on(n, '/')[i])
    &&& !n.contains('\0')
}

fn is_bad_segment(seg: &[char]) -> (r: bool)
    ensures
        r == bad_segment(seg@),
{
    if seg.len() == 0 || seq_eq(seg, &['.', '.']) {
        return true;
    }
    match crate::text::find_char(seg, ':') {
        Some(_) => true,
        None => false,
    }
}

/// Sanitises an entry name: rejects traversal, absolute paths and drive
/// letters; otherwise gives the normalised name.
pub fn sanitize_part_name(name: &str) -> (r: Result<String, OoxmlError>)
    ensures
        safe_name(norm_name(name@)) ==> (r matches Ok(n) && n@ == norm_name(name@)),
        !safe_name(norm_name(name@)) ==> (r matches Err(OoxmlError::UnsafeName(m)) && m@ == name@),
{
    let v = chars_of(name);
    let norm = normalize_part_name(v.as_slice());
    if norm.len() == 0 {
        return Err(OoxmlError::UnsafeName(name.to_owned()));
    }
    let segs = split_chars(norm.as_slice(), '/');
    let ghost m = segs@.map_values(|x: Vec<char>| x@);
    let mut i: usize = 0;
    while i < segs.len()
        invariant
            i <= segs.len(),
            m == segs@.map_values(|x: Vec<char>| x@),
            m == split_on(norm@, '/'),
            norm@ == norm_name(name@),
            forall|j: int| 0 <= j < i ==> !bad_segment(#[trigger] m[j]),
        decreases segs.len() - i,
    {
        if is_bad_segment(segs[i].as_slice()) {
            assert(bad_segment(m[i as int]));
            return Err(OoxmlError::UnsafeName(name.to_owned()));
        }
        i = i + 1;
    }
    match crate::text::find_char(norm.as_slice(), '\0') {
        Some(_) => Err(OoxmlError::UnsafeName(name.to_owned())),
        None => Ok(string_of(norm.as_slice())),
    }
}

/// Sanitising is idempotent: a name that passed the check is its own
/// normal form, so checking it again gives it back unchanged.
pub proof fn law_sanitize_idempotent(p: Seq<char>)
    requires
        safe_name(norm_name(p)),
    ensures
        norm_name(norm_name(p)) == norm_name(p),
        safe_name(norm_name(norm_name(p))),
{
    let n = norm_name(p);
    let q = p.map_values(|c: char| if c == '\\' { '/' } else { c });
    assert forall|i: int| 0 <= i < n.len() implies n[i] != '\\' by {
        if q.len() > 0 && q[0] == '/' {
            assert(n[i] == q[i + 1]);
        } else {
            assert(n[i] == q[i]);
        }
    }
    let m = n.map_values(|c: char| if c == '\\' { '/' } else { c });
    assert(m =~= n);
    crate::text::lemma_first_index(n, '/');
    if n[0] == '/' {
        assert(first_index(n, '/') == 0);
        assert(split_on(n, '/')[0] == n.take(0));
        assert(bad_segment(split_on(n, '/')[0]));
        assert(false);
    }
}


// ------------------------------------------------------------------ content types

/// The textual view of a list of string pairs.
pub open spec fn pairs_view(v: Seq<(String, String)>) -> Seq<(Seq<char>, Seq<char>)> {
    v.map_values(|p: (String, String)| (p.0@, p.1@))
}

/// The value paired with the first key equal to `k`.
pub open spec fn lookup(ps: Seq<(Seq<char>, Seq<char>)>, k: Seq<char>) -> Option<Seq<char>>
    decreases ps.len(),
{
    if ps.len() == 0 {
        None
    } else if ps[0].0 == k {
        Some(ps[0].1)
    } else {
        lookup(ps.drop_first(), k)
    }
}

/// The `Default` entries of a `[Content_Types].xml` root's children:
/// lower-cased extension and content type, in document order.
pub open spec fn ct_defaults(cs: Seq<El>) -> Seq<(Seq<char>, Seq<char>)>
    decreases cs.len(),
{
    if cs.len() == 0 {
        Seq::empty()
    } else {
        let r = ct_defaults(cs.drop_last());
        let c = cs.last();
        let ext = first_attr(c.attrs@, "Extension"@);
        let ty = first_attr(c.attrs@, "ContentType"@);
        if c.local@ == "Default"@ && ext is Some && ty is Some {
            r.push((lower_seq(ext.unwrap()), ty.unwrap()))
        } else {
            r
        }
    }
}

/// The `Override` entries: normalised part name and content type.
pub open spec fn ct_overrides(cs: Seq<El>) -> Seq<(Seq<char>, Seq<char>)>
    decreases cs.len(),
{
    if cs.len() == 0 {
        Seq::empty()
    } else {
        let r = ct_overrides(cs.drop_last());
        let c = cs.last();
        let pn = first_attr(c.attrs@, "PartName"@);
        let ty = first_attr(c.attrs@, "ContentType"@);
        if c.local@ == "Override"@ && pn is Some && ty is Some {
            r.push((norm_name(pn.unwrap()), ty.unwrap()))
        } else {
            r
        }
    }
}

/// What follows the last `.` of a name (the whole name when it has none).
pub open spec fn ext_of(n: Seq<char>) -> Seq<char> {
    let i = last_index(n, '.');
    if i < 0 {
        n
    } else {
        n.skip(i + 1)
    }
}

/// The content type of a part: its override, else the default for its
/// lower-cased extension.
pub open spec fn content_type_of(
    defaults: Seq<(Seq<char>, Seq<char>)>,
    overrides: Seq<(Seq<char>, Seq<char>)>,
    part: Seq<char>,
) -> Option<Seq<char>> {
    let n = norm_name(part);
    match lookup(overrides, n) {
        Some(t) => Some(t),
        None => lookup(defaults, lower_seq(ext_of(n))),
    }
}

/// The `[Content_Types].xml` table of a package.
#[derive(Debug)]
pub struct ContentTypes {
    /// Lower-cased extension and content type.
    pub defaults: Vec<(String, String)>,
    /// Normalised part name and content type.
    pub overrides: Vec<(String, String)>,
}

fn lookup_pairs<'a>(ps: &'a Vec<(String, String)>, k: &[char]) -> (r: Option<&'a str>)
    ensures
        match r {
            Some(t) => lookup(pairs_view(ps@), k@) == Some(t@),
            None => lookup(pairs_view(ps@), k@) is None,
        },
{
    let ghost full = pairs_view(ps@);
    let mut i: usize = 0;
    assert(full.skip(0) =~= full);
    while i < ps.len()
        invariant
            i <= ps.len(),
            full == pairs_view(ps@),
            lookup(full.skip(i as int), k@) == lookup(full, k@),
        decreases ps.len() - i,
    {
        assert(full.skip(i as int)[0] == full[i as int]);
        assert(full.skip(i as int).drop_first() =~= full.skip(i + 1));
        if eq_str(k, ps[i].0.as_str()) {
            return Some(ps[i].1.as_str());
        }
        i = i + 1;
    }
    None
}

impl ContentTypes {
    /// An empty table.
    pub fn new() -> (r: Self)
        ensures
            r.defaults@.len() == 0,
            r.overrides@.len() == 0,
    {
        ContentTypes { defaults: Vec::new(), overrides: Vec::new() }
    }

    /// Reads the `Default` and `Override` children of a `Types` root.
    pub fn parse(doc: &El) -> (r: Self)
        ensures
            pairs_view(r.defaults@) == ct_defaults(doc.children@),
            pairs_view(r.overrides@) == ct_overrides(doc.children@),
    {
        let mut ct = ContentTypes::new();
        let mut i: usize = 0;
        while i < doc.children.len()
            invariant
                i <= doc.children.len(),
                pairs_view(ct.defaults@) == ct_defaults(doc.children@.take(i as int)),
                pairs_view(ct.overrides@) == ct_overrides(doc.children@.take(i as int)),
            decreases doc.children.len() - i,
        {
            let c = &doc.children[i];
            let ghost t = doc.children@.take(i + 1);
            assert(t.drop_last() =~= doc.children@.take(i as int));
            assert(t.last() == *c);
            proof {
                reveal_strlit("Default");
                reveal_strlit("Override");
            }
            if crate::text::str_eq(c.local.as_str(), "Default") {
                assert("Default"@.len() == 7 && "Override"@.len() == 8);
                match (c.attr("Extension"), c.attr("ContentType")) {
                    (Some(ext), Some(ty)) => {
                        let e = chars_of(ext);
                        let low = lower_vec(e.as_slice());
                        let ghost d0 = pairs_view(ct.defaults@);
                        ct.defaults.push((string_of(low.as_slice()), ty.to_owned()));
                        assert(pairs_view(ct.defaults@) =~= d0.push((low@, ty@)));
                    },
                    _ => {},
                }
            } else if crate::text::str_eq(c.local.as_str(), "Override") {
                match (c.attr("PartName"), c.attr("ContentType")) {
                    (Some(pn), Some(ty)) => {
                        let v = chars_of(pn);
                        let n = normalize_part_name(v.as_slice());
                        let ghost o0 = pairs_view(ct.overrides@);
                        ct.overrides.push((string_of(n.as_slice()), ty.to_owned()));
                        assert(pairs_view(ct.overrides@) =~= o0.push((n@, ty@)));
                    },
                    _ => {},
                }
            }
            i = i + 1;
        }
        assert(doc.children@.take(doc.children.len() as int) =~= doc.children@);
        ct
    }

    /// The content type of a part, if the table names one.
    pub fn of(&self, part: &str) -> (r: Option<&str>)
        ensures
            match r {
                Some(t) => content_type_of(pairs_view(self.defaults@), pairs_view(self.overrides@), part@)
                    == Some(t@),
                None => content_type_of(pairs_view(self.defaults@), pairs_view(self.overrides@), part@)
                    is None,
            },
    {
        let v = chars_of(part);
        let norm = normalize_part_name(v.as_slice());
        match lookup_pairs(&self.overrides, norm.as_slice()) {
            Some(t) => Some(t),
            None => {
                proof { crate::text::lemma_last_index(norm@, '.'); }
                let ext = match last_of(norm.as_slice(), '.') {
                    Some(i) => {
                        assert(i < norm.len());
                        slice_vec(norm.as_slice(), i + 1, norm.len())
                    },
                    None => slice_vec(norm.as_slice(), 0, norm.len()),
                };
                assert(ext@ =~= ext_of(norm@));
                let low = lower_vec(ext.as_slice());
                lookup_pairs(&self.defaults, low.as_slice())
            },
        }
    }
}


// ------------------------------------------------------------------ relationships

/// The textual views of a list of character vectors.
pub open spec fn views(v: Seq<Vec<char>>) -> Seq<Seq<char>> {
    v.map_values(|x: Vec<char>| x@)
}

/// The non-empty pieces, in order.
pub open spec fn nonempty_segs(segs: Seq<Seq<char>>) -> Seq<Seq<char>>
    decreases segs.len(),
{
    if segs.len() == 0 {
        Seq::empty()
    } else {
        let r = nonempty_segs(segs.drop_last());
        if segs.last().len() > 0 {
            r.push(segs.last())
        } else {
            r
        }
    }
}

/// One step of a relative target: empty and `.` stay, `..` goes up one
/// level (not above the root), anything else goes down.
pub open spec fn rel_step(acc: Seq<Seq<char>>, seg: Seq<char>) -> Seq<Seq<char>> {
    if seg.len() == 0 || seg == seq!['.'] {
        acc
    } else if seg == seq!['.', '.'] {
        if acc.len() > 0 {
            acc.drop_last()
        } else {
            acc
        }
    } else {
        acc.push(seg)
    }
}

/// All the steps of a relative target, from `acc`.
pub open spec fn rel_walk(acc: Seq<Seq<char>>, steps: Seq<Seq<char>>) -> Seq<Seq<char>>
    decreases steps.len(),
{
    if steps.len() == 0 {
        acc
    } else {
        rel_step(rel_walk(acc, steps.drop_last()), steps.last())
    }
}

/// The directory of a part name: what precedes its last `/`.
pub open spec fn dir_of(p: Seq<char>) -> Seq<char> {
    let i = last_index(p, '/');
    if i < 0 {
        Seq::empty()
    } else {
        p.take(i)
    }
}

/// The part an internal target names, relative to the source part.
pub open spec fn resolve_target(source: Seq<char>, target: Seq<char>) -> Seq<char> {
    let start = nonempty_segs(split_on(dir_of(source), '/'));
    norm_name(join_with(rel_walk(start, split_on(target, '/')), '/'))
}

/// One relationship of a `.rels` part.
#[derive(Debug, Clone)]
pub struct Relationship {
    pub id: String,
    pub rel_type: String,
    pub target: String,
    pub external: bool,
}

impl Relationship {
    /// The package-rooted part name of an internal target; an external
    /// target is returned as it stands.
    pub fn resolve(&self, source_part: &str) -> (r: String)
        ensures
            self.external ==> r@ == self.target@,
            !self.external ==> r@ == resolve_target(source_part@, self.target@),
    {
        if self.external {
            return self.target.clone();
        }
        let src = chars_of(source_part);
        proof { crate::text::lemma_last_index(src@, '/'); }
        let base = match last_of(src.as_slice(), '/') {
            Some(i) => slice_vec(src.as_slice(), 0, i),
            None => Vec::new(),
        };
        assert(base@ =~= dir_of(source_part@));
        let base_segs = split_chars(base.as_slice(), '/');
        let ghost bs = views(base_segs@);
        let mut segs: Vec<Vec<char>> = Vec::new();
        let mut i: usize = 0;
        while i < base_segs.len()
            invariant
                i <= base_segs.len(),
                bs == views(base_segs@),
                views(segs@) == nonempty_segs(bs.take(i as int)),
            decreases base_segs.len() - i,
        {
            let ghost t = bs.take(i + 1);
            assert(t.drop_last() =~= bs.take(i as int));
            let seg = &base_segs[i];
            assert(t.last() == seg@);
            assert(seg@.subrange(0, seg@.len() as int) =~= seg@);
            if seg.len() > 0 {
                let ghost s0 = views(segs@);
                segs.push(slice_vec(seg.as_slice(), 0, seg.len()));
                assert(views(segs@) =~= s0.push(seg@));
            }
            i = i + 1;
        }
        assert(bs.take(base_segs.len() as int) =~= bs);
        let tgt = chars_of(self.target.as_str());
        let steps = split_chars(tgt.as_slice(), '/');
        let ghost st = views(steps@);
        let ghost start = views(segs@);
        let mut j: usize = 0;
        while j < steps.len()
            invariant
                j <= steps.len(),
                st == views(steps@),
                views(segs@) == rel_walk(start, st.take(j as int)),
            decreases steps.len() - j,
        {
            let ghost t = st.take(j + 1);
            assert(t.drop_last() =~= st.take(j as int));
            let step = &steps[j];
            assert(t.last() == step@);
            assert(step@.subrange(0, step@.len() as int) =~= step@);
            let ghost s0 = views(segs@);
            let is_dot = step.len() == 1 && step[0] == '.';
            let is_up = step.len() == 2 && step[0] == '.' && step[1] == '.';
            assert(is_dot == (step@ == seq!['.'])) by {
                if step@.len() == 1 && step@[0] == '.' {
                    assert(step@ =~= seq!['.']);
                }
            }
            assert(is_up == (step@ == seq!['.', '.'])) by {
                if step@.len() == 2 && step@[0] == '.' && step@[1] == '.' {
                    assert(step@ =~= seq!['.', '.']);
                }
            }
            if step.len() == 0 || is_dot {
            } else if is_up {
                if segs.len() > 0 {
                    segs.pop();
                    assert(views(segs@) =~= s0.drop_last());
                }
            } else {
                segs.push(slice_vec(step.as_slice(), 0, step.len()));
                assert(views(segs@) =~= s0.push(step@));
            }
            j = j + 1;
        }
        assert(st.take(steps.len() as int) =~= st);
        let joined = join_chars(segs.as_slice(), '/');
        let n = normalize_part_name(joined.as_slice());
        string_of(n.as_slice())
    }
}


// ------------------------------------------------------------------ the ZIP archive

#[verifier::external_type_specification]
#[verifier::external_body]
#[verifier::reject_recursive_types(T)]
pub struct ExCursor<T>(std::io::Cursor<T>);

#[verifier::external_type_specification]
#[verifier::external_body]
#[verifier::reject_recursive_types(R)]
pub struct ExZipArchive<R>(zip::ZipArchive<R>);

/// An archive read from bytes held in memory.
pub type Archive = zip::ZipArchive<std::io::Cursor<Vec<u8>>>;

/// The bytes an archive reads from; reading never changes them.
pub uninterp spec fn archive_bytes(a: zip::ZipArchive<std::io::Cursor<Vec<u8>>>) -> Seq<u8>;

/// Whether `ZipArchive::new` accepts these bytes.
pub uninterp spec fn zip_opens(bytes: Seq<u8>) -> bool;

/// `ZipArchive::len`: the number of entries of the central directory.
pub uninterp spec fn zip_len_of(bytes: Seq<u8>) -> nat;

/// The decoded name of entry `i` (`by_index_raw` then `name`), if readable.
pub uninterp spec fn zip_name_of(bytes: Seq<u8>, i: int) -> Option<Seq<char>>;

/// `by_name`: whether the entry can be opened, with its encryption flag and
/// uncompressed size.
pub uninterp spec fn zip_meta(bytes: Seq<u8>, name: Seq<char>) -> Option<(bool, u64)>;

/// The uncompressed contents of an entry (`by_name` then `read_to_end`).
pub uninterp spec fn zip_data(bytes: Seq<u8>, name: Seq<char>) -> Option<Seq<u8>>;

/// `ZipArchive::new` over a copy of the bytes; on failure, the error's text.
#[verifier::external_body]
pub(crate) fn zip_open(bytes: &[u8]) -> (r: Result<Archive, String>)
    ensures
        r is Ok == zip_opens(bytes@),
        r matches Ok(a) ==> archive_bytes(a) == bytes@,
{
    zip::ZipArchive::new(std::io::Cursor::new(bytes.to_vec())).map_err(|e| e.to_string())
}

/// `ZipArchive::len`.
#[verifier::external_body]
pub(crate) fn zip_len(a: &Archive) -> (r: usize)
    ensures
        r == zip_len_of(archive_bytes(*a)),
{
    a.len()
}

/// `ZipArchive::by_index_raw` and `ZipFile::name`: the name of entry `i`;
/// on failure, the error's text.
#[verifier::external_body]
pub(crate) fn zip_name_at(a: &mut Archive, i: usize) -> (r: Result<String, String>)
    ensures
        archive_bytes(*final(a)) == archive_bytes(*old(a)),
        match r {
            Ok(n) => zip_name_of(archive_bytes(*old(a)), i as int) == Some(n@),
            Err(_) => zip_name_of(archive_bytes(*old(a)), i as int) is None,
        },
{
    match a.by_index_raw(i) {
        Ok(f) => match f.name() {
            Ok(n) => Ok(n.to_string()),
            Err(e) => Err(e.to_string()),
        },
        Err(e) => Err(e.to_string()),
    }
}

/// `ZipArchive::by_name` with `ZipFile::encrypted` and `ZipFile::size`.
#[verifier::external_body]
pub(crate) fn zip_entry(a: &mut Archive, name: &str) -> (r: Option<(bool, u64)>)
    ensures
        archive_bytes(*final(a)) == archive_bytes(*old(a)),
        r == zip_meta(archive_bytes(*old(a)), name@),
{
    match a.by_name(name) {
        Ok(f) => Some((f.encrypted(), f.size())),
        Err(_) => None,
    }
}

/// `ZipArchive::by_name` and `Read::read_to_end`: an entry's contents; on
/// failure, the error's text.
#[verifier::external_body]
pub(crate) fn zip_read(a: &mut Archive, name: &str) -> (r: Result<Vec<u8>, String>)
    ensures
        archive_bytes(*final(a)) == archive_bytes(*old(a)),
        match r {
            Ok(b) => zip_data(archive_bytes(*old(a)), name@) == Some(b@),
            Err(_) => zip_data(archive_bytes(*old(a)), name@) is None,
        },
{
    match a.by_name(name) {
        Ok(mut f) => {
            let mut buf = Vec::new();
            match f.read_to_end(&mut buf) {
                Ok(_) => Ok(buf),
                Err(e) => Err(e.to_string()),
            }
        },
        Err(e) => Err(e.to_string()),
    }
}


// ------------------------------------------------------------------ safety limits

/// Refuses an archive with more entries than the limit.
pub fn check_entry_count(len: usize) -> (r: Result<(), OoxmlError>)
    ensures
        len <= MAX_ENTRIES ==> r is Ok,
        len > MAX_ENTRIES ==> (r matches Err(OoxmlError::TooManyEntries { limit }) && limit == MAX_ENTRIES),
{
    if len > MAX_ENTRIES {
        Err(OoxmlError::TooManyEntries { limit: MAX_ENTRIES })
    } else {
        Ok(())
    }
}

/// `a + b`, or the largest value when that overflows.
pub open spec fn sat_add(a: u64, b: u64) -> u64 {
    if a + b > u64::MAX { u64::MAX } else { (a + b) as u64 }
}

/// The total decompressed size after admitting an entry: its size counts
/// once it is found, unencrypted and within the per-part limit.
pub open spec fn admitted_total(meta: Option<(bool, u64)>, total: u64) -> u64 {
    match meta {
        Some((enc, size)) => if !enc && size <= MAX_PART_BYTES { sat_add(total, size) } else { total },
        None => total,
    }
}

/// Decides whether an entry may be read: it must exist, be unencrypted, fit
/// the per-part limit, and keep the running total within its limit.
/// Returns the new running total with the decision.
pub fn admit_part(name: &str, meta: Option<(bool, u64)>, total: u64) -> (r: (u64, Result<(), OoxmlError>))
    ensures
        r.0 == admitted_total(meta, total),
        match meta {
            None => r.1 matches Err(OoxmlError::MissingPart(p)) && p@ == name@,
            Some((enc, size)) => if enc {
                r.1 matches Err(OoxmlError::Encrypted { part }) && part@ == name@
            } else if size > MAX_PART_BYTES {
                r.1 matches Err(OoxmlError::TooLarge { part, size: s, limit }) && part@ == name@ && s == size
                    && limit == MAX_PART_BYTES
            } else if r.0 > MAX_TOTAL_BYTES {
                r.1 matches Err(OoxmlError::TooLarge { part, size: s, limit }) && part@ == name@ && s == r.0
                    && limit == MAX_TOTAL_BYTES
            } else {
                r.1 is Ok
            },
        },
{
    match meta {
        None => (total, Err(OoxmlError::MissingPart(name.to_owned()))),
        Some((enc, size)) => {
            if enc {
                return (total, Err(OoxmlError::Encrypted { part: name.to_owned() }));
            }
            if size > MAX_PART_BYTES {
                return (total, Err(OoxmlError::TooLarge { part: name.to_owned(), size, limit: MAX_PART_BYTES }));
            }
            let t = total.saturating_add(size);
            if t > MAX_TOTAL_BYTES {
                (t, Err(OoxmlError::TooLarge { part: name.to_owned(), size: t, limit: MAX_TOTAL_BYTES }))
            } else {
                (t, Ok(()))
            }
        },
    }
}

/// The relationships part of a part: `<dir>/_rels/<name>.rels`.
pub open spec fn rels_part_of(part: Seq<char>) -> Seq<char> {
    let i = last_index(part, '/');
    if i < 0 {
        "_rels/"@ + part + ".rels"@
    } else {
        part.take(i) + "/_rels/"@ + part.skip(i + 1) + ".rels"@
    }
}

/// The name of the relationships part of a part.
pub fn rels_part_name(part: &str) -> (r: String)
    ensures
        r@ == rels_part_of(part@),
{
    let v = chars_of(part);
    proof { crate::text::lemma_last_index(v@, '/'); }
    let mut out: Vec<char> = Vec::new();
    match last_of(v.as_slice(), '/') {
        None => {
            crate::text::push_str(&mut out, "_rels/");
            crate::text::push_all(&mut out, v.as_slice());
        },
        Some(i) => {
            assert(i < v.len());
            let dir = slice_vec(v.as_slice(), 0, i);
            let file = slice_vec(v.as_slice(), i + 1, v.len());
            crate::text::push_all(&mut out, dir.as_slice());
            crate::text::push_str(&mut out, "/_rels/");
            crate::text::push_all(&mut out, file.as_slice());
            assert(dir@ =~= v@.take(i as int));
            assert(file@ =~= v@.skip(i + 1));
        },
    }
    crate::text::push_str(&mut out, ".rels");
    assert(out@ =~= rels_part_of(part@));
    string_of(out.as_slice())
}

/// An attribute value, or empty text.
pub open spec fn attr_or_empty(attrs: Seq<(String, String)>, q: Seq<char>) -> Seq<char> {
    match first_attr(attrs, q) {
        Some(v) => v,
        None => Seq::empty(),
    }
}

/// The relationships of a `Relationships` root: each `Relationship` child's
/// id, type and target (empty when absent), external when its target mode
/// is `External` in any case.
pub open spec fn rels_of(cs: Seq<El>) -> Seq<(Seq<char>, Seq<char>, Seq<char>, bool)>
    decreases cs.len(),
{
    if cs.len() == 0 {
        Seq::empty()
    } else {
        let r = rels_of(cs.drop_last());
        let c = cs.last();
        if c.local@ == "Relationship"@ {
            r.push(
                (
                    attr_or_empty(c.attrs@, "Id"@),
                    attr_or_empty(c.attrs@, "Type"@),
                    attr_or_empty(c.attrs@, "Target"@),
                    lower_seq(attr_or_empty(c.attrs@, "TargetMode"@)) == "external"@,
                ),
            )
        } else {
            r
        }
    }
}

/// The plain view of a relationship.
pub open spec fn rel_view(r: Relationship) -> (Seq<char>, Seq<char>, Seq<char>, bool) {
    (r.id@, r.rel_type@, r.target@, r.external)
}

fn owned_or_empty(v: Option<&str>) -> (r: String)
    ensures
        r@ == (match v {
            Some(x) => x@,
            None => Seq::<char>::empty(),
        }),
{
    match v {
        Some(x) => x.to_owned(),
        None => String::new(),
    }
}

/// Reads the relationships of a parsed `.rels` part.
pub fn rels_from_tree(doc: &El) -> (r: Vec<Relationship>)
    ensures
        r@.map_values(|x: Relationship| rel_view(x)) == rels_of(doc.children@),
{
    let mut out: Vec<Relationship> = Vec::new();
    let mut i: usize = 0;
    while i < doc.children.len()
        invariant
            i <= doc.children.len(),
            out@.map_values(|x: Relationship| rel_view(x)) == rels_of(doc.children@.take(i as int)),
        decreases doc.children.len() - i,
    {
        let c = &doc.children[i];
        let ghost t = doc.children@.take(i + 1);
        assert(t.drop_last() =~= doc.children@.take(i as int));
        assert(t.last() == *c);
        if crate::text::str_eq(c.local.as_str(), "Relationship") {
            let mode = owned_or_empty(c.attr("TargetMode"));
            let mv = chars_of(mode.as_str());
            let low = lower_vec(mv.as_slice());
            let external = eq_str(low.as_slice(), "external");
            let rel = Relationship {
                id: owned_or_empty(c.attr("Id")),
                rel_type: owned_or_empty(c.attr("Type")),
                target: owned_or_empty(c.attr("Target")),
                external,
            };
            let ghost o0 = out@.map_values(|x: Relationship| rel_view(x));
            let ghost rv = rel_view(rel);
            out.push(rel);
            assert(out@.map_values(|x: Relationship| rel_view(x)) =~= o0.push(rv));
        }
        i = i + 1;
    }
    assert(doc.children@.take(doc.children.len() as int) =~= doc.children@);
    out
}

// ------------------------------------------------------------------ the package

/// An opened OOXML package.
pub struct OoxmlPackage {
    archive: Archive,
    content_types: ContentTypes,
    total_read: u64,
}

/// The names of the readable entries among the first `k`, in archive order.
pub open spec fn names_upto(bytes: Seq<u8>, k: nat) -> Seq<Seq<char>>
    decreases k,
{
    if k == 0 {
        Seq::empty()
    } else {
        let r = names_upto(bytes, (k - 1) as nat);
        match zip_name_of(bytes, k - 1) {
            Some(n) => r.push(n),
            None => r,
        }
    }
}

/// Whether a part exists under its name or with a leading slash.
pub open spec fn part_present(bytes: Seq<u8>, part: Seq<char>) -> bool {
    zip_meta(bytes, part) is Some || zip_meta(bytes, "/"@ + part) is Some
}

/// The entry name a safe part is read from: as given, else with a leading
/// slash.
pub open spec fn actual_name(bytes: Seq<u8>, name: Seq<char>) -> Seq<char> {
    if zip_meta(bytes, name) is Some { name } else { "/"@ + name }
}

/// The contents of the entry a part is read from.
pub open spec fn part_data(bytes: Seq<u8>, name: Seq<char>) -> Option<Seq<u8>> {
    zip_data(bytes, actual_name(bytes, name))
}

/// Whether `read_part` hands out a part with this (normalised, safe) name
/// when `total` bytes were read before: its entry is found, unencrypted,
/// within the per-part limit, keeps the running total within its limit, and
/// its contents can be read.
pub open spec fn part_admitted(bytes: Seq<u8>, total: u64, name: Seq<char>) -> bool {
    let meta = zip_meta(bytes, actual_name(bytes, name));
    &&& meta matches Some((enc, size)) && !enc && size <= MAX_PART_BYTES
    &&& admitted_total(meta, total) <= MAX_TOTAL_BYTES
    &&& part_data(bytes, name) is Some
}

/// The document element of a part as `part_tree` reads it when `total`
/// bytes were read before: the part must be admitted, and its contents
/// parse (see `xml_doc`).
pub open spec fn part_doc(bytes: Seq<u8>, total: u64, name: Seq<char>) -> Option<ElView> {
    if part_admitted(bytes, total, name) {
        xml_doc(part_data(bytes, name).unwrap())
    } else {
        None
    }
}

/// Whether the entry a part is read from is encrypted.
pub open spec fn part_encrypted(bytes: Seq<u8>, name: Seq<char>) -> bool {
    zip_meta(bytes, actual_name(bytes, name)) matches Some((enc, _)) && enc
}

/// `[Content_Types].xml` is already normalised and safe.
pub proof fn lemma_content_types_name_safe()
    ensures
        norm_name("[Content_Types].xml"@) == "[Content_Types].xml"@,
        safe_name("[Content_Types].xml"@),
{
    reveal_strlit("[Content_Types].xml");
    let s = "[Content_Types].xml"@;
    let q = s.map_values(|c: char| if c == '\\' { '/' } else { c });
    assert(q =~= s);
    assert(norm_name(s) =~= s);
    crate::text::lemma_first_index(s, '/');
    assert(!s.contains('/'));
    assert(first_index(s, '/') < 0);
    assert(split_on(s, '/') == seq![s]);
    assert(!s.contains(':'));
    assert(s != seq!['.', '.']);
    assert(!bad_segment(s));
    assert(!s.contains('\0'));
}

/// A part directly under `word/` whose file name has no separator, colon,
/// backslash or NUL and is not `..` is already normalised and safe.
pub proof fn lemma_word_part_safe(n: Seq<char>)
    requires
        n.len() > 0,
        !n.contains('/'),
        !n.contains(':'),
        !n.contains('\\'),
        !n.contains('\0'),
        n != seq!['.', '.'],
    ensures
        norm_name("word/"@ + n) == "word/"@ + n,
        safe_name("word/"@ + n),
{
    reveal_strlit("word/");
    let s = "word/"@ + n;
    let a = s.take(4);
    let b = s.skip(5);
    assert(a =~= seq!['w', 'o', 'r', 'd']);
    assert(b =~= n);
    assert(!s.contains('\\')) by {
        if s.contains('\\') {
            let j = choose|j: int| 0 <= j < s.len() && s[j] == '\\';
            if j >= 5 {
                assert(n[j - 5] == '\\');
            }
        }
    }
    assert(!s.contains('\0')) by {
        if s.contains('\0') {
            let j = choose|j: int| 0 <= j < s.len() && s[j] == '\0';
            if j >= 5 {
                assert(n[j - 5] == '\0');
            }
        }
    }
    let q = s.map_values(|c: char| if c == '\\' { '/' } else { c });
    assert(q =~= s);
    assert(norm_name(s) =~= s);
    reveal_with_fuel(first_index, 6);
    assert(first_index(s, '/') == 4);
    crate::text::lemma_first_index(b, '/');
    assert(first_index(b, '/') < 0);
    reveal_with_fuel(split_on, 3);
    assert(split_on(b, '/') == seq![b]);
    assert(split_on(s, '/') =~= seq![a, b]);
    assert(!a.contains(':'));
    assert(a != seq!['.', '.']);
    assert(bad_segment(a) == false);
    assert(bad_segment(b) == false);
}

impl OoxmlPackage {
    /// The bytes the package was opened from.
    pub closed spec fn bytes(&self) -> Seq<u8> {
        archive_bytes(self.archive)
    }

    /// Decompressed bytes read so far.
    pub closed spec fn total(&self) -> u64 {
        self.total_read
    }

    /// The content-type table: defaults and overrides.
    pub closed spec fn content_table(&self) -> (Seq<(Seq<char>, Seq<char>)>, Seq<(Seq<char>, Seq<char>)>) {
        (pairs_view(self.content_types.defaults@), pairs_view(self.content_types.overrides@))
    }

    /// Opens a package from the bytes of a ZIP archive, refusing archives
    /// over the entry limit; `[Content_Types].xml` is read when present.
    pub fn open(bytes: &[u8]) -> (r: Result<OoxmlPackage, OoxmlError>)
        ensures
            !zip_opens(bytes@) ==> r matches Err(OoxmlError::NotZip(_)),
            zip_opens(bytes@) && zip_len_of(bytes@) > MAX_ENTRIES ==> (r matches Err(
                OoxmlError::TooManyEntries { limit },
            ) && limit == MAX_ENTRIES),
            r matches Ok(p) ==> p.bytes() == bytes@ && zip_opens(bytes@) && zip_len_of(bytes@) <= MAX_ENTRIES
                && p.total() <= MAX_TOTAL_BYTES,
            !part_present(bytes@, "[Content_Types].xml"@) ==> (r matches Ok(p) ==> p.content_table().0.len() == 0
                && p.content_table().1.len() == 0),
            zip_opens(bytes@) && zip_len_of(bytes@) <= MAX_ENTRIES ==> ((r is Ok) <==> (!part_present(
                bytes@,
                "[Content_Types].xml"@,
            ) || part_doc(bytes@, 0, "[Content_Types].xml"@) is Some)),
            part_present(bytes@, "[Content_Types].xml"@) ==> (r matches Ok(p) ==> exists|doc: El|
                Some(el_view(doc)) == part_doc(bytes@, 0, "[Content_Types].xml"@) && #[trigger] p.content_table()
                    == (ct_defaults(doc.children@), ct_overrides(doc.children@))),
    {
        proof { lemma_content_types_name_safe(); }
        let archive = match zip_open(bytes) {
            Ok(a) => a,
            Err(msg) => return Err(OoxmlError::NotZip(msg)),
        };
        let n = zip_len(&archive);
        match check_entry_count(n) {
            Ok(()) => {},
            Err(e) => return Err(e),
        }
        let mut pkg = OoxmlPackage { archive, content_types: ContentTypes::new(), total_read: 0 };
        assert(pairs_view(pkg.content_types.defaults@) =~= Seq::empty());
        assert(pairs_view(pkg.content_types.overrides@) =~= Seq::empty());
        if pkg.has_part("[Content_Types].xml") {
            let doc = match pkg.part_tree("[Content_Types].xml") {
                Ok(d) => d,
                Err(e) => return Err(e),
            };
            pkg.content_types = ContentTypes::parse(&doc);
        }
        Ok(pkg)
    }

    /// The content type of a part, if the package declares one.
    pub fn content_type(&self, part: &str) -> (r: Option<String>)
        ensures
            match r {
                Some(t) => content_type_of(self.content_table().0, self.content_table().1, part@) == Some(t@),
                None => content_type_of(self.content_table().0, self.content_table().1, part@) is None,
            },
    {
        match self.content_types.of(part) {
            Some(t) => Some(t.to_owned()),
            None => None,
        }
    }

    /// The names of the entries, in archive order (unreadable entries are
    /// left out).
    pub fn part_names(&mut self) -> (r: Vec<String>)
        ensures
            final(self).bytes() == old(self).bytes(),
            final(self).total() == old(self).total(),
            final(self).content_table() == old(self).content_table(),
            r@.map_values(|s: String| s@) == names_upto(old(self).bytes(), zip_len_of(old(self).bytes())),
    {
        let n = zip_len(&self.archive);
        let ghost b = archive_bytes(self.archive);
        let mut names: Vec<String> = Vec::new();
        let mut i: usize = 0;
        while i < n
            invariant
                i <= n,
                n == zip_len_of(b),
                archive_bytes(self.archive) == b,
                self.total_read == old(self).total_read,
                self.content_types == old(self).content_types,
                b == archive_bytes(old(self).archive),
                names@.map_values(|s: String| s@) == names_upto(b, i as nat),
            decreases n - i,
        {
            let ghost before = names@.map_values(|s: String| s@);
            match zip_name_at(&mut self.archive, i) {
                Ok(name) => {
                    names.push(name);
                    assert(names@.map_values(|s: String| s@) =~= before.push(name@));
                },
                Err(_) => {},
            }
            i = i + 1;
        }
        names
    }

    /// Whether the package holds a part (under its name or with a leading
    /// slash) that can be opened.
    pub fn has_part(&mut self, part: &str) -> (r: bool)
        ensures
            final(self).bytes() == old(self).bytes(),
            final(self).total() == old(self).total(),
            final(self).content_table() == old(self).content_table(),
            r == part_present(old(self).bytes(), part@),
    {
        if zip_entry(&mut self.archive, part).is_some() {
            return true;
        }
        let mut v: Vec<char> = Vec::new();
        v.push('/');
        crate::text::push_str(&mut v, part);
        let slashed = string_of(v.as_slice());
        proof { reveal_strlit("/"); }
        assert(slashed@ =~= "/"@ + part@);
        zip_entry(&mut self.archive, slashed.as_str()).is_some()
    }

    /// Reads a part under the safety rules: the name must be safe, the entry
    /// present, unencrypted and within the size limits (the running total
    /// counts every admitted size).
    pub fn read_part(&mut self, part: &str) -> (r: Result<Vec<u8>, OoxmlError>)
        ensures
            final(self).bytes() == old(self).bytes(),
            final(self).content_table() == old(self).content_table(),
            !safe_name(norm_name(part@)) ==> (r matches Err(OoxmlError::UnsafeName(m)) && m@ == part@)
                && final(self).total() == old(self).total(),
            safe_name(norm_name(part@)) ==> ({
                let name = norm_name(part@);
                let actual = actual_name(old(self).bytes(), name);
                let meta = zip_meta(old(self).bytes(), actual);
                &&& final(self).total() == admitted_total(meta, old(self).total())
                &&& r is Ok ==> (meta matches Some((enc, size)) && !enc && size <= MAX_PART_BYTES
                    && final(self).total() <= MAX_TOTAL_BYTES)
                &&& r matches Ok(b) ==> zip_data(old(self).bytes(), actual) == Some(b@)
                &&& meta is None ==> (r matches Err(OoxmlError::MissingPart(p)) && p@ == name)
                &&& (meta matches Some((enc, _)) && enc) ==> (r matches Err(OoxmlError::Encrypted { part: p })
                    && p@ == name)
                &&& (meta matches Some((enc, size)) && !enc && size <= MAX_PART_BYTES
                    && final(self).total() <= MAX_TOTAL_BYTES) ==> (r is Ok <==> zip_data(
                    old(self).bytes(),
                    actual,
                ) is Some)
            }),
    {
        let name = match sanitize_part_name(part) {
            Ok(n) => n,
            Err(e) => return Err(e),
        };
        let ghost b = archive_bytes(self.archive);
        let actual = match zip_entry(&mut self.archive, name.as_str()) {
            Some(_) => name.clone(),
            None => {
                let mut v: Vec<char> = Vec::new();
                v.push('/');
                crate::text::push_str(&mut v, name.as_str());
                proof { reveal_strlit("/"); }
                assert(v@ =~= "/"@ + name@);
                string_of(v.as_slice())
            },
        };
        let meta = zip_entry(&mut self.archive, actual.as_str());
        let (total, verdict) = admit_part(name.as_str(), meta, self.total_read);
        self.total_read = total;
        match verdict {
            Ok(()) => {},
            Err(e) => return Err(e),
        }
        match zip_read(&mut self.archive, actual.as_str()) {
            Ok(bytes) => Ok(bytes),
            Err(msg) => Err(OoxmlError::Io(msg)),
        }
    }

    /// Reads and parses an XML part.
    pub fn part_tree(&mut self, part: &str) -> (r: Result<El, OoxmlError>)
        ensures
            final(self).bytes() == old(self).bytes(),
            final(self).content_table() == old(self).content_table(),
            !safe_name(norm_name(part@)) ==> (r matches Err(OoxmlError::UnsafeName(m)) && m@ == part@),
            safe_name(norm_name(part@)) ==> final(self).total() == admitted_total(
                zip_meta(old(self).bytes(), actual_name(old(self).bytes(), norm_name(part@))),
                old(self).total(),
            ),
            !safe_name(norm_name(part@)) ==> final(self).total() == old(self).total(),
            safe_name(norm_name(part@)) ==> ({
                let name = norm_name(part@);
                &&& (r is Ok) == (part_doc(old(self).bytes(), old(self).total(), name) is Some)
                &&& r matches Ok(t) ==> Some(el_view(t)) == part_doc(old(self).bytes(), old(self).total(), name)
                &&& part_encrypted(old(self).bytes(), name) ==> (r matches Err(OoxmlError::Encrypted { part: p })
                    && p@ == name)
            }),
    {
        let bytes = match self.read_part(part) {
            Ok(b) => b,
            Err(e) => return Err(e),
        };
        parse_xml(part, bytes.as_slice())
    }

    /// The relationships of a part, read from its `.rels` part (none when
    /// that part is absent).
    pub fn rels(&mut self, part: &str) -> (r: Result<Vec<Relationship>, OoxmlError>)
        ensures
            final(self).bytes() == old(self).bytes(),
            final(self).content_table() == old(self).content_table(),
            !part_present(old(self).bytes(), rels_part_of(part@)) ==> (r matches Ok(v) && v@.len() == 0)
                && final(self).total() == old(self).total(),
            part_present(old(self).bytes(), rels_part_of(part@)) && safe_name(norm_name(rels_part_of(part@)))
                ==> ({
                let name = norm_name(rels_part_of(part@));
                &&& final(self).total() == admitted_total(
                    zip_meta(old(self).bytes(), actual_name(old(self).bytes(), name)),
                    old(self).total(),
                )
                &&& (r is Ok) == (part_doc(old(self).bytes(), old(self).total(), name) is Some)
                &&& r matches Ok(v) ==> exists|doc: El|
                    Some(el_view(doc)) == part_doc(old(self).bytes(), old(self).total(), name)
                        && #[trigger] rels_of(doc.children@) == v@.map_values(|x: Relationship| rel_view(x))
                &&& part_encrypted(old(self).bytes(), name) ==> (r matches Err(OoxmlError::Encrypted { part: p })
                    && p@ == name)
            }),
            part_present(old(self).bytes(), rels_part_of(part@)) && !safe_name(norm_name(rels_part_of(part@)))
                ==> (r matches Err(OoxmlError::UnsafeName(m)) && m@ == rels_part_of(part@)),
    {
        let rels_part = rels_part_name(part);
        if !self.has_part(rels_part.as_str()) {
            return Ok(Vec::new());
        }
        let doc = match self.part_tree(rels_part.as_str()) {
            Ok(d) => d,
            Err(e) => return Err(e),
        };
        Ok(rels_from_tree(&doc))
    }
}

} // verus!
