//! The style sheet of `word/styles.xml`: run flags, document defaults, the
//! styles in order of appearance with their `basedOn` chains, heading levels
//! and the deterministic theme slugs assigned to style names.

use vstd::prelude::*;
use crate::ooxml::xml::{
    attr_opt, child_of, child_opt, deref_opt, el_is, first_attr, int_opt, opt_attr, opt_child, opt_owned,
    opt_parse_i64, parse_opt, string_opt, el_view, El,
};
use crate::ooxml::error::OoxmlError;
use crate::ooxml::package::{
    actual_name, admitted_total, lemma_word_part_safe, part_doc, part_encrypted, part_present, zip_meta,
    OoxmlPackage,
};
use crate::text::{chars_of, dec, dec_int, digits_val, string_of, has_prefix, is_digit, is_lower, lower_seq, lower_vec, parse_int, trim_seq};
use vstd::set_lib::{lemma_int_range, lemma_len_subset, lemma_map_size, set_int_range};
use vstd::relations::injective_on;

verus! {

// ------------------------------------------------------------------ run flags

/// Character formatting switches of a run.
#[derive(Debug, Clone, Copy, PartialEq, Eq, Structural)]
pub struct RunFlags {
    pub bold: bool,
    pub italic: bool,
    pub underline: bool,
    pub strike: bool,
}

/// No switch on.
pub open spec fn plain_flags() -> RunFlags {
    RunFlags { bold: false, italic: false, underline: false, strike: false }
}

impl Default for RunFlags {
    fn default() -> (r: Self)
        ensures
            r == plain_flags(),
    {
        RunFlags { bold: false, italic: false, underline: false, strike: false }
    }
}

impl RunFlags {
    /// No switch is on.
    pub fn is_plain(self) -> (r: bool)
        ensures
            r == (self == plain_flags()),
    {
        !self.bold && !self.italic && !self.underline && !self.strike
    }
}

/// A `w:val` that switches a toggle property off.
pub open spec fn val_off(v: Seq<char>) -> bool {
    v == "false"@ || v == "0"@ || v == "none"@
}

/// A toggle element is on when present, unless its `w:val` switches it off.
pub open spec fn flag_on(e: Option<El>) -> bool {
    match e {
        None => false,
        Some(x) => match first_attr(x.attrs@, "w:val"@) {
            None => true,
            Some(v) => !val_off(v),
        },
    }
}

/// The run flags that an `rPr` element sets.
pub open spec fn run_flags_of(rpr: El) -> RunFlags {
    RunFlags {
        bold: flag_on(child_of(rpr, "w"@, "b"@)),
        italic: flag_on(child_of(rpr, "w"@, "i"@)),
        underline: flag_on(child_of(rpr, "w"@, "u"@)),
        strike: flag_on(child_of(rpr, "w"@, "strike"@)) || flag_on(child_of(rpr, "w"@, "dstrike"@)),
    }
}

fn toggle_on(e: Option<&El>) -> (r: bool)
    ensures
        r == flag_on(deref_opt(e)),
{
    match e {
        None => false,
        Some(x) => match x.attr("w:val") {
            None => true,
            Some(v) => {
                let off = crate::text::str_eq(v, "false") || crate::text::str_eq(v, "0")
                    || crate::text::str_eq(v, "none");
                !off
            },
        },
    }
}

/// The run flags of an `rPr` element (`w:val` of `false`, `0` or `none`
/// switches a property off).
pub fn parse_run_flags(rpr: &El) -> (r: RunFlags)
    ensures
        r == run_flags_of(*rpr),
{
    let bold = toggle_on(rpr.child("w", "b"));
    let italic = toggle_on(rpr.child("w", "i"));
    let underline = toggle_on(rpr.child("w", "u"));
    let strike = toggle_on(rpr.child("w", "strike")) || toggle_on(rpr.child("w", "dstrike"));
    RunFlags { bold, italic, underline, strike }
}

// ------------------------------------------------------------------ document defaults

/// Default run font and size of the document.
#[derive(Debug)]
pub struct DocDefaults {
    pub font: Option<String>,
    /// In half points.
    pub size_half_points: Option<i64>,
}

impl Default for DocDefaults {
    fn default() -> (r: Self)
        ensures
            r.font is None,
            r.size_half_points is None,
    {
        DocDefaults { font: None, size_half_points: None }
    }
}

/// The `rPr` under `w:rPrDefault` of a `w:docDefaults` element.
pub open spec fn default_rpr(dd: El) -> Option<El> {
    child_opt(child_of(dd, "w"@, "rPrDefault"@), "w"@, "rPr"@)
}

/// The ASCII font an optional `rPr` names.
pub open spec fn rpr_font(rpr: Option<El>) -> Option<Seq<char>> {
    attr_opt(child_opt(rpr, "w"@, "rFonts"@), "w:ascii"@)
}

/// The size in half points an optional `rPr` gives.
pub open spec fn rpr_size(rpr: Option<El>) -> Option<int> {
    parse_opt(attr_opt(child_opt(rpr, "w"@, "sz"@), "w:val"@))
}

/// Reads `w:docDefaults`.
pub fn parse_doc_defaults(dd: &El) -> (r: DocDefaults)
    ensures
        string_opt(r.font) == rpr_font(default_rpr(*dd)),
        int_opt(r.size_half_points) == rpr_size(default_rpr(*dd)),
{
    let rpr = opt_child(dd.child("w", "rPrDefault"), "w", "rPr");
    let font = opt_owned(opt_attr(opt_child(rpr, "w", "rFonts"), "w:ascii"));
    let size = opt_parse_i64(opt_attr(opt_child(rpr, "w", "sz"), "w:val"));
    DocDefaults { font, size_half_points: size }
}

/// Page size and margins, in twips.
#[derive(Debug, Default)]
pub struct PageProps {
    pub width: i64,
    pub height: i64,
    pub margin_top: i64,
    pub margin_right: i64,
    pub margin_bottom: i64,
    pub margin_left: i64,
}


// ------------------------------------------------------------------ styles

/// One style of the style sheet.
#[derive(Debug)]
pub struct StyleInfo {
    pub style_id: String,
    pub name: String,
    /// `paragraph`, `character`, `table` or `numbering`.
    pub kind: String,
    pub is_default: bool,
    pub outline_level: Option<i64>,
    pub based_on: Option<String>,
    pub flags: RunFlags,
    pub font: Option<String>,
    /// In half points.
    pub size_half_points: Option<i64>,
    /// The theme name assigned to the style.
    pub slug: String,
}

/// The style sheet. `by_id` holds each style id once, in order of
/// appearance; `order` lists the ids as they appear in `styles.xml`.
#[derive(Debug)]
pub struct Styles {
    pub by_id: Vec<StyleInfo>,
    pub order: Vec<String>,
    pub defaults: DocDefaults,
    /// The default paragraph style (`w:default="1"`).
    pub default_paragraph: Option<String>,
}

/// Index of the style with this id, or -1.
pub open spec fn style_index(ss: Seq<StyleInfo>, id: Seq<char>) -> int
    decreases ss.len(),
{
    if ss.len() == 0 {
        -1
    } else if ss.last().style_id@ == id {
        ss.len() - 1
    } else {
        style_index(ss.drop_last(), id)
    }
}

/// The style with this id.
pub open spec fn style_of(ss: Seq<StyleInfo>, id: Seq<char>) -> Option<StyleInfo> {
    let i = style_index(ss, id);
    if 0 <= i < ss.len() {
        Some(ss[i])
    } else {
        None
    }
}

/// A heading level 1..=6 read from digits after a prefix, trimmed.
pub open spec fn level_in(rest: Seq<char>) -> Option<int> {
    match parse_int(trim_seq(rest)) {
        Some(n) => if 1 <= n <= 6 { Some(n) } else { None },
        None => None,
    }
}

/// The heading level of a style: its outline level 0..=5 as 1..=6, else a
/// name `heading N`, else an id `HeadingN` (case-insensitive, N in 1..=6).
pub open spec fn heading_of(info: StyleInfo) -> Option<int> {
    let by_name = if has_prefix(lower_seq(info.name@), "heading "@) {
        level_in(lower_seq(info.name@).skip(8))
    } else {
        None
    };
    let by_id = if has_prefix(lower_seq(info.style_id@), "heading"@) {
        level_in(lower_seq(info.style_id@).skip(7))
    } else {
        None
    };
    match info.outline_level {
        Some(l) if 0 <= l <= 5 => Some(l + 1),
        _ => if by_name is Some { by_name } else { by_id },
    }
}

/// The effective formatting accumulated along a `basedOn` chain.
pub struct Effective {
    pub flags: RunFlags,
    pub font: Option<Seq<char>>,
    pub size: Option<int>,
}

/// A style's contribution: flags add up, the nearest font and size win.
pub open spec fn merge(acc: Effective, info: StyleInfo) -> Effective {
    Effective {
        flags: RunFlags {
            bold: acc.flags.bold || info.flags.bold,
            italic: acc.flags.italic || info.flags.italic,
            underline: acc.flags.underline || info.flags.underline,
            strike: acc.flags.strike || info.flags.strike,
        },
        font: if acc.font is None { string_opt(info.font) } else { acc.font },
        size: if acc.size is None { int_opt(info.size_half_points) } else { acc.size },
    }
}

/// Follows the chain from `cur` for at most `hops` styles.
pub open spec fn follow(ss: Seq<StyleInfo>, cur: Option<Seq<char>>, hops: nat, acc: Effective) -> Effective
    decreases hops,
{
    match cur {
        None => acc,
        Some(id) => if hops == 0 {
            acc
        } else {
            match style_of(ss, id) {
                None => acc,
                Some(info) => follow(ss, string_opt(info.based_on), (hops - 1) as nat, merge(acc, info)),
            }
        },
    }
}

/// Longest `basedOn` chain followed; guards against cycles.
pub const MAX_BASED_ON_HOPS: usize = 16;

/// The effective flags, font and size of a style.
pub open spec fn effective_of(ss: Seq<StyleInfo>, id: Seq<char>) -> Effective {
    follow(ss, Some(id), MAX_BASED_ON_HOPS as nat, Effective { flags: plain_flags(), font: None, size: None })
}

fn trim_level(rest: &[char]) -> (r: Option<i64>)
    ensures
        int_opt(r) == level_in(rest@),
{
    let t = crate::text::trim(rest);
    match crate::text::parse_i64(t.as_slice()) {
        Some(n) => if 1 <= n && n <= 6 { Some(n) } else { None },
        None => None,
    }
}

impl Styles {
    /// The style with this id.
    pub fn get(&self, style_id: &str) -> (r: Option<&StyleInfo>)
        ensures
            match r {
                Some(i) => style_of(self.by_id@, style_id@) == Some(*i),
                None => style_of(self.by_id@, style_id@) is None,
            },
    {
        let mut i: usize = self.by_id.len();
        assert(self.by_id@.take(i as int) =~= self.by_id@);
        while i > 0
            invariant
                i <= self.by_id.len(),
                style_index(self.by_id@, style_id@) == style_index(self.by_id@.take(i as int), style_id@),
            decreases i,
        {
            let ghost t = self.by_id@.take(i as int);
            assert(t.drop_last() =~= self.by_id@.take(i - 1));
            if crate::text::str_eq(self.by_id[i - 1].style_id.as_str(), style_id) {
                proof { lemma_style_index_bound(t, style_id@); }
                return Some(&self.by_id[i - 1]);
            }
            i = i - 1;
        }
        None
    }

    /// The heading level of a style, if it is a heading style.
    pub fn heading_level(&self, style_id: &str) -> (r: Option<i64>)
        ensures
            int_opt(r) == match style_of(self.by_id@, style_id@) {
                Some(info) => heading_of(info),
                None => None,
            },
    {
        let info = match self.get(style_id) {
            Some(x) => x,
            None => return None,
        };
        if let Some(l) = info.outline_level {
            if 0 <= l && l <= 5 {
                return Some(l + 1);
            }
        }
        proof {
            reveal_strlit("heading ");
            reveal_strlit("heading");
        }
        let name = chars_of(info.name.as_str());
        let lower = lower_vec(name.as_slice());
        let prefix1 = chars_of("heading ");
        if crate::text::starts_with(lower.as_slice(), prefix1.as_slice()) {
            let rest = crate::text::slice_vec(lower.as_slice(), 8, lower.len());
            assert(rest@ =~= lower@.skip(8));
            if let Some(n) = trim_level(rest.as_slice()) {
                return Some(n);
            }
        }
        let id = chars_of(info.style_id.as_str());
        let id_lower = lower_vec(id.as_slice());
        let prefix2 = chars_of("heading");
        if crate::text::starts_with(id_lower.as_slice(), prefix2.as_slice()) {
            let rest = crate::text::slice_vec(id_lower.as_slice(), 7, id_lower.len());
            assert(rest@ =~= id_lower@.skip(7));
            return trim_level(rest.as_slice());
        }
        None
    }

    /// Run flags, font and size of a style with what it inherits along its
    /// `basedOn` chain (at most sixteen styles, so a cycle ends).
    pub fn resolve_effective(&self, style_id: &str) -> (r: (RunFlags, Option<String>, Option<i64>))
        ensures
            ({
                let e = effective_of(self.by_id@, style_id@);
                r.0 == e.flags && string_opt(r.1) == e.font && int_opt(r.2) == e.size
            }),
    {
        let mut flags = RunFlags::default();
        let mut font: Option<String> = None;
        let mut size: Option<i64> = None;
        let mut cur: Option<String> = Some(style_id.to_owned());
        let mut hops: usize = 0;
        let ghost target = effective_of(self.by_id@, style_id@);
        loop
            invariant
                hops <= MAX_BASED_ON_HOPS,
                follow(
                    self.by_id@,
                    string_opt(cur),
                    (MAX_BASED_ON_HOPS - hops) as nat,
                    Effective { flags, font: string_opt(font), size: int_opt(size) },
                ) == target,
            ensures
                (Effective { flags, font: string_opt(font), size: int_opt(size) }) == target,
            decreases MAX_BASED_ON_HOPS - hops,
        {
            let id = match cur {
                Some(x) => x,
                None => break,
            };
            if hops >= MAX_BASED_ON_HOPS {
                break;
            }
            let info = match self.get(id.as_str()) {
                Some(x) => x,
                None => break,
            };
            hops = hops + 1;
            if info.flags.bold {
                flags.bold = true;
            }
            if info.flags.italic {
                flags.italic = true;
            }
            if info.flags.underline {
                flags.underline = true;
            }
            if info.flags.strike {
                flags.strike = true;
            }
            if font.is_none() {
                font = match &info.font {
                    Some(f) => Some(f.clone()),
                    None => None,
                };
            }
            if size.is_none() {
                size = info.size_half_points;
            }
            cur = match &info.based_on {
                Some(b) => Some(b.clone()),
                None => None,
            };
        }
        (flags, font, size)
    }
}

proof fn lemma_style_index_bound(ss: Seq<StyleInfo>, id: Seq<char>)
    ensures
        -1 <= style_index(ss, id) < ss.len(),
        style_index(ss, id) >= 0 ==> ss[style_index(ss, id)].style_id@ == id,
    decreases ss.len(),
{
    if ss.len() > 0 && ss.last().style_id@ != id {
        lemma_style_index_bound(ss.drop_last(), id);
    }
}


// ------------------------------------------------------------------ theme slugs

/// A lower-case letter or digit stays; anything else becomes `-`.
pub open spec fn slug_char(c: char) -> char {
    if is_lower(c) || is_digit(c) {
        c
    } else {
        '-'
    }
}

/// Drops leading dashes.
pub open spec fn strip_lead(s: Seq<char>) -> Seq<char>
    decreases s.len(),
{
    if s.len() > 0 && s[0] == '-' {
        strip_lead(s.drop_first())
    } else {
        s
    }
}

/// Drops trailing dashes.
pub open spec fn strip_trail(s: Seq<char>) -> Seq<char>
    decreases s.len(),
{
    if s.len() > 0 && s.last() == '-' {
        strip_trail(s.drop_last())
    } else {
        s
    }
}

/// The slug a style name gives before any fallback: ASCII lower-cased,
/// every other character a dash, outer dashes removed.
pub open spec fn slug_base(name: Seq<char>) -> Seq<char> {
    strip_trail(strip_lead(lower_seq(name).map_values(|c: char| slug_char(c))))
}

/// The fallback slug `style-<k>`.
pub open spec fn style_name(k: nat) -> Seq<char> {
    seq!['s', 't', 'y', 'l', 'e', '-'] + dec(k)
}

/// The textual views of a list of strings.
pub open spec fn strs_view(v: Seq<String>) -> Seq<Seq<char>> {
    v.map_values(|x: String| x@)
}

/// A base slug that can be used as it stands: non-empty, starting with a
/// lower-case letter, and not taken yet.
pub open spec fn slug_usable(base: Seq<char>, used: Seq<Seq<char>>) -> bool {
    base.len() > 0 && is_lower(base[0]) && !used.contains(base)
}

/// Every fallback slug up to `style-<k>` is taken.
pub open spec fn taken_upto(used: Seq<Seq<char>>, k: nat) -> bool {
    forall|j: nat| 0 < j <= k ==> used.contains(#[trigger] style_name(j))
}

/// `k` is the first number after `from` whose fallback slug is free.
pub open spec fn first_free(used: Seq<Seq<char>>, from: nat, k: nat) -> bool {
    &&& from < k
    &&& !used.contains(style_name(k))
    &&& forall|j: nat| from < j < k ==> used.contains(#[trigger] style_name(j))
}

proof fn lemma_dec_value(n: nat)
    ensures
        digits_val(dec(n)) == n,
    decreases n,
{
    if n >= 10 {
        lemma_dec_value(n / 10);
        let d = dec(n / 10);
        let c = (('0' as nat) + n % 10) as char;
        assert(c as nat == ('0' as nat) + n % 10);
        assert(dec(n) == d.push(c));
        assert(d.push(c).drop_last() =~= d);
        assert(d.push(c).last() == c);
        assert(digits_val(d.push(c)) == 10 * digits_val(d) + ((c as nat) - ('0' as nat)) as nat);
        assert(10 * (n / 10) + n % 10 == n);
    } else {
        let c = (('0' as nat) + n) as char;
        assert(c as nat == ('0' as nat) + n);
        assert(dec(n) == seq![c]);
        assert(seq![c].drop_last() =~= Seq::<char>::empty());
        assert(seq![c].last() == c);
        assert(digits_val(seq![c]) == 10 * digits_val(Seq::<char>::empty()) + ((c as nat) - ('0' as nat)) as nat);
    }
}

proof fn lemma_style_name_injective(a: nat, b: nat)
    requires
        style_name(a) == style_name(b),
    ensures
        a == b,
{
    let p = seq!['s', 't', 'y', 'l', 'e', '-'];
    assert(style_name(a).skip(6) =~= dec(a));
    assert(style_name(b).skip(6) =~= dec(b));
    lemma_dec_value(a);
    lemma_dec_value(b);
}

/// If every fallback slug for `a < j <= b` is taken, there are at least
/// `b - a` taken slugs.
proof fn lemma_taken_range(used: Seq<Seq<char>>, a: nat, b: nat)
    requires
        a <= b,
        forall|j: nat| a < j <= b ==> used.contains(#[trigger] style_name(j)),
    ensures
        b - a <= used.len(),
{
    let lo: int = (a + 1) as int;
    let hi: int = (b + 1) as int;
    let r = set_int_range(lo, hi);
    lemma_int_range(lo, hi);
    let f = |j: int| style_name(j as nat);
    assert(injective_on(f, r)) by {
        assert forall|x1: int, x2: int| r.contains(x1) && r.contains(x2) && #[trigger] f(x1) == #[trigger] f(x2)
            implies x1 == x2 by {
            lemma_style_name_injective(x1 as nat, x2 as nat);
        }
    }
    let img = r.map(f);
    lemma_map_size(r, img, f);
    let u = used.to_set();
    assert(img.subset_of(u)) by {
        assert forall|x: Seq<char>| img.contains(x) implies u.contains(x) by {
            let j = choose|j: int| r.contains(j) && f(j) == x;
            assert(used.contains(style_name(j as nat)));
        }
    }
    used.lemma_cardinality_of_set();
    lemma_len_subset(img, u);
}

fn contains_str(used: &Vec<String>, s: &[char]) -> (r: bool)
    ensures
        r == strs_view(used@).contains(s@),
{
    let ghost v = strs_view(used@);
    let mut i: usize = 0;
    while i < used.len()
        invariant
            i <= used.len(),
            v == strs_view(used@),
            forall|j: int| 0 <= j < i ==> v[j] != s@,
        decreases used.len() - i,
    {
        if crate::text::eq_str(s, used[i].as_str()) {
            assert(v[i as int] == s@);
            return true;
        }
        i = i + 1;
    }
    assert(!v.contains(s@)) by {
        if v.contains(s@) {
            let j = choose|j: int| 0 <= j < v.len() && v[j] == s@;
        }
    }
    false
}

fn slug_base_of(name: &str) -> (r: Vec<char>)
    ensures
        r@ == slug_base(name@),
{
    let v = chars_of(name);
    let low = lower_vec(v.as_slice());
    let ghost mapped = low@.map_values(|c: char| slug_char(c));
    let mut m: Vec<char> = Vec::new();
    let mut i: usize = 0;
    while i < low.len()
        invariant
            i <= low.len(),
            mapped == low@.map_values(|c: char| slug_char(c)),
            m@ == mapped.take(i as int),
        decreases low.len() - i,
    {
        let c = low[i];
        m.push(if ('a' <= c && c <= 'z') || ('0' <= c && c <= '9') { c } else { '-' });
        i = i + 1;
        assert(m@ =~= mapped.take(i as int));
    }
    assert(mapped.take(low.len() as int) =~= mapped);
    let mut a: usize = 0;
    assert(m@.skip(0) =~= m@);
    while a < m.len() && m[a] == '-'
        invariant
            a <= m.len(),
            strip_lead(m@.skip(a as int)) == strip_lead(m@),
        decreases m.len() - a,
    {
        assert(m@.skip(a as int).drop_first() =~= m@.skip(a + 1));
        a = a + 1;
    }
    let mid = crate::text::slice_vec(m.as_slice(), a, m.len());
    assert(mid@ =~= m@.skip(a as int));
    let mut b: usize = mid.len();
    assert(mid@.take(b as int) =~= mid@);
    while b > 0 && mid[b - 1] == '-'
        invariant
            b <= mid.len(),
            strip_trail(mid@.take(b as int)) == strip_trail(mid@),
        decreases b,
    {
        assert(mid@.take(b as int).drop_last() =~= mid@.take(b - 1));
        b = b - 1;
    }
    let r = crate::text::slice_vec(mid.as_slice(), 0, b);
    assert(r@ =~= mid@.take(b as int));
    r
}

fn style_name_of(k: usize) -> (r: Vec<char>)
    ensures
        r@ == style_name(k as nat),
{
    let mut r: Vec<char> = Vec::new();
    r.push('s');
    r.push('t');
    r.push('y');
    r.push('l');
    r.push('e');
    r.push('-');
    let d = crate::text::fmt_u64(k as u64);
    crate::text::push_all(&mut r, d.as_slice());
    assert(r@ =~= style_name(k as nat));
    r
}

/// A character the theme schema allows in a style name.
pub open spec fn slug_class(c: char) -> bool {
    is_lower(c) || is_digit(c) || c == '-'
}

/// A name of the theme schema: `^[a-z][a-z0-9-]*$`.
pub open spec fn theme_name_ok(s: Seq<char>) -> bool {
    s.len() > 0 && is_lower(s[0]) && forall|i: int| 0 <= i < s.len() ==> slug_class(#[trigger] s[i])
}

proof fn lemma_strip_class(s: Seq<char>)
    requires
        forall|i: int| 0 <= i < s.len() ==> slug_class(#[trigger] s[i]),
    ensures
        forall|i: int| 0 <= i < strip_lead(s).len() ==> slug_class(#[trigger] strip_lead(s)[i]),
        forall|i: int| 0 <= i < strip_trail(s).len() ==> slug_class(#[trigger] strip_trail(s)[i]),
    decreases s.len(),
{
    if s.len() > 0 {
        let a = s.drop_first();
        let b = s.drop_last();
        assert forall|i: int| 0 <= i < a.len() implies slug_class(#[trigger] a[i]) by {
            assert(a[i] == s[i + 1]);
        }
        assert forall|i: int| 0 <= i < b.len() implies slug_class(#[trigger] b[i]) by {
            assert(b[i] == s[i]);
        }
        lemma_strip_class(a);
        lemma_strip_class(b);
        if s[0] == '-' {
            assert(strip_lead(s) == strip_lead(a));
        } else {
            assert(strip_lead(s) == s);
        }
        if s.last() == '-' {
            assert(strip_trail(s) == strip_trail(b));
        } else {
            assert(strip_trail(s) == s);
        }
    } else {
        assert(strip_lead(s) == s);
        assert(strip_trail(s) == s);
    }
}

proof fn lemma_slug_base_class(name: Seq<char>)
    ensures
        forall|i: int| 0 <= i < slug_base(name).len() ==> slug_class(#[trigger] slug_base(name)[i]),
{
    let m = lower_seq(name).map_values(|c: char| slug_char(c));
    assert forall|i: int| 0 <= i < m.len() implies slug_class(#[trigger] m[i]) by {}
    lemma_strip_class(m);
    lemma_strip_class(strip_lead(m));
}

proof fn lemma_dec_digits(n: nat)
    ensures
        dec(n).len() > 0,
        forall|i: int| 0 <= i < dec(n).len() ==> is_digit(#[trigger] dec(n)[i]),
    decreases n,
{
    if n >= 10 {
        lemma_dec_digits(n / 10);
        let d = dec(n / 10);
        let c = (('0' as nat) + n % 10) as char;
        assert(dec(n) == d.push(c));
        assert forall|i: int| 0 <= i < dec(n).len() implies is_digit(#[trigger] dec(n)[i]) by {
            if i < d.len() {
                assert(dec(n)[i] == d[i]);
            }
        }
    }
}

proof fn lemma_strip_trail_end(s: Seq<char>)
    ensures
        strip_trail(s).len() > 0 ==> strip_trail(s).last() != '-',
    decreases s.len(),
{
    if s.len() > 0 && s.last() == '-' {
        lemma_strip_trail_end(s.drop_last());
    }
}

/// Every slug follows the theme schema's name pattern, never ends with a
/// dash, and is new: a taken name always falls back to a numbered one.
pub proof fn law_slug_fits_theme_schema(name: Seq<char>, used: Seq<Seq<char>>, from: nat, k: nat)
    requires
        !slug_usable(slug_base(name), used) ==> first_free(used, from, k),
    ensures
        ({
            let r = if slug_usable(slug_base(name), used) { slug_base(name) } else { style_name(k) };
            theme_name_ok(r) && !used.contains(r) && r.last() != '-'
        }),
{
    if slug_usable(slug_base(name), used) {
        lemma_slug_base_class(name);
        lemma_strip_trail_end(strip_lead(lower_seq(name).map_values(|c: char| slug_char(c))));
    } else {
        lemma_dec_digits(k);
        let r = style_name(k);
        assert(r.last() == dec(k)[dec(k).len() - 1]);
        assert forall|i: int| 0 <= i < r.len() implies slug_class(#[trigger] r[i]) by {
            if i >= 6 {
                assert(r[i] == dec(k)[i - 6]);
            }
        }
    }
}

/// Assigns the theme slug of a style name: the name lower-cased with every
/// character other than `a-z` and `0-9` made a dash and outer dashes
/// removed, if that is non-empty, starts with a letter and is not taken;
/// else `style-<k>` for the first `k` after `seq` that is not taken (and
/// `seq` becomes `k`). The slug is recorded as taken.
pub fn assign_slug(name: &str, used: &mut Vec<String>, seq: &mut usize) -> (r: String)
    requires
        slug_usable(slug_base(name@), strs_view(old(used)@))
            || *old(seq) + old(used)@.len() + 1 <= usize::MAX
            || (taken_upto(strs_view(old(used)@), *old(seq) as nat) && old(used)@.len() < usize::MAX),
    ensures
        taken_upto(strs_view(old(used)@), *old(seq) as nat) ==> taken_upto(
            strs_view(final(used)@),
            *final(seq) as nat,
        ),
        strs_view(final(used)@) == strs_view(old(used)@).push(r@),
        slug_usable(slug_base(name@), strs_view(old(used)@)) ==> r@ == slug_base(name@)
            && *final(seq) == *old(seq),
        !slug_usable(slug_base(name@), strs_view(old(used)@)) ==> r@ == style_name(*final(seq) as nat)
            && first_free(strs_view(old(used)@), *old(seq) as nat, *final(seq) as nat),
{
    let ghost u = strs_view(used@);
    let ghost s0 = *seq;
    let base = slug_base_of(name);
    let usable = base.len() > 0 && 'a' <= base[0] && base[0] <= 'z' && !contains_str(used, base.as_slice());
    let slug = if usable {
        base
    } else {
        proof {
            if taken_upto(u, s0 as nat) {
                lemma_taken_range(u, 0, s0 as nat);
            }
        }
        loop
            invariant_except_break
                s0 <= *seq <= s0 + u.len(),
                forall|j: nat| s0 < j <= *seq ==> u.contains(#[trigger] style_name(j)),
                taken_upto(u, s0 as nat) ==> *seq <= u.len(),
            invariant
                s0 + u.len() + 1 <= usize::MAX || (taken_upto(u, s0 as nat) && u.len() < usize::MAX),
                u == strs_view(used@),
            ensures
                s0 < *seq,
                first_free(u, s0 as nat, *seq as nat),
            decreases s0 + u.len() + 1 - *seq,
        {
            *seq = *seq + 1;
            let cand = style_name_of(*seq);
            if !contains_str(used, cand.as_slice()) {
                break;
            }
            proof {
                lemma_taken_range(u, s0 as nat, *seq as nat);
                if taken_upto(u, s0 as nat) {
                    lemma_taken_range(u, 0, *seq as nat);
                }
            }
        }
        style_name_of(*seq)
    };
    let out = crate::text::string_of(slug.as_slice());
    used.push(out.clone());
    assert(strs_view(used@) =~= u.push(out@));
    proof {
        if taken_upto(u, s0 as nat) {
            assert forall|j: nat| 0 < j <= *seq implies strs_view(used@).contains(#[trigger] style_name(j)) by {
                if j <= s0 || j < *seq {
                    assert(u.contains(style_name(j)));
                    let w = choose|w: int| 0 <= w < u.len() && u[w] == style_name(j);
                    assert(strs_view(used@)[w] == style_name(j));
                } else {
                    assert(strs_view(used@)[u.len() as int] == out@);
                }
            }
        }
    }
    out
}


// ------------------------------------------------------------------ reading the style sheet

/// A style as plain values.
pub struct StyleView {
    pub style_id: Seq<char>,
    pub name: Seq<char>,
    pub kind: Seq<char>,
    pub is_default: bool,
    pub outline_level: Option<int>,
    pub based_on: Option<Seq<char>>,
    pub flags: RunFlags,
    pub font: Option<Seq<char>>,
    pub size_half_points: Option<int>,
    pub slug: Seq<char>,
}

impl View for StyleInfo {
    type V = StyleView;

    open spec fn view(&self) -> StyleView {
        StyleView {
            style_id: self.style_id@,
            name: self.name@,
            kind: self.kind@,
            is_default: self.is_default,
            outline_level: int_opt(self.outline_level),
            based_on: string_opt(self.based_on),
            flags: self.flags,
            font: string_opt(self.font),
            size_half_points: int_opt(self.size_half_points),
            slug: self.slug@,
        }
    }
}

/// The plain views of a list of styles.
pub open spec fn style_views(v: Seq<StyleInfo>) -> Seq<StyleView> {
    v.map_values(|x: StyleInfo| x@)
}

/// An attribute value, or a fallback.
pub open spec fn or_else(o: Option<Seq<char>>, d: Seq<char>) -> Seq<char> {
    match o {
        Some(v) => v,
        None => d,
    }
}

/// The `w:styleId` of a style element (empty when absent).
pub open spec fn id_of_style(st: El) -> Seq<char> {
    or_else(first_attr(st.attrs@, "w:styleId"@), Seq::empty())
}

/// The display name of a style element (its id when it has none).
pub open spec fn name_of_style(st: El) -> Seq<char> {
    or_else(attr_opt(child_of(st, "w"@, "name"@), "w:val"@), id_of_style(st))
}

/// What a `w:style` element says, with the slug it was given.
pub open spec fn style_view_of(st: El, slug: Seq<char>) -> StyleView {
    let rpr = child_of(st, "w"@, "rPr"@);
    StyleView {
        style_id: id_of_style(st),
        name: name_of_style(st),
        kind: or_else(first_attr(st.attrs@, "w:type"@), "paragraph"@),
        is_default: first_attr(st.attrs@, "w:default"@) == Some("1"@),
        outline_level: parse_opt(
            attr_opt(child_opt(child_of(st, "w"@, "pPr"@), "w"@, "outlineLvl"@), "w:val"@),
        ),
        based_on: attr_opt(child_of(st, "w"@, "basedOn"@), "w:val"@),
        flags: match rpr {
            Some(r) => run_flags_of(r),
            None => plain_flags(),
        },
        font: rpr_font(rpr),
        size_half_points: rpr_size(rpr),
        slug,
    }
}

/// Index of the entry with this id, or -1.
pub open spec fn view_index(v: Seq<StyleView>, id: Seq<char>) -> int
    decreases v.len(),
{
    if v.len() == 0 {
        -1
    } else if v.last().style_id == id {
        v.len() - 1
    } else {
        view_index(v.drop_last(), id)
    }
}

/// Inserts a style, replacing the entry with the same id if there is one.
pub open spec fn upsert(v: Seq<StyleView>, info: StyleView) -> Seq<StyleView> {
    let i = view_index(v, info.style_id);
    if i >= 0 {
        v.update(i, info)
    } else {
        v.push(info)
    }
}

/// The state of reading the style elements in order.
pub struct SheetState {
    pub by_id: Seq<StyleView>,
    pub order: Seq<Seq<char>>,
    pub default_paragraph: Option<Seq<char>>,
    pub used: Seq<Seq<char>>,
    pub seq: nat,
}

/// The slug and counter after assigning a slug for `name`.
pub open spec fn next_slug(used: Seq<Seq<char>>, seq: nat, name: Seq<char>) -> (Seq<char>, nat) {
    let base = slug_base(name);
    if slug_usable(base, used) {
        (base, seq)
    } else {
        let k = choose|k: nat| first_free(used, seq, k);
        (style_name(k), k)
    }
}

/// Reading one child of the `w:styles` root.
pub open spec fn sheet_step(s: SheetState, st: El) -> SheetState {
    let id = id_of_style(st);
    if !el_is(st, "w"@, "style"@) || id.len() == 0 {
        s
    } else {
        let (slug, seq2) = next_slug(s.used, s.seq, name_of_style(st));
        let info = style_view_of(st, slug);
        SheetState {
            by_id: upsert(s.by_id, info),
            order: s.order.push(id),
            default_paragraph: if info.is_default && info.kind == "paragraph"@ && s.default_paragraph is None {
                Some(id)
            } else {
                s.default_paragraph
            },
            used: s.used.push(slug),
            seq: seq2,
        }
    }
}

/// Reading the children of the `w:styles` root in order.
pub open spec fn sheet_fold(cs: Seq<El>) -> SheetState
    decreases cs.len(),
{
    if cs.len() == 0 {
        SheetState { by_id: Seq::empty(), order: Seq::empty(), default_paragraph: None, used: Seq::empty(), seq: 0 }
    } else {
        sheet_step(sheet_fold(cs.drop_last()), cs.last())
    }
}

/// No two entries share a style id.
pub open spec fn ids_distinct(v: Seq<StyleView>) -> bool {
    forall|i: int, j: int| 0 <= i < j < v.len() ==> #[trigger] v[i].style_id != #[trigger] v[j].style_id
}

proof fn lemma_upsert_distinct(v: Seq<StyleView>, info: StyleView)
    requires
        ids_distinct(v),
    ensures
        ids_distinct(upsert(v, info)),
{
    lemma_view_index(v, info.style_id);
    let u = upsert(v, info);
    let k = view_index(v, info.style_id);
    assert forall|i: int, j: int| 0 <= i < j < u.len() implies #[trigger] u[i].style_id != #[trigger] u[j].style_id by {
        if k >= 0 {
            if i != k && j != k {
                assert(u[i] == v[i] && u[j] == v[j]);
            } else if i == k {
                assert(u[j] == v[j]);
            } else {
                assert(u[i] == v[i]);
            }
        } else {
            if j < v.len() {
                assert(u[i] == v[i] && u[j] == v[j]);
            } else {
                assert(u[i] == v[i]);
            }
        }
    }
}

/// A style sheet read in order holds each style id once.
pub proof fn law_sheet_ids_distinct(cs: Seq<El>)
    ensures
        ids_distinct(sheet_fold(cs).by_id),
    decreases cs.len(),
{
    if cs.len() > 0 {
        law_sheet_ids_distinct(cs.drop_last());
        let s = sheet_fold(cs.drop_last());
        let st = cs.last();
        if el_is(st, "w"@, "style"@) && id_of_style(st).len() > 0 {
            let (slug, seq2) = next_slug(s.used, s.seq, name_of_style(st));
            lemma_upsert_distinct(s.by_id, style_view_of(st, slug));
        }
    }
}

proof fn lemma_first_free_unique(used: Seq<Seq<char>>, from: nat, a: nat, b: nat)
    requires
        first_free(used, from, a),
        first_free(used, from, b),
    ensures
        a == b,
{
    if a < b {
        assert(used.contains(style_name(a)));
    } else if b < a {
        assert(used.contains(style_name(b)));
    }
}

proof fn lemma_view_index(v: Seq<StyleView>, id: Seq<char>)
    ensures
        -1 <= view_index(v, id) < v.len(),
        view_index(v, id) >= 0 ==> v[view_index(v, id)].style_id == id,
        view_index(v, id) < 0 ==> forall|j: int| 0 <= j < v.len() ==> v[j].style_id != id,
    decreases v.len(),
{
    if v.len() > 0 && v.last().style_id != id {
        lemma_view_index(v.drop_last(), id);
        assert forall|j: int| 0 <= j < v.len() - 1 implies v[j] == v.drop_last()[j] by {}
    }
}

proof fn lemma_index_views(ss: Seq<StyleInfo>, id: Seq<char>)
    ensures
        style_index(ss, id) == view_index(style_views(ss), id),
    decreases ss.len(),
{
    if ss.len() > 0 {
        assert(style_views(ss).drop_last() =~= style_views(ss.drop_last()));
        lemma_index_views(ss.drop_last(), id);
    }
}

fn style_info_of(st: &El, id: String, slug: String) -> (r: StyleInfo)
    requires
        id@ == id_of_style(*st),
    ensures
        r@ == style_view_of(*st, slug@),
{
    let kind = match st.attr("w:type") {
        Some(t) => t.to_owned(),
        None => "paragraph".to_owned(),
    };
    let is_default = match st.attr("w:default") {
        Some(v) => crate::text::str_eq(v, "1"),
        None => false,
    };
    let name = match opt_attr(st.child("w", "name"), "w:val") {
        Some(n) => n.to_owned(),
        None => id.clone(),
    };
    let outline_level = opt_parse_i64(
        opt_attr(opt_child(st.child("w", "pPr"), "w", "outlineLvl"), "w:val"),
    );
    let based_on = opt_owned(opt_attr(st.child("w", "basedOn"), "w:val"));
    let rpr = st.child("w", "rPr");
    let flags = match rpr {
        Some(r) => parse_run_flags(r),
        None => RunFlags::default(),
    };
    let font = opt_owned(opt_attr(opt_child(rpr, "w", "rFonts"), "w:ascii"));
    let size_half_points = opt_parse_i64(opt_attr(opt_child(rpr, "w", "sz"), "w:val"));
    StyleInfo {
        style_id: id,
        name,
        kind,
        is_default,
        outline_level,
        based_on,
        flags,
        font,
        size_half_points,
        slug,
    }
}

impl Styles {
    /// An empty style sheet.
    pub fn new() -> (r: Self)
        ensures
            r.by_id@.len() == 0,
            r.order@.len() == 0,
            r.default_paragraph is None,
            r.defaults.font is None,
            r.defaults.size_half_points is None,
    {
        Styles { by_id: Vec::new(), order: Vec::new(), defaults: DocDefaults::default(), default_paragraph: None }
    }

    /// Reads the style sheet from the root of `word/styles.xml`: document
    /// defaults, then every `w:style` with a non-empty id, in order; names
    /// get slugs in order of appearance.
    pub fn from_doc(doc: &El) -> (r: Self)
        ensures
            style_views(r.by_id@) == sheet_fold(doc.children@).by_id,
            crate::ooxml::styles::strs_view(r.order@) == sheet_fold(doc.children@).order,
            string_opt(r.default_paragraph) == sheet_fold(doc.children@).default_paragraph,
            string_opt(r.defaults.font) == rpr_font(default_rpr_of(*doc)),
            int_opt(r.defaults.size_half_points) == rpr_size(default_rpr_of(*doc)),
            ids_distinct(style_views(r.by_id@)),
    {
        proof { law_sheet_ids_distinct(doc.children@); }
        let mut styles = Styles::new();
        if let Some(dd) = doc.child("w", "docDefaults") {
            styles.defaults = parse_doc_defaults(dd);
        }
        let mut used: Vec<String> = Vec::new();
        let mut seq: usize = 0;
        let mut i: usize = 0;
        while i < doc.children.len()
            invariant
                i <= doc.children.len(),
                ({
                    let f = sheet_fold(doc.children@.take(i as int));
                    &&& style_views(styles.by_id@) == f.by_id
                    &&& strs_view(styles.order@) == f.order
                    &&& string_opt(styles.default_paragraph) == f.default_paragraph
                    &&& strs_view(used@) == f.used
                    &&& seq as nat == f.seq
                }),
                taken_upto(strs_view(used@), seq as nat),
                used@.len() <= i,
                string_opt(styles.defaults.font) == rpr_font(default_rpr_of(*doc)),
                int_opt(styles.defaults.size_half_points) == rpr_size(default_rpr_of(*doc)),
            decreases doc.children.len() - i,
        {
            let st = &doc.children[i];
            let ghost t = doc.children@.take(i + 1);
            let ghost prev = sheet_fold(doc.children@.take(i as int));
            assert(t.drop_last() =~= doc.children@.take(i as int));
            assert(t.last() == *st);
            if st.is("w", "style") {
                let id = match st.attr("w:styleId") {
                    Some(x) => x.to_owned(),
                    None => String::new(),
                };
                if !id.as_str().is_empty() {
                    proof {
                        assert(id@.len() > 0);
                    }
                    let name_src = match opt_attr(st.child("w", "name"), "w:val") {
                        Some(n) => n,
                        None => id.as_str(),
                    };
                    let ghost s_used = strs_view(used@);
                    let ghost s_seq = seq as nat;
                    let slug = assign_slug(name_src, &mut used, &mut seq);
                    proof {
                        let ns = next_slug(s_used, s_seq, name_of_style(*st));
                        if !slug_usable(slug_base(name_of_style(*st)), s_used) {
                            let k = choose|k: nat| first_free(s_used, s_seq, k);
                            lemma_first_free_unique(s_used, s_seq, k, seq as nat);
                        }
                        assert(slug@ == ns.0 && seq as nat == ns.1);
                    }
                    let info = style_info_of(st, id.clone(), slug);
                    let is_default = info.is_default;
                    let para = crate::text::str_eq(info.kind.as_str(), "paragraph");
                    if is_default && para && styles.default_paragraph.is_none() {
                        styles.default_paragraph = Some(id.clone());
                    }
                    let ghost o0 = strs_view(styles.order@);
                    styles.order.push(id.clone());
                    assert(strs_view(styles.order@) =~= o0.push(id@));
                    self::upsert_style(&mut styles.by_id, info);
                } else {
                    proof { assert(id_of_style(*st).len() == 0); }
                }
            }
            i = i + 1;
        }
        assert(doc.children@.take(doc.children.len() as int) =~= doc.children@);
        styles
    }
}

/// The `rPr` of the document defaults under a `w:styles` root.
pub open spec fn default_rpr_of(doc: El) -> Option<El> {
    match child_of(doc, "w"@, "docDefaults"@) {
        Some(dd) => default_rpr(dd),
        None => None,
    }
}

fn upsert_style(v: &mut Vec<StyleInfo>, info: StyleInfo)
    ensures
        style_views(final(v)@) == upsert(style_views(old(v)@), info@),
{
    let ghost old_views = style_views(v@);
    let ghost id = info@.style_id;
    proof {
        lemma_index_views(v@, id);
        lemma_view_index(old_views, id);
        crate::ooxml::styles::lemma_style_index_bound(v@, id);
    }
    let mut i: usize = v.len();
    assert(v@.take(i as int) =~= v@);
    while i > 0
        invariant
            i <= v.len(),
            v@.len() == old_views.len(),
            style_views(v@) == old_views,
            style_views(old(v)@) == old_views,
            style_index(v@, id) == style_index(v@.take(i as int), id),
            style_index(v@, id) == view_index(old_views, id),
            id == info@.style_id,
        decreases i,
    {
        let ghost t = v@.take(i as int);
        assert(t.drop_last() =~= v@.take(i - 1));
        assert(t.last() == v@[i - 1]);
        if crate::text::str_eq(v[i - 1].style_id.as_str(), info.style_id.as_str()) {
            assert(style_index(t, id) == i - 1);
            assert(view_index(old_views, id) == i - 1);
            v.set(i - 1, info);
            assert(style_views(v@) =~= old_views.update(i - 1, info@));
            assert(upsert(old_views, info@) == old_views.update(i - 1, info@));
            return;
        }
        i = i - 1;
    }
    v.push(info);
    assert(style_views(v@) =~= old_views.push(info@));
}


// ------------------------------------------------------------------ point values

/// `2^k`.
pub open spec fn two_pow(k: nat) -> nat
    decreases k,
{
    if k == 0 {
        1
    } else {
        2 * two_pow((k - 1) as nat)
    }
}

/// Largest magnitude whose conversion to a double is exact (`2^53`).
pub const EXACT_LIMIT: i64 = 9007199254740992;

/// The binary exponent step of `a / 20` as a double: the least `k` with
/// `4a < 5·2^k`.
pub open spec fn exp_step(a: nat) -> nat {
    choose|k: nat| 4 * a < 5 * #[trigger] two_pow(k) && (k == 0 || 4 * a >= 5 * two_pow((k - 1) as nat))
}

/// Whether the double nearest to `a / 20` lies above it: the bits of the
/// 53-bit significand that follow are more than half a unit.
pub open spec fn rounds_up(a: nat) -> bool {
    (a * two_pow((57 - exp_step(a)) as nat)) % 20 > 10
}

/// Tenths of a point shown for `a` twips (`a` not a multiple of 20): the
/// double nearest to `a / 20`, rounded to one decimal, an exact half going
/// to the even tenth.
pub open spec fn twip_tenths(a: nat) -> nat {
    let k = a / 2;
    if a % 2 == 0 {
        k
    } else if a % 20 == 5 || a % 20 == 15 {
        if k % 2 == 0 { k } else { k + 1 }
    } else if rounds_up(a) {
        k + 1
    } else {
        k
    }
}

/// A value in tenths, one decimal shown: `q.d`.
pub open spec fn tenths_text(t: nat) -> Seq<char> {
    dec(t / 10) + seq!['.'] + dec(t % 10)
}

/// `n` as `sign` and magnitude.
pub open spec fn sign_text(neg: bool) -> Seq<char> {
    if neg { seq!['-'] } else { Seq::empty() }
}

/// A size in half points as points: whole values without decimals, halves
/// with one.
pub open spec fn half_points_text(hp: int) -> Seq<char> {
    let a = if hp < 0 { -hp } else { hp };
    if a % 2 == 0 {
        dec_int(hp / 2) + "pt"@
    } else {
        sign_text(hp < 0) + tenths_text((a * 5) as nat) + "pt"@
    }
}

/// A length in twips as points: whole values without decimals, others with
/// one decimal.
pub open spec fn twips_text(tw: int) -> Seq<char> {
    let a = if tw < 0 { -tw } else { tw };
    if a % 20 == 0 {
        sign_text(tw < 0 && a > 0) + dec((a / 20) as nat) + "pt"@
    } else {
        sign_text(tw < 0) + tenths_text(twip_tenths(a as nat)) + "pt"@
    }
}

fn push_tenths(out: &mut Vec<char>, t: u64)
    ensures
        final(out)@ == old(out)@ + tenths_text(t as nat),
{
    let q = crate::text::fmt_u64(t / 10);
    crate::text::push_all(out, q.as_slice());
    out.push('.');
    let d = crate::text::fmt_u64(t % 10);
    crate::text::push_all(out, d.as_slice());
}

/// A size in half points as points (`22` → `11pt`, `21` → `10.5pt`).
pub fn half_points_to_pt(hp: i64) -> (r: String)
    requires
        -EXACT_LIMIT < hp < EXACT_LIMIT,
    ensures
        r@ == half_points_text(hp as int),
{
    let a: u64 = if hp < 0 { (-hp) as u64 } else { hp as u64 };
    let mut out: Vec<char> = Vec::new();
    if a % 2 == 0 {
        let v = crate::text::fmt_i64(hp / 2);
        crate::text::push_all(&mut out, v.as_slice());
        assert(hp / 2 == (hp as int) / 2) by {
            assert(a % 2 == 0);
        }
    } else {
        if hp < 0 {
            out.push('-');
        }
        push_tenths(&mut out, a * 5);
    }
    crate::text::push_str(&mut out, "pt");
    assert(out@ =~= half_points_text(hp as int));
    string_of(out.as_slice())
}

proof fn lemma_two_pow_53()
    ensures
        two_pow(53) == 9007199254740992,
        two_pow(55) == 36028797018963968,
{
    reveal_with_fuel(two_pow, 56);
}

proof fn lemma_two_pow_add(i: nat, j: nat)
    ensures
        two_pow(i + j) == two_pow(i) * two_pow(j),
    decreases j,
{
    if j == 0 {
        assert(i + j == i);
        assert(two_pow(0) == 1);
        assert(two_pow(i) * 1 == two_pow(i));
    } else {
        lemma_two_pow_add(i, (j - 1) as nat);
        assert((i + j - 1) as nat == i + (j - 1) as nat);
        assert(two_pow(i + j) == 2 * two_pow((i + j - 1) as nat));
        assert(two_pow(i) * two_pow(j) == 2 * (two_pow(i) * two_pow((j - 1) as nat))) by (nonlinear_arith)
            requires two_pow(j) == 2 * two_pow((j - 1) as nat);
    }
}

proof fn lemma_two_pow_110()
    ensures
        two_pow(110) < 340282366920938463463374607431768211455,
{
    lemma_two_pow_53();
    lemma_two_pow_add(55, 55);
    assert(36028797018963968 * 36028797018963968 == 1298074214633706907132624082305024) by (nonlinear_arith);
}

proof fn lemma_two_pow_mono(i: nat, j: nat)
    requires
        i <= j,
    ensures
        two_pow(i) <= two_pow(j),
    decreases j - i,
{
    if i < j {
        lemma_two_pow_mono(i, (j - 1) as nat);
    }
}

/// Whether the nearest double to `a / 20` lies above it (`0 < a < 2^53`).
fn rounds_up_exec(a: u64) -> (r: bool)
    requires
        0 < a < 9007199254740992,
    ensures
        r == rounds_up(a as nat),
{
    let mut k: u64 = 0;
    let mut p: u128 = 1;
    let a128: u128 = a as u128;
    proof { lemma_two_pow_53(); }
    while 4 * a128 >= 5 * p
        invariant
            a128 == a as u128,
            0 < a < 9007199254740992,
            two_pow(55) == 36028797018963968,
            k <= 55,
            p == two_pow(k as nat),
            k == 0 || 4 * a >= 5 * two_pow((k - 1) as nat),
        decreases 55 - k,
    {
        if k == 55 {
            assert(false);
        }
        p = p * 2;
        k = k + 1;
    }
    proof {
        let kk = k as nat;
        assert(4 * a < 5 * two_pow(kk) && (kk == 0 || 4 * a >= 5 * two_pow((kk - 1) as nat)));
        let c = exp_step(a as nat);
        if c != kk {
            if c < kk {
                lemma_two_pow_mono(c, (kk - 1) as nat);
            } else {
                lemma_two_pow_mono(kk, (c - 1) as nat);
            }
        }
    }
    let shift: u64 = 57 - k;
    let mut x: u128 = a128;
    let mut i: u64 = 0;
    proof { lemma_two_pow_110(); }
    while i < shift
        invariant
            i <= shift,
            shift <= 57,
            x == (a as nat) * two_pow(i as nat),
            x < two_pow((53 + i) as nat),
            a < 9007199254740992,
            two_pow(53) == 9007199254740992,
            two_pow(110) < 340282366920938463463374607431768211455,
        decreases shift - i,
    {
        proof {
            lemma_two_pow_mono((53 + i + 1) as nat, 110);
            assert((a as nat) * two_pow((i + 1) as nat) == 2 * ((a as nat) * two_pow(i as nat))) by (nonlinear_arith)
                requires two_pow((i + 1) as nat) == 2 * two_pow(i as nat);
        }
        x = x * 2;
        i = i + 1;
    }
    x % 20 > 10
}

/// Tenths shown for `a` twips, `a` not a multiple of 20.
fn twip_tenths_exec(a: u64) -> (r: u64)
    requires
        0 < a < 9007199254740992,
        a % 20 != 0,
    ensures
        r == twip_tenths(a as nat),
{
    let k = a / 2;
    if a % 2 == 0 {
        k
    } else if a % 20 == 5 || a % 20 == 15 {
        if k % 2 == 0 { k } else { k + 1 }
    } else if rounds_up_exec(a) {
        k + 1
    } else {
        k
    }
}

/// A length in twips as points (`1440` → `72pt`, `1684` → `84.2pt`): what
/// one-decimal formatting of the nearest double shows.
pub fn twips_to_pt(tw: i64) -> (r: String)
    requires
        -EXACT_LIMIT < tw < EXACT_LIMIT,
    ensures
        r@ == twips_text(tw as int),
{
    let a: u64 = if tw < 0 { (-tw) as u64 } else { tw as u64 };
    let mut out: Vec<char> = Vec::new();
    if a % 20 == 0 {
        if tw < 0 {
            out.push('-');
        }
        let v = crate::text::fmt_u64(a / 20);
        crate::text::push_all(&mut out, v.as_slice());
    } else {
        if tw < 0 {
            out.push('-');
        }
        let t = twip_tenths_exec(a);
        push_tenths(&mut out, t);
    }
    crate::text::push_str(&mut out, "pt");
    assert(out@ =~= twips_text(tw as int));
    string_of(out.as_slice())
}


impl Styles {
    /// Reads `word/styles.xml` from a package (an empty sheet when absent).
    pub fn parse(pkg: &mut OoxmlPackage) -> (r: Result<Styles, OoxmlError>)
        ensures
            final(pkg).bytes() == old(pkg).bytes(),
            !part_present(old(pkg).bytes(), "word/styles.xml"@) ==> (r matches Ok(s) && s.by_id@.len() == 0
                && s.order@.len() == 0 && s.default_paragraph is None && s.defaults.font is None
                && s.defaults.size_half_points is None),
            r matches Ok(s) ==> ids_distinct(style_views(s.by_id@)),
            !part_present(old(pkg).bytes(), "word/styles.xml"@) ==> final(pkg).total() == old(pkg).total(),
            part_present(old(pkg).bytes(), "word/styles.xml"@) ==> ({
                let name = "word/styles.xml"@;
                &&& final(pkg).total() == admitted_total(
                    zip_meta(old(pkg).bytes(), actual_name(old(pkg).bytes(), name)),
                    old(pkg).total(),
                )
                &&& (r is Ok) == (part_doc(old(pkg).bytes(), old(pkg).total(), name) is Some)
                &&& r matches Ok(s) ==> exists|doc: El|
                    Some(el_view(doc)) == part_doc(old(pkg).bytes(), old(pkg).total(), name) && #[trigger] style_views(s.by_id@) == sheet_fold(doc.children@).by_id && strs_view(s.order@) == sheet_fold(doc.children@).order && string_opt(s.default_paragraph) == sheet_fold(doc.children@).default_paragraph && string_opt(s.defaults.font) == rpr_font(default_rpr_of(doc)) && int_opt(s.defaults.size_half_points) == rpr_size(default_rpr_of(doc))
                &&& part_encrypted(old(pkg).bytes(), name) ==> (r matches Err(OoxmlError::Encrypted { part: p })
                    && p@ == name)
            }),
    {
        proof {
            reveal_strlit("word/styles.xml");
            reveal_strlit("styles.xml");
            reveal_strlit("word/");
            assert("word/"@ + "styles.xml"@ =~= "word/styles.xml"@);
            lemma_word_part_safe("styles.xml"@);
        }
        if !pkg.has_part("word/styles.xml") {
            return Ok(Styles::new());
        }
        match pkg.part_tree("word/styles.xml") {
            Ok(doc) => Ok(Styles::from_doc(&doc)),
            Err(e) => Err(e),
        }
    }
}

} // verus!

verus! {

/// A style with outline level `l` in 0..=5 is a heading of level exactly
/// `l + 1`, whatever its name or id: level 0 is heading 1, level 1 is
/// heading 2, and so on, so deeper outline levels give deeper headings.
pub proof fn law_outline_level_heading(by_id: Seq<StyleInfo>, id: Seq<char>, info: StyleInfo, l: i64)
    requires
        style_of(by_id, id) == Some(info),
        info.outline_level == Some(l),
        0 <= l <= 5,
    ensures
        (match style_of(by_id, id) {
            Some(x) => heading_of(x),
            None => None,
        }) == Some(l + 1),
{
}

/// Two styles with outline levels in 0..=5 get heading levels in the same
/// order as their outline levels, one apart per level.
pub proof fn law_outline_levels_keep_order(a: StyleInfo, b: StyleInfo)
    requires
        a.outline_level matches Some(la) && 0 <= la <= 5,
        b.outline_level matches Some(lb) && 0 <= lb <= 5,
    ensures
        heading_of(b).unwrap() - heading_of(a).unwrap() == b.outline_level.unwrap() - a.outline_level.unwrap(),
{
}

/// A style without an outline level that is named `heading N`, N from 1
/// to 6, is a heading of level N.
pub proof fn law_heading_name_level(info: StyleInfo, d: char)
    requires
        info.outline_level is None,
        info.name@ == "heading "@ + seq![d],
        '1' <= d <= '6',
    ensures
        heading_of(info) == Some(d as int - '0' as int),
{
    reveal_strlit("heading ");
    let name = info.name@;
    let low = lower_seq(name);
    assert(low =~= name);
    assert(crate::text::has_prefix(low, "heading "@)) by {
        assert(low.take(8) =~= "heading "@);
    }
    let rest = low.skip(8);
    assert(rest =~= seq![d]);
    assert(crate::text::lead_ws(rest) == 0);
    assert(crate::text::trail_ws(rest) == 0);
    assert(trim_seq(rest) =~= rest);
    assert(crate::text::int_body(rest) == rest);
    assert(crate::text::all_digits(rest));
    assert(rest.drop_last() =~= Seq::<char>::empty());
    assert(crate::text::digits_val(Seq::<char>::empty()) == 0);
    assert(crate::text::digits_val(rest.drop_last()) == 0);
    assert(rest.last() == d);
    assert(crate::text::digits_val(rest) == d as int - '0' as int);
    assert(parse_int(trim_seq(rest)) == Some(d as int - '0' as int));
}

/// A length of `20·n` twips is `n` points, written as a whole number; a
/// size of `2·n` half points is `n` points and one of `2·n + 1` half points
/// is `n.5` points.
pub proof fn law_point_texts(n: nat)
    ensures
        twips_text((20 * n) as int) == dec(n) + "pt"@,
        half_points_text((2 * n) as int) == dec(n) + "pt"@,
        half_points_text((2 * n + 1) as int) == dec(n) + seq!['.', '5'] + "pt"@,
{
    assert((20 * n) % 20 == 0 && (20 * n) / 20 == n) by (nonlinear_arith);
    assert((2 * n) % 2 == 0 && (2 * n) / 2 == n) by (nonlinear_arith);
    assert((2 * n + 1) % 2 == 1) by (nonlinear_arith);
    let t = ((2 * n + 1) * 5) as nat;
    assert(t / 10 == n && t % 10 == 5) by (nonlinear_arith)
        requires
            t == (2 * n + 1) * 5,
    ;
    assert(dec(5) == seq!['5']);
    assert(sign_text(false) =~= Seq::<char>::empty());
    assert(twips_text((20 * n) as int) =~= dec(n) + "pt"@);
    assert(half_points_text((2 * n + 1) as int) =~= dec(n) + seq!['.', '5'] + "pt"@);
    assert(dec_int((2 * n) as int / 2) == dec(n));
}

/// A toggle is on when the switch is there without a `w:val`, off when its
/// `w:val` is `false`, `0` or `none`, and on for any other value; the
/// switch `w:b` sets bold, `w:i` italic and `w:u` underline, and either
/// `w:strike` or `w:dstrike` sets strike-through.
pub proof fn law_run_toggles(rpr: El, tag: Seq<char>, x: El)
    requires
        child_of(rpr, seq!['w'], tag) == Some(x),
    ensures
        ({
            let f = run_flags_of(rpr);
            let on = match first_attr(x.attrs@, seq!['w', ':', 'v', 'a', 'l']) {
                None => true,
                Some(v) => !(v == seq!['f', 'a', 'l', 's', 'e'] || v == seq!['0'] || v == seq!['n', 'o', 'n', 'e']),
            };
            &&& tag == seq!['b'] ==> f.bold == on
            &&& tag == seq!['i'] ==> f.italic == on
            &&& tag == seq!['u'] ==> f.underline == on
            &&& (tag == seq!['s', 't', 'r', 'i', 'k', 'e'] || tag == seq!['d', 's', 't', 'r', 'i', 'k', 'e']) && on
                ==> f.strike
        }),
{
    reveal_strlit("w");
    reveal_strlit("b");
    reveal_strlit("i");
    reveal_strlit("u");
    reveal_strlit("strike");
    reveal_strlit("dstrike");
    reveal_strlit("w:val");
    reveal_strlit("false");
    reveal_strlit("0");
    reveal_strlit("none");
    assert("w"@ =~= seq!['w']);
    assert("b"@ =~= seq!['b']);
    assert("i"@ =~= seq!['i']);
    assert("u"@ =~= seq!['u']);
    assert("strike"@ =~= seq!['s', 't', 'r', 'i', 'k', 'e']);
    assert("dstrike"@ =~= seq!['d', 's', 't', 'r', 'i', 'k', 'e']);
    assert("w:val"@ =~= seq!['w', ':', 'v', 'a', 'l']);
    assert("false"@ =~= seq!['f', 'a', 'l', 's', 'e']);
    assert("0"@ =~= seq!['0']);
    assert("none"@ =~= seq!['n', 'o', 'n', 'e']);
}

} // verus!
