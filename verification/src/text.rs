//! Character-level helpers shared by the whole library: conversions between
//! `&str`/`String` and character vectors, comparison, searching, trimming,
//! ASCII case folding, and decimal integer formatting/parsing.

use vstd::prelude::*;
use vstd::string::*;

verus! {

pub assume_specification[ String::push ](s: &mut String, ch: char)
    ensures
        final(s)@ == old(s)@.push(ch),
;

// ------------------------------------------------------------------ conversions

/// The characters of a string slice, in order.
pub fn chars_of(s: &str) -> (v: Vec<char>)
    ensures
        v@ == s@,
{
    let mut v: Vec<char> = Vec::new();
    for c in it: s.chars()
        invariant
            v@ == it.seq().take(it.index() as int),
    {
        v.push(c);
    }
    v
}

/// A string built from a sequence of characters.
pub fn string_of(v: &[char]) -> (s: String)
    ensures
        s@ == v@,
{
    let mut s = String::new();
    let mut i: usize = 0;
    while i < v.len()
        invariant
            i <= v.len(),
            s@ == v@.take(i as int),
        decreases v.len() - i,
    {
        s.push(v[i]);
        i = i + 1;
        assert(s@ =~= v@.take(i as int));
    }
    assert(v@.take(v.len() as int) =~= v@);
    s
}

/// Appends characters to a character vector.
pub fn push_all(out: &mut Vec<char>, extra: &[char])
    ensures
        final(out)@ == old(out)@ + extra@,
{
    let mut i: usize = 0;
    let ghost start = out@;
    while i < extra.len()
        invariant
            i <= extra.len(),
            out@ == start + extra@.take(i as int),
        decreases extra.len() - i,
    {
        out.push(extra[i]);
        i = i + 1;
        assert(out@ =~= start + extra@.take(i as int));
    }
    assert(extra@.take(extra.len() as int) =~= extra@);
}

/// Appends the characters of a string slice to a character vector.
pub fn push_str(out: &mut Vec<char>, s: &str)
    ensures
        final(out)@ == old(out)@ + s@,
{
    let v = chars_of(s);
    push_all(out, v.as_slice());
}

// ------------------------------------------------------------------ comparison

/// Exact equality of two character slices.
pub fn seq_eq(a: &[char], b: &[char]) -> (r: bool)
    ensures
        r == (a@ == b@),
{
    if a.len() != b.len() {
        return false;
    }
    let mut i: usize = 0;
    while i < a.len()
        invariant
            a.len() == b.len(),
            i <= a.len(),
            forall|j: int| 0 <= j < i ==> a@[j] == b@[j],
        decreases a.len() - i,
    {
        if a[i] != b[i] {
            return false;
        }
        i = i + 1;
    }
    assert(a@ =~= b@);
    true
}

/// Exact equality of two string slices.
pub fn str_eq(a: &str, b: &str) -> (r: bool)
    ensures
        r == (a@ == b@),
{
    let av = chars_of(a);
    let bv = chars_of(b);
    seq_eq(av.as_slice(), bv.as_slice())
}

/// Equality of a character slice with a string slice.
pub fn eq_str(a: &[char], b: &str) -> (r: bool)
    ensures
        r == (a@ == b@),
{
    let bv = chars_of(b);
    seq_eq(a, bv.as_slice())
}

/// Lexicographic order on character sequences, by code point (the order of
/// `String`'s `Ord`, since UTF-8 keeps code-point order byte for byte).
pub open spec fn seq_lt(a: Seq<char>, b: Seq<char>) -> bool
    decreases a.len(),
{
    if b.len() == 0 {
        false
    } else if a.len() == 0 {
        true
    } else if a[0] != b[0] {
        a[0] < b[0]
    } else {
        seq_lt(a.drop_first(), b.drop_first())
    }
}

/// `seq_lt` is a strict total order.
pub proof fn lemma_seq_lt_order(a: Seq<char>, b: Seq<char>)
    ensures
        !seq_lt(a, a),
        !(seq_lt(a, b) && seq_lt(b, a)),
        a != b ==> seq_lt(a, b) || seq_lt(b, a),
    decreases a.len(),
{
    if a.len() > 0 {
        lemma_seq_lt_order(a.drop_first(), a.drop_first());
    }
    if a.len() > 0 && b.len() > 0 && a[0] == b[0] {
        lemma_seq_lt_order(a.drop_first(), b.drop_first());
        if a != b {
            assert(a.drop_first() != b.drop_first()) by {
                if a.drop_first() == b.drop_first() {
                    assert(a =~= seq![a[0]] + a.drop_first());
                    assert(b =~= seq![b[0]] + b.drop_first());
                }
            }
        }
    }
    if a.len() == 0 && b.len() == 0 {
        assert(a =~= b);
    }
}

/// `seq_lt` is transitive.
pub proof fn lemma_seq_lt_trans(a: Seq<char>, b: Seq<char>, c: Seq<char>)
    requires
        seq_lt(a, b),
        seq_lt(b, c),
    ensures
        seq_lt(a, c),
    decreases a.len(),
{
    if a.len() > 0 && a[0] == b[0] && b[0] == c[0] {
        lemma_seq_lt_trans(a.drop_first(), b.drop_first(), c.drop_first());
    }
}

/// Lexicographic comparison of two strings: `a < b`.
pub fn str_less(a: &str, b: &str) -> (r: bool)
    ensures
        r == seq_lt(a@, b@),
{
    let av = chars_of(a);
    let bv = chars_of(b);
    let mut i: usize = 0;
    assert(a@.skip(0) =~= a@);
    assert(b@.skip(0) =~= b@);
    while i < av.len() && i < bv.len()
        invariant
            av@ == a@,
            bv@ == b@,
            i <= av.len(),
            i <= bv.len(),
            seq_lt(a@, b@) == seq_lt(a@.skip(i as int), b@.skip(i as int)),
        decreases av.len() - i,
    {
        let x = av[i];
        let y = bv[i];
        if x != y {
            return x < y;
        }
        assert(a@.skip(i as int).drop_first() =~= a@.skip(i + 1));
        assert(b@.skip(i as int).drop_first() =~= b@.skip(i + 1));
        i = i + 1;
    }
    i < bv.len()
}

/// `s` begins with `p`.
pub open spec fn has_prefix(s: Seq<char>, p: Seq<char>) -> bool {
    p.len() <= s.len() && s.take(p.len() as int) == p
}

/// What occurs in the middle of a concatenation occurs in the whole, at the
/// length of what comes before it.
pub proof fn lemma_occurs_in_concat(a: Seq<char>, b: Seq<char>, c: Seq<char>, t: Seq<char>, k: int)
    requires
        occurs_at(b, t, k),
    ensures
        occurs_at(a + b + c, t, a.len() + k),
        occurs(a + b + c, t),
{
    assert((a + b + c).subrange(a.len() + k, a.len() + k + t.len()) =~= b.subrange(k, k + t.len()));
}

/// `s` ends with `p`.
pub open spec fn has_suffix(s: Seq<char>, p: Seq<char>) -> bool {
    p.len() <= s.len() && s.skip(s.len() - p.len()) == p
}

/// `needle` occurs in `hay` at position `i`.
pub open spec fn occurs_at(hay: Seq<char>, needle: Seq<char>, i: int) -> bool {
    0 <= i && i + needle.len() <= hay.len() && hay.subrange(i, i + needle.len()) == needle
}

/// `needle` occurs somewhere in `hay`.
pub open spec fn occurs(hay: Seq<char>, needle: Seq<char>) -> bool {
    exists|i: int| occurs_at(hay, needle, i)
}

/// `needle` occurs at `i` within `hay`.
pub fn matches_at(hay: &[char], needle: &[char], i: usize) -> (r: bool)
    ensures
        r == occurs_at(hay@, needle@, i as int),
{
    if i > hay.len() || needle.len() > hay.len() - i {
        return false;
    }
    let mut k: usize = 0;
    while k < needle.len()
        invariant
            i + needle.len() <= hay.len(),
            k <= needle.len(),
            forall|j: int| 0 <= j < k ==> hay@[i + j] == needle@[j],
        decreases needle.len() - k,
    {
        if hay[i + k] != needle[k] {
            assert(hay@.subrange(i as int, i + needle.len())[k as int] != needle@[k as int]);
            return false;
        }
        k = k + 1;
    }
    assert(hay@.subrange(i as int, i + needle.len()) =~= needle@);
    true
}

/// `s` begins with `p`.
pub fn starts_with(s: &[char], p: &[char]) -> (r: bool)
    ensures
        r == has_prefix(s@, p@),
{
    let r = matches_at(s, p, 0);
    proof {
        if p@.len() <= s@.len() {
            assert(s@.subrange(0, p@.len() as int) =~= s@.take(p@.len() as int));
        }
    }
    r
}

/// `s` ends with `p`.
pub fn ends_with(s: &[char], p: &[char]) -> (r: bool)
    ensures
        r == has_suffix(s@, p@),
{
    if p.len() > s.len() {
        return false;
    }
    let r = matches_at(s, p, s.len() - p.len());
    assert(s@.subrange(s@.len() - p@.len(), s@.len() as int) =~= s@.skip(s@.len() - p@.len()));
    r
}

/// First position at which `needle` occurs in `hay`.
pub fn find(hay: &[char], needle: &[char]) -> (r: Option<usize>)
    ensures
        r matches Some(i) ==> occurs_at(hay@, needle@, i as int)
            && forall|j: int| 0 <= j < i ==> !occurs_at(hay@, needle@, j),
        r is None ==> !occurs(hay@, needle@),
{
    if needle.len() > hay.len() {
        return None;
    }
    let last = hay.len() - needle.len();
    let mut i: usize = 0;
    loop
        invariant
            last == hay.len() - needle.len(),
            i <= last,
            forall|j: int| 0 <= j < i ==> !occurs_at(hay@, needle@, j),
        decreases last - i,
    {
        if matches_at(hay, needle, i) {
            return Some(i);
        }
        if i == last {
            return None;
        }
        i = i + 1;
    }
}

/// Last position at which `needle` occurs in `hay`.
pub fn rfind(hay: &[char], needle: &[char]) -> (r: Option<usize>)
    ensures
        r matches Some(i) ==> occurs_at(hay@, needle@, i as int)
            && forall|j: int| i < j ==> !occurs_at(hay@, needle@, j),
        r is None ==> !occurs(hay@, needle@),
{
    if needle.len() > hay.len() {
        return None;
    }
    let mut i: usize = hay.len() - needle.len();
    loop
        invariant
            i <= hay.len() - needle.len(),
            needle.len() <= hay.len(),
            forall|j: int| i < j ==> !occurs_at(hay@, needle@, j),
        decreases i,
    {
        if matches_at(hay, needle, i) {
            return Some(i);
        }
        if i == 0 {
            return None;
        }
        i = i - 1;
    }
}

/// First position of character `c` in `s`.
pub fn find_char(s: &[char], c: char) -> (r: Option<usize>)
    ensures
        r matches Some(i) ==> i < s@.len() && s@[i as int] == c
            && forall|j: int| 0 <= j < i ==> s@[j] != c,
        r is None ==> !s@.contains(c),
{
    let mut i: usize = 0;
    while i < s.len()
        invariant
            i <= s.len(),
            forall|j: int| 0 <= j < i ==> s@[j] != c,
        decreases s.len() - i,
    {
        if s[i] == c {
            return Some(i);
        }
        i = i + 1;
    }
    None
}

/// Last position of character `c` in `s`.
pub fn rfind_char(s: &[char], c: char) -> (r: Option<usize>)
    ensures
        r matches Some(i) ==> i < s@.len() && s@[i as int] == c
            && forall|j: int| i < j < s@.len() ==> s@[j] != c,
        r is None ==> !s@.contains(c),
{
    let mut i: usize = s.len();
    while i > 0
        invariant
            i <= s.len(),
            forall|j: int| i <= j < s@.len() ==> s@[j] != c,
        decreases i,
    {
        if s[i - 1] == c {
            return Some(i - 1);
        }
        i = i - 1;
    }
    None
}

/// A sub-slice copy `s[from..to]`.
pub fn slice_vec(s: &[char], from: usize, to: usize) -> (r: Vec<char>)
    requires
        from <= to <= s@.len(),
    ensures
        r@ == s@.subrange(from as int, to as int),
{
    let mut r: Vec<char> = Vec::new();
    let mut i = from;
    while i < to
        invariant
            from <= i <= to <= s@.len(),
            r@ == s@.subrange(from as int, i as int),
        decreases to - i,
    {
        r.push(s[i]);
        i = i + 1;
        assert(r@ =~= s@.subrange(from as int, i as int));
    }
    r
}

// ------------------------------------------------------------------ character classes

/// `char::is_whitespace`: the Unicode `White_Space` property.
pub open spec fn is_ws(c: char) -> bool {
    ||| c == '\t' || c == '\n' || c == '\u{0B}' || c == '\u{0C}' || c == '\r' || c == ' '
    ||| c == '\u{85}' || c == '\u{A0}' || c == '\u{1680}'
    ||| ('\u{2000}' <= c && c <= '\u{200A}')
    ||| c == '\u{2028}' || c == '\u{2029}' || c == '\u{202F}' || c == '\u{205F}'
    ||| c == '\u{3000}'
}

/// Whitespace test, as `char::is_whitespace`.
pub fn is_whitespace(c: char) -> (r: bool)
    ensures
        r == is_ws(c),
{
    c == '\t' || c == '\n' || c == '\u{0B}' || c == '\u{0C}' || c == '\r' || c == ' '
        || c == '\u{85}' || c == '\u{A0}' || c == '\u{1680}'
        || ('\u{2000}' <= c && c <= '\u{200A}')
        || c == '\u{2028}' || c == '\u{2029}' || c == '\u{202F}' || c == '\u{205F}'
        || c == '\u{3000}'
}

pub open spec fn is_digit(c: char) -> bool {
    '0' <= c && c <= '9'
}

pub open spec fn is_lower(c: char) -> bool {
    'a' <= c && c <= 'z'
}

pub open spec fn is_upper(c: char) -> bool {
    'A' <= c && c <= 'Z'
}

/// `char::to_ascii_lowercase`.
pub open spec fn lower_char(c: char) -> char {
    if is_upper(c) {
        ((c as u32) + 32) as char
    } else {
        c
    }
}

/// `str::to_ascii_lowercase`, characterwise.
pub open spec fn lower_seq(s: Seq<char>) -> Seq<char> {
    s.map_values(|c: char| lower_char(c))
}

/// ASCII lower-casing of one character.
pub fn to_lower(c: char) -> (r: char)
    ensures
        r == lower_char(c),
{
    if 'A' <= c && c <= 'Z' {
        let u: u32 = c as u32;
        assert(65 <= u <= 90);
        let l: u8 = (u as u8) + 32;
        l as char
    } else {
        c
    }
}

/// ASCII lower-casing of a character sequence.
pub fn lower_vec(s: &[char]) -> (r: Vec<char>)
    ensures
        r@ == lower_seq(s@),
{
    let mut r: Vec<char> = Vec::new();
    let mut i: usize = 0;
    while i < s.len()
        invariant
            i <= s.len(),
            r@ == lower_seq(s@.take(i as int)),
        decreases s.len() - i,
    {
        r.push(to_lower(s[i]));
        i = i + 1;
        assert(r@ =~= lower_seq(s@.take(i as int)));
    }
    assert(s@.take(s.len() as int) =~= s@);
    r
}

// ------------------------------------------------------------------ trimming

/// Number of leading whitespace characters.
pub open spec fn lead_ws(s: Seq<char>) -> nat
    decreases s.len(),
{
    if s.len() > 0 && is_ws(s[0]) {
        1 + lead_ws(s.drop_first())
    } else {
        0
    }
}

/// Number of trailing whitespace characters.
pub open spec fn trail_ws(s: Seq<char>) -> nat
    decreases s.len(),
{
    if s.len() > 0 && is_ws(s.last()) {
        1 + trail_ws(s.drop_last())
    } else {
        0
    }
}

/// `str::trim_start`.
pub open spec fn trim_start_seq(s: Seq<char>) -> Seq<char> {
    s.skip(lead_ws(s) as int)
}

/// `str::trim_end`.
pub open spec fn trim_end_seq(s: Seq<char>) -> Seq<char> {
    s.take(s.len() - trail_ws(s))
}

/// `str::trim`.
pub open spec fn trim_seq(s: Seq<char>) -> Seq<char> {
    trim_end_seq(trim_start_seq(s))
}

pub proof fn lemma_lead_ws_bound(s: Seq<char>)
    ensures
        lead_ws(s) <= s.len(),
        forall|j: int| 0 <= j < lead_ws(s) ==> is_ws(#[trigger] s[j]),
        lead_ws(s) < s.len() ==> !is_ws(s[lead_ws(s) as int]),
    decreases s.len(),
{
    if s.len() > 0 && is_ws(s[0]) {
        lemma_lead_ws_bound(s.drop_first());
        assert forall|j: int| 0 <= j < lead_ws(s) implies is_ws(#[trigger] s[j]) by {
            if j > 0 {
                assert(s[j] == s.drop_first()[j - 1]);
            }
        }
    }
}

pub proof fn lemma_trail_ws_bound(s: Seq<char>)
    ensures
        trail_ws(s) <= s.len(),
        forall|j: int| s.len() - trail_ws(s) <= j < s.len() ==> is_ws(#[trigger] s[j]),
        trail_ws(s) < s.len() ==> !is_ws(s[s.len() - trail_ws(s) - 1]),
    decreases s.len(),
{
    if s.len() > 0 && is_ws(s.last()) {
        lemma_trail_ws_bound(s.drop_last());
        assert forall|j: int| s.len() - trail_ws(s) <= j < s.len() implies is_ws(#[trigger] s[j]) by {
            if j < s.len() - 1 {
                assert(s[j] == s.drop_last()[j]);
            }
        }
    }
}

/// Leading whitespace count, computed.
fn count_lead_ws(s: &[char]) -> (n: usize)
    ensures
        n == lead_ws(s@),
{
    let mut i: usize = 0;
    assert(s@.skip(0) =~= s@);
    while i < s.len() && is_whitespace(s[i])
        invariant
            i <= s.len(),
            lead_ws(s@) == i + lead_ws(s@.skip(i as int)),
        decreases s.len() - i,
    {
        assert(s@.skip(i as int).drop_first() =~= s@.skip(i + 1));
        i = i + 1;
    }
    i
}

/// Trailing whitespace count, computed.
fn count_trail_ws(s: &[char]) -> (n: usize)
    ensures
        n == trail_ws(s@),
{
    let mut i: usize = s.len();
    assert(s@.take(s.len() as int) =~= s@);
    while i > 0 && is_whitespace(s[i - 1])
        invariant
            i <= s.len(),
            trail_ws(s@) == (s.len() - i) + trail_ws(s@.take(i as int)),
        decreases i,
    {
        assert(s@.take(i as int).drop_last() =~= s@.take(i - 1));
        i = i - 1;
    }
    assert(s@.take(i as int).len() == 0 || !is_ws(s@.take(i as int).last()));
    s.len() - i
}

/// `str::trim` on a character slice.
pub fn trim(s: &[char]) -> (r: Vec<char>)
    ensures
        r@ == trim_seq(s@),
{
    let a = count_lead_ws(s);
    proof { lemma_lead_ws_bound(s@); }
    let rest = slice_vec(s, a, s.len());
    assert(rest@ =~= trim_start_seq(s@));
    let b = count_trail_ws(rest.as_slice());
    proof { lemma_trail_ws_bound(rest@); }
    let r = slice_vec(rest.as_slice(), 0, rest.len() - b);
    assert(r@ =~= trim_end_seq(rest@));
    r
}

/// `str::trim_start` on a character slice.
pub fn trim_start(s: &[char]) -> (r: Vec<char>)
    ensures
        r@ == trim_start_seq(s@),
{
    let a = count_lead_ws(s);
    proof { lemma_lead_ws_bound(s@); }
    let r = slice_vec(s, a, s.len());
    assert(r@ =~= trim_start_seq(s@));
    r
}

/// `str::trim_end` on a character slice.
pub fn trim_end(s: &[char]) -> (r: Vec<char>)
    ensures
        r@ == trim_end_seq(s@),
{
    let b = count_trail_ws(s);
    proof { lemma_trail_ws_bound(s@); }
    let r = slice_vec(s, 0, s.len() - b);
    assert(r@ =~= trim_end_seq(s@));
    r
}

/// `str::trim_start_matches(p)` for a non-empty `p`: every leading copy of
/// `p` removed.
pub open spec fn strip_prefixes(s: Seq<char>, p: Seq<char>) -> Seq<char>
    decreases s.len(),
{
    if p.len() > 0 && has_prefix(s, p) {
        strip_prefixes(s.skip(p.len() as int), p)
    } else {
        s
    }
}

/// `str::trim_end_matches(p)` for a non-empty `p`: every trailing copy of
/// `p` removed.
pub open spec fn strip_suffixes(s: Seq<char>, p: Seq<char>) -> Seq<char>
    decreases s.len(),
{
    if p.len() > 0 && has_suffix(s, p) {
        strip_suffixes(s.take(s.len() - p.len()), p)
    } else {
        s
    }
}

/// Removes every leading copy of `p`.
pub fn strip_prefixes_vec(s: &[char], p: &[char]) -> (r: Vec<char>)
    ensures
        r@ == strip_prefixes(s@, p@),
{
    let mut i: usize = 0;
    assert(s@.skip(0) =~= s@);
    if p.len() == 0 {
        return slice_vec(s, 0, s.len());
    }
    while p.len() <= s.len() - i && matches_at(s, p, i)
        invariant
            p.len() > 0,
            i <= s.len(),
            strip_prefixes(s@, p@) == strip_prefixes(s@.skip(i as int), p@),
        decreases s.len() - i,
    {
        assert(s@.skip(i as int).skip(p.len() as int) =~= s@.skip(i + p.len()));
        assert(s@.skip(i as int).take(p.len() as int) =~= s@.subrange(i as int, i + p.len()));
        i = i + p.len();
    }
    proof {
        if p.len() <= s.len() - i {
            assert(s@.skip(i as int).take(p.len() as int) =~= s@.subrange(i as int, i + p.len()));
        }
    }
    let r = slice_vec(s, i, s.len());
    assert(r@ =~= s@.skip(i as int));
    r
}

/// Removes every trailing copy of `p`.
pub fn strip_suffixes_vec(s: &[char], p: &[char]) -> (r: Vec<char>)
    ensures
        r@ == strip_suffixes(s@, p@),
{
    let mut j: usize = s.len();
    assert(s@.take(s.len() as int) =~= s@);
    if p.len() == 0 {
        return slice_vec(s, 0, s.len());
    }
    while j >= p.len() && matches_at(s, p, j - p.len())
        invariant
            p.len() > 0,
            j <= s.len(),
            strip_suffixes(s@, p@) == strip_suffixes(s@.take(j as int), p@),
        decreases j,
    {
        assert(s@.take(j as int).take(j - p.len()) =~= s@.take(j - p.len()));
        assert(s@.take(j as int).skip(j - p.len()) =~= s@.subrange(j - p.len(), j as int));
        j = j - p.len();
    }
    proof {
        if j >= p.len() {
            assert(s@.take(j as int).skip(j - p.len()) =~= s@.subrange(j - p.len(), j as int));
        }
    }
    let r = slice_vec(s, 0, j);
    assert(r@ =~= s@.take(j as int));
    r
}

// ------------------------------------------------------------------ decimal numbers

/// The value of a string of decimal digits.
pub open spec fn digits_val(s: Seq<char>) -> nat
    decreases s.len(),
{
    if s.len() == 0 {
        0
    } else {
        10 * digits_val(s.drop_last()) + ((s.last() as nat) - ('0' as nat)) as nat
    }
}

/// Every character is an ASCII digit.
pub open spec fn all_digits(s: Seq<char>) -> bool {
    forall|i: int| 0 <= i < s.len() ==> is_digit(#[trigger] s[i])
}

/// Decimal rendering of a natural number (no leading zeros; `0` for zero).
pub open spec fn dec(n: nat) -> Seq<char>
    decreases n,
{
    if n < 10 {
        seq![(('0' as nat) + n) as char]
    } else {
        dec(n / 10).push((('0' as nat) + n % 10) as char)
    }
}

/// Decimal rendering of a signed integer (`-` sign for negatives).
pub open spec fn dec_int(n: int) -> Seq<char> {
    if n < 0 {
        seq!['-'] + dec((-n) as nat)
    } else {
        dec(n as nat)
    }
}

/// A leading minus sign.
pub open spec fn int_neg(s: Seq<char>) -> bool {
    s.len() > 0 && s[0] == '-'
}

/// The digits after an optional leading sign.
pub open spec fn int_body(s: Seq<char>) -> Seq<char> {
    if s.len() > 0 && (s[0] == '-' || s[0] == '+') {
        s.drop_first()
    } else {
        s
    }
}

/// `str::parse::<i64>()`: an optional sign, then one or more ASCII digits,
/// with a value in range.
pub open spec fn parse_int(s: Seq<char>) -> Option<int> {
    let body = int_body(s);
    if body.len() == 0 || !all_digits(body) {
        None
    } else {
        let v: int = if int_neg(s) { -(digits_val(body) as int) } else { digits_val(body) as int };
        if i64::MIN <= v <= i64::MAX {
            Some(v)
        } else {
            None
        }
    }
}

proof fn lemma_digits_val_mono(s: Seq<char>, k: int)
    requires
        0 <= k <= s.len(),
        all_digits(s),
    ensures
        digits_val(s.take(k)) <= digits_val(s),
    decreases s.len() - k,
{
    if k == s.len() {
        assert(s.take(k) =~= s);
    } else {
        lemma_digits_val_mono(s, k + 1);
        assert(s.take(k + 1).drop_last() =~= s.take(k));
        assert(s.take(k + 1).last() == s[k]);
        assert(is_digit(s[k]));
        let x = digits_val(s.take(k));
        assert(digits_val(s.take(k + 1)) == 10 * x + ((s[k] as nat) - ('0' as nat)) as nat);
    }
}

/// Decimal rendering of an unsigned number.
pub fn fmt_u64(n: u64) -> (r: Vec<char>)
    ensures
        r@ == dec(n as nat),
    decreases n,
{
    if n < 10 {
        let c = ((48u8) + (n as u8)) as char;
        let mut r = Vec::new();
        r.push(c);
        assert(r@ =~= dec(n as nat));
        r
    } else {
        let mut r = fmt_u64(n / 10);
        let c = ((48u8) + ((n % 10) as u8)) as char;
        r.push(c);
        r
    }
}

/// Decimal rendering of a signed number.
pub fn fmt_i64(n: i64) -> (r: Vec<char>)
    ensures
        r@ == dec_int(n as int),
{
    if n < 0 {
        let m: u64 = if n == i64::MIN { 9223372036854775808u64 } else { (-n) as u64 };
        let mut r = Vec::new();
        r.push('-');
        let d = fmt_u64(m);
        push_all(&mut r, d.as_slice());
        assert(r@ =~= dec_int(n as int));
        r
    } else {
        fmt_u64(n as u64)
    }
}

/// Parses a signed decimal integer as `str::parse::<i64>()` does.
pub fn parse_i64(s: &[char]) -> (r: Option<i64>)
    ensures
        r matches Some(v) ==> parse_int(s@) == Some(v as int),
        r is None ==> parse_int(s@) is None,
{
    let neg = s.len() > 0 && s[0] == '-';
    let signed = s.len() > 0 && (s[0] == '-' || s[0] == '+');
    let start: usize = if signed { 1 } else { 0 };
    let ghost body = int_body(s@);
    assert(body =~= s@.skip(start as int));
    if start >= s.len() {
        return None;
    }
    let mut acc: u64 = 0;
    let mut i = start;
    while i < s.len()
        invariant
            start <= i <= s.len(),
            body =~= s@.skip(start as int),
            body == int_body(s@),
            neg == int_neg(s@),
            all_digits(body.take(i - start)),
            acc as nat == digits_val(body.take(i - start)),
            acc <= 9223372036854775808u64,
        decreases s.len() - i,
    {
        let c = s[i];
        if !('0' <= c && c <= '9') {
            assert(body[i - start] == c);
            assert(!is_digit(body[(i - start) as int]));
            assert(!all_digits(body));
            return None;
        }
        let d: u64 = ((c as u32) - ('0' as u32)) as u64;
        assert(body.take(i - start + 1).drop_last() =~= body.take(i - start));
        assert(body.take(i - start + 1).last() == c);
        if acc > (9223372036854775808u64 - d) / 10 {
            // value already beyond the magnitude of i64::MIN
            proof {
                assert(all_digits(body.take(i - start + 1)));
                assert(digits_val(body.take(i - start + 1)) > 9223372036854775808) by (nonlinear_arith)
                    requires
                        digits_val(body.take(i - start + 1)) == 10 * (acc as nat) + d,
                        acc > (9223372036854775808u64 - d) / 10,
                        d <= 9,
                ;
                let j = i - start + 1;
                // all further digits can only grow the value
                if all_digits(body) {
                    lemma_digits_val_mono(body, j);
                    assert(digits_val(body) > 9223372036854775808);
                }
            }
            return None;
        }
        acc = acc * 10 + d;
        i = i + 1;
    }
    assert(body.take(i - start) =~= body);
    if neg {
        if acc == 9223372036854775808u64 {
            Some(i64::MIN)
        } else {
            Some(-(acc as i64))
        }
    } else {
        if acc > 9223372036854775807u64 {
            None
        } else {
            Some(acc as i64)
        }
    }
}

} // verus!

verus! {

/// Index of the first occurrence of `c` in `s`, or -1.
pub open spec fn first_index(s: Seq<char>, c: char) -> int
    decreases s.len(),
{
    if s.len() == 0 {
        -1
    } else if s[0] == c {
        0
    } else {
        let r = first_index(s.drop_first(), c);
        if r < 0 {
            -1
        } else {
            r + 1
        }
    }
}

/// Index of the last occurrence of `c` in `s`, or -1.
pub open spec fn last_index(s: Seq<char>, c: char) -> int
    decreases s.len(),
{
    if s.len() == 0 {
        -1
    } else if s.last() == c {
        s.len() - 1
    } else {
        last_index(s.drop_last(), c)
    }
}

pub proof fn lemma_first_index(s: Seq<char>, c: char)
    ensures
        -1 <= first_index(s, c) < s.len(),
        first_index(s, c) >= 0 ==> s[first_index(s, c)] == c,
        forall|j: int| 0 <= j < first_index(s, c) ==> s[j] != c,
        first_index(s, c) < 0 ==> !s.contains(c),
    decreases s.len(),
{
    if s.len() > 0 && s[0] != c {
        let t = s.drop_first();
        lemma_first_index(t, c);
        assert forall|j: int| 0 <= j < first_index(s, c) implies s[j] != c by {
            if j > 0 {
                assert(s[j] == t[j - 1]);
            }
        }
        if first_index(t, c) < 0 {
            assert forall|j: int| 0 <= j < s.len() implies s[j] != c by {
                if j > 0 {
                    assert(s[j] == t[j - 1]);
                    assert(!t.contains(c));
                }
            }
        }
    }
}

pub proof fn lemma_last_index(s: Seq<char>, c: char)
    ensures
        -1 <= last_index(s, c) < s.len(),
        last_index(s, c) >= 0 ==> s[last_index(s, c)] == c,
        forall|j: int| last_index(s, c) < j < s.len() ==> s[j] != c,
        last_index(s, c) < 0 ==> !s.contains(c),
    decreases s.len(),
{
    if s.len() > 0 && s.last() != c {
        let t = s.drop_last();
        lemma_last_index(t, c);
        assert forall|j: int| last_index(s, c) < j < s.len() implies s[j] != c by {
            if j < s.len() - 1 {
                assert(s[j] == t[j]);
            }
        }
        if last_index(t, c) < 0 {
            assert forall|j: int| 0 <= j < s.len() implies s[j] != c by {
                if j < s.len() - 1 {
                    assert(s[j] == t[j]);
                    assert(!t.contains(c));
                }
            }
        }
    }
}

/// Position of the first `c`, as `str::find(char)`.
pub fn first_of(s: &[char], c: char) -> (r: Option<usize>)
    ensures
        r matches Some(i) ==> first_index(s@, c) == i,
        r is None ==> first_index(s@, c) == -1,
{
    proof { lemma_first_index(s@, c); }
    let r = find_char(s, c);
    proof {
        let f = first_index(s@, c);
        match r {
            Some(i) => {
                if f >= 0 && f != i {
                    if f < i { assert(s@[f] == c); } else { assert(s@[i as int] == c); }
                }
                if f < 0 {
                    assert(s@[i as int] == c);
                }
            },
            None => {
                if f >= 0 {
                    assert(s@[f] == c);
                }
            },
        }
    }
    r
}

/// Position of the last `c`, as `str::rfind(char)`.
pub fn last_of(s: &[char], c: char) -> (r: Option<usize>)
    ensures
        r matches Some(i) ==> last_index(s@, c) == i,
        r is None ==> last_index(s@, c) == -1,
{
    proof { lemma_last_index(s@, c); }
    let r = rfind_char(s, c);
    proof {
        let f = last_index(s@, c);
        match r {
            Some(i) => {
                if f >= 0 && f != i {
                    if f < i { assert(s@[i as int] == c); } else { assert(s@[f] == c); }
                }
                if f < 0 {
                    assert(s@[i as int] == c);
                }
            },
            None => {
                if f >= 0 {
                    assert(s@[f] == c);
                }
            },
        }
    }
    r
}

} // verus!

verus! {

// ------------------------------------------------------------------ markup escaping

/// Escape of one character: `&`, `<`, `>` always, and `"` when `quote`.
pub open spec fn esc_char(c: char, quote: bool) -> Seq<char> {
    if c == '&' {
        seq!['&', 'a', 'm', 'p', ';']
    } else if c == '<' {
        seq!['&', 'l', 't', ';']
    } else if c == '>' {
        seq!['&', 'g', 't', ';']
    } else if quote && c == '"' {
        seq!['&', 'q', 'u', 'o', 't', ';']
    } else {
        seq![c]
    }
}

/// Character-by-character markup escape.
pub open spec fn esc(s: Seq<char>, quote: bool) -> Seq<char>
    decreases s.len(),
{
    if s.len() == 0 {
        Seq::empty()
    } else {
        esc(s.drop_last(), quote) + esc_char(s.last(), quote)
    }
}

/// Appends the escape of one character to `out`.
pub fn push_escaped(out: &mut Vec<char>, c: char, quote: bool)
    ensures
        final(out)@ == old(out)@ + esc_char(c, quote),
{
    let ghost start = out@;
    if c == '&' {
        out.push('&'); out.push('a'); out.push('m'); out.push('p'); out.push(';');
    } else if c == '<' {
        out.push('&'); out.push('l'); out.push('t'); out.push(';');
    } else if c == '>' {
        out.push('&'); out.push('g'); out.push('t'); out.push(';');
    } else if quote && c == '"' {
        out.push('&'); out.push('q'); out.push('u'); out.push('o'); out.push('t'); out.push(';');
    } else {
        out.push(c);
    }
    assert(out@ =~= start + esc_char(c, quote));
}

/// Appends the escape of `s` to `out`.
pub fn escape_into(out: &mut Vec<char>, s: &[char], quote: bool)
    ensures
        final(out)@ == old(out)@ + esc(s@, quote),
{
    let ghost start = out@;
    let mut i: usize = 0;
    while i < s.len()
        invariant
            i <= s.len(),
            out@ == start + esc(s@.take(i as int), quote),
        decreases s.len() - i,
    {
        push_escaped(out, s[i], quote);
        assert(s@.take(i + 1).drop_last() =~= s@.take(i as int));
        i = i + 1;
        assert(out@ =~= start + esc(s@.take(i as int), quote));
    }
    assert(s@.take(s.len() as int) =~= s@);
}

/// The escape of a string slice.
pub fn escape_str(s: &str, quote: bool) -> (r: String)
    ensures
        r@ == esc(s@, quote),
{
    let v = chars_of(s);
    let mut out: Vec<char> = Vec::new();
    escape_into(&mut out, v.as_slice(), quote);
    string_of(out.as_slice())
}

/// Escaping leaves no `<` or `>` (and no `"` when `quote`) behind.
pub proof fn law_escape_is_inert(s: Seq<char>, quote: bool)
    ensures
        !esc(s, quote).contains('<'),
        !esc(s, quote).contains('>'),
        quote ==> !esc(s, quote).contains('"'),
    decreases s.len(),
{
    if s.len() > 0 {
        law_escape_is_inert(s.drop_last(), quote);
        let a = esc(s.drop_last(), quote);
        let b = esc_char(s.last(), quote);
        assert forall|i: int| 0 <= i < (a + b).len() implies (a + b)[i] != '<' && (a + b)[i] != '>'
            && (quote ==> (a + b)[i] != '"') by {
            if i < a.len() {
                assert((a + b)[i] == a[i]);
            } else {
                assert((a + b)[i] == b[i - a.len()]);
            }
        }
    }
}

/// Escaping is the identity on text free of markup characters.
pub proof fn law_escape_identity(s: Seq<char>, quote: bool)
    requires
        !s.contains('&'),
        !s.contains('<'),
        !s.contains('>'),
        quote ==> !s.contains('"'),
    ensures
        esc(s, quote) == s,
    decreases s.len(),
{
    if s.len() > 0 {
        assert(s.drop_last().len() < s.len());
        assert forall|c: char| !s.contains(c) implies !s.drop_last().contains(c) by {
            if s.drop_last().contains(c) {
                let i = choose|i: int| 0 <= i < s.drop_last().len() && s.drop_last()[i] == c;
                assert(s[i] == c);
            }
        }
        law_escape_identity(s.drop_last(), quote);
        assert(s[s.len() - 1] == s.last());
        assert(s.drop_last().push(s.last()) =~= s);
    }
}

} // verus!

verus! {

pub assume_specification[ char::from_u32 ](i: u32) -> (r: Option<char>)
    ensures
        (r is Some) == (i <= 0x10FFFF && !(0xD800 <= i <= 0xDFFF)),
        r matches Some(c) ==> c as u32 == i,
;

/// The value of one digit in base `radix` (2..=36), or -1.
pub open spec fn digit_value(c: char, radix: nat) -> int {
    let v: int = if '0' <= c && c <= '9' {
        (c as int) - ('0' as int)
    } else if 'a' <= c && c <= 'z' {
        (c as int) - ('a' as int) + 10
    } else if 'A' <= c && c <= 'Z' {
        (c as int) - ('A' as int) + 10
    } else {
        -1
    };
    if 0 <= v < radix {
        v
    } else {
        -1
    }
}

/// The value of a digit string in base `radix`.
pub open spec fn radix_val(s: Seq<char>, radix: nat) -> nat
    decreases s.len(),
{
    if s.len() == 0 {
        0
    } else {
        radix * radix_val(s.drop_last(), radix) + (digit_value(s.last(), radix) as nat)
    }
}

/// Every character is a digit of base `radix`.
pub open spec fn all_radix_digits(s: Seq<char>, radix: nat) -> bool {
    forall|i: int| 0 <= i < s.len() ==> digit_value(#[trigger] s[i], radix) >= 0
}

/// `u32::from_str_radix`: an optional `+`, then one or more digits, value in range.
pub open spec fn parse_u32_radix(s: Seq<char>, radix: nat) -> Option<nat> {
    let body = if s.len() > 0 && s[0] == '+' { s.drop_first() } else { s };
    if body.len() == 0 || !all_radix_digits(body, radix) || radix_val(body, radix) > u32::MAX {
        None
    } else {
        Some(radix_val(body, radix))
    }
}

proof fn lemma_radix_val_mono(s: Seq<char>, k: int, radix: nat)
    requires
        0 <= k <= s.len(),
        radix >= 1,
        all_radix_digits(s, radix),
    ensures
        radix_val(s.take(k), radix) <= radix_val(s, radix),
    decreases s.len() - k,
{
    if k == s.len() {
        assert(s.take(k) =~= s);
    } else {
        lemma_radix_val_mono(s, k + 1, radix);
        assert(s.take(k + 1).drop_last() =~= s.take(k));
        assert(s.take(k + 1).last() == s[k]);
        let x = radix_val(s.take(k), radix);
        assert(digit_value(s[k], radix) >= 0);
        assert(radix * x >= x) by (nonlinear_arith)
            requires
                radix >= 1,
        ;
    }
}

fn digit_of(c: char, radix: u32) -> (r: i64)
    requires
        2 <= radix <= 36,
    ensures
        r == digit_value(c, radix as nat),
{
    let v: i64 = if '0' <= c && c <= '9' {
        (c as u32 - '0' as u32) as i64
    } else if 'a' <= c && c <= 'z' {
        (c as u32 - 'a' as u32) as i64 + 10
    } else if 'A' <= c && c <= 'Z' {
        (c as u32 - 'A' as u32) as i64 + 10
    } else {
        -1
    };
    if 0 <= v && v < radix as i64 {
        v
    } else {
        -1
    }
}

/// Parses an unsigned 32-bit number in base `radix`, as `u32::from_str_radix`.
pub fn parse_u32_radix_exec(s: &[char], radix: u32) -> (r: Option<u32>)
    requires
        2 <= radix <= 36,
    ensures
        r matches Some(v) ==> parse_u32_radix(s@, radix as nat) == Some(v as nat),
        r is None ==> parse_u32_radix(s@, radix as nat) is None,
{
    let start: usize = if s.len() > 0 && s[0] == '+' { 1 } else { 0 };
    let ghost body = if s@.len() > 0 && s@[0] == '+' { s@.drop_first() } else { s@ };
    assert(body =~= s@.skip(start as int));
    if start >= s.len() {
        return None;
    }
    let mut acc: u64 = 0;
    let mut i = start;
    while i < s.len()
        invariant
            2 <= radix <= 36,
            start <= i <= s.len(),
            body =~= s@.skip(start as int),
            body == (if s@.len() > 0 && s@[0] == '+' { s@.drop_first() } else { s@ }),
            all_radix_digits(body.take(i - start), radix as nat),
            acc as nat == radix_val(body.take(i - start), radix as nat),
            acc <= u32::MAX,
        decreases s.len() - i,
    {
        let d = digit_of(s[i], radix);
        assert(body[i - start] == s@[i as int]);
        if d < 0 {
            assert(!all_radix_digits(body, radix as nat));
            return None;
        }
        assert(body.take(i - start + 1).drop_last() =~= body.take(i - start));
        assert(body.take(i - start + 1).last() == s@[i as int]);
        assert((radix as u64) * acc <= 4294967295u64 * 36) by (nonlinear_arith)
            requires
                acc <= 4294967295u64,
                radix <= 36,
        ;
        let next: u64 = (radix as u64) * acc + (d as u64);
        assert(next == radix_val(body.take(i - start + 1), radix as nat));
        if next > 4294967295u64 {
            proof {
                let j = i - start + 1;
                assert(all_radix_digits(body.take(j), radix as nat));
                if all_radix_digits(body, radix as nat) {
                    lemma_radix_val_mono(body, j, radix as nat);
                }
            }
            return None;
        }
        acc = next;
        i = i + 1;
    }
    assert(body.take(i - start) =~= body);
    Some(acc as u32)
}

} // verus!

verus! {

// ------------------------------------------------------------------ splitting and joining

/// `str::split(c)`: the pieces between occurrences of `c` (always at least one).
pub open spec fn split_on(s: Seq<char>, c: char) -> Seq<Seq<char>>
    decreases s.len(),
{
    let i = first_index(s, c);
    if i < 0 {
        seq![s]
    } else {
        proof { lemma_first_index(s, c); }
        seq![s.take(i)] + split_on(s.skip(i + 1), c)
    }
}

/// `join` with a one-character separator.
pub open spec fn join_with(segs: Seq<Seq<char>>, c: char) -> Seq<char>
    decreases segs.len(),
{
    if segs.len() == 0 {
        Seq::empty()
    } else if segs.len() == 1 {
        segs[0]
    } else {
        join_with(segs.drop_last(), c) + seq![c] + segs.last()
    }
}

proof fn lemma_first_index_concat(a: Seq<char>, b: Seq<char>, c: char)
    requires
        !a.contains(c),
    ensures
        first_index(a + b, c) == (if first_index(b, c) < 0 { -1 } else { a.len() + first_index(b, c) }),
    decreases a.len(),
{
    if a.len() > 0 {
        assert((a + b).drop_first() =~= a.drop_first() + b);
        assert((a + b)[0] == a[0]);
        assert(!a.drop_first().contains(c)) by {
            if a.drop_first().contains(c) {
                let j = choose|j: int| 0 <= j < a.drop_first().len() && a.drop_first()[j] == c;
                assert(a[j + 1] == c);
            }
        }
        assert(a[0] != c) by {
            if a[0] == c { assert(a.contains(c)); }
        }
        lemma_first_index_concat(a.drop_first(), b, c);
    } else {
        assert(a + b =~= b);
    }
}

/// Splits `s` at every `c`.
pub fn split_chars(s: &[char], c: char) -> (r: Vec<Vec<char>>)
    ensures
        r@.map_values(|v: Vec<char>| v@) == split_on(s@, c),
{
    let mut done: Vec<Vec<char>> = Vec::new();
    let mut cur: Vec<char> = Vec::new();
    let mut i: usize = 0;
    assert(s@.skip(0) =~= s@);
    assert(cur@ + s@.skip(0) =~= s@);
    while i < s.len()
        invariant
            i <= s.len(),
            !cur@.contains(c),
            done@.map_values(|v: Vec<char>| v@) + split_on(cur@ + s@.skip(i as int), c) == split_on(s@, c),
        decreases s.len() - i,
    {
        let ch = s[i];
        if ch == c {
            proof {
                let rest = s@.skip(i as int);
                assert(rest[0] == c);
                lemma_first_index(rest, c);
                assert(first_index(rest, c) == 0);
                lemma_first_index_concat(cur@, rest, c);
                let whole = cur@ + rest;
                assert(whole.take(cur@.len() as int) =~= cur@);
                assert(whole.skip(cur@.len() as int + 1) =~= s@.skip(i + 1));
                assert(Seq::<char>::empty() + s@.skip(i + 1) =~= s@.skip(i + 1));
            }
            let seg = cur;
            let ghost done0 = done@.map_values(|v: Vec<char>| v@);
            done.push(seg);
            assert(done@.map_values(|v: Vec<char>| v@) =~= done0.push(seg@));
            cur = Vec::new();
            assert(!cur@.contains(c));
        } else {
            proof {
                assert(cur@ + s@.skip(i as int) =~= cur@.push(ch) + s@.skip(i + 1));
                assert(!cur@.push(ch).contains(c)) by {
                    if cur@.push(ch).contains(c) {
                        let j = choose|j: int| 0 <= j < cur@.push(ch).len() && cur@.push(ch)[j] == c;
                        if j < cur@.len() { assert(cur@[j] == c); }
                    }
                }
            }
            cur.push(ch);
        }
        i = i + 1;
    }
    proof {
        assert(s@.skip(i as int) =~= Seq::<char>::empty());
        assert(cur@ + s@.skip(i as int) =~= cur@);
        lemma_first_index(cur@, c);
    }
    let ghost done0 = done@.map_values(|v: Vec<char>| v@);
    done.push(cur);
    assert(done@.map_values(|v: Vec<char>| v@) =~= split_on(s@, c));
    done
}

/// Joins pieces with a one-character separator.
pub fn join_chars(segs: &[Vec<char>], c: char) -> (r: Vec<char>)
    ensures
        r@ == join_with(segs@.map_values(|v: Vec<char>| v@), c),
{
    let ghost m = segs@.map_values(|v: Vec<char>| v@);
    let mut out: Vec<char> = Vec::new();
    let mut i: usize = 0;
    while i < segs.len()
        invariant
            i <= segs.len(),
            m == segs@.map_values(|v: Vec<char>| v@),
            out@ == join_with(m.take(i as int), c),
        decreases segs.len() - i,
    {
        if i > 0 {
            out.push(c);
        }
        push_all(&mut out, segs[i].as_slice());
        proof {
            let t = m.take(i + 1);
            assert(t.drop_last() =~= m.take(i as int));
            assert(t.last() == segs@[i as int]@);
            if i == 0 {
                assert(t.len() == 1);
                assert(out@ =~= t[0]);
            }
        }
        i = i + 1;
    }
    assert(m.take(segs.len() as int) =~= m);
    out
}

} // verus!

verus! {

// ------------------------------------------------------------------ first and last match

/// Position of the first occurrence of `needle` in `hay`, or -1.
#[verifier::opaque]
pub open spec fn first_match(hay: Seq<char>, needle: Seq<char>) -> int {
    if occurs(hay, needle) {
        choose|i: int| occurs_at(hay, needle, i) && forall|j: int| 0 <= j < i ==> !occurs_at(hay, needle, j)
    } else {
        -1
    }
}

/// Position of the last occurrence of `needle` in `hay`, or -1.
#[verifier::opaque]
pub open spec fn last_match(hay: Seq<char>, needle: Seq<char>) -> int {
    if occurs(hay, needle) {
        choose|i: int| occurs_at(hay, needle, i) && forall|j: int| i < j ==> !occurs_at(hay, needle, j)
    } else {
        -1
    }
}

/// `str::find` with a string pattern.
pub fn find_first(hay: &[char], needle: &[char]) -> (r: Option<usize>)
    ensures
        match r {
            Some(i) => first_match(hay@, needle@) == i && occurs_at(hay@, needle@, i as int),
            None => first_match(hay@, needle@) == -1,
        },
{
    let r = find(hay, needle);
    proof {
        reveal(first_match);
        if let Some(i) = r {
            let k = choose|k: int| occurs_at(hay@, needle@, k) && forall|j: int| 0 <= j < k ==> !occurs_at(hay@, needle@, j);
            assert(occurs_at(hay@, needle@, i as int));
            if k < i {
                assert(!occurs_at(hay@, needle@, k));
            }
            if k > i {
                assert(occurs_at(hay@, needle@, i as int));
                assert(0 <= i);
            }
        }
    }
    r
}

/// `str::rfind` with a string pattern.
pub fn find_last(hay: &[char], needle: &[char]) -> (r: Option<usize>)
    ensures
        match r {
            Some(i) => last_match(hay@, needle@) == i && occurs_at(hay@, needle@, i as int),
            None => last_match(hay@, needle@) == -1,
        },
{
    let r = rfind(hay, needle);
    proof {
        reveal(last_match);
        if let Some(i) = r {
            let k = choose|k: int| occurs_at(hay@, needle@, k) && forall|j: int| k < j ==> !occurs_at(hay@, needle@, j);
            assert(occurs_at(hay@, needle@, i as int));
            if k > i {
                assert(!occurs_at(hay@, needle@, k));
            }
            if k < i {
                assert(occurs_at(hay@, needle@, i as int));
            }
        }
    }
    r
}

} // verus!

verus! {

// ------------------------------------------------------------------ replacing

/// Index of the first occurrence of `pat` in `s`, or -1.
pub open spec fn index_of(s: Seq<char>, pat: Seq<char>) -> int
    decreases s.len(),
{
    if s.len() < pat.len() {
        -1
    } else if s.take(pat.len() as int) == pat {
        0
    } else if s.len() == 0 {
        -1
    } else {
        let r = index_of(s.drop_first(), pat);
        if r < 0 {
            -1
        } else {
            r + 1
        }
    }
}

pub proof fn lemma_index_of(s: Seq<char>, pat: Seq<char>)
    ensures
        -1 <= index_of(s, pat),
        index_of(s, pat) >= 0 ==> index_of(s, pat) + pat.len() <= s.len()
            && s.subrange(index_of(s, pat), index_of(s, pat) + pat.len()) == pat,
    decreases s.len(),
{
    if s.len() >= pat.len() && s.take(pat.len() as int) != pat && s.len() > 0 {
        let t = s.drop_first();
        lemma_index_of(t, pat);
        let r = index_of(t, pat);
        if r >= 0 {
            assert(s.subrange(r + 1, r + 1 + pat.len()) =~= t.subrange(r, r + pat.len()));
        }
    } else if s.len() >= pat.len() && s.take(pat.len() as int) == pat {
        assert(s.subrange(0, pat.len() as int) =~= s.take(pat.len() as int));
    }
}

/// First position of `pat` in `s[from..]`, counted from the start of `s`.
pub fn index_of_from(s: &[char], from: usize, pat: &[char]) -> (r: Option<usize>)
    requires
        from <= s@.len(),
    ensures
        match r {
            Some(p) => from <= p && p - from == index_of(s@.skip(from as int), pat@) && p + pat@.len() <= s.len(),
            None => index_of(s@.skip(from as int), pat@) == -1,
        },
{
    let ghost d = s@.skip(from as int);
    let mut i: usize = from;
    while i <= s.len() && pat.len() <= s.len() - i
        invariant
            from <= i,
            i <= s@.len() + 1,
            d == s@.skip(from as int),
            i <= s@.len() ==> index_of(d, pat@) == (if index_of(s@.skip(i as int), pat@) < 0 {
                -1
            } else {
                (i - from) + index_of(s@.skip(i as int), pat@)
            }),
            i > s@.len() ==> index_of(d, pat@) == -1,
        decreases s@.len() + 1 - i,
    {
        proof { lemma_index_of(s@.skip(i as int), pat@); }
        if matches_at(s, pat, i) {
            assert(s@.subrange(i as int, i + pat@.len()) =~= s@.skip(i as int).take(pat@.len() as int));
            return Some(i);
        }
        assert(s@.subrange(i as int, i + pat@.len()) =~= s@.skip(i as int).take(pat@.len() as int));
        if i == s.len() {
            assert(pat@.len() == 0);
            assert(s@.skip(i as int).take(0) =~= pat@);
        }
        assert(s@.skip(i as int).drop_first() =~= s@.skip(i + 1));
        i = i + 1;
    }
    if i <= s.len() {
        assert(s@.skip(i as int).len() < pat@.len());
    }
    None
}

/// `str::replace`: every non-overlapping occurrence of `pat`, left to
/// right, replaced by `rep`.
pub open spec fn replace_all(s: Seq<char>, pat: Seq<char>, rep: Seq<char>) -> Seq<char>
    decreases s.len(),
{
    let i = index_of(s, pat);
    if pat.len() == 0 || i < 0 {
        s
    } else {
        proof { lemma_index_of(s, pat); }
        s.take(i) + rep + replace_all(s.skip(i + pat.len()), pat, rep)
    }
}

/// Replaces every occurrence of a non-empty pattern.
pub fn replace_chars(s: &[char], pat: &[char], rep: &[char]) -> (r: Vec<char>)
    requires
        pat@.len() > 0,
    ensures
        r@ == replace_all(s@, pat@, rep@),
{
    let mut out: Vec<char> = Vec::new();
    let mut start: usize = 0;
    assert(s@.skip(0) =~= s@);
    loop
        invariant
            start <= s@.len(),
            pat@.len() > 0,
            out@ + replace_all(s@.skip(start as int), pat@, rep@) == replace_all(s@, pat@, rep@),
        decreases s@.len() - start,
    {
        let ghost rest = s@.skip(start as int);
        match index_of_from(s, start, pat) {
            None => {
                let tail = slice_vec(s, start, s.len());
                assert(tail@ =~= rest);
                push_all(&mut out, tail.as_slice());
                return out;
            },
            Some(p) => {
                let mid = slice_vec(s, start, p);
                assert(mid@ =~= rest.take(p - start));
                let ghost before = out@;
                push_all(&mut out, mid.as_slice());
                push_all(&mut out, rep);
                assert(rest.skip(p - start + pat@.len()) =~= s@.skip(p + pat@.len()));
                assert(out@ + replace_all(s@.skip(p + pat@.len()), pat@, rep@) =~= before + replace_all(rest, pat@, rep@));
                start = p + pat.len();
            },
        }
    }
}

} // verus!
