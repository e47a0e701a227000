//! Structural checks of a `content.json` tree, as `athanor verify` runs
//! them: each problem becomes an issue with a level, a code, the JSON path
//! where it was found and a message. Unknown node and span types are not
//! errors (they are reported as information), and unknown members are let
//! through.

use vstd::prelude::*;
use crate::id::{kind_prefix, split_id, split_id_spec, valid_id, id_error_message, is_valid_id};
use crate::json::{arr_of, get, i64_of, kids, lemma_kid_inside, lemma_kids_inside, str_of, u64_of, Json, JsonNumber};
use crate::pm::mapping::{known_node_type_table, known_span_type_table, known_node_types, known_span_types, names_view};
use crate::text::{dec, fmt_u64, push_all, push_str, str_eq, string_of, chars_of};

verus! {

/// How serious an issue is.
#[derive(Debug, Clone, Copy, PartialEq, Eq, Structural)]
pub enum Level {
    /// The document fails verification.
    Error,
    /// Reported; does not change the outcome.
    Warning,
    /// An inventory note, such as an unknown type.
    Info,
}

/// One problem found in a document.
#[derive(Debug, Clone)]
pub struct Issue {
    pub level: Level,
    pub code: String,
    pub path: String,
    pub message: String,
}

/// An issue as plain values.
pub struct IssueView {
    pub level: Level,
    pub code: Seq<char>,
    pub path: Seq<char>,
    pub message: Seq<char>,
}

impl View for Issue {
    type V = IssueView;

    open spec fn view(&self) -> IssueView {
        IssueView { level: self.level, code: self.code@, path: self.path@, message: self.message@ }
    }
}

/// The issues of a list, as plain values.
pub open spec fn issues_view(v: Seq<Issue>) -> Seq<IssueView> {
    v.map_values(|i: Issue| i@)
}

/// An error issue.
pub open spec fn err(code: Seq<char>, path: Seq<char>, message: Seq<char>) -> IssueView {
    IssueView { level: Level::Error, code, path, message }
}

/// A warning issue.
pub open spec fn warn(code: Seq<char>, path: Seq<char>, message: Seq<char>) -> IssueView {
    IssueView { level: Level::Warning, code, path, message }
}

/// An information issue.
pub open spec fn info(code: Seq<char>, path: Seq<char>, message: Seq<char>) -> IssueView {
    IssueView { level: Level::Info, code, path, message }
}

/// The container a document is checked against: the names of its entries,
/// which `payload_ref` members must name.
pub struct Ctx {
    pub entries: Vec<String>,
}

impl Ctx {
    /// The entry names, as plain values.
    pub open spec fn names(&self) -> Seq<Seq<char>> {
        self.entries@.map_values(|s: String| s@)
    }

    /// Whether the container holds an entry named `name`.
    pub fn entry_exists(&self, name: &str) -> (r: bool)
        ensures
            r == self.names().contains(name@),
    {
        let mut i: usize = 0;
        while i < self.entries.len()
            invariant
                i <= self.entries.len(),
                forall|j: int| 0 <= j < i ==> self.names()[j] != name@,
            decreases self.entries.len() - i,
        {
            if str_eq(self.entries[i].as_str(), name) {
                assert(self.names()[i as int] == name@);
                return true;
            }
            i = i + 1;
        }
        false
    }
}

// ------------------------------------------------------------------ paths and text

/// `base[i]`.
pub open spec fn at_index(base: Seq<char>, i: nat) -> Seq<char> {
    base + "["@ + dec(i) + "]"@
}

/// `base.key`.
pub open spec fn at_key(base: Seq<char>, key: Seq<char>) -> Seq<char> {
    base + "."@ + key
}

fn index_path(base: &str, i: usize) -> (r: String)
    ensures
        r@ == at_index(base@, i as nat),
{
    let mut v: Vec<char> = Vec::new();
    push_str(&mut v, base);
    push_str(&mut v, "[");
    let d = fmt_u64(i as u64);
    push_all(&mut v, d.as_slice());
    push_str(&mut v, "]");
    string_of(v.as_slice())
}

fn key_path(base: &str, key: &str) -> (r: String)
    ensures
        r@ == at_key(base@, key@),
{
    cat3(base, ".", key)
}

fn cat2(a: &str, b: &str) -> (r: String)
    ensures
        r@ == a@ + b@,
{
    let mut v: Vec<char> = Vec::new();
    push_str(&mut v, a);
    push_str(&mut v, b);
    string_of(v.as_slice())
}

fn cat3(a: &str, b: &str, c: &str) -> (r: String)
    ensures
        r@ == a@ + b@ + c@,
{
    let mut v: Vec<char> = Vec::new();
    push_str(&mut v, a);
    push_str(&mut v, b);
    push_str(&mut v, c);
    string_of(v.as_slice())
}

fn cat4(a: &str, b: &str, c: &str, d: &str) -> (r: String)
    ensures
        r@ == a@ + b@ + c@ + d@,
{
    let mut v: Vec<char> = Vec::new();
    push_str(&mut v, a);
    push_str(&mut v, b);
    push_str(&mut v, c);
    push_str(&mut v, d);
    string_of(v.as_slice())
}

fn cat5(a: &str, b: &str, c: &str, d: &str, e: &str) -> (r: String)
    ensures
        r@ == a@ + b@ + c@ + d@ + e@,
{
    let mut v: Vec<char> = Vec::new();
    push_str(&mut v, a);
    push_str(&mut v, b);
    push_str(&mut v, c);
    push_str(&mut v, d);
    push_str(&mut v, e);
    string_of(v.as_slice())
}

fn num_text(n: u64) -> (r: String)
    ensures
        r@ == dec(n as nat),
{
    let d = fmt_u64(n);
    string_of(d.as_slice())
}

fn push_issue(issues: &mut Vec<Issue>, level: Level, code: &str, path: String, message: String)
    ensures
        issues_view(final(issues)@) == issues_view(old(issues)@).push(
            IssueView { level, code: code@, path: path@, message: message@ },
        ),
{
    let ghost before = issues_view(issues@);
    let i = Issue { level, code: code.to_owned(), path, message };
    issues.push(i);
    assert(issues_view(issues@) =~= before.push(i@));
}

fn add_err(issues: &mut Vec<Issue>, code: &str, path: String, message: String)
    ensures
        issues_view(final(issues)@) == issues_view(old(issues)@).push(err(code@, path@, message@)),
{
    push_issue(issues, Level::Error, code, path, message);
}

/// Whether `s` is one of `list`.
fn one_of(list: &[&str], s: &str) -> (r: bool)
    ensures
        r == names_view(list@).contains(s@),
{
    let mut i: usize = 0;
    while i < list.len()
        invariant
            i <= list.len(),
            forall|j: int| 0 <= j < i ==> names_view(list@)[j] != s@,
        decreases list.len() - i,
    {
        if str_eq(list[i], s) {
            assert(names_view(list@)[i as int] == s@);
            return true;
        }
        i = i + 1;
    }
    false
}

// ------------------------------------------------------------------ unknown nodes

/// The loss-class and payload checks of an `unknown` node or span.
pub open spec fn unknown_class_issues(node: Json, path: Seq<char>, names: Seq<Seq<char>>) -> Seq<IssueView> {
    let lc = str_of(get(node, "loss_class"@));
    if lc == Some("preserved_raw"@) {
        match str_of(get(node, "payload_ref"@)) {
            Some(p) if p.len() > 0 => if names.contains(p) {
                Seq::empty()
            } else {
                seq![err("unknown.payload_missing"@, path, "payload_ref 指向不存在的条目: "@ + p)]
            },
            _ => seq![err("unknown.payload_required"@, path, "loss_class=preserved_raw 必须携带 payload_ref"@)],
        }
    } else if lc == Some("unsupported"@) {
        Seq::empty()
    } else {
        seq![err("unknown.loss_class"@, path, "unknown 节点的 loss_class 必须是 preserved_raw|unsupported"@)]
    }
}

/// The checks of an `unknown` node or span: its loss class, the payload it
/// preserves, and a non-empty summary.
#[verifier::opaque]
pub open spec fn unknown_issues(node: Json, path: Seq<char>, names: Seq<Seq<char>>) -> Seq<IssueView> {
    unknown_class_issues(node, path, names) + match str_of(get(node, "summary"@)) {
        Some(s) if s.len() > 0 => Seq::empty(),
        _ => seq![err("unknown.summary"@, path, "unknown 节点缺少非空 summary"@)],
    }
}

fn opt_str<'a>(v: Option<&'a Json>) -> (r: Option<&'a str>)
    ensures
        match r {
            Some(s) => str_of(match v { Some(x) => Some(*x), None => None }) == Some(s@),
            None => str_of(match v { Some(x) => Some(*x), None => None }) is None,
        },
{
    match v {
        Some(x) => x.as_str(),
        None => None,
    }
}

fn check_unknown_fields(node: &Json, path: &str, ctx: &Ctx, issues: &mut Vec<Issue>)
    ensures
        issues_view(final(issues)@) == issues_view(old(issues)@) + unknown_issues(*node, path@, ctx.names()),
{
    proof { reveal(unknown_issues); }
    let ghost before = issues_view(issues@);
    let lc = opt_str(node.get("loss_class"));
    let mut is_raw = false;
    let mut is_unsupported = false;
    if let Some(l) = lc {
        is_raw = str_eq(l, "preserved_raw");
        is_unsupported = str_eq(l, "unsupported");
    }
    if is_raw {
        match opt_str(node.get("payload_ref")) {
            Some(p) if !p.is_empty() => {
                if !ctx.entry_exists(p) {
                    add_err(issues, "unknown.payload_missing", path.to_owned(), cat2("payload_ref 指向不存在的条目: ", p));
                }
            },
            _ => add_err(issues, "unknown.payload_required", path.to_owned(), "loss_class=preserved_raw 必须携带 payload_ref".to_owned()),
        }
    } else if !is_unsupported {
        add_err(issues, "unknown.loss_class", path.to_owned(), "unknown 节点的 loss_class 必须是 preserved_raw|unsupported".to_owned());
    }
    let ghost mid = issues_view(issues@);
    assert(mid =~= before + unknown_class_issues(*node, path@, ctx.names()));
    match opt_str(node.get("summary")) {
        Some(s) if !s.is_empty() => {},
        _ => add_err(issues, "unknown.summary", path.to_owned(), "unknown 节点缺少非空 summary".to_owned()),
    }
    assert(issues_view(issues@) =~= before + unknown_issues(*node, path@, ctx.names()));
}

// ------------------------------------------------------------------ format extension

/// Bits of the `f64` value -0.0.
pub const F64_NEG_ZERO: u64 = 0x8000_0000_0000_0000;
/// Bits of the `f64` value 0.5.
pub const F64_HALF: u64 = 0x3FE0_0000_0000_0000;
/// Bits of the `f64` value 1.0.
pub const F64_ONE: u64 = 0x3FF0_0000_0000_0000;
/// Bits of the `f64` value 5.0.
pub const F64_FIVE: u64 = 0x4014_0000_0000_0000;
/// Bits of the `f64` value 999.0.
pub const F64_999: u64 = 0x408F_3800_0000_0000;

// Non-negative `f64` values order as their bit patterns do; negative ones
// (sign bit set) lie below every bound here but -0.0, which equals 0.0.

/// A number whose `f64` value lies in [0, 999].
pub open spec fn in_0_999(v: Json) -> bool {
    match v {
        Json::Number(JsonNumber::PosInt(u)) => u <= 999,
        Json::Number(JsonNumber::Float(b)) => b <= F64_999 || b == F64_NEG_ZERO,
        _ => false,
    }
}

/// A number whose `f64` value lies in [0.5, 5.0].
pub open spec fn in_half_5(v: Json) -> bool {
    match v {
        Json::Number(JsonNumber::PosInt(u)) => 1 <= u <= 5,
        Json::Number(JsonNumber::Float(b)) => F64_HALF <= b <= F64_FIVE,
        _ => false,
    }
}

/// A number whose `f64` value lies in [1, 999].
pub open spec fn in_1_999(v: Json) -> bool {
    match v {
        Json::Number(JsonNumber::PosInt(u)) => 1 <= u <= 999,
        Json::Number(JsonNumber::Float(b)) => F64_ONE <= b <= F64_999,
        _ => false,
    }
}

fn within_0_999(v: &Json) -> (r: bool)
    ensures
        r == in_0_999(*v),
{
    match v {
        Json::Number(JsonNumber::PosInt(u)) => *u <= 999,
        Json::Number(JsonNumber::Float(b)) => *b <= F64_999 || *b == F64_NEG_ZERO,
        _ => false,
    }
}

fn within_half_5(v: &Json) -> (r: bool)
    ensures
        r == in_half_5(*v),
{
    match v {
        Json::Number(JsonNumber::PosInt(u)) => 1 <= *u && *u <= 5,
        Json::Number(JsonNumber::Float(b)) => F64_HALF <= *b && *b <= F64_FIVE,
        _ => false,
    }
}

fn within_1_999(v: &Json) -> (r: bool)
    ensures
        r == in_1_999(*v),
{
    match v {
        Json::Number(JsonNumber::PosInt(u)) => 1 <= *u && *u <= 999,
        Json::Number(JsonNumber::Float(b)) => F64_ONE <= *b && *b <= F64_999,
        _ => false,
    }
}

/// An ASCII hexadecimal digit.
pub open spec fn is_hex(c: char) -> bool {
    ('0' <= c && c <= '9') || ('a' <= c && c <= 'f') || ('A' <= c && c <= 'F')
}

/// `#RRGGBB`.
pub open spec fn color_ok(s: Seq<char>) -> bool {
    s.len() == 7 && s[0] == '#' && forall|k: int| 1 <= k < 7 ==> is_hex(#[trigger] s[k])
}

/// Bytes of a character in UTF-8.
pub open spec fn utf8_width(c: char) -> nat {
    if (c as u32) < 0x80 {
        1
    } else if (c as u32) < 0x800 {
        2
    } else if (c as u32) < 0x10000 {
        3
    } else {
        4
    }
}

/// Bytes of a text in UTF-8.
pub open spec fn utf8_len(s: Seq<char>) -> nat
    decreases s.len(),
{
    if s.len() == 0 {
        0
    } else {
        utf8_len(s.drop_last()) + utf8_width(s.last())
    }
}

/// A character a font family may not hold.
pub open spec fn family_forbidden(c: char) -> bool {
    c == '\'' || c == '"' || c == ';' || c == '{' || c == '}' || c == '<' || c == '>'
}

/// A font family that is empty, longer than 200 bytes, or holds a
/// forbidden character.
pub open spec fn family_bad(s: Seq<char>) -> bool {
    s.len() == 0 || utf8_len(s) > 200 || exists|k: int| 0 <= k < s.len() && family_forbidden(#[trigger] s[k])
}

fn hex_digit(c: char) -> (r: bool)
    ensures
        r == is_hex(c),
{
    ('0' <= c && c <= '9') || ('a' <= c && c <= 'f') || ('A' <= c && c <= 'F')
}

fn color_valid(s: &str) -> (r: bool)
    ensures
        r == color_ok(s@),
{
    let v = chars_of(s);
    if v.len() != 7 || v[0] != '#' {
        return false;
    }
    let mut k: usize = 1;
    while k < 7
        invariant
            1 <= k <= 7,
            v@ == s@,
            v.len() == 7,
            forall|j: int| 1 <= j < k ==> is_hex(#[trigger] s@[j]),
        decreases 7 - k,
    {
        if !hex_digit(v[k]) {
            return false;
        }
        k = k + 1;
    }
    true
}

fn family_invalid(s: &str) -> (r: bool)
    ensures
        r == family_bad(s@),
{
    let v = chars_of(s);
    if v.len() == 0 {
        return true;
    }
    let mut bytes: usize = 0;
    let mut bad = false;
    let mut k: usize = 0;
    while k < v.len()
        invariant
            k <= v.len(),
            v@ == s@,
            bytes == (if utf8_len(v@.take(k as int)) > 200 { 201 } else { utf8_len(v@.take(k as int)) }),
            bad == exists|j: int| 0 <= j < k && family_forbidden(#[trigger] v@[j]),
        decreases v.len() - k,
    {
        let c = v[k];
        let code: u32 = c as u32;
        let w: usize = if code < 0x80 {
            1
        } else if code < 0x800 {
            2
        } else if code < 0x10000 {
            3
        } else {
            4
        };
        assert(v@.take(k + 1).drop_last() =~= v@.take(k as int));
        if bytes <= 200 {
            bytes = bytes + w;
            if bytes > 201 {
                bytes = 201;
            }
        }
        if c == '\'' || c == '"' || c == ';' || c == '{' || c == '}' || c == '<' || c == '>' {
            bad = true;
        }
        k = k + 1;
    }
    assert(v@.take(v.len() as int) =~= v@);
    bad || bytes > 200
}

/// The paragraph spacing members, each in points.
pub open spec fn spacing_keys() -> Seq<Seq<char>> {
    seq!["indentStartPt"@, "indentEndPt"@, "firstLinePt"@, "spaceBeforePt"@, "spaceAfterPt"@]
}

/// The paragraph alignments.
pub open spec fn align_values() -> Seq<Seq<char>> {
    seq!["left"@, "center"@, "right"@, "justify"@]
}

/// The checks of one spacing member of a paragraph format.
pub open spec fn spacing_issue(para: Json, ppath: Seq<char>, key: Seq<char>) -> Seq<IssueView> {
    match get(para, key) {
        Some(v) => if in_0_999(v) {
            Seq::empty()
        } else {
            seq![err("format.range"@, at_key(ppath, key), key + " 必须是 0–999 的数值（pt）"@)]
        },
        None => Seq::empty(),
    }
}

/// The checks of the spacing members `keys`, in order.
pub open spec fn spacing_issues(para: Json, ppath: Seq<char>, keys: Seq<Seq<char>>) -> Seq<IssueView>
    decreases keys.len(),
{
    if keys.len() == 0 {
        Seq::empty()
    } else {
        spacing_issues(para, ppath, keys.drop_last()) + spacing_issue(para, ppath, keys.last())
    }
}

/// The checks of a paragraph format: alignment, spacing, line height.
pub open spec fn para_issues(para: Json, ppath: Seq<char>) -> Seq<IssueView> {
    (match str_of(get(para, "align"@)) {
        Some(a) => if align_values().contains(a) {
            Seq::empty()
        } else {
            seq![err("format.align"@, at_key(ppath, "align"@), "align 必须是 left|center|right|justify，实际为 `"@ + a + "`"@)]
        },
        None => Seq::empty(),
    }) + spacing_issues(para, ppath, spacing_keys()) + (match get(para, "lineHeight"@) {
        Some(v) => if in_half_5(v) {
            Seq::empty()
        } else {
            seq![err("format.lineHeight"@, at_key(ppath, "lineHeight"@), "lineHeight 必须是 0.5–5.0 的倍数"@)]
        },
        None => Seq::empty(),
    })
}

/// The check of one color member of a character format.
pub open spec fn color_issue(ch: Json, cpath: Seq<char>, key: Seq<char>) -> Seq<IssueView> {
    match str_of(get(ch, key)) {
        Some(s) => if color_ok(s) {
            Seq::empty()
        } else {
            seq![err("format.color"@, at_key(cpath, key), key + " 必须是 #RRGGBB 形式，实际为 `"@ + s + "`"@)]
        },
        None => Seq::empty(),
    }
}

/// The checks of a character format: size, colors, family, vertical alignment.
pub open spec fn char_issues(ch: Json, cpath: Seq<char>) -> Seq<IssueView> {
    (match get(ch, "fontSizePt"@) {
        Some(v) => if in_1_999(v) {
            Seq::empty()
        } else {
            seq![err("format.fontSizePt"@, at_key(cpath, "fontSizePt"@), "fontSizePt 必须是 1–999 的数值"@)]
        },
        None => Seq::empty(),
    }) + color_issue(ch, cpath, "color"@) + color_issue(ch, cpath, "highlight"@) + (match str_of(get(ch, "fontFamily"@)) {
        Some(f) => if family_bad(f) {
            seq![err("format.fontFamily"@, at_key(cpath, "fontFamily"@), "fontFamily 含非法字符或超长"@)]
        } else {
            Seq::empty()
        },
        None => Seq::empty(),
    }) + (match str_of(get(ch, "verticalAlign"@)) {
        Some(a) => if a == "sub"@ || a == "super"@ {
            Seq::empty()
        } else {
            seq![err("format.verticalAlign"@, at_key(cpath, "verticalAlign"@), "verticalAlign 必须是 sub|super"@)]
        },
        None => Seq::empty(),
    })
}

/// The checks of the `x-athanor-format` member of a node or span: only the
/// values of the members it knows; other members are let through.
#[verifier::opaque]
pub open spec fn fmt_issues(node: Json, path: Seq<char>) -> Seq<IssueView> {
    match get(node, "x-athanor-format"@) {
        Some(f) => if f is Object {
            let fpath = at_key(path, "x-athanor-format"@);
            (match get(f, "paragraph"@) {
                Some(p) => if p is Object { para_issues(p, at_key(fpath, "paragraph"@)) } else { Seq::empty() },
                None => Seq::empty(),
            }) + (match get(f, "character"@) {
                Some(c) => if c is Object { char_issues(c, at_key(fpath, "character"@)) } else { Seq::empty() },
                None => Seq::empty(),
            })
        } else {
            Seq::empty()
        },
        None => Seq::empty(),
    }
}

fn check_para(para: &Json, ppath: &str, issues: &mut Vec<Issue>)
    ensures
        issues_view(final(issues)@) == issues_view(old(issues)@) + para_issues(*para, ppath@),
{
    let ghost before = issues_view(issues@);
    if let Some(a) = opt_str(para.get("align")) {
        let aligns: Vec<&str> = vec!["left", "center", "right", "justify"];
        assert(names_view(aligns@) =~= align_values());
        if !one_of(aligns.as_slice(), a) {
            add_err(issues, "format.align", key_path(ppath, "align"), cat3("align 必须是 left|center|right|justify，实际为 `", a, "`"));
        }
    }
    let ghost a_part = issues_view(issues@).skip(before.len() as int);
    assert(issues_view(issues@) =~= before + a_part);
    let keys: Vec<&str> = vec!["indentStartPt", "indentEndPt", "firstLinePt", "spaceBeforePt", "spaceAfterPt"];
    assert(names_view(keys@) =~= spacing_keys());
    let mut k: usize = 0;
    while k < keys.len()
        invariant
            k <= keys.len(),
            names_view(keys@) == spacing_keys(),
            issues_view(issues@) == before + a_part + spacing_issues(*para, ppath@, spacing_keys().take(k as int)),
        decreases keys.len() - k,
    {
        let key = keys[k];
        assert(spacing_keys().take(k + 1).drop_last() =~= spacing_keys().take(k as int));
        assert(spacing_keys()[k as int] == key@);
        if let Some(v) = para.get(key) {
            if !within_0_999(v) {
                add_err(issues, "format.range", key_path(ppath, key), cat2(key, " 必须是 0–999 的数值（pt）"));
            }
        }
        k = k + 1;
        assert(issues_view(issues@) =~= before + a_part + spacing_issues(*para, ppath@, spacing_keys().take(k as int)));
    }
    assert(spacing_keys().take(5) =~= spacing_keys());
    let ghost s_part = spacing_issues(*para, ppath@, spacing_keys());
    if let Some(v) = para.get("lineHeight") {
        if !within_half_5(v) {
            add_err(issues, "format.lineHeight", key_path(ppath, "lineHeight"), "lineHeight 必须是 0.5–5.0 的倍数".to_owned());
        }
    }
    assert(issues_view(issues@) =~= before + para_issues(*para, ppath@));
}

fn check_color(ch: &Json, cpath: &str, key: &str, issues: &mut Vec<Issue>)
    ensures
        issues_view(final(issues)@) == issues_view(old(issues)@) + color_issue(*ch, cpath@, key@),
{
    let ghost before = issues_view(issues@);
    if let Some(s) = opt_str(ch.get(key)) {
        if !color_valid(s) {
            add_err(issues, "format.color", key_path(cpath, key), cat4(key, " 必须是 #RRGGBB 形式，实际为 `", s, "`"));
        }
    }
    assert(issues_view(issues@) =~= before + color_issue(*ch, cpath@, key@));
}

fn check_char(ch: &Json, cpath: &str, issues: &mut Vec<Issue>)
    ensures
        issues_view(final(issues)@) == issues_view(old(issues)@) + char_issues(*ch, cpath@),
{
    let ghost before = issues_view(issues@);
    if let Some(v) = ch.get("fontSizePt") {
        if !within_1_999(v) {
            add_err(issues, "format.fontSizePt", key_path(cpath, "fontSizePt"), "fontSizePt 必须是 1–999 的数值".to_owned());
        }
    }
    let ghost p1 = issues_view(issues@).skip(before.len() as int);
    assert(issues_view(issues@) =~= before + p1);
    check_color(ch, cpath, "color", issues);
    check_color(ch, cpath, "highlight", issues);
    let ghost p2 = issues_view(issues@).skip(before.len() as int);
    assert(issues_view(issues@) =~= before + p2);
    if let Some(f) = opt_str(ch.get("fontFamily")) {
        if family_invalid(f) {
            add_err(issues, "format.fontFamily", key_path(cpath, "fontFamily"), "fontFamily 含非法字符或超长".to_owned());
        }
    }
    let ghost p3 = issues_view(issues@).skip(before.len() as int);
    assert(issues_view(issues@) =~= before + p3);
    if let Some(a) = opt_str(ch.get("verticalAlign")) {
        if !(str_eq(a, "sub") || str_eq(a, "super")) {
            add_err(issues, "format.verticalAlign", key_path(cpath, "verticalAlign"), "verticalAlign 必须是 sub|super".to_owned());
        }
    }
    assert(issues_view(issues@) =~= before + char_issues(*ch, cpath@));
}

fn check_format_extension(node: &Json, path: &str, issues: &mut Vec<Issue>)
    ensures
        issues_view(final(issues)@) == issues_view(old(issues)@) + fmt_issues(*node, path@),
{
    proof { reveal(fmt_issues); }
    let ghost before = issues_view(issues@);
    let f = match node.get("x-athanor-format") {
        Some(f) => f,
        None => return,
    };
    if !f.is_object() {
        return;
    }
    let fpath = key_path(path, "x-athanor-format");
    if let Some(p) = f.get("paragraph") {
        if p.is_object() {
            check_para(p, key_path(fpath.as_str(), "paragraph").as_str(), issues);
        }
    }
    let ghost p1 = issues_view(issues@).skip(before.len() as int);
    assert(issues_view(issues@) =~= before + p1);
    if let Some(c) = f.get("character") {
        if c.is_object() {
            check_char(c, key_path(fpath.as_str(), "character").as_str(), issues);
        }
    }
    assert(issues_view(issues@) =~= before + fmt_issues(*node, path@));
}

// ------------------------------------------------------------------ table grid

/// `n` reduced modulo 2^64, for `n` below 2^65.
pub open spec fn wrap64(n: int) -> int {
    if n > u64::MAX {
        n - 0x1_0000_0000_0000_0000
    } else {
        n
    }
}

/// `n` capped at `u64::MAX`.
pub open spec fn sat64(n: int) -> int {
    if n > u64::MAX {
        u64::MAX as int
    } else {
        n
    }
}

/// A span member: at least 1, and 1 when absent or not a non-negative
/// integer.
pub open spec fn span_of(v: Option<Json>) -> nat {
    match u64_of(v) {
        Some(n) => if n >= 1 { n } else { 1 },
        None => 1,
    }
}

/// At most 64 rows or columns of a span are marked occupied.
pub open spec fn cap64(n: nat) -> nat {
    if n < 64 { n } else { 64 }
}

/// The grid position `dr` rows and `dc` columns from `(row, col)`.
pub open spec fn grid_pos(row: int, col: int, dr: int, dc: int) -> (u64, u64) {
    (wrap64(row + dr) as u64, wrap64(col + dc) as u64)
}

/// The positions a cell marks occupied.
pub open spec fn covered(row: nat, col: nat, rspan: nat, cspan: nat) -> Set<(u64, u64)> {
    Set::new(
        |p: (u64, u64)|
            exists|dr: int, dc: int|
                0 <= dr < cap64(rspan) && 0 <= dc < cap64(cspan) && p == #[trigger] grid_pos(row as int, col as int, dr, dc),
    )
}

/// What the grid check has found after some cells.
pub struct GridState {
    pub occupied: Set<(u64, u64)>,
    pub issues: Seq<IssueView>,
}

/// Where a cell of a table sits in the document.
pub open spec fn cell_path(path: Seq<char>, ri: nat, ci: nat) -> Seq<char> {
    at_index(at_key(at_index(at_key(path, "rows"@), ri), "cells"@), ci)
}

/// The irregularities of one cell, given the positions occupied before it.
pub open spec fn cell_irregular(
    cell: Json,
    path: Seq<char>,
    nrows: nat,
    ncols: Option<nat>,
    ri: nat,
    ci: nat,
    st: GridState,
) -> GridState {
    match u64_of(get(cell, "column"@)) {
        None => st,
        Some(col) => {
            let cspan = span_of(get(cell, "colSpan"@));
            let rspan = span_of(get(cell, "rowSpan"@));
            let cp = cell_path(path, ri, ci);
            let cov = covered(ri, col, rspan, cspan);
            let w1 = match ncols {
                Some(n) => if sat64(col + cspan as int) > n {
                    seq![warn("table.irregular"@, cp, "单元格 column("@ + dec(col) + ") + colSpan("@ + dec(cspan) + ") 超出声明列数("@ + dec(n) + ")——不规则表，仅诊断不自动重写"@)]
                } else {
                    Seq::empty()
                },
                None => Seq::empty(),
            };
            let w2 = if sat64(ri + rspan as int) > nrows {
                seq![warn("table.irregular"@, cp, "单元格 rowSpan("@ + dec(rspan) + ") 超出剩余行数("@ + dec((nrows - ri) as nat) + ")——不规则表，仅诊断不自动重写"@)]
            } else {
                Seq::empty()
            };
            let w3 = if exists|p: (u64, u64)| cov.contains(p) && #[trigger] st.occupied.contains(p) {
                seq![warn("table.irregular"@, cp, "单元格与既有占位重叠——不规则表，仅诊断不自动重写"@)]
            } else {
                Seq::empty()
            };
            GridState { occupied: st.occupied.union(cov), issues: st.issues + w1 + w2 + w3 }
        },
    }
}

/// The grid check over the first `k` cells of row `ri`.
pub open spec fn cells_fold(
    cells: Seq<Json>,
    path: Seq<char>,
    nrows: nat,
    ncols: Option<nat>,
    ri: nat,
    k: nat,
    st: GridState,
) -> GridState
    decreases k,
{
    if k == 0 || k > cells.len() {
        st
    } else {
        let prev = cells_fold(cells, path, nrows, ncols, ri, (k - 1) as nat, st);
        cell_irregular(cells[k - 1], path, nrows, ncols, ri, (k - 1) as nat, prev)
    }
}

/// The grid check over the first `k` rows.
pub open spec fn rows_fold(rows: Seq<Json>, path: Seq<char>, ncols: Option<nat>, k: nat) -> GridState
    decreases k,
{
    if k == 0 || k > rows.len() {
        GridState { occupied: Set::empty(), issues: Seq::empty() }
    } else {
        let prev = rows_fold(rows, path, ncols, (k - 1) as nat);
        match arr_of(get(rows[k - 1], "cells"@)) {
            Some(cells) => cells_fold(cells, path, rows.len(), ncols, (k - 1) as nat, cells.len(), prev),
            None => prev,
        }
    }
}

/// The grid diagnosis of a table: each cell's place is rebuilt from
/// `column`, `colSpan` and `rowSpan`; a cell that reaches past the declared
/// columns or the remaining rows, or overlaps an earlier cell, is a warning.
#[verifier::opaque]
pub open spec fn grid_issues(node: Json, path: Seq<char>, ncols: Option<nat>) -> Seq<IssueView> {
    match arr_of(get(node, "rows"@)) {
        Some(rows) => rows_fold(rows, path, ncols, rows.len()).issues,
        None => Seq::empty(),
    }
}

proof fn lemma_grid_pos_distinct(row: int, col: int, d1: int, c1: int, d2: int, c2: int)
    requires
        0 <= row <= u64::MAX,
        0 <= col <= u64::MAX,
        0 <= d1 < 64,
        0 <= c1 < 64,
        0 <= d2 < 64,
        0 <= c2 < 64,
        grid_pos(row, col, d1, c1) == grid_pos(row, col, d2, c2),
    ensures
        d1 == d2 && c1 == c2,
{
    assert(wrap64(row + d1) == wrap64(row + d2));
    assert(wrap64(col + c1) == wrap64(col + c2));
}

fn occupied_has(occ: &Vec<(u64, u64)>, p: (u64, u64)) -> (r: bool)
    ensures
        r == occ@.to_set().contains(p),
{
    let mut i: usize = 0;
    while i < occ.len()
        invariant
            i <= occ.len(),
            forall|j: int| 0 <= j < i ==> occ@[j] != p,
        decreases occ.len() - i,
    {
        if occ[i].0 == p.0 && occ[i].1 == p.1 {
            assert(occ@.contains(p)) by { assert(occ@[i as int] == p); }
            return true;
        }
        i = i + 1;
    }
    assert(!occ@.contains(p));
    false
}

/// Marks the positions of one cell; true when one of them was taken before.
fn mark_cell(occ: &mut Vec<(u64, u64)>, row: u64, col: u64, rspan: u64, cspan: u64) -> (overlap: bool)
    ensures
        final(occ)@.to_set() == old(occ)@.to_set().union(covered(row as nat, col as nat, rspan as nat, cspan as nat)),
        overlap == exists|p: (u64, u64)|
            covered(row as nat, col as nat, rspan as nat, cspan as nat).contains(p) && #[trigger] old(occ)@.to_set().contains(p),
{
    let ghost occ0 = occ@.to_set();
    let ghost cov = covered(row as nat, col as nat, rspan as nat, cspan as nat);
    let rmax: u64 = if rspan < 64 { rspan } else { 64 };
    let cmax: u64 = if cspan < 64 { cspan } else { 64 };
    let mut overlap = false;
    let mut dr: u64 = 0;
    // Positions marked so far: whole rows of the span below `dr`, then
    // columns below `dc` of row `dr`.
    while dr < rmax
        invariant
            rmax == cap64(rspan as nat),
            cmax == cap64(cspan as nat),
            dr <= rmax,
            cov == covered(row as nat, col as nat, rspan as nat, cspan as nat),
            occ@.to_set() == occ0.union(Set::new(|p: (u64, u64)| exists|a: int, b: int| 0 <= a < dr && 0 <= b < cmax && p == #[trigger] grid_pos(row as int, col as int, a, b))),
            overlap == exists|a: int, b: int| 0 <= a < dr && 0 <= b < cmax && occ0.contains(#[trigger] grid_pos(row as int, col as int, a, b)),
        decreases rmax - dr,
    {
        let mut dc: u64 = 0;
        while dc < cmax
            invariant
                rmax == cap64(rspan as nat),
                cmax == cap64(cspan as nat),
                dr < rmax,
                dc <= cmax,
                occ@.to_set() == occ0.union(Set::new(|p: (u64, u64)| exists|a: int, b: int| ((0 <= a < dr && 0 <= b < cmax) || (a == dr && 0 <= b < dc)) && p == #[trigger] grid_pos(row as int, col as int, a, b))),
                overlap == exists|a: int, b: int| ((0 <= a < dr && 0 <= b < cmax) || (a == dr && 0 <= b < dc)) && occ0.contains(#[trigger] grid_pos(row as int, col as int, a, b)),
            decreases cmax - dc,
        {
            let p = (row.wrapping_add(dr), col.wrapping_add(dc));
            assert(p == grid_pos(row as int, col as int, dr as int, dc as int));
            let ghost before = occ@.to_set();
            let ghost before_seq = occ@;
            let taken = occupied_has(occ, p);
            proof {
                // A position of this cell was not marked earlier in the same cell.
                assert forall|a: int, b: int| ((0 <= a < dr && 0 <= b < cmax) || (a == dr && 0 <= b < dc))
                    implies #[trigger] grid_pos(row as int, col as int, a, b) != p by {
                    if grid_pos(row as int, col as int, a, b) == p {
                        lemma_grid_pos_distinct(row as int, col as int, a, b, dr as int, dc as int);
                    }
                }
                assert(before.contains(p) == occ0.contains(p));
            }
            if taken {
                overlap = true;
            } else {
                occ.push(p);
            }
            proof {
                let after = occ0.union(Set::new(|q: (u64, u64)| exists|a: int, b: int| ((0 <= a < dr && 0 <= b < cmax) || (a == dr && 0 <= b < dc + 1)) && q == #[trigger] grid_pos(row as int, col as int, a, b)));
                assert(occ@.to_set() =~= after) by {
                    if !taken {
                        before_seq.lemma_push_to_set_commute(p);
                        assert(occ@ == before_seq.push(p));
                    }
                    assert forall|q: (u64, u64)| after.contains(q) implies occ@.to_set().contains(q) by {
                        if !occ0.contains(q) {
                            let (a, b) = choose|a: int, b: int| ((0 <= a < dr && 0 <= b < cmax) || (a == dr && 0 <= b < dc + 1)) && q == #[trigger] grid_pos(row as int, col as int, a, b);
                            if a == dr && b == dc {
                                assert(q == p);
                            } else {
                                assert(before.contains(q));
                            }
                        }
                    }
                    assert forall|q: (u64, u64)| occ@.to_set().contains(q) implies after.contains(q) by {
                        if q != p {
                            assert(before.contains(q));
                            if !occ0.contains(q) {
                                let (a, b) = choose|a: int, b: int| ((0 <= a < dr && 0 <= b < cmax) || (a == dr && 0 <= b < dc)) && q == #[trigger] grid_pos(row as int, col as int, a, b);
                                assert(((0 <= a < dr && 0 <= b < cmax) || (a == dr && 0 <= b < dc + 1)) && q == grid_pos(row as int, col as int, a, b));
                            }
                        } else {
                            assert(((0 <= dr < dr && 0 <= dc < cmax) || (dr == dr && 0 <= dc < dc + 1)) && q == grid_pos(row as int, col as int, dr as int, dc as int));
                        }
                    }
                }
                if taken {
                    assert(((0 <= dr < dr && 0 <= dc < cmax) || (dr == dr && 0 <= dc < dc + 1)) && occ0.contains(grid_pos(row as int, col as int, dr as int, dc as int)));
                }
            }
            dc = dc + 1;
        }
        proof {
            let s1 = Set::new(|p: (u64, u64)| exists|a: int, b: int| ((0 <= a < dr && 0 <= b < cmax) || (a == dr && 0 <= b < cmax)) && p == #[trigger] grid_pos(row as int, col as int, a, b));
            let s2 = Set::new(|p: (u64, u64)| exists|a: int, b: int| 0 <= a < dr + 1 && 0 <= b < cmax && p == #[trigger] grid_pos(row as int, col as int, a, b));
            assert(s1 =~= s2) by {
                assert forall|p: (u64, u64)| s1.contains(p) implies s2.contains(p) by {
                    let (a, b) = choose|a: int, b: int| ((0 <= a < dr && 0 <= b < cmax) || (a == dr && 0 <= b < cmax)) && p == #[trigger] grid_pos(row as int, col as int, a, b);
                    assert(0 <= a < dr + 1 && 0 <= b < cmax && p == grid_pos(row as int, col as int, a, b));
                }
                assert forall|p: (u64, u64)| s2.contains(p) implies s1.contains(p) by {
                    let (a, b) = choose|a: int, b: int| 0 <= a < dr + 1 && 0 <= b < cmax && p == #[trigger] grid_pos(row as int, col as int, a, b);
                    assert(((0 <= a < dr && 0 <= b < cmax) || (a == dr && 0 <= b < cmax)) && p == grid_pos(row as int, col as int, a, b));
                }
            }
        }
        dr = dr + 1;
    }
    proof {
        let s = Set::new(|p: (u64, u64)| exists|a: int, b: int| 0 <= a < dr && 0 <= b < cmax && p == #[trigger] grid_pos(row as int, col as int, a, b));
        assert(s =~= cov);
        if overlap {
            let (a, b) = choose|a: int, b: int| 0 <= a < dr && 0 <= b < cmax && occ0.contains(#[trigger] grid_pos(row as int, col as int, a, b));
            assert(cov.contains(grid_pos(row as int, col as int, a, b)));
        } else {
            assert forall|p: (u64, u64)| cov.contains(p) implies !#[trigger] occ0.contains(p) by {
                let (a, b) = choose|a: int, b: int| 0 <= a < cap64(rspan as nat) && 0 <= b < cap64(cspan as nat) && p == #[trigger] grid_pos(row as int, col as int, a, b);
            }
        }
        assert(occ@.to_set() =~= occ0.union(cov));
    }
    overlap
}

/// A count as a plain value.
pub open spec fn opt_nat(n: Option<usize>) -> Option<nat> {
    match n {
        Some(k) => Some(k as nat),
        None => None,
    }
}

fn span_value(v: Option<&Json>) -> (r: u64)
    ensures
        r as nat == span_of(match v { Some(x) => Some(*x), None => None }),
{
    let n = match v {
        Some(x) => match x.as_u64() {
            Some(n) => n,
            None => 1,
        },
        None => 1,
    };
    if n >= 1 { n } else { 1 }
}

fn columns_message(col: u64, cspan: u64, ncols: u64) -> (r: String)
    ensures
        r@ == "单元格 column("@ + dec(col as nat) + ") + colSpan("@ + dec(cspan as nat) + ") 超出声明列数("@ + dec(ncols as nat) + ")——不规则表，仅诊断不自动重写"@,
{
    let mut v: Vec<char> = Vec::new();
    push_str(&mut v, "单元格 column(");
    push_all(&mut v, fmt_u64(col).as_slice());
    push_str(&mut v, ") + colSpan(");
    push_all(&mut v, fmt_u64(cspan).as_slice());
    push_str(&mut v, ") 超出声明列数(");
    push_all(&mut v, fmt_u64(ncols).as_slice());
    push_str(&mut v, ")——不规则表，仅诊断不自动重写");
    string_of(v.as_slice())
}

fn rows_message(rspan: u64, left: u64) -> (r: String)
    ensures
        r@ == "单元格 rowSpan("@ + dec(rspan as nat) + ") 超出剩余行数("@ + dec(left as nat) + ")——不规则表，仅诊断不自动重写"@,
{
    let mut v: Vec<char> = Vec::new();
    push_str(&mut v, "单元格 rowSpan(");
    push_all(&mut v, fmt_u64(rspan).as_slice());
    push_str(&mut v, ") 超出剩余行数(");
    push_all(&mut v, fmt_u64(left).as_slice());
    push_str(&mut v, ")——不规则表，仅诊断不自动重写");
    string_of(v.as_slice())
}

fn check_cell(
    cell: &Json,
    path: &str,
    nrows: usize,
    ncols: Option<usize>,
    ri: usize,
    ci: usize,
    occ: &mut Vec<(u64, u64)>,
    issues: &mut Vec<Issue>,
)
    requires
        ri < nrows,
    ensures
        ({
            let st = GridState { occupied: old(occ)@.to_set(), issues: issues_view(old(issues)@) };
            let st2 = cell_irregular(*cell, path@, nrows as nat, opt_nat(ncols), ri as nat, ci as nat, st);
            final(occ)@.to_set() == st2.occupied && issues_view(final(issues)@) == st2.issues
        }),
{
    let ghost st = GridState { occupied: occ@.to_set(), issues: issues_view(issues@) };
    let col = match cell.get("column") {
        Some(c) => match c.as_u64() {
            Some(n) => n,
            None => return,
        },
        None => return,
    };
    let cspan = span_value(cell.get("colSpan"));
    let rspan = span_value(cell.get("rowSpan"));
    let cp = index_path(key_path(index_path(key_path(path, "rows").as_str(), ri).as_str(), "cells").as_str(), ci);
    let ghost w0 = issues_view(issues@);
    if let Some(n) = ncols {
        if col.saturating_add(cspan) > n as u64 {
            push_issue(issues, Level::Warning, "table.irregular", cp.clone(), columns_message(col, cspan, n as u64));
        }
    }
    let ghost w1 = issues_view(issues@).skip(w0.len() as int);
    assert(issues_view(issues@) =~= w0 + w1);
    if (ri as u64).saturating_add(rspan) > nrows as u64 {
        push_issue(issues, Level::Warning, "table.irregular", cp.clone(), rows_message(rspan, nrows as u64 - ri as u64));
    }
    let ghost w2 = issues_view(issues@).skip((w0.len() + w1.len()) as int);
    assert(issues_view(issues@) =~= w0 + w1 + w2);
    let overlap = mark_cell(occ, ri as u64, col, rspan, cspan);
    if overlap {
        push_issue(issues, Level::Warning, "table.irregular", cp, "单元格与既有占位重叠——不规则表，仅诊断不自动重写".to_owned());
    }
    let ghost st2 = cell_irregular(*cell, path@, nrows as nat, opt_nat(ncols), ri as nat, ci as nat, st);
    assert(issues_view(issues@) =~= st2.issues);
}

fn check_table_grid(node: &Json, path: &str, col_count: Option<usize>, issues: &mut Vec<Issue>)
    ensures
        issues_view(final(issues)@) == issues_view(old(issues)@) + grid_issues(*node, path@, opt_nat(col_count)),
{
    proof { reveal(grid_issues); }
    let ghost base = issues_view(issues@);
    let rows = match node.get("rows") {
        Some(r) => match r.as_array() {
            Some(a) => a,
            None => {
                assert(issues_view(issues@) =~= base + grid_issues(*node, path@, opt_nat(col_count)));
                return;
            },
        },
        None => {
            assert(issues_view(issues@) =~= base + grid_issues(*node, path@, opt_nat(col_count)));
            return;
        },
    };
    let ghost nc = opt_nat(col_count);
    let mut occ: Vec<(u64, u64)> = Vec::new();
    let mut ri: usize = 0;
    proof {
        assert(occ@.to_set() =~= Set::<(u64, u64)>::empty());
        assert(issues_view(issues@) =~= base + Seq::<IssueView>::empty());
    }
    while ri < rows.len()
        invariant
            ri <= rows.len(),
            nc == opt_nat(col_count),
            occ@.to_set() == rows_fold(rows@, path@, nc, ri as nat).occupied,
            issues_view(issues@) == base + rows_fold(rows@, path@, nc, ri as nat).issues,
        decreases rows.len() - ri,
    {
        let ghost st0 = rows_fold(rows@, path@, nc, ri as nat);
        let row = &rows[ri];
        match row.get("cells") {
            Some(c) => match c.as_array() {
                Some(cells) => {
                    let mut ci: usize = 0;
                    while ci < cells.len()
                        invariant
                            ri < rows.len(),
                            ci <= cells.len(),
                            nc == opt_nat(col_count),
                            occ@.to_set() == cells_fold(cells@, path@, rows.len() as nat, nc, ri as nat, ci as nat, st0).occupied,
                            issues_view(issues@) == base + cells_fold(cells@, path@, rows.len() as nat, nc, ri as nat, ci as nat, st0).issues,
                        decreases cells.len() - ci,
                    {
                        let ghost prev = cells_fold(cells@, path@, rows.len() as nat, nc, ri as nat, ci as nat, st0);
                        let ghost base_issues = issues_view(issues@);
                        check_cell(&cells[ci], path, rows.len(), col_count, ri, ci, &mut occ, issues);
                        proof {
                            let sta = GridState { occupied: prev.occupied, issues: base_issues };
                            let stb = GridState { occupied: prev.occupied, issues: prev.issues };
                            let ra = cell_irregular(cells@[ci as int], path@, rows.len() as nat, nc, ri as nat, ci as nat, sta);
                            let rb = cell_irregular(cells@[ci as int], path@, rows.len() as nat, nc, ri as nat, ci as nat, stb);
                            assert(ra.occupied == rb.occupied);
                            assert(ra.issues =~= base + rb.issues);
                            assert(cells_fold(cells@, path@, rows.len() as nat, nc, ri as nat, (ci + 1) as nat, st0) == rb);
                        }
                        ci = ci + 1;
                    }
                },
                None => {},
            },
            None => {},
        }
        ri = ri + 1;
    }
}

// ------------------------------------------------------------------ spans

/// The `type` member of a node or span.
pub open spec fn type_of(v: Json) -> Option<Seq<char>> {
    str_of(get(v, "type"@))
}

/// Strings as plain values.
pub open spec fn texts(v: Seq<String>) -> Seq<Seq<char>> {
    v.map_values(|s: String| s@)
}

/// Asset references (path, asset) as plain values.
pub open spec fn assets_view(v: Seq<(String, String)>) -> Seq<(Seq<char>, Seq<char>)> {
    v.map_values(|p: (String, String)| (p.0@, p.1@))
}

/// The checks a span type asks for.
#[verifier::opaque]
pub open spec fn span_type_issues(
    span: Json,
    t: Seq<char>,
    path: Seq<char>,
    names: Seq<Seq<char>>,
    defs: Seq<Seq<char>>,
) -> Seq<IssueView> {
    if t == "text"@ || t == "code"@ {
        if str_of(get(span, "text"@)) is None {
            seq![err("span.text"@, path, t + " 缺少 text"@)]
        } else {
            Seq::empty()
        }
    } else if t == "link"@ {
        if str_of(get(span, "url"@)) is None {
            seq![err("link.url"@, path, "link 缺少 url"@)]
        } else {
            Seq::empty()
        }
    } else if t == "footnote_ref"@ {
        match str_of(get(span, "id"@)) {
            Some(target) => if defs.contains(target) {
                Seq::empty()
            } else {
                seq![err("footnote_ref.dangling"@, path, "footnote_ref 指向不存在的脚注块: "@ + target)]
            },
            None => Seq::empty(),
        }
    } else if t == "inline_math"@ {
        if str_of(get(span, "latex"@)) is None {
            seq![err("inline_math.latex"@, path, "inline_math 缺少 latex"@)]
        } else {
            Seq::empty()
        }
    } else if t == "unknown"@ {
        unknown_issues(span, path, names)
    } else {
        Seq::empty()
    }
}

/// A footnote reference without a target: checked no further.
pub open spec fn ref_without_id(span: Json, t: Seq<char>) -> bool {
    t == "footnote_ref"@ && str_of(get(span, "id"@)) is None
}

/// The issues of one span and the spans inside it.
pub open spec fn span_issues(
    span: Json,
    path: Seq<char>,
    names: Seq<Seq<char>>,
    defs: Seq<Seq<char>>,
) -> Seq<IssueView>
    decreases span, 0nat,
{
    match type_of(span) {
        None => seq![err("span.missing_type"@, path, "span 缺少 type"@)],
        Some(t) => {
            let unknown = if known_span_type_table().contains(t) {
                Seq::empty()
            } else {
                seq![info("span.unknown_type"@, path, "未知行内类型 `"@ + t + "`（按 R3 处理，原样保留）"@)]
            };
            if ref_without_id(span, t) {
                unknown + seq![err("footnote_ref.id"@, path, "footnote_ref 缺少 id"@)]
            } else {
                let k = kids(span, "content"@);
                let inner = if k.len() > 0 {
                    proof { lemma_kids_inside(span, "content"@); }
                    spans_issues(k, at_key(path, "content"@), names, defs)
                } else {
                    Seq::empty()
                };
                unknown + span_type_issues(span, t, path, names, defs) + fmt_issues(span, path) + inner
            }
        },
    }
}

/// The issues of a list of spans; span `i` sits at `base[i]`.
pub open spec fn spans_issues(
    spans: Seq<Json>,
    base: Seq<char>,
    names: Seq<Seq<char>>,
    defs: Seq<Seq<char>>,
) -> Seq<IssueView>
    decreases spans, 1nat,
{
    if spans.len() == 0 {
        Seq::empty()
    } else {
        spans_issues(spans.drop_last(), base, names, defs)
            + span_issues(spans.last(), at_index(base, (spans.len() - 1) as nat), names, defs)
    }
}

/// The assets a span and the spans inside it refer to.
pub open spec fn span_assets(span: Json, path: Seq<char>) -> Seq<(Seq<char>, Seq<char>)>
    decreases span, 0nat,
{
    match type_of(span) {
        None => Seq::empty(),
        Some(t) => if ref_without_id(span, t) {
            Seq::empty()
        } else {
            let own = match str_of(get(span, "asset"@)) {
                Some(a) => seq![(path, a)],
                None => Seq::empty(),
            };
            let k = kids(span, "content"@);
            if k.len() > 0 {
                proof { lemma_kids_inside(span, "content"@); }
                own + spans_assets(k, at_key(path, "content"@))
            } else {
                own
            }
        },
    }
}

/// The assets of a list of spans.
pub open spec fn spans_assets(spans: Seq<Json>, base: Seq<char>) -> Seq<(Seq<char>, Seq<char>)>
    decreases spans, 1nat,
{
    if spans.len() == 0 {
        Seq::empty()
    } else {
        spans_assets(spans.drop_last(), base) + span_assets(spans.last(), at_index(base, (spans.len() - 1) as nat))
    }
}

fn has_text(list: &Vec<String>, s: &str) -> (r: bool)
    ensures
        r == texts(list@).contains(s@),
{
    let mut i: usize = 0;
    while i < list.len()
        invariant
            i <= list.len(),
            forall|j: int| 0 <= j < i ==> texts(list@)[j] != s@,
        decreases list.len() - i,
    {
        if str_eq(list[i].as_str(), s) {
            assert(texts(list@)[i as int] == s@);
            return true;
        }
        i = i + 1;
    }
    false
}

fn push_asset(assets: &mut Vec<(String, String)>, path: String, asset: &str)
    ensures
        assets_view(final(assets)@) == assets_view(old(assets)@).push((path@, asset@)),
{
    let ghost before = assets_view(assets@);
    assets.push((path, asset.to_owned()));
    assert(assets_view(assets@) =~= before.push((path@, asset@)));
}

fn check_span_type(span: &Json, t: &str, path: &str, ctx: &Ctx, defs: &Vec<String>, issues: &mut Vec<Issue>)
    ensures
        issues_view(final(issues)@) == issues_view(old(issues)@) + span_type_issues(*span, t@, path@, ctx.names(), texts(defs@)),
{
    proof { reveal(span_type_issues); }
    let ghost before = issues_view(issues@);
    if str_eq(t, "text") || str_eq(t, "code") {
        if span.get_str("text").is_none() {
            add_err(issues, "span.text", path.to_owned(), cat2(t, " 缺少 text"));
        }
    } else if str_eq(t, "link") {
        if span.get_str("url").is_none() {
            add_err(issues, "link.url", path.to_owned(), "link 缺少 url".to_owned());
        }
    } else if str_eq(t, "footnote_ref") {
        if let Some(target) = span.get_str("id") {
            if !has_text(defs, target) {
                add_err(issues, "footnote_ref.dangling", path.to_owned(), cat2("footnote_ref 指向不存在的脚注块: ", target));
            }
        }
    } else if str_eq(t, "inline_math") {
        if span.get_str("latex").is_none() {
            add_err(issues, "inline_math.latex", path.to_owned(), "inline_math 缺少 latex".to_owned());
        }
    } else if str_eq(t, "unknown") {
        check_unknown_fields(span, path, ctx, issues);
    }
    assert(issues_view(issues@) =~= before + span_type_issues(*span, t@, path@, ctx.names(), texts(defs@)));
}

fn check_span(
    span: &Json,
    path: &str,
    ctx: &Ctx,
    defs: &Vec<String>,
    issues: &mut Vec<Issue>,
    assets: &mut Vec<(String, String)>,
)
    ensures
        issues_view(final(issues)@) == issues_view(old(issues)@) + span_issues(*span, path@, ctx.names(), texts(defs@)),
        assets_view(final(assets)@) == assets_view(old(assets)@) + span_assets(*span, path@),
    decreases span,
{
    let ghost ib = issues_view(issues@);
    let ghost ab = assets_view(assets@);
    let t = match span.get_str("type") {
        Some(t) => t,
        None => {
            add_err(issues, "span.missing_type", path.to_owned(), "span 缺少 type".to_owned());
            assert(assets_view(assets@) =~= ab + span_assets(*span, path@));
            return;
        },
    };
    let known = known_span_types();
    if !one_of(known.as_slice(), t) {
        push_issue(issues, Level::Info, "span.unknown_type", path.to_owned(), cat3("未知行内类型 `", t, "`（按 R3 处理，原样保留）"));
    }
    let ghost unknown = issues_view(issues@).skip(ib.len() as int);
    assert(issues_view(issues@) =~= ib + unknown);
    if str_eq(t, "footnote_ref") && span.get_str("id").is_none() {
        add_err(issues, "footnote_ref.id", path.to_owned(), "footnote_ref 缺少 id".to_owned());
        assert(issues_view(issues@) =~= ib + span_issues(*span, path@, ctx.names(), texts(defs@)));
        assert(assets_view(assets@) =~= ab + span_assets(*span, path@));
        return;
    }
    check_span_type(span, t, path, ctx, defs, issues);
    if let Some(a) = span.get_str("asset") {
        push_asset(assets, path.to_owned(), a);
    }
    check_format_extension(span, path, issues);
    let ghost i_mid = issues_view(issues@);
    let ghost a_mid = assets_view(assets@);
    assert(i_mid =~= ib + unknown + span_type_issues(*span, t@, path@, ctx.names(), texts(defs@)) + fmt_issues(*span, path@));
    if let Some(content) = span.get_array("content") {
        let cbase = key_path(path, "content");
        let mut i: usize = 0;
        while i < content.len()
            invariant
                i <= content.len(),
                content@ == kids(*span, "content"@),
                issues_view(issues@) == i_mid + spans_issues(content@.take(i as int), cbase@, ctx.names(), texts(defs@)),
                assets_view(assets@) == a_mid + spans_assets(content@.take(i as int), cbase@),
            decreases content.len() - i,
        {
            proof { lemma_kid_inside(*span, "content"@, i as int); }
            let p = index_path(cbase.as_str(), i);
            check_span(&content[i], p.as_str(), ctx, defs, issues, assets);
            proof {
                let t1 = content@.take(i + 1);
                assert(t1.drop_last() =~= content@.take(i as int));
                assert(t1.last() == content@[i as int]);
            }
            i = i + 1;
            assert(issues_view(issues@) =~= i_mid + spans_issues(content@.take(i as int), cbase@, ctx.names(), texts(defs@)));
            assert(assets_view(assets@) =~= a_mid + spans_assets(content@.take(i as int), cbase@));
        }
        assert(content@.take(content.len() as int) =~= content@);
    }
    assert(issues_view(issues@) =~= ib + span_issues(*span, path@, ctx.names(), texts(defs@)));
    assert(assets_view(assets@) =~= ab + span_assets(*span, path@));
}

fn check_spans(
    spans: &Vec<Json>,
    base: &str,
    ctx: &Ctx,
    defs: &Vec<String>,
    issues: &mut Vec<Issue>,
    assets: &mut Vec<(String, String)>,
)
    ensures
        issues_view(final(issues)@) == issues_view(old(issues)@) + spans_issues(spans@, base@, ctx.names(), texts(defs@)),
        assets_view(final(assets)@) == assets_view(old(assets)@) + spans_assets(spans@, base@),
{
    let ghost ib = issues_view(issues@);
    let ghost ab = assets_view(assets@);
    let mut i: usize = 0;
    assert(issues_view(issues@) =~= ib + spans_issues(spans@.take(0), base@, ctx.names(), texts(defs@)));
    assert(assets_view(assets@) =~= ab + spans_assets(spans@.take(0), base@));
    while i < spans.len()
        invariant
            i <= spans.len(),
            issues_view(issues@) == ib + spans_issues(spans@.take(i as int), base@, ctx.names(), texts(defs@)),
            assets_view(assets@) == ab + spans_assets(spans@.take(i as int), base@),
        decreases spans.len() - i,
    {
        let p = index_path(base, i);
        check_span(&spans[i], p.as_str(), ctx, defs, issues, assets);
        proof {
            let t1 = spans@.take(i + 1);
            assert(t1.drop_last() =~= spans@.take(i as int));
            assert(t1.last() == spans@[i as int]);
        }
        i = i + 1;
        assert(issues_view(issues@) =~= ib + spans_issues(spans@.take(i as int), base@, ctx.names(), texts(defs@)));
        assert(assets_view(assets@) =~= ab + spans_assets(spans@.take(i as int), base@));
    }
    assert(spans@.take(spans.len() as int) =~= spans@);
}

// ------------------------------------------------------------------ footnotes

/// The footnote reference a span itself makes, if any.
pub open spec fn own_ref(v: Json, path: Seq<char>) -> Seq<(Seq<char>, Seq<char>)> {
    if type_of(v) == Some("footnote_ref"@) {
        match str_of(get(v, "id"@)) {
            Some(id) => seq![(at_key(path, "id"@), id)],
            None => Seq::empty(),
        }
    } else {
        Seq::empty()
    }
}

/// The footnote references of a span and the spans inside it, with the
/// path of each `id`.
pub open spec fn span_refs(span: Json, path: Seq<char>) -> Seq<(Seq<char>, Seq<char>)>
    decreases span, 0nat,
{
    let k = kids(span, "content"@);
    own_ref(span, path) + if k.len() > 0 {
        proof { lemma_kids_inside(span, "content"@); }
        spans_refs(k, at_key(path, "content"@))
    } else {
        Seq::empty()
    }
}

/// The footnote references of a list of spans.
pub open spec fn spans_refs(spans: Seq<Json>, base: Seq<char>) -> Seq<(Seq<char>, Seq<char>)>
    decreases spans, 1nat,
{
    if spans.len() == 0 {
        Seq::empty()
    } else {
        spans_refs(spans.drop_last(), base) + span_refs(spans.last(), at_index(base, (spans.len() - 1) as nat))
    }
}

/// The footnote references under the nodes of the array member `key`.
pub open spec fn kids_refs(node: Json, path: Seq<char>, key: Seq<char>) -> Seq<(Seq<char>, Seq<char>)>
    decreases node, 0nat,
{
    let k = kids(node, key);
    if k.len() > 0 {
        proof { lemma_kids_inside(node, key); }
        nodes_refs(k, at_key(path, key))
    } else {
        Seq::empty()
    }
}

/// The footnote references in the spans of the array member `key`.
pub open spec fn kids_span_refs(node: Json, path: Seq<char>, key: Seq<char>) -> Seq<(Seq<char>, Seq<char>)> {
    spans_refs(kids(node, key), at_key(path, key))
}

/// The footnote references under a node: its own, those of its `children`,
/// `items` and `cells`, and those in its `content` and `caption` spans.
pub open spec fn node_refs(node: Json, path: Seq<char>) -> Seq<(Seq<char>, Seq<char>)>
    decreases node, 1nat,
{
    own_ref(node, path) + kids_refs(node, path, "children"@) + kids_refs(node, path, "items"@)
        + kids_refs(node, path, "cells"@) + kids_span_refs(node, path, "content"@)
        + kids_span_refs(node, path, "caption"@)
}

/// The footnote references under a list of nodes.
pub open spec fn nodes_refs(nodes: Seq<Json>, base: Seq<char>) -> Seq<(Seq<char>, Seq<char>)>
    decreases nodes, 1nat,
{
    if nodes.len() == 0 {
        Seq::empty()
    } else {
        nodes_refs(nodes.drop_last(), base) + node_refs(nodes.last(), at_index(base, (nodes.len() - 1) as nat))
    }
}

/// The footnote id a node itself defines, if any.
pub open spec fn own_def(node: Json) -> Seq<Seq<char>> {
    if type_of(node) == Some("footnote"@) {
        match str_of(get(node, "id"@)) {
            Some(id) => seq![id],
            None => Seq::empty(),
        }
    } else {
        Seq::empty()
    }
}

/// The footnote ids defined under the nodes of the array member `key`.
pub open spec fn kids_defs(node: Json, key: Seq<char>) -> Seq<Seq<char>>
    decreases node, 0nat,
{
    let k = kids(node, key);
    if k.len() > 0 {
        proof { lemma_kids_inside(node, key); }
        nodes_defs(k)
    } else {
        Seq::empty()
    }
}

/// The footnote ids a node and the nodes under its `children`, `items` and
/// `cells` define.
pub open spec fn node_defs(node: Json) -> Seq<Seq<char>>
    decreases node, 1nat,
{
    own_def(node) + kids_defs(node, "children"@) + kids_defs(node, "items"@) + kids_defs(node, "cells"@)
}

/// The footnote ids defined under a list of nodes.
pub open spec fn nodes_defs(nodes: Seq<Json>) -> Seq<Seq<char>>
    decreases nodes, 1nat,
{
    if nodes.len() == 0 {
        Seq::empty()
    } else {
        nodes_defs(nodes.drop_last()) + node_defs(nodes.last())
    }
}

/// Reference pairs as plain values.
pub open spec fn refs_view(v: Seq<(String, String)>) -> Seq<(Seq<char>, Seq<char>)> {
    v.map_values(|p: (String, String)| (p.0@, p.1@))
}

fn push_own_ref(v: &Json, path: &str, refs: &mut Vec<(String, String)>)
    ensures
        refs_view(final(refs)@) == refs_view(old(refs)@) + own_ref(*v, path@),
{
    let ghost before = refs_view(refs@);
    if let Some(t) = v.get_str("type") {
        if str_eq(t, "footnote_ref") {
            if let Some(id) = v.get_str("id") {
                refs.push((key_path(path, "id"), id.to_owned()));
                assert(refs_view(refs@) =~= before + own_ref(*v, path@));
                return;
            }
        }
    }
    assert(refs_view(refs@) =~= before + own_ref(*v, path@));
}

fn collect_span_refs(span: &Json, path: &str, refs: &mut Vec<(String, String)>)
    ensures
        refs_view(final(refs)@) == refs_view(old(refs)@) + span_refs(*span, path@),
    decreases *span, 0nat,
{
    let ghost before = refs_view(refs@);
    push_own_ref(span, path, refs);
    if let Some(content) = span.get_array("content") {
        if content.len() > 0 {
            proof { lemma_kids_inside(*span, "content"@); }
            collect_spans_refs(content, key_path(path, "content").as_str(), refs);
        }
    }
    assert(refs_view(refs@) =~= before + span_refs(*span, path@));
}

fn collect_spans_refs(spans: &Vec<Json>, base: &str, refs: &mut Vec<(String, String)>)
    ensures
        refs_view(final(refs)@) == refs_view(old(refs)@) + spans_refs(spans@, base@),
    decreases spans@, 1nat,
{
    let ghost before = refs_view(refs@);
    let mut i: usize = 0;
    assert(refs_view(refs@) =~= before + spans_refs(spans@.take(0), base@));
    while i < spans.len()
        invariant
            i <= spans.len(),
            refs_view(refs@) == before + spans_refs(spans@.take(i as int), base@),
        decreases spans.len() - i,
    {
        let p = index_path(base, i);
        assert(decreases_to!(spans@ => spans@[i as int]));
        collect_span_refs(&spans[i], p.as_str(), refs);
        proof {
            let t1 = spans@.take(i + 1);
            assert(t1.drop_last() =~= spans@.take(i as int));
        }
        i = i + 1;
        assert(refs_view(refs@) =~= before + spans_refs(spans@.take(i as int), base@));
    }
    assert(spans@.take(spans.len() as int) =~= spans@);
}

fn collect_refs(nodes: &Vec<Json>, base: &str, defs: &mut Vec<String>, refs: &mut Vec<(String, String)>)
    ensures
        texts(final(defs)@) == texts(old(defs)@) + nodes_defs(nodes@),
        refs_view(final(refs)@) == refs_view(old(refs)@) + nodes_refs(nodes@, base@),
    decreases nodes@, 2nat,
{
    let ghost d0 = texts(defs@);
    let ghost r0 = refs_view(refs@);
    let mut i: usize = 0;
    assert(texts(defs@) =~= d0 + nodes_defs(nodes@.take(0)));
    assert(refs_view(refs@) =~= r0 + nodes_refs(nodes@.take(0), base@));
    while i < nodes.len()
        invariant
            i <= nodes.len(),
            texts(defs@) == d0 + nodes_defs(nodes@.take(i as int)),
            refs_view(refs@) == r0 + nodes_refs(nodes@.take(i as int), base@),
        decreases nodes.len() - i,
    {
        let p = index_path(base, i);
        assert(decreases_to!(nodes@ => nodes@[i as int]));
        collect_node_refs(&nodes[i], p.as_str(), defs, refs);
        proof {
            let t1 = nodes@.take(i + 1);
            assert(t1.drop_last() =~= nodes@.take(i as int));
        }
        i = i + 1;
        assert(texts(defs@) =~= d0 + nodes_defs(nodes@.take(i as int)));
        assert(refs_view(refs@) =~= r0 + nodes_refs(nodes@.take(i as int), base@));
    }
    assert(nodes@.take(nodes.len() as int) =~= nodes@);
}

fn collect_kids_refs(node: &Json, path: &str, key: &str, defs: &mut Vec<String>, refs: &mut Vec<(String, String)>)
    ensures
        texts(final(defs)@) == texts(old(defs)@) + kids_defs(*node, key@),
        refs_view(final(refs)@) == refs_view(old(refs)@) + kids_refs(*node, path@, key@),
    decreases *node, 0nat,
{
    let ghost d0 = texts(defs@);
    let ghost r0 = refs_view(refs@);
    if let Some(k) = node.get_array(key) {
        if k.len() > 0 {
            proof { lemma_kids_inside(*node, key@); }
            collect_refs(k, key_path(path, key).as_str(), defs, refs);
            return;
        }
    }
    assert(texts(defs@) =~= d0 + kids_defs(*node, key@));
    assert(refs_view(refs@) =~= r0 + kids_refs(*node, path@, key@));
}

fn collect_kids_span_refs(node: &Json, path: &str, key: &str, refs: &mut Vec<(String, String)>)
    ensures
        refs_view(final(refs)@) == refs_view(old(refs)@) + kids_span_refs(*node, path@, key@),
{
    let ghost r0 = refs_view(refs@);
    if let Some(k) = node.get_array(key) {
        collect_spans_refs(k, key_path(path, key).as_str(), refs);
        return;
    }
    assert(refs_view(refs@) =~= r0 + kids_span_refs(*node, path@, key@));
}

fn push_own_def(node: &Json, defs: &mut Vec<String>)
    ensures
        texts(final(defs)@) == texts(old(defs)@) + own_def(*node),
{
    let ghost d0 = texts(defs@);
    if let Some(t) = node.get_str("type") {
        if str_eq(t, "footnote") {
            if let Some(id) = node.get_str("id") {
                defs.push(id.to_owned());
            }
        }
    }
    assert(texts(defs@) =~= d0 + own_def(*node));
}

fn collect_node_refs(node: &Json, path: &str, defs: &mut Vec<String>, refs: &mut Vec<(String, String)>)
    ensures
        texts(final(defs)@) == texts(old(defs)@) + node_defs(*node),
        refs_view(final(refs)@) == refs_view(old(refs)@) + node_refs(*node, path@),
    decreases *node, 1nat,
{
    let ghost d0 = texts(defs@);
    let ghost r0 = refs_view(refs@);
    push_own_def(node, defs);
    push_own_ref(node, path, refs);
    let ghost own_r = own_ref(*node, path@);
    collect_kids_refs(node, path, "children", defs, refs);
    let ghost a = kids_refs(*node, path@, "children"@);
    assert(refs_view(refs@) =~= r0 + (own_r + a));
    assert(texts(defs@) =~= d0 + (own_def(*node) + kids_defs(*node, "children"@)));
    collect_kids_refs(node, path, "items", defs, refs);
    let ghost b = kids_refs(*node, path@, "items"@);
    assert(refs_view(refs@) =~= r0 + (own_r + a + b));
    assert(texts(defs@) =~= d0 + (own_def(*node) + kids_defs(*node, "children"@) + kids_defs(*node, "items"@)));
    collect_kids_refs(node, path, "cells", defs, refs);
    let ghost c = kids_refs(*node, path@, "cells"@);
    assert(refs_view(refs@) =~= r0 + (own_r + a + b + c));
    collect_kids_span_refs(node, path, "content", refs);
    let ghost d = kids_span_refs(*node, path@, "content"@);
    assert(refs_view(refs@) =~= r0 + (own_r + a + b + c + d));
    collect_kids_span_refs(node, path, "caption", refs);
    assert(texts(defs@) =~= d0 + node_defs(*node));
    assert(refs_view(refs@) =~= r0 + node_refs(*node, path@));
}

// ------------------------------------------------------------------ nodes

/// What a check finds: issues, and the assets the document refers to with
/// the path of each reference.
pub struct Findings {
    pub issues: Seq<IssueView>,
    pub assets: Seq<(Seq<char>, Seq<char>)>,
}

/// Findings one after the other.
pub open spec fn fcat(a: Findings, b: Findings) -> Findings {
    Findings { issues: a.issues + b.issues, assets: a.assets + b.assets }
}

/// Issues and no assets.
pub open spec fn only(issues: Seq<IssueView>) -> Findings {
    Findings { issues, assets: Seq::empty() }
}

/// Nothing found.
pub open spec fn none_found() -> Findings {
    Findings { issues: Seq::empty(), assets: Seq::empty() }
}

/// The id prefix a node type asks for: `sec` for sections, `li` for list
/// items, `blk` for the other known types, none for unknown types.
pub open spec fn want_prefix(t: Seq<char>) -> Option<Seq<char>> {
    if t == "section"@ {
        Some("sec"@)
    } else if t == "list_item"@ {
        Some("li"@)
    } else if known_node_type_table().contains(t) {
        Some("blk"@)
    } else {
        None
    }
}

/// The checks of a node's `id`.
#[verifier::opaque]
pub open spec fn id_issues(node: Json, t: Seq<char>, path: Seq<char>) -> Seq<IssueView> {
    match str_of(get(node, "id"@)) {
        None => seq![err("node.missing_id"@, path, "节点缺少 id"@)],
        Some(id) => match split_id_spec(id) {
            Ok((kind, _)) => match want_prefix(t) {
                Some(w) => if kind_prefix(kind) != w {
                    seq![err("id.wrong_prefix"@, at_key(path, "id"@), "类型 `"@ + t + "` 的 id 前缀应为 "@ + w + "_，实际为 `"@ + id + "`"@)]
                } else {
                    Seq::empty()
                },
                None => Seq::empty(),
            },
            Err(e) => seq![err("id.invalid"@, at_key(path, "id"@), id_error_message(e))],
        },
    }
}

/// The number of declared columns of a table.
pub open spec fn column_count(node: Json) -> Option<nat> {
    match arr_of(get(node, "columns"@)) {
        Some(a) => Some(a.len()),
        None => None,
    }
}

/// The checks a node type asks for.
#[verifier::opaque]
pub open spec fn type_issues(node: Json, t: Seq<char>, path: Seq<char>, names: Seq<Seq<char>>) -> Seq<IssueView> {
    if t == "heading"@ {
        match i64_of(get(node, "level"@)) {
            Some(l) if 1 <= l <= 6 => Seq::empty(),
            _ => seq![err("heading.level"@, path, "heading.level 必须是 1–6 的整数"@)],
        }
    } else if t == "list"@ {
        (match str_of(get(node, "style"@)) {
            Some(st) if st == "ordered"@ || st == "bullet"@ => Seq::empty(),
            _ => seq![err("list.style"@, path, "list.style 必须是 ordered|bullet"@)],
        }) + (match get(node, "start"@) {
            Some(v) => match i64_of(Some(v)) {
                Some(n) if n >= 1 => Seq::empty(),
                _ => seq![err("list.start"@, path, "list.start 必须 ≥ 1"@)],
            },
            None => Seq::empty(),
        })
    } else if t == "code_block"@ {
        if str_of(get(node, "text"@)) is None {
            seq![err("code_block.text"@, path, "code_block 缺少 text"@)]
        } else {
            Seq::empty()
        }
    } else if t == "table"@ {
        (if column_count(node) is None {
            seq![err("table.columns"@, path, "table 缺少 columns"@)]
        } else {
            Seq::empty()
        }) + (if arr_of(get(node, "rows"@)) is None {
            seq![err("table.rows"@, path, "table 缺少 rows"@)]
        } else {
            Seq::empty()
        }) + grid_issues(node, path, column_count(node))
    } else if t == "callout"@ {
        match str_of(get(node, "variant"@)) {
            Some(v) if v == "note"@ || v == "tip"@ || v == "warning"@ || v == "important"@ => Seq::empty(),
            _ => seq![err("callout.variant"@, path, "callout.variant 必须是 note|tip|warning|important"@)],
        }
    } else if t == "math_block"@ {
        if str_of(get(node, "latex"@)) is None {
            seq![err("math_block.latex"@, path, "math_block 缺少 latex"@)]
        } else {
            Seq::empty()
        }
    } else if t == "unknown"@ {
        unknown_issues(node, path, names)
    } else {
        Seq::empty()
    }
}

/// The `id` checks of a table row or cell.
pub open spec fn part_id_issues(v: Json, vpath: Seq<char>, missing: Seq<char>, invalid: Seq<char>) -> Seq<IssueView> {
    match str_of(get(v, "id"@)) {
        None => seq![err("node.missing_id"@, vpath, missing)],
        Some(id) => if valid_id(id) {
            Seq::empty()
        } else {
            seq![err("id.invalid"@, at_key(vpath, "id"@), invalid)]
        },
    }
}

/// The findings of a node itself: an unknown type, its id, the checks of its
/// type, the asset it refers to, and its format extension.
pub open spec fn node_head(node: Json, t: Seq<char>, path: Seq<char>, names: Seq<Seq<char>>) -> Findings {
    let unknown = if known_node_type_table().contains(t) {
        Seq::empty()
    } else {
        seq![info("node.unknown_type"@, path, "未知节点类型 `"@ + t + "`（按 R3 处理，原样保留）"@)]
    };
    Findings {
        issues: unknown + id_issues(node, t, path) + type_issues(node, t, path, names) + fmt_issues(node, path),
        assets: match str_of(get(node, "asset"@)) {
            Some(a) => seq![(path, a)],
            None => Seq::empty(),
        },
    }
}

/// The findings in a node's `content` and `caption` spans.
pub open spec fn node_spans(node: Json, path: Seq<char>, names: Seq<Seq<char>>, defs: Seq<Seq<char>>) -> Findings {
    Findings {
        issues: spans_issues(kids(node, "content"@), at_key(path, "content"@), names, defs)
            + spans_issues(kids(node, "caption"@), at_key(path, "caption"@), names, defs),
        assets: spans_assets(kids(node, "content"@), at_key(path, "content"@))
            + spans_assets(kids(node, "caption"@), at_key(path, "caption"@)),
    }
}

/// The findings of the nodes under a node: its `children`, its `items`, its
/// table rows, and its list items once more.
pub open spec fn node_nested(node: Json, path: Seq<char>, names: Seq<Seq<char>>, defs: Seq<Seq<char>>) -> Findings
    decreases node, 2nat,
{
    let a = kids_found(node, path, "children"@, names, defs);
    let b = kids_found(node, path, "items"@, names, defs);
    let c = table_rows_found(node, path, names, defs);
    let d = list_items_found(node, path, names, defs);
    Findings {
        issues: a.issues + b.issues + c.issues + d.issues,
        assets: a.assets + b.assets + c.assets + d.assets,
    }
}

/// The findings of one node and everything under it. A value that is not an
/// object, or has no `type`, is reported and looked at no further.
pub open spec fn node_found(node: Json, path: Seq<char>, names: Seq<Seq<char>>, defs: Seq<Seq<char>>) -> Findings
    decreases node, 3nat,
{
    if !(node is Object) {
        only(seq![err("node.not_object"@, path, "节点必须是对象"@)])
    } else {
        match type_of(node) {
            None => only(seq![err("node.missing_type"@, path, "节点缺少 type 字段"@)]),
            Some(t) => {
                let h = node_head(node, t, path, names);
                let n = node_nested(node, path, names, defs);
                let sp = node_spans(node, path, names, defs);
                Findings { issues: h.issues + n.issues + sp.issues, assets: h.assets + n.assets + sp.assets }
            },
        }
    }
}

/// The findings of the nodes of the array member `key`; node `i` sits at
/// `path.key[i]`.
pub open spec fn kids_found(node: Json, path: Seq<char>, key: Seq<char>, names: Seq<Seq<char>>, defs: Seq<Seq<char>>) -> Findings
    decreases node, 1nat,
{
    let k = kids(node, key);
    if k.len() > 0 {
        proof { lemma_kids_inside(node, key); }
        nodes_found(k, at_key(path, key), names, defs)
    } else {
        none_found()
    }
}

/// The findings of a list of nodes.
pub open spec fn nodes_found(nodes: Seq<Json>, base: Seq<char>, names: Seq<Seq<char>>, defs: Seq<Seq<char>>) -> Findings
    decreases nodes, 2nat,
{
    if nodes.len() == 0 {
        none_found()
    } else {
        fcat(
            nodes_found(nodes.drop_last(), base, names, defs),
            node_found(nodes.last(), at_index(base, (nodes.len() - 1) as nat), names, defs),
        )
    }
}

/// The findings of the rows of a table.
pub open spec fn table_rows_found(node: Json, path: Seq<char>, names: Seq<Seq<char>>, defs: Seq<Seq<char>>) -> Findings
    decreases node, 1nat,
{
    let k = kids(node, "rows"@);
    if k.len() > 0 {
        proof { lemma_kids_inside(node, "rows"@); }
        rows_found(k, at_key(path, "rows"@), names, defs)
    } else {
        none_found()
    }
}

/// The findings of a list of table rows.
pub open spec fn rows_found(rows: Seq<Json>, base: Seq<char>, names: Seq<Seq<char>>, defs: Seq<Seq<char>>) -> Findings
    decreases rows, 2nat,
{
    if rows.len() == 0 {
        none_found()
    } else {
        fcat(
            rows_found(rows.drop_last(), base, names, defs),
            row_found(rows.last(), at_index(base, (rows.len() - 1) as nat), names, defs),
        )
    }
}

/// The findings of one table row: its id, then its cells.
pub open spec fn row_found(row: Json, rpath: Seq<char>, names: Seq<Seq<char>>, defs: Seq<Seq<char>>) -> Findings
    decreases row, 2nat,
{
    let k = kids(row, "cells"@);
    let cells = if k.len() > 0 {
        proof { lemma_kids_inside(row, "cells"@); }
        cells_found(k, at_key(rpath, "cells"@), names, defs)
    } else {
        none_found()
    };
    Findings { issues: part_id_issues(row, rpath, "表格行缺少 id"@, "行 id 非法"@) + cells.issues, assets: cells.assets }
}

/// The findings of a list of table cells.
pub open spec fn cells_found(cells: Seq<Json>, base: Seq<char>, names: Seq<Seq<char>>, defs: Seq<Seq<char>>) -> Findings
    decreases cells, 2nat,
{
    if cells.len() == 0 {
        none_found()
    } else {
        fcat(
            cells_found(cells.drop_last(), base, names, defs),
            cell_found(cells.last(), at_index(base, (cells.len() - 1) as nat), names, defs),
        )
    }
}

/// The findings of one table cell: its id, its column, then its children.
pub open spec fn cell_found(cell: Json, cpath: Seq<char>, names: Seq<Seq<char>>, defs: Seq<Seq<char>>) -> Findings
    decreases cell, 2nat,
{
    let column = if i64_of(get(cell, "column"@)) is None {
        seq![err("cell.column"@, cpath, "单元格缺少 column 下标"@)]
    } else {
        Seq::empty()
    };
    let children = kids_found(cell, cpath, "children"@, names, defs);
    Findings {
        issues: part_id_issues(cell, cpath, "单元格缺少 id"@, "单元格 id 非法"@) + column + children.issues,
        assets: children.assets,
    }
}

/// The list items among a node's `items`, checked once more.
pub open spec fn list_items_found(node: Json, path: Seq<char>, names: Seq<Seq<char>>, defs: Seq<Seq<char>>) -> Findings
    decreases node, 1nat,
{
    let k = kids(node, "items"@);
    if k.len() > 0 {
        proof { lemma_kids_inside(node, "items"@); }
        items_found(k, at_key(path, "items"@), names, defs)
    } else {
        none_found()
    }
}

/// The findings of the `list_item` nodes of a list; other nodes are skipped.
pub open spec fn items_found(items: Seq<Json>, base: Seq<char>, names: Seq<Seq<char>>, defs: Seq<Seq<char>>) -> Findings
    decreases items, 2nat,
{
    if items.len() == 0 {
        none_found()
    } else {
        fcat(
            items_found(items.drop_last(), base, names, defs),
            if type_of(items.last()) == Some("list_item"@) {
                node_found(items.last(), at_index(base, (items.len() - 1) as nat), names, defs)
            } else {
                none_found()
            },
        )
    }
}

/// `issues` and `assets` went from `ib` and `ab` by `f`.
pub open spec fn grew(
    issues: Seq<Issue>,
    assets: Seq<(String, String)>,
    ib: Seq<IssueView>,
    ab: Seq<(Seq<char>, Seq<char>)>,
    f: Findings,
) -> bool {
    issues_view(issues) == ib + f.issues && assets_view(assets) == ab + f.assets
}

fn check_id(node: &Json, t: &str, path: &str, issues: &mut Vec<Issue>)
    ensures
        issues_view(final(issues)@) == issues_view(old(issues)@) + id_issues(*node, t@, path@),
{
    proof { reveal(id_issues); }
    let ghost before = issues_view(issues@);
    let want: Option<&str> = if str_eq(t, "section") {
        Some("sec")
    } else if str_eq(t, "list_item") {
        Some("li")
    } else if one_of(known_node_types().as_slice(), t) {
        Some("blk")
    } else {
        None
    };
    assert(match want { Some(w) => want_prefix(t@) == Some(w@), None => want_prefix(t@) is None });
    match node.get_str("id") {
        None => add_err(issues, "node.missing_id", path.to_owned(), "节点缺少 id".to_owned()),
        Some(id) => match split_id(id) {
            Ok((kind, _)) => {
                if let Some(w) = want {
                    if !str_eq(kind.prefix(), w) {
                        let mut m: Vec<char> = Vec::new();
                        push_str(&mut m, "类型 `");
                        push_str(&mut m, t);
                        push_str(&mut m, "` 的 id 前缀应为 ");
                        push_str(&mut m, w);
                        push_str(&mut m, "_，实际为 `");
                        push_str(&mut m, id);
                        push_str(&mut m, "`");
                        add_err(issues, "id.wrong_prefix", key_path(path, "id"), string_of(m.as_slice()));
                    }
                }
            },
            Err(e) => add_err(issues, "id.invalid", key_path(path, "id"), e.message()),
        },
    }
    assert(issues_view(issues@) =~= before + id_issues(*node, t@, path@));
}

fn check_type(node: &Json, t: &str, path: &str, ctx: &Ctx, issues: &mut Vec<Issue>)
    ensures
        issues_view(final(issues)@) == issues_view(old(issues)@) + type_issues(*node, t@, path@, ctx.names()),
{
    proof { reveal(type_issues); }
    let ghost before = issues_view(issues@);
    if str_eq(t, "heading") {
        let ok = match node.get("level") {
            Some(v) => match v.as_i64() {
                Some(l) => 1 <= l && l <= 6,
                None => false,
            },
            None => false,
        };
        if !ok {
            add_err(issues, "heading.level", path.to_owned(), "heading.level 必须是 1–6 的整数".to_owned());
        }
    } else if str_eq(t, "list") {
        let style_ok = match node.get_str("style") {
            Some(st) => str_eq(st, "ordered") || str_eq(st, "bullet"),
            None => false,
        };
        if !style_ok {
            add_err(issues, "list.style", path.to_owned(), "list.style 必须是 ordered|bullet".to_owned());
        }
        let ghost mid = issues_view(issues@);
        if let Some(start) = node.get("start") {
            let bad = match start.as_i64() {
                Some(n) => n < 1,
                None => true,
            };
            if bad {
                add_err(issues, "list.start", path.to_owned(), "list.start 必须 ≥ 1".to_owned());
            }
        }
    } else if str_eq(t, "code_block") {
        if node.get_str("text").is_none() {
            add_err(issues, "code_block.text", path.to_owned(), "code_block 缺少 text".to_owned());
        }
    } else if str_eq(t, "table") {
        let col_count: Option<usize> = match node.get_array("columns") {
            Some(a) => Some(a.len()),
            None => None,
        };
        assert(opt_nat(col_count) == column_count(*node));
        if col_count.is_none() {
            add_err(issues, "table.columns", path.to_owned(), "table 缺少 columns".to_owned());
        }
        let ghost m1 = issues_view(issues@);
        if node.get_array("rows").is_none() {
            add_err(issues, "table.rows", path.to_owned(), "table 缺少 rows".to_owned());
        }
        let ghost m2 = issues_view(issues@);
        check_table_grid(node, path, col_count, issues);
        assert(issues_view(issues@) =~= before + type_issues(*node, t@, path@, ctx.names()));
    } else if str_eq(t, "callout") {
        let ok = match node.get_str("variant") {
            Some(v) => str_eq(v, "note") || str_eq(v, "tip") || str_eq(v, "warning") || str_eq(v, "important"),
            None => false,
        };
        if !ok {
            add_err(issues, "callout.variant", path.to_owned(), "callout.variant 必须是 note|tip|warning|important".to_owned());
        }
    } else if str_eq(t, "math_block") {
        if node.get_str("latex").is_none() {
            add_err(issues, "math_block.latex", path.to_owned(), "math_block 缺少 latex".to_owned());
        }
    } else if str_eq(t, "unknown") {
        check_unknown_fields(node, path, ctx, issues);
    }
    assert(issues_view(issues@) =~= before + type_issues(*node, t@, path@, ctx.names()));
}

fn check_part_id(v: &Json, vpath: &str, missing: &str, invalid: &str, issues: &mut Vec<Issue>)
    ensures
        issues_view(final(issues)@) == issues_view(old(issues)@) + part_id_issues(*v, vpath@, missing@, invalid@),
{
    let ghost before = issues_view(issues@);
    match v.get_str("id") {
        None => add_err(issues, "node.missing_id", vpath.to_owned(), missing.to_owned()),
        Some(id) => {
            if !is_valid_id(id) {
                add_err(issues, "id.invalid", key_path(vpath, "id"), invalid.to_owned());
            }
        },
    }
    assert(issues_view(issues@) =~= before + part_id_issues(*v, vpath@, missing@, invalid@));
}

fn check_node_head(node: &Json, t: &str, path: &str, ctx: &Ctx, issues: &mut Vec<Issue>, assets: &mut Vec<(String, String)>)
    ensures
        grew(final(issues)@, final(assets)@, issues_view(old(issues)@), assets_view(old(assets)@), node_head(*node, t@, path@, ctx.names())),
{
    let ghost ib = issues_view(issues@);
    let ghost ab = assets_view(assets@);
    if !one_of(known_node_types().as_slice(), t) {
        push_issue(issues, Level::Info, "node.unknown_type", path.to_owned(), cat3("未知节点类型 `", t, "`（按 R3 处理，原样保留）"));
    }
    let ghost i0 = issues_view(issues@);
    check_id(node, t, path, issues);
    let ghost i1 = issues_view(issues@);
    check_type(node, t, path, ctx, issues);
    let ghost i2 = issues_view(issues@);
    if let Some(a) = node.get_str("asset") {
        push_asset(assets, path.to_owned(), a);
    }
    check_format_extension(node, path, issues);
    assert(issues_view(issues@) =~= ib + node_head(*node, t@, path@, ctx.names()).issues);
    assert(assets_view(assets@) =~= ab + node_head(*node, t@, path@, ctx.names()).assets);
}

fn check_node_nested(
    node: &Json,
    path: &str,
    ctx: &Ctx,
    defs: &Vec<String>,
    issues: &mut Vec<Issue>,
    assets: &mut Vec<(String, String)>,
)
    ensures
        grew(final(issues)@, final(assets)@, issues_view(old(issues)@), assets_view(old(assets)@), node_nested(*node, path@, ctx.names(), texts(defs@))),
    decreases *node, 2nat,
{
    let ghost ib = issues_view(issues@);
    let ghost ab = assets_view(assets@);
    let ghost names = ctx.names();
    let ghost ds = texts(defs@);
    let ghost a = kids_found(*node, path@, "children"@, names, ds);
    let ghost b = kids_found(*node, path@, "items"@, names, ds);
    let ghost c = table_rows_found(*node, path@, names, ds);
    let ghost d = list_items_found(*node, path@, names, ds);
    check_kids(node, path, "children", ctx, defs, issues, assets);
    check_kids(node, path, "items", ctx, defs, issues, assets);
    check_table_rows(node, path, ctx, defs, issues, assets);
    check_list_items(node, path, ctx, defs, issues, assets);
    proof {
        vstd::seq_lib::lemma_concat_associative(ib, a.issues + b.issues + c.issues, d.issues);
        vstd::seq_lib::lemma_concat_associative(ib, a.issues + b.issues, c.issues);
        vstd::seq_lib::lemma_concat_associative(ib, a.issues, b.issues);
        vstd::seq_lib::lemma_concat_associative(ab, a.assets + b.assets + c.assets, d.assets);
        vstd::seq_lib::lemma_concat_associative(ab, a.assets + b.assets, c.assets);
        vstd::seq_lib::lemma_concat_associative(ab, a.assets, b.assets);
    }
}

fn check_kids_spans(
    node: &Json,
    path: &str,
    key: &str,
    ctx: &Ctx,
    defs: &Vec<String>,
    issues: &mut Vec<Issue>,
    assets: &mut Vec<(String, String)>,
)
    ensures
        issues_view(final(issues)@) == issues_view(old(issues)@) + spans_issues(kids(*node, key@), at_key(path@, key@), ctx.names(), texts(defs@)),
        assets_view(final(assets)@) == assets_view(old(assets)@) + spans_assets(kids(*node, key@), at_key(path@, key@)),
{
    let ghost ib = issues_view(issues@);
    let ghost ab = assets_view(assets@);
    match node.get_array(key) {
        Some(k) => check_spans(k, key_path(path, key).as_str(), ctx, defs, issues, assets),
        None => {
            assert(issues_view(issues@) =~= ib + spans_issues(kids(*node, key@), at_key(path@, key@), ctx.names(), texts(defs@)));
            assert(assets_view(assets@) =~= ab + spans_assets(kids(*node, key@), at_key(path@, key@)));
        },
    }
}

fn check_node(
    node: &Json,
    path: &str,
    ctx: &Ctx,
    defs: &Vec<String>,
    issues: &mut Vec<Issue>,
    assets: &mut Vec<(String, String)>,
)
    ensures
        grew(final(issues)@, final(assets)@, issues_view(old(issues)@), assets_view(old(assets)@), node_found(*node, path@, ctx.names(), texts(defs@))),
    decreases *node, 3nat,
{
    let ghost ib = issues_view(issues@);
    let ghost ab = assets_view(assets@);
    let ghost names = ctx.names();
    let ghost ds = texts(defs@);
    if !node.is_object() {
        add_err(issues, "node.not_object", path.to_owned(), "节点必须是对象".to_owned());
        assert(issues_view(issues@) =~= ib + node_found(*node, path@, names, ds).issues);
        assert(assets_view(assets@) =~= ab + node_found(*node, path@, names, ds).assets);
        return;
    }
    let t = match node.get_str("type") {
        Some(t) => t,
        None => {
            add_err(issues, "node.missing_type", path.to_owned(), "节点缺少 type 字段".to_owned());
            assert(issues_view(issues@) =~= ib + node_found(*node, path@, names, ds).issues);
            assert(assets_view(assets@) =~= ab + node_found(*node, path@, names, ds).assets);
            return;
        },
    };
    let ghost h = node_head(*node, t@, path@, names);
    let ghost n = node_nested(*node, path@, names, ds);
    let ghost sc = spans_issues(kids(*node, "content"@), at_key(path@, "content"@), names, ds);
    let ghost sca = spans_assets(kids(*node, "content"@), at_key(path@, "content"@));
    let ghost scap = spans_issues(kids(*node, "caption"@), at_key(path@, "caption"@), names, ds);
    let ghost scapa = spans_assets(kids(*node, "caption"@), at_key(path@, "caption"@));
    let ghost sp = node_spans(*node, path@, names, ds);
    check_node_head(node, t, path, ctx, issues, assets);
    check_node_nested(node, path, ctx, defs, issues, assets);
    check_kids_spans(node, path, "content", ctx, defs, issues, assets);
    check_kids_spans(node, path, "caption", ctx, defs, issues, assets);
    proof {
        vstd::seq_lib::lemma_concat_associative(ib + h.issues + n.issues, sc, scap);
        vstd::seq_lib::lemma_concat_associative(ib, h.issues + n.issues, sp.issues);
        vstd::seq_lib::lemma_concat_associative(ib, h.issues, n.issues);
        vstd::seq_lib::lemma_concat_associative(ab + h.assets + n.assets, sca, scapa);
        vstd::seq_lib::lemma_concat_associative(ab, h.assets + n.assets, sp.assets);
        vstd::seq_lib::lemma_concat_associative(ab, h.assets, n.assets);
    }
}

fn check_kids(
    node: &Json,
    path: &str,
    key: &str,
    ctx: &Ctx,
    defs: &Vec<String>,
    issues: &mut Vec<Issue>,
    assets: &mut Vec<(String, String)>,
)
    ensures
        grew(final(issues)@, final(assets)@, issues_view(old(issues)@), assets_view(old(assets)@), kids_found(*node, path@, key@, ctx.names(), texts(defs@))),
    decreases *node, 1nat,
{
    let ghost ib = issues_view(issues@);
    let ghost ab = assets_view(assets@);
    if let Some(k) = node.get_array(key) {
        if k.len() > 0 {
            proof { lemma_kids_inside(*node, key@); }
            check_nodes(k, key_path(path, key).as_str(), ctx, defs, issues, assets);
            return;
        }
    }
    assert(issues_view(issues@) =~= ib + kids_found(*node, path@, key@, ctx.names(), texts(defs@)).issues);
    assert(assets_view(assets@) =~= ab + kids_found(*node, path@, key@, ctx.names(), texts(defs@)).assets);
}

fn check_nodes(
    nodes: &Vec<Json>,
    base: &str,
    ctx: &Ctx,
    defs: &Vec<String>,
    issues: &mut Vec<Issue>,
    assets: &mut Vec<(String, String)>,
)
    ensures
        grew(final(issues)@, final(assets)@, issues_view(old(issues)@), assets_view(old(assets)@), nodes_found(nodes@, base@, ctx.names(), texts(defs@))),
    decreases nodes@, 2nat,
{
    let ghost ib = issues_view(issues@);
    let ghost ab = assets_view(assets@);
    let ghost names = ctx.names();
    let ghost ds = texts(defs@);
    let mut i: usize = 0;
    assert(issues_view(issues@) =~= ib + nodes_found(nodes@.take(0), base@, names, ds).issues);
    assert(assets_view(assets@) =~= ab + nodes_found(nodes@.take(0), base@, names, ds).assets);
    while i < nodes.len()
        invariant
            i <= nodes.len(),
            names == ctx.names(),
            ds == texts(defs@),
            grew(issues@, assets@, ib, ab, nodes_found(nodes@.take(i as int), base@, names, ds)),
        decreases nodes.len() - i,
    {
        let p = index_path(base, i);
        assert(decreases_to!(nodes@ => nodes@[i as int]));
        check_node(&nodes[i], p.as_str(), ctx, defs, issues, assets);
            proof {
            let t1 = nodes@.take(i + 1);
            assert(t1.drop_last() =~= nodes@.take(i as int));
        }
        i = i + 1;
        assert(issues_view(issues@) =~= ib + nodes_found(nodes@.take(i as int), base@, names, ds).issues);
        assert(assets_view(assets@) =~= ab + nodes_found(nodes@.take(i as int), base@, names, ds).assets);
    }
    assert(nodes@.take(nodes.len() as int) =~= nodes@);
}

fn check_table_rows(
    node: &Json,
    path: &str,
    ctx: &Ctx,
    defs: &Vec<String>,
    issues: &mut Vec<Issue>,
    assets: &mut Vec<(String, String)>,
)
    ensures
        grew(final(issues)@, final(assets)@, issues_view(old(issues)@), assets_view(old(assets)@), table_rows_found(*node, path@, ctx.names(), texts(defs@))),
    decreases *node, 1nat,
{
    let ghost ib = issues_view(issues@);
    let ghost ab = assets_view(assets@);
    if let Some(k) = node.get_array("rows") {
        if k.len() > 0 {
            proof { lemma_kids_inside(*node, "rows"@); }
            check_rows(k, key_path(path, "rows").as_str(), ctx, defs, issues, assets);
            return;
        }
    }
    assert(issues_view(issues@) =~= ib + table_rows_found(*node, path@, ctx.names(), texts(defs@)).issues);
    assert(assets_view(assets@) =~= ab + table_rows_found(*node, path@, ctx.names(), texts(defs@)).assets);
}

fn check_rows(
    rows: &Vec<Json>,
    base: &str,
    ctx: &Ctx,
    defs: &Vec<String>,
    issues: &mut Vec<Issue>,
    assets: &mut Vec<(String, String)>,
)
    ensures
        grew(final(issues)@, final(assets)@, issues_view(old(issues)@), assets_view(old(assets)@), rows_found(rows@, base@, ctx.names(), texts(defs@))),
    decreases rows@, 2nat,
{
    let ghost ib = issues_view(issues@);
    let ghost ab = assets_view(assets@);
    let ghost names = ctx.names();
    let ghost ds = texts(defs@);
    let mut i: usize = 0;
    assert(issues_view(issues@) =~= ib + rows_found(rows@.take(0), base@, names, ds).issues);
    assert(assets_view(assets@) =~= ab + rows_found(rows@.take(0), base@, names, ds).assets);
    while i < rows.len()
        invariant
            i <= rows.len(),
            names == ctx.names(),
            ds == texts(defs@),
            grew(issues@, assets@, ib, ab, rows_found(rows@.take(i as int), base@, names, ds)),
        decreases rows.len() - i,
    {
        let p = index_path(base, i);
        assert(decreases_to!(rows@ => rows@[i as int]));
        check_row(&rows[i], p.as_str(), ctx, defs, issues, assets);
            proof {
            let t1 = rows@.take(i + 1);
            assert(t1.drop_last() =~= rows@.take(i as int));
        }
        i = i + 1;
        assert(issues_view(issues@) =~= ib + rows_found(rows@.take(i as int), base@, names, ds).issues);
        assert(assets_view(assets@) =~= ab + rows_found(rows@.take(i as int), base@, names, ds).assets);
    }
    assert(rows@.take(rows.len() as int) =~= rows@);
}

fn check_row(
    row: &Json,
    rpath: &str,
    ctx: &Ctx,
    defs: &Vec<String>,
    issues: &mut Vec<Issue>,
    assets: &mut Vec<(String, String)>,
)
    ensures
        grew(final(issues)@, final(assets)@, issues_view(old(issues)@), assets_view(old(assets)@), row_found(*row, rpath@, ctx.names(), texts(defs@))),
    decreases *row, 2nat,
{
    let ghost ib = issues_view(issues@);
    let ghost ab = assets_view(assets@);
    check_part_id(row, rpath, "表格行缺少 id", "行 id 非法", issues);
    let ghost pid = part_id_issues(*row, rpath@, "表格行缺少 id"@, "行 id 非法"@);
    if let Some(k) = row.get_array("cells") {
        if k.len() > 0 {
            proof { lemma_kids_inside(*row, "cells"@); }
            check_cells(k, key_path(rpath, "cells").as_str(), ctx, defs, issues, assets);
            proof {
                let c = cells_found(k@, at_key(rpath@, "cells"@), ctx.names(), texts(defs@));
                vstd::seq_lib::lemma_concat_associative(ib, pid, c.issues);
            }
            return;
        }
    }
    assert(issues_view(issues@) =~= ib + row_found(*row, rpath@, ctx.names(), texts(defs@)).issues);
    assert(assets_view(assets@) =~= ab + row_found(*row, rpath@, ctx.names(), texts(defs@)).assets);
}

fn check_cells(
    cells: &Vec<Json>,
    base: &str,
    ctx: &Ctx,
    defs: &Vec<String>,
    issues: &mut Vec<Issue>,
    assets: &mut Vec<(String, String)>,
)
    ensures
        grew(final(issues)@, final(assets)@, issues_view(old(issues)@), assets_view(old(assets)@), cells_found(cells@, base@, ctx.names(), texts(defs@))),
    decreases cells@, 2nat,
{
    let ghost ib = issues_view(issues@);
    let ghost ab = assets_view(assets@);
    let ghost names = ctx.names();
    let ghost ds = texts(defs@);
    let mut i: usize = 0;
    assert(issues_view(issues@) =~= ib + cells_found(cells@.take(0), base@, names, ds).issues);
    assert(assets_view(assets@) =~= ab + cells_found(cells@.take(0), base@, names, ds).assets);
    while i < cells.len()
        invariant
            i <= cells.len(),
            names == ctx.names(),
            ds == texts(defs@),
            grew(issues@, assets@, ib, ab, cells_found(cells@.take(i as int), base@, names, ds)),
        decreases cells.len() - i,
    {
        let p = index_path(base, i);
        assert(decreases_to!(cells@ => cells@[i as int]));
        check_table_cell(&cells[i], p.as_str(), ctx, defs, issues, assets);
            proof {
            let t1 = cells@.take(i + 1);
            assert(t1.drop_last() =~= cells@.take(i as int));
        }
        i = i + 1;
        assert(issues_view(issues@) =~= ib + cells_found(cells@.take(i as int), base@, names, ds).issues);
        assert(assets_view(assets@) =~= ab + cells_found(cells@.take(i as int), base@, names, ds).assets);
    }
    assert(cells@.take(cells.len() as int) =~= cells@);
}

fn check_table_cell(
    cell: &Json,
    cpath: &str,
    ctx: &Ctx,
    defs: &Vec<String>,
    issues: &mut Vec<Issue>,
    assets: &mut Vec<(String, String)>,
)
    ensures
        grew(final(issues)@, final(assets)@, issues_view(old(issues)@), assets_view(old(assets)@), cell_found(*cell, cpath@, ctx.names(), texts(defs@))),
    decreases *cell, 2nat,
{
    let ghost ib = issues_view(issues@);
    let ghost ab = assets_view(assets@);
    check_part_id(cell, cpath, "单元格缺少 id", "单元格 id 非法", issues);
    let has_column = match cell.get("column") {
        Some(c) => c.as_i64().is_some(),
        None => false,
    };
    if !has_column {
        add_err(issues, "cell.column", cpath.to_owned(), "单元格缺少 column 下标".to_owned());
    }
    let ghost pid = part_id_issues(*cell, cpath@, "单元格缺少 id"@, "单元格 id 非法"@);
    let ghost column = if i64_of(get(*cell, "column"@)) is None {
        seq![err("cell.column"@, cpath@, "单元格缺少 column 下标"@)]
    } else {
        Seq::empty()
    };
    assert(issues_view(issues@) == ib + pid + column) by {
        assert(issues_view(issues@) =~= ib + pid + column);
    }
    check_kids(cell, cpath, "children", ctx, defs, issues, assets);
    proof {
        let c = kids_found(*cell, cpath@, "children"@, ctx.names(), texts(defs@));
        vstd::seq_lib::lemma_concat_associative(ib, pid + column, c.issues);
        vstd::seq_lib::lemma_concat_associative(ib, pid, column);
    }
}

fn check_list_items(
    node: &Json,
    path: &str,
    ctx: &Ctx,
    defs: &Vec<String>,
    issues: &mut Vec<Issue>,
    assets: &mut Vec<(String, String)>,
)
    ensures
        grew(final(issues)@, final(assets)@, issues_view(old(issues)@), assets_view(old(assets)@), list_items_found(*node, path@, ctx.names(), texts(defs@))),
    decreases *node, 1nat,
{
    let ghost ib = issues_view(issues@);
    let ghost ab = assets_view(assets@);
    if let Some(k) = node.get_array("items") {
        if k.len() > 0 {
            proof { lemma_kids_inside(*node, "items"@); }
            check_items(k, key_path(path, "items").as_str(), ctx, defs, issues, assets);
            return;
        }
    }
    assert(issues_view(issues@) =~= ib + list_items_found(*node, path@, ctx.names(), texts(defs@)).issues);
    assert(assets_view(assets@) =~= ab + list_items_found(*node, path@, ctx.names(), texts(defs@)).assets);
}

fn check_items(
    items: &Vec<Json>,
    base: &str,
    ctx: &Ctx,
    defs: &Vec<String>,
    issues: &mut Vec<Issue>,
    assets: &mut Vec<(String, String)>,
)
    ensures
        grew(final(issues)@, final(assets)@, issues_view(old(issues)@), assets_view(old(assets)@), items_found(items@, base@, ctx.names(), texts(defs@))),
    decreases items@, 2nat,
{
    let ghost ib = issues_view(issues@);
    let ghost ab = assets_view(assets@);
    let ghost names = ctx.names();
    let ghost ds = texts(defs@);
    let mut i: usize = 0;
    assert(issues_view(issues@) =~= ib + items_found(items@.take(0), base@, names, ds).issues);
    assert(assets_view(assets@) =~= ab + items_found(items@.take(0), base@, names, ds).assets);
    while i < items.len()
        invariant
            i <= items.len(),
            names == ctx.names(),
            ds == texts(defs@),
            grew(issues@, assets@, ib, ab, items_found(items@.take(i as int), base@, names, ds)),
        decreases items.len() - i,
    {
        let is_item = match items[i].get_str("type") {
            Some(t) => str_eq(t, "list_item"),
            None => false,
        };
        if is_item {
            let p = index_path(base, i);
            assert(decreases_to!(items@ => items@[i as int]));
            check_node(&items[i], p.as_str(), ctx, defs, issues, assets);
        }
            proof {
            let t1 = items@.take(i + 1);
            assert(t1.drop_last() =~= items@.take(i as int));
        }
        i = i + 1;
        assert(issues_view(issues@) =~= ib + items_found(items@.take(i as int), base@, names, ds).issues);
        assert(assets_view(assets@) =~= ab + items_found(items@.take(i as int), base@, names, ds).assets);
    }
    assert(items@.take(items.len() as int) =~= items@);
}

// ------------------------------------------------------------------ the document

/// An error for each footnote reference whose target no footnote defines.
pub open spec fn dangling(refs: Seq<(Seq<char>, Seq<char>)>, defs: Seq<Seq<char>>) -> Seq<IssueView>
    decreases refs.len(),
{
    if refs.len() == 0 {
        Seq::empty()
    } else {
        dangling(refs.drop_last(), defs) + if defs.contains(refs.last().1) {
            Seq::empty()
        } else {
            seq![err("footnote_ref.dangling"@, refs.last().0, "footnote_ref 指向不存在的脚注块: "@ + refs.last().1)]
        }
    }
}

/// What checking a `content.json` tree finds. Without a `content` array the
/// document is one error. Otherwise every top-level node `i` is checked at
/// `content[i]`, and then every footnote reference in the tree is checked
/// against the footnotes the tree defines.
pub open spec fn content_found(file: Json, names: Seq<Seq<char>>) -> Findings {
    match arr_of(get(file, "content"@)) {
        None => only(seq![err("content.missing"@, "<root>"@, "缺少 content 数组"@)]),
        Some(nodes) => {
            let defs = nodes_defs(nodes);
            let body = nodes_found(nodes, "content"@, names, defs);
            Findings { issues: body.issues + dangling(nodes_refs(nodes, "content"@), defs), assets: body.assets }
        },
    }
}

/// Appends the dangling-reference errors of `refs` against `defs`.
fn add_dangling(refs: &Vec<(String, String)>, defs: &Vec<String>, issues: &mut Vec<Issue>)
    ensures
        issues_view(final(issues)@) == issues_view(old(issues)@) + dangling(refs_view(refs@), texts(defs@)),
{
    let ghost start = issues_view(issues@);
    let ghost rv = refs_view(refs@);
    let mut k: usize = 0;
    assert(issues_view(issues@) =~= start + dangling(rv.take(0), texts(defs@)));
    while k < refs.len()
        invariant
            k <= refs.len(),
            rv == refs_view(refs@),
            issues_view(issues@) == start + dangling(rv.take(k as int), texts(defs@)),
        decreases refs.len() - k,
    {
        let (p, target) = (&refs[k].0, &refs[k].1);
        if !has_text(defs, target.as_str()) {
            add_err(issues, "footnote_ref.dangling", p.clone(), cat2("footnote_ref 指向不存在的脚注块: ", target.as_str()));
        }
        proof {
            let t1 = rv.take(k + 1);
            assert(t1.drop_last() =~= rv.take(k as int));
            assert(t1.last() == (refs@[k as int].0@, refs@[k as int].1@));
        }
        k = k + 1;
        assert(issues_view(issues@) =~= start + dangling(rv.take(k as int), texts(defs@)));
    }
    assert(rv.take(refs.len() as int) =~= rv);
}

/// Checks a `content.json` tree: the issues found, and the assets the
/// document refers to (with the path of each reference), for comparison
/// with the asset registry.
pub fn check_content(content_file: &Json, ctx: &Ctx) -> (r: (Vec<Issue>, Vec<(String, String)>))
    ensures
        issues_view(r.0@) == content_found(*content_file, ctx.names()).issues,
        assets_view(r.1@) == content_found(*content_file, ctx.names()).assets,
{
    let mut issues: Vec<Issue> = Vec::new();
    let mut assets: Vec<(String, String)> = Vec::new();
    let nodes = match content_file.get_array("content") {
        Some(a) => a,
        None => {
            add_err(&mut issues, "content.missing", "<root>".to_owned(), "缺少 content 数组".to_owned());
            assert(issues_view(issues@) =~= content_found(*content_file, ctx.names()).issues);
            assert(assets_view(assets@) =~= Seq::<(Seq<char>, Seq<char>)>::empty());
            return (issues, assets);
        },
    };
    let mut defs: Vec<String> = Vec::new();
    let mut refs: Vec<(String, String)> = Vec::new();
    assert(texts(defs@) =~= Seq::<Seq<char>>::empty());
    assert(refs_view(refs@) =~= Seq::<(Seq<char>, Seq<char>)>::empty());
    collect_refs(nodes, "content", &mut defs, &mut refs);
    assert(texts(defs@) =~= nodes_defs(nodes@));
    assert(refs_view(refs@) =~= nodes_refs(nodes@, "content"@));
    assert(issues_view(issues@) =~= Seq::<IssueView>::empty());
    assert(assets_view(assets@) =~= Seq::<(Seq<char>, Seq<char>)>::empty());
    check_nodes(nodes, "content", ctx, &defs, &mut issues, &mut assets);
    let ghost body = nodes_found(nodes@, "content"@, ctx.names(), texts(defs@));
    assert(issues_view(issues@) =~= body.issues);
    assert(assets_view(assets@) =~= body.assets);
    add_dangling(&refs, &defs, &mut issues);
    (issues, assets)
}

// ------------------------------------------------------------------ laws

/// Every issue of the list is a warning.
pub open spec fn all_warnings(s: Seq<IssueView>) -> bool {
    forall|i: int| 0 <= i < s.len() ==> (#[trigger] s[i]).level == Level::Warning
}

proof fn lemma_cells_fold_warns(
    cells: Seq<Json>,
    path: Seq<char>,
    nrows: nat,
    ncols: Option<nat>,
    ri: nat,
    k: nat,
    st: GridState,
)
    requires
        all_warnings(st.issues),
    ensures
        all_warnings(cells_fold(cells, path, nrows, ncols, ri, k, st).issues),
    decreases k,
{
    if k > 0 && k <= cells.len() {
        lemma_cells_fold_warns(cells, path, nrows, ncols, ri, (k - 1) as nat, st);
    }
}

proof fn lemma_rows_fold_warns(rows: Seq<Json>, path: Seq<char>, ncols: Option<nat>, k: nat)
    ensures
        all_warnings(rows_fold(rows, path, ncols, k).issues),
    decreases k,
{
    if k > 0 && k <= rows.len() {
        lemma_rows_fold_warns(rows, path, ncols, (k - 1) as nat);
        let prev = rows_fold(rows, path, ncols, (k - 1) as nat);
        match arr_of(get(rows[k - 1], "cells"@)) {
            Some(cells) => lemma_cells_fold_warns(cells, path, rows.len(), ncols, (k - 1) as nat, cells.len(), prev),
            None => {},
        }
    }
}

/// An irregular table grid is only ever a warning: it never makes a
/// document fail verification.
pub proof fn law_grid_only_warns(node: Json, path: Seq<char>, ncols: Option<nat>)
    ensures
        all_warnings(grid_issues(node, path, ncols)),
{
    reveal(grid_issues);
    match arr_of(get(node, "rows"@)) {
        Some(rows) => lemma_rows_fold_warns(rows, path, ncols, rows.len()),
        None => {},
    }
}

/// A node of an unknown type is noted as information first; its type asks
/// for no checks and its id for no particular prefix.
pub proof fn law_unknown_type_is_noted(node: Json, t: Seq<char>, path: Seq<char>, names: Seq<Seq<char>>, defs: Seq<Seq<char>>)
    requires
        node is Object,
        type_of(node) == Some(t),
        !known_node_type_table().contains(t),
    ensures
        node_found(node, path, names, defs).issues[0] == info("node.unknown_type"@, path, "未知节点类型 `"@ + t + "`（按 R3 处理，原样保留）"@),
        node_found(node, path, names, defs).issues[0].level == Level::Info,
        type_issues(node, t, path, names).len() == 0,
        want_prefix(t) is None,
{
    reveal(type_issues);
    assert(t != "unknown"@) by {
        assert(known_node_type_table()[16] == "unknown"@);
    }
    assert(t != "section"@) by {
        assert(known_node_type_table()[0] == "section"@);
    }
    assert(t != "list_item"@) by {
        assert(known_node_type_table()[5] == "list_item"@);
    }
    assert(t != "heading"@) by { assert(known_node_type_table()[2] == "heading"@); }
    assert(t != "list"@) by { assert(known_node_type_table()[4] == "list"@); }
    assert(t != "code_block"@) by { assert(known_node_type_table()[6] == "code_block"@); }
    assert(t != "table"@) by { assert(known_node_type_table()[7] == "table"@); }
    assert(t != "math_block"@) by { assert(known_node_type_table()[12] == "math_block"@); }
    assert(t != "callout"@) by { assert(known_node_type_table()[13] == "callout"@); }
}

} // verus!

verus! {

/// `#` followed by six ASCII hexadecimal digits, in either case.
pub open spec fn hex_color_form(s: Seq<char>) -> bool {
    &&& s.len() == 7
    &&& s[0] == '#'
    &&& forall|k: int|
        1 <= k < 7 ==> ('0' <= #[trigger] s[k] && s[k] <= '9') || ('a' <= s[k] && s[k] <= 'f') || ('A' <= s[k]
            && s[k] <= 'F')
}

/// A color member that is absent or written `#RRGGBB`.
pub open spec fn color_member_fine(ch: Json, key: Seq<char>) -> bool {
    match str_of(get(ch, key)) {
        Some(s) => hex_color_form(s),
        None => true,
    }
}

proof fn lemma_codes_differ()
    ensures
        "format.fontSizePt"@ != "format.color"@,
        "format.fontFamily"@ != "format.color"@,
        "format.verticalAlign"@ != "format.color"@,
{
    reveal_strlit("format.fontSizePt");
    reveal_strlit("format.fontFamily");
    reveal_strlit("format.verticalAlign");
    reveal_strlit("format.color");
    assert("format.color"@.len() == 12);
    assert("format.fontSizePt"@.len() == 17);
    assert("format.fontFamily"@.len() == 17);
    assert("format.verticalAlign"@.len() == 20);
}

/// A character format whose `color` and `highlight` are absent or written
/// `#` and six hexadecimal digits (upper or lower case) gets no
/// `format.color` issue; one whose `color` is a text of any other form
/// gets a `format.color` issue at that member.
pub proof fn law_hex_colors(ch: Json, cpath: Seq<char>)
    ensures
        color_member_fine(ch, "color"@) && color_member_fine(ch, "highlight"@) ==> forall|i: int|
            0 <= i < char_issues(ch, cpath).len() ==> #[trigger] char_issues(ch, cpath)[i].code != "format.color"@,
        !color_member_fine(ch, "color"@) ==> exists|i: int|
            0 <= i < char_issues(ch, cpath).len() && #[trigger] char_issues(ch, cpath)[i].code == "format.color"@
                && char_issues(ch, cpath)[i].path == at_key(cpath, "color"@),
{
    lemma_codes_differ();
    let a = match get(ch, "fontSizePt"@) {
        Some(v) => if in_1_999(v) {
            Seq::empty()
        } else {
            seq![err("format.fontSizePt"@, at_key(cpath, "fontSizePt"@), "fontSizePt 必须是 1–999 的数值"@)]
        },
        None => Seq::<IssueView>::empty(),
    };
    let c1 = color_issue(ch, cpath, "color"@);
    let c2 = color_issue(ch, cpath, "highlight"@);
    let b = match str_of(get(ch, "fontFamily"@)) {
        Some(f) => if family_bad(f) {
            seq![err("format.fontFamily"@, at_key(cpath, "fontFamily"@), "fontFamily 含非法字符或超长"@)]
        } else {
            Seq::empty()
        },
        None => Seq::<IssueView>::empty(),
    };
    let d = match str_of(get(ch, "verticalAlign"@)) {
        Some(x) => if x == "sub"@ || x == "super"@ {
            Seq::empty()
        } else {
            seq![err("format.verticalAlign"@, at_key(cpath, "verticalAlign"@), "verticalAlign 必须是 sub|super"@)]
        },
        None => Seq::<IssueView>::empty(),
    };
    let all = char_issues(ch, cpath);
    assert(all == a + c1 + c2 + b + d);
    if color_member_fine(ch, "color"@) && color_member_fine(ch, "highlight"@) {
        assert(c1.len() == 0);
        assert(c2.len() == 0);
        assert forall|i: int| 0 <= i < all.len() implies #[trigger] all[i].code != "format.color"@ by {
            if i < a.len() {
                assert(all[i] == a[i]);
            } else if i < a.len() + b.len() {
                assert(all[i] == b[i - a.len()]);
            } else {
                assert(all[i] == d[i - a.len() - b.len()]);
            }
        }
    }
    if !color_member_fine(ch, "color"@) {
        let s = str_of(get(ch, "color"@)).unwrap();
        assert(!color_ok(s)) by {
            if color_ok(s) {
                assert forall|k: int| 1 <= k < 7 implies ('0' <= #[trigger] s[k] && s[k] <= '9') || ('a' <= s[k]
                    && s[k] <= 'f') || ('A' <= s[k] && s[k] <= 'F') by {
                    assert(is_hex(s[k]));
                }
            }
        }
        assert(c1.len() == 1);
        let i = a.len() as int;
        assert(all[i] == c1[0]);
        assert(char_issues(ch, cpath)[i].code == "format.color"@);
    }
}

/// The vertical alignment of a character format may only be `sub` or
/// `super`: those (or no alignment) give no `format.verticalAlign` issue,
/// and any other text gives one at that member.
pub proof fn law_vertical_align(ch: Json, cpath: Seq<char>)
    ensures
        (str_of(get(ch, "verticalAlign"@)) is None || str_of(get(ch, "verticalAlign"@)) == Some("sub"@) || str_of(
            get(ch, "verticalAlign"@),
        ) == Some("super"@)) ==> forall|i: int|
            0 <= i < char_issues(ch, cpath).len() ==> #[trigger] char_issues(ch, cpath)[i].code
                != "format.verticalAlign"@,
        (str_of(get(ch, "verticalAlign"@)) matches Some(a) && a != "sub"@ && a != "super"@) ==> exists|i: int|
            0 <= i < char_issues(ch, cpath).len() && #[trigger] char_issues(ch, cpath)[i].code
                == "format.verticalAlign"@ && char_issues(ch, cpath)[i].path == at_key(cpath, "verticalAlign"@),
{
    lemma_codes_differ();
    reveal_strlit("format.verticalAlign");
    reveal_strlit("format.fontFamily");
    reveal_strlit("format.fontSizePt");
    assert("format.verticalAlign"@.len() == 20 && "format.fontFamily"@.len() == 17 && "format.fontSizePt"@.len() == 17);
    assert("format.verticalAlign"@ != "format.fontFamily"@);
    assert("format.verticalAlign"@ != "format.fontSizePt"@);
    let a = match get(ch, "fontSizePt"@) {
        Some(v) => if in_1_999(v) {
            Seq::empty()
        } else {
            seq![err("format.fontSizePt"@, at_key(cpath, "fontSizePt"@), "fontSizePt 必须是 1–999 的数值"@)]
        },
        None => Seq::<IssueView>::empty(),
    };
    let c1 = color_issue(ch, cpath, "color"@);
    let c2 = color_issue(ch, cpath, "highlight"@);
    let b = match str_of(get(ch, "fontFamily"@)) {
        Some(f) => if family_bad(f) {
            seq![err("format.fontFamily"@, at_key(cpath, "fontFamily"@), "fontFamily 含非法字符或超长"@)]
        } else {
            Seq::empty()
        },
        None => Seq::<IssueView>::empty(),
    };
    let d = match str_of(get(ch, "verticalAlign"@)) {
        Some(x) => if x == "sub"@ || x == "super"@ {
            Seq::empty()
        } else {
            seq![err("format.verticalAlign"@, at_key(cpath, "verticalAlign"@), "verticalAlign 必须是 sub|super"@)]
        },
        None => Seq::<IssueView>::empty(),
    };
    let all = char_issues(ch, cpath);
    assert(all == a + c1 + c2 + b + d);
    assert(forall|j: int| 0 <= j < c1.len() ==> #[trigger] c1[j].code == "format.color"@);
    assert(forall|j: int| 0 <= j < c2.len() ==> #[trigger] c2[j].code == "format.color"@);
    let v = str_of(get(ch, "verticalAlign"@));
    if v is None || v == Some("sub"@) || v == Some("super"@) {
        assert(d.len() == 0);
        assert forall|i: int| 0 <= i < all.len() implies #[trigger] all[i].code != "format.verticalAlign"@ by {
            if i < a.len() {
                assert(all[i] == a[i]);
            } else if i < a.len() + c1.len() {
                assert(all[i] == c1[i - a.len()]);
            } else if i < a.len() + c1.len() + c2.len() {
                assert(all[i] == c2[i - a.len() - c1.len()]);
            } else {
                assert(all[i] == b[i - a.len() - c1.len() - c2.len()]);
            }
        }
    } else {
        let i = (a.len() + c1.len() + c2.len() + b.len()) as int;
        assert(all[i] == d[0]);
        assert(char_issues(ch, cpath)[i].code == "format.verticalAlign"@);
    }
}

/// A whole-number font size is accepted from 1 to 999 points: such a size
/// gives no `format.fontSizePt` issue, and 0 or a size of 1000 or more
/// gives one at that member, as the first issue of the format.
pub proof fn law_font_size_range(ch: Json, cpath: Seq<char>, u: u64)
    requires
        get(ch, "fontSizePt"@) == Some(Json::Number(JsonNumber::PosInt(u))),
    ensures
        1 <= u <= 999 ==> forall|i: int|
            0 <= i < char_issues(ch, cpath).len() ==> #[trigger] char_issues(ch, cpath)[i].code
                != "format.fontSizePt"@,
        (u == 0 || u >= 1000) ==> char_issues(ch, cpath).len() > 0 && char_issues(ch, cpath)[0].code
            == "format.fontSizePt"@ && char_issues(ch, cpath)[0].path == at_key(cpath, "fontSizePt"@),
{
    lemma_codes_differ();
    reveal_strlit("format.verticalAlign");
    reveal_strlit("format.fontFamily");
    reveal_strlit("format.fontSizePt");
    assert("format.verticalAlign"@.len() == 20 && "format.fontFamily"@.len() == 17 && "format.fontSizePt"@.len() == 17);
    assert("format.fontFamily"@[11] != "format.fontSizePt"@[11]);
    assert("format.fontFamily"@ != "format.fontSizePt"@);
    assert("format.verticalAlign"@ != "format.fontSizePt"@);
    let a = if in_1_999(Json::Number(JsonNumber::PosInt(u))) {
        Seq::empty()
    } else {
        seq![err("format.fontSizePt"@, at_key(cpath, "fontSizePt"@), "fontSizePt 必须是 1–999 的数值"@)]
    };
    let c1 = color_issue(ch, cpath, "color"@);
    let c2 = color_issue(ch, cpath, "highlight"@);
    let b = match str_of(get(ch, "fontFamily"@)) {
        Some(f) => if family_bad(f) {
            seq![err("format.fontFamily"@, at_key(cpath, "fontFamily"@), "fontFamily 含非法字符或超长"@)]
        } else {
            Seq::empty()
        },
        None => Seq::<IssueView>::empty(),
    };
    let d = match str_of(get(ch, "verticalAlign"@)) {
        Some(x) => if x == "sub"@ || x == "super"@ {
            Seq::empty()
        } else {
            seq![err("format.verticalAlign"@, at_key(cpath, "verticalAlign"@), "verticalAlign 必须是 sub|super"@)]
        },
        None => Seq::<IssueView>::empty(),
    };
    let all = char_issues(ch, cpath);
    assert(all == a + c1 + c2 + b + d);
    assert(forall|j: int| 0 <= j < c1.len() ==> #[trigger] c1[j].code == "format.color"@);
    assert(forall|j: int| 0 <= j < c2.len() ==> #[trigger] c2[j].code == "format.color"@);
    assert(forall|j: int| 0 <= j < b.len() ==> #[trigger] b[j].code == "format.fontFamily"@);
    assert(forall|j: int| 0 <= j < d.len() ==> #[trigger] d[j].code == "format.verticalAlign"@);
    if 1 <= u <= 999 {
        assert(a.len() == 0);
        assert forall|i: int| 0 <= i < all.len() implies #[trigger] all[i].code != "format.fontSizePt"@ by {
            if i < c1.len() {
                assert(all[i] == c1[i]);
            } else if i < c1.len() + c2.len() {
                assert(all[i] == c2[i - c1.len()]);
            } else if i < c1.len() + c2.len() + b.len() {
                assert(all[i] == b[i - c1.len() - c2.len()]);
            } else {
                assert(all[i] == d[i - c1.len() - c2.len() - b.len()]);
            }
        }
    }
    if u == 0 || u >= 1000 {
        assert(a.len() == 1);
        assert(all[0] == a[0]);
    }
}

/// The values of a node of type `t` are checked against their allowed
/// ranges: a heading's level must be a whole number from 1 to 6, a
/// callout's variant one of `note`, `tip`, `warning` and `important`, and a
/// list's style `ordered` or `bullet` (with a start of at least 1 when
/// given). Such a node with an allowed value gets no issue of its kind, and
/// with any other value an error naming the member.
pub proof fn law_node_value_ranges(node: Json, t: Seq<char>, path: Seq<char>, names: Seq<Seq<char>>)
    ensures
        ({
            let out = type_issues(node, t, path, names);
            let level_ok = i64_of(get(node, "level"@)) matches Some(l) && 1 <= l <= 6;
            let v = str_of(get(node, "variant"@));
            let variant_ok = v == Some(seq!['n', 'o', 't', 'e']) || v == Some(seq!['t', 'i', 'p']) || v == Some(
                seq!['w', 'a', 'r', 'n', 'i', 'n', 'g'],
            ) || v == Some(seq!['i', 'm', 'p', 'o', 'r', 't', 'a', 'n', 't']);
            let st = str_of(get(node, "style"@));
            let style_ok = st == Some(seq!['o', 'r', 'd', 'e', 'r', 'e', 'd']) || st == Some(
                seq!['b', 'u', 'l', 'l', 'e', 't'],
            );
            &&& t == "heading"@ ==> (out.len() == 0 <==> level_ok)
            &&& t == "heading"@ && !level_ok ==> out[0].code == "heading.level"@ && out[0].level
                == Level::Error
            &&& t == "callout"@ ==> (out.len() == 0 <==> variant_ok)
            &&& t == "callout"@ && !variant_ok ==> out[0].code == "callout.variant"@
            &&& t == "list"@ && get(node, "start"@) is None ==> (out.len() == 0 <==> style_ok)
            &&& t == "list"@ && !style_ok ==> out[0].code == "list.style"@
        }),
{
    reveal(type_issues);
    reveal_strlit("heading");
    reveal_strlit("list");
    reveal_strlit("code_block");
    reveal_strlit("table");
    reveal_strlit("callout");
    reveal_strlit("math_block");
    reveal_strlit("unknown");
    reveal_strlit("note");
    reveal_strlit("tip");
    reveal_strlit("warning");
    reveal_strlit("important");
    reveal_strlit("ordered");
    reveal_strlit("bullet");
    assert("note"@ =~= seq!['n', 'o', 't', 'e']);
    assert("tip"@ =~= seq!['t', 'i', 'p']);
    assert("warning"@ =~= seq!['w', 'a', 'r', 'n', 'i', 'n', 'g']);
    assert("important"@ =~= seq!['i', 'm', 'p', 'o', 'r', 't', 'a', 'n', 't']);
    assert("ordered"@ =~= seq!['o', 'r', 'd', 'e', 'r', 'e', 'd']);
    assert("bullet"@ =~= seq!['b', 'u', 'l', 'l', 'e', 't']);
    assert("heading"@.len() == 7 && "list"@.len() == 4 && "callout"@.len() == 7);
    assert("heading"@[0] != "callout"@[0]);
    let out = type_issues(node, t, path, names);
    if t == "list"@ {
        let a = match str_of(get(node, "style"@)) {
            Some(st) => if st == "ordered"@ || st == "bullet"@ {
                Seq::<IssueView>::empty()
            } else {
                seq![err("list.style"@, path, "list.style 必须是 ordered|bullet"@)]
            },
            None => seq![err("list.style"@, path, "list.style 必须是 ordered|bullet"@)],
        };
        let b = match get(node, "start"@) {
            Some(v) => match i64_of(Some(v)) {
                Some(n) => if n >= 1 {
                    Seq::<IssueView>::empty()
                } else {
                    seq![err("list.start"@, path, "list.start 必须 ≥ 1"@)]
                },
                None => seq![err("list.start"@, path, "list.start 必须 ≥ 1"@)],
            },
            None => Seq::<IssueView>::empty(),
        };
        assert(out == a + b);
        if get(node, "start"@) is None {
            assert(out =~= a);
        }
        if a.len() == 1 {
            assert(out[0] == a[0]);
        }
    }
}

/// Section ids take the prefix `sec`, list item ids `li`, and the ids of the
/// other known node types (paragraphs, headings, tables and the rest)
/// `blk`; a node of an unknown type asks for no prefix.
pub proof fn law_id_prefix_by_type(t: Seq<char>)
    ensures
        t == "section"@ ==> want_prefix(t) == Some(seq!['s', 'e', 'c']),
        t == "list_item"@ ==> want_prefix(t) == Some(seq!['l', 'i']),
        t != "section"@ && t != "list_item"@ && known_node_type_table().contains(t) ==> want_prefix(t) == Some(
            seq!['b', 'l', 'k'],
        ),
        !known_node_type_table().contains(t) ==> want_prefix(t) is None,
{
    reveal_strlit("sec");
    reveal_strlit("li");
    reveal_strlit("blk");
    reveal_strlit("section");
    reveal_strlit("list_item");
    assert("sec"@ =~= seq!['s', 'e', 'c']);
    assert("li"@ =~= seq!['l', 'i']);
    assert("blk"@ =~= seq!['b', 'l', 'k']);
    assert("section"@.len() == 7 && "list_item"@.len() == 9);
    if t == "section"@ || t == "list_item"@ {
        assert(known_node_type_table()[0] == "section"@);
        assert(known_node_type_table()[5] == "list_item"@);
    }
}

} // verus!
