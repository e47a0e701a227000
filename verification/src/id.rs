//! Identifiers: `<prefix>_<26-character ULID>`, where the ULID part uses the
//! Crockford Base32 alphabet (`0-9` and `A-Z` without `I L O U`).

use vstd::prelude::*;
use crate::text::{chars_of, first_index, first_of, push_all, push_str, seq_eq, slice_vec, string_of};

verus! {

/// Length of the ULID part of an identifier.
pub const ULID_LEN: usize = 26;

/// The kind of object an identifier names, told by its prefix.
#[derive(Debug, Clone, Copy, PartialEq, Eq, Hash, Structural)]
pub enum IdKind {
    Doc,
    Sec,
    Blk,
    Li,
    Cel,
    Col,
    Row,
    As,
    Ann,
    Rev,
    Pub,
    Iss,
}

/// The prefix that goes with each kind.
pub open spec fn kind_prefix(k: IdKind) -> Seq<char> {
    match k {
        IdKind::Doc => seq!['d', 'o', 'c'],
        IdKind::Sec => seq!['s', 'e', 'c'],
        IdKind::Blk => seq!['b', 'l', 'k'],
        IdKind::Li => seq!['l', 'i'],
        IdKind::Cel => seq!['c', 'e', 'l'],
        IdKind::Col => seq!['c', 'o', 'l'],
        IdKind::Row => seq!['r', 'o', 'w'],
        IdKind::As => seq!['a', 's'],
        IdKind::Ann => seq!['a', 'n', 'n'],
        IdKind::Rev => seq!['r', 'e', 'v'],
        IdKind::Pub => seq!['p', 'u', 'b'],
        IdKind::Iss => seq!['i', 's', 's'],
    }
}

/// The kind whose prefix is `p`, if any.
pub open spec fn kind_of_prefix(p: Seq<char>) -> Option<IdKind> {
    if p == kind_prefix(IdKind::Doc) {
        Some(IdKind::Doc)
    } else if p == kind_prefix(IdKind::Sec) {
        Some(IdKind::Sec)
    } else if p == kind_prefix(IdKind::Blk) {
        Some(IdKind::Blk)
    } else if p == kind_prefix(IdKind::Li) {
        Some(IdKind::Li)
    } else if p == kind_prefix(IdKind::Cel) {
        Some(IdKind::Cel)
    } else if p == kind_prefix(IdKind::Col) {
        Some(IdKind::Col)
    } else if p == kind_prefix(IdKind::Row) {
        Some(IdKind::Row)
    } else if p == kind_prefix(IdKind::As) {
        Some(IdKind::As)
    } else if p == kind_prefix(IdKind::Ann) {
        Some(IdKind::Ann)
    } else if p == kind_prefix(IdKind::Rev) {
        Some(IdKind::Rev)
    } else if p == kind_prefix(IdKind::Pub) {
        Some(IdKind::Pub)
    } else if p == kind_prefix(IdKind::Iss) {
        Some(IdKind::Iss)
    } else {
        None
    }
}

impl IdKind {
    /// The prefix of this kind (`doc`, `blk`, ...).
    pub fn prefix(self) -> (r: &'static str)
        ensures
            r@ == kind_prefix(self),
    {
        proof {
            reveal_strlit("doc");
            reveal_strlit("sec");
            reveal_strlit("blk");
            reveal_strlit("li");
            reveal_strlit("cel");
            reveal_strlit("col");
            reveal_strlit("row");
            reveal_strlit("as");
            reveal_strlit("ann");
            reveal_strlit("rev");
            reveal_strlit("pub");
            reveal_strlit("iss");
        }
        match self {
            IdKind::Doc => "doc",
            IdKind::Sec => "sec",
            IdKind::Blk => "blk",
            IdKind::Li => "li",
            IdKind::Cel => "cel",
            IdKind::Col => "col",
            IdKind::Row => "row",
            IdKind::As => "as",
            IdKind::Ann => "ann",
            IdKind::Rev => "rev",
            IdKind::Pub => "pub",
            IdKind::Iss => "iss",
        }
    }

    /// The kind whose prefix is `prefix`.
    pub fn from_prefix(prefix: &str) -> (r: Option<IdKind>)
        ensures
            r == kind_of_prefix(prefix@),
    {
        let p = chars_of(prefix);
        kind_of_prefix_chars(p.as_slice())
    }
}

/// The kind whose prefix is the character sequence `p`.
pub fn kind_of_prefix_chars(p: &[char]) -> (r: Option<IdKind>)
    ensures
        r == kind_of_prefix(p@),
{
    if seq_eq(p, &['d', 'o', 'c']) {
        Some(IdKind::Doc)
    } else if seq_eq(p, &['s', 'e', 'c']) {
        Some(IdKind::Sec)
    } else if seq_eq(p, &['b', 'l', 'k']) {
        Some(IdKind::Blk)
    } else if seq_eq(p, &['l', 'i']) {
        Some(IdKind::Li)
    } else if seq_eq(p, &['c', 'e', 'l']) {
        Some(IdKind::Cel)
    } else if seq_eq(p, &['c', 'o', 'l']) {
        Some(IdKind::Col)
    } else if seq_eq(p, &['r', 'o', 'w']) {
        Some(IdKind::Row)
    } else if seq_eq(p, &['a', 's']) {
        Some(IdKind::As)
    } else if seq_eq(p, &['a', 'n', 'n']) {
        Some(IdKind::Ann)
    } else if seq_eq(p, &['r', 'e', 'v']) {
        Some(IdKind::Rev)
    } else if seq_eq(p, &['p', 'u', 'b']) {
        Some(IdKind::Pub)
    } else if seq_eq(p, &['i', 's', 's']) {
        Some(IdKind::Iss)
    } else {
        None
    }
}


/// A character of the Crockford Base32 alphabet.
pub open spec fn is_ulid_char(c: char) -> bool {
    ('0' <= c && c <= '9') || ('A' <= c && c <= 'Z' && c != 'I' && c != 'L' && c != 'O' && c != 'U')
}

/// Twenty-six characters of the Crockford Base32 alphabet.
pub open spec fn is_ulid(s: Seq<char>) -> bool {
    s.len() == ULID_LEN && forall|i: int| 0 <= i < s.len() ==> is_ulid_char(#[trigger] s[i])
}

fn ulid_char(c: char) -> (r: bool)
    ensures
        r == is_ulid_char(c),
{
    ('0' <= c && c <= '9') || ('A' <= c && c <= 'Z' && c != 'I' && c != 'L' && c != 'O' && c != 'U')
}

fn ulid_chars(s: &[char]) -> (r: bool)
    ensures
        r == is_ulid(s@),
{
    if s.len() != ULID_LEN {
        return false;
    }
    let mut i: usize = 0;
    while i < s.len()
        invariant
            i <= s.len(),
            forall|j: int| 0 <= j < i ==> is_ulid_char(#[trigger] s@[j]),
        decreases s.len() - i,
    {
        if !ulid_char(s[i]) {
            return false;
        }
        i = i + 1;
    }
    true
}

/// Whether `s` is a well-formed ULID part.
pub fn is_valid_ulid(s: &str) -> (r: bool)
    ensures
        r == is_ulid(s@),
{
    let v = chars_of(s);
    ulid_chars(v.as_slice())
}

/// Why a string is not an identifier.
#[derive(Debug, Clone, PartialEq, Eq)]
pub enum IdError {
    /// No `_` separates a prefix.
    MissingPrefix(String),
    /// The prefix names no kind.
    UnknownPrefix(String),
    /// The part after `_` is not a ULID.
    BadUlid(String),
}

/// An `IdError` with its text taken as a character sequence.
pub enum IdErrorView {
    MissingPrefix(Seq<char>),
    UnknownPrefix(Seq<char>),
    BadUlid(Seq<char>),
}

impl View for IdError {
    type V = IdErrorView;

    open spec fn view(&self) -> IdErrorView {
        match self {
            IdError::MissingPrefix(s) => IdErrorView::MissingPrefix(s@),
            IdError::UnknownPrefix(s) => IdErrorView::UnknownPrefix(s@),
            IdError::BadUlid(s) => IdErrorView::BadUlid(s@),
        }
    }
}

/// The message of an `IdError`.
pub open spec fn id_error_message(e: IdErrorView) -> Seq<char> {
    match e {
        IdErrorView::MissingPrefix(s) => "缺少下划线分隔的前缀: `"@ + s + "`"@,
        IdErrorView::UnknownPrefix(s) => "未知 ID 前缀: `"@ + s + "`"@,
        IdErrorView::BadUlid(s) => "ULID 部分无效（须为 26 位 Crockford Base32）: `"@ + s + "`"@,
    }
}

impl IdError {
    /// The human-readable message.
    pub fn message(&self) -> (r: String)
        ensures
            r@ == id_error_message(self@),
    {
        let mut v: Vec<char> = Vec::new();
        match self {
            IdError::MissingPrefix(s) => {
                push_str(&mut v, "缺少下划线分隔的前缀: `");
                push_str(&mut v, s.as_str());
            },
            IdError::UnknownPrefix(s) => {
                push_str(&mut v, "未知 ID 前缀: `");
                push_str(&mut v, s.as_str());
            },
            IdError::BadUlid(s) => {
                push_str(&mut v, "ULID 部分无效（须为 26 位 Crockford Base32）: `");
                push_str(&mut v, s.as_str());
            },
        }
        push_str(&mut v, "`");
        string_of(v.as_slice())
    }
}

/// Splitting `<prefix>_<ulid>` at the first `_` and checking both parts.
pub open spec fn split_id_spec(s: Seq<char>) -> Result<(IdKind, Seq<char>), IdErrorView> {
    let i = first_index(s, '_');
    if i < 0 {
        Err(IdErrorView::MissingPrefix(s))
    } else {
        let p = s.take(i);
        let u = s.skip(i + 1);
        match kind_of_prefix(p) {
            None => Err(IdErrorView::UnknownPrefix(p)),
            Some(k) => if is_ulid(u) {
                Ok((k, u))
            } else {
                Err(IdErrorView::BadUlid(u))
            },
        }
    }
}

/// `s` is a well-formed identifier of any kind.
pub open spec fn valid_id(s: Seq<char>) -> bool {
    split_id_spec(s) is Ok
}

/// The result of `split_id` with strings taken as character sequences.
pub open spec fn split_view(r: Result<(IdKind, String), IdError>) -> Result<(IdKind, Seq<char>), IdErrorView> {
    match r {
        Ok((k, u)) => Ok((k, u@)),
        Err(e) => Err(e@),
    }
}

/// Splits `<prefix>_<ulid>` and checks both parts.
pub fn split_id(s: &str) -> (r: Result<(IdKind, String), IdError>)
    ensures
        split_view(r) == split_id_spec(s@),
{
    let v = chars_of(s);
    proof { crate::text::lemma_first_index(v@, '_'); }
    match first_of(v.as_slice(), '_') {
        None => Err(IdError::MissingPrefix(string_of(v.as_slice()))),
        Some(i) => {
            let p = slice_vec(v.as_slice(), 0, i);
            let u = slice_vec(v.as_slice(), i + 1, v.len());
            assert(p@ =~= s@.take(i as int));
            assert(u@ =~= s@.skip(i + 1));
            match kind_of_prefix_chars(p.as_slice()) {
                None => Err(IdError::UnknownPrefix(string_of(p.as_slice()))),
                Some(k) => {
                    if ulid_chars(u.as_slice()) {
                        Ok((k, string_of(u.as_slice())))
                    } else {
                        Err(IdError::BadUlid(string_of(u.as_slice())))
                    }
                },
            }
        },
    }
}

/// Whether `s` is a well-formed identifier of any kind.
pub fn is_valid_id(s: &str) -> (r: bool)
    ensures
        r == valid_id(s@),
{
    split_id(s).is_ok()
}

/// A checked identifier.
#[derive(Debug, PartialEq, Eq, Hash)]
pub struct AzodocId {
    kind: IdKind,
    raw: String,
}

impl Clone for AzodocId {
    fn clone(&self) -> (r: Self)
        ensures
            r.text() == self.text(),
            r.spec_kind() == self.spec_kind(),
    {
        proof { use_type_invariant(self); }
        AzodocId { kind: self.kind, raw: self.raw.clone() }
    }
}

impl AzodocId {
    #[verifier::type_invariant]
    closed spec fn inv(self) -> bool {
        split_id_spec(self.raw@) matches Ok((k, _)) && k == self.kind
    }

    /// The identifier text.
    pub closed spec fn text(self) -> Seq<char> {
        self.raw@
    }

    /// The identifier's kind.
    pub closed spec fn spec_kind(self) -> IdKind {
        self.kind
    }

    /// Checks `s` and keeps it as an identifier.
    pub fn parse(s: &str) -> (r: Result<AzodocId, IdError>)
        ensures
            r matches Ok(id) ==> split_id_spec(s@) matches Ok((k, _)) && id.text() == s@
                && id.spec_kind() == k,
            r matches Err(e) ==> split_id_spec(s@) == Err::<(IdKind, Seq<char>), IdErrorView>(e@),
    {
        match split_id(s) {
            Ok((kind, _)) => {
                let raw = s.to_owned();
                Ok(AzodocId { kind, raw })
            },
            Err(e) => Err(e),
        }
    }

    /// A new identifier of kind `kind` with a fresh random ULID part.
    pub fn generate(kind: IdKind) -> (r: AzodocId)
        ensures
            r.spec_kind() == kind,
            valid_id(r.text()),
            r.text() == kind_prefix(kind) + seq!['_'] + r.text().skip(kind_prefix(kind).len() as int + 1),
    {
        let u = new_ulid();
        let mut v: Vec<char> = Vec::new();
        push_str(&mut v, kind.prefix());
        v.push('_');
        let uv = chars_of(u.as_str());
        push_all(&mut v, uv.as_slice());
        let ghost pre = kind_prefix(kind);
        proof {
            assert forall|j: int| 0 <= j < pre.len() implies #[trigger] v@[j] != '_' by {
                assert(v@[j] == pre[j]);
            }
            crate::text::lemma_first_index(v@, '_');
            let f = first_index(v@, '_');
            assert(v@[pre.len() as int] == '_');
            if f > pre.len() {
                assert(false);
            }
            if 0 <= f < pre.len() {
                assert(v@[f] == pre[f]);
            }
            assert(f == pre.len());
            assert(v@.take(f) =~= pre);
            assert(v@.skip(f + 1) =~= u@);
            assert(kind_of_prefix(pre) == Some(kind));
        }
        let raw = string_of(v.as_slice());
        assert(raw@.skip(pre.len() as int + 1) =~= u@);
        AzodocId { kind, raw }
    }

    /// The identifier's kind.
    pub fn kind(&self) -> (r: IdKind)
        ensures
            r == self.spec_kind(),
            split_id_spec(self.text()) matches Ok((k, _)) && k == r,
    {
        proof { use_type_invariant(self); }
        self.kind
    }

    /// The identifier text.
    pub fn as_str(&self) -> (r: &str)
        ensures
            r@ == self.text(),
            valid_id(r@),
    {
        proof { use_type_invariant(self); }
        self.raw.as_str()
    }
}

/// A fresh ULID rendered in canonical text.
///
/// Calls `ulid::Ulid::new` (random, time-seeded) and its `Display`, which the
/// crate's base32 encoder writes as 26 characters of `0123456789ABCDEFGHJKMNPQRSTVWXYZ`.
/// Only that shape is claimed; which value comes out is not.
#[verifier::external_body]
fn new_ulid() -> (r: String)
    ensures
        is_ulid(r@),
{
    ulid::Ulid::new().to_string()
}

/// Every kind's prefix names that kind again.
pub proof fn law_prefix_roundtrip(k: IdKind)
    ensures
        kind_of_prefix(kind_prefix(k)) == Some(k),
{
}

/// A prefix that names a kind is that kind's prefix.
pub proof fn law_prefix_unique(p: Seq<char>)
    ensures
        kind_of_prefix(p) matches Some(k) ==> kind_prefix(k) == p,
{
}

/// An identifier is valid exactly when it is `<prefix of some kind>_<ulid>`
/// with no `_` in the prefix.
pub proof fn law_valid_id_shape(s: Seq<char>)
    ensures
        valid_id(s) <==> exists|k: IdKind, u: Seq<char>|
            #![trigger is_ulid(u), kind_prefix(k)]
            is_ulid(u) && s == kind_prefix(k) + seq!['_'] + u,
{
    crate::text::lemma_first_index(s, '_');
    if valid_id(s) {
        let i = first_index(s, '_');
        let k = kind_of_prefix(s.take(i)).unwrap();
        let u = s.skip(i + 1);
        assert(s =~= kind_prefix(k) + seq!['_'] + u);
    }
    if exists|k: IdKind, u: Seq<char>| #![trigger is_ulid(u), kind_prefix(k)]
        is_ulid(u) && s == kind_prefix(k) + seq!['_'] + u {
        let (k, u) = choose|k: IdKind, u: Seq<char>| #![trigger is_ulid(u), kind_prefix(k)]
            is_ulid(u) && s == kind_prefix(k) + seq!['_'] + u;
        let pl = kind_prefix(k).len() as int;
        assert(s[pl] == '_');
        assert forall|j: int| 0 <= j < pl implies s[j] != '_' by {
            assert(s[j] == kind_prefix(k)[j]);
        }
        let f = first_index(s, '_');
        if f < pl { assert(s[f] == kind_prefix(k)[f]); }
        assert(f == pl);
        assert(s.take(f) =~= kind_prefix(k));
        assert(s.skip(f + 1) =~= u);
    }
}

} // verus!
