//! HTML conversion helpers: tag classes, text escaping, whitespace folding,
//! and media types of embedded assets.

use vstd::prelude::*;
use crate::text::{chars_of, esc, escape_str, is_whitespace, is_ws, lead_ws, string_of, trail_ws, trim, trim_seq};

pub mod export;
pub mod sanitize;

verus! {

/// The name of the HTML converter.
pub fn converter_name() -> (r: &'static str)
    ensures
        r@ == "athanor-html"@,
{
    "athanor-html"
}

/// The file extension for an asset's media type (`bin` when unknown).
pub open spec fn mime_ext_spec(mime: Seq<char>) -> Seq<char> {
    if mime == "image/png"@ {
        "png"@
    } else if mime == "image/jpeg"@ {
        "jpg"@
    } else if mime == "image/gif"@ {
        "gif"@
    } else if mime == "image/svg+xml"@ {
        "svg"@
    } else if mime == "image/webp"@ {
        "webp"@
    } else if mime == "video/mp4"@ {
        "mp4"@
    } else if mime == "audio/mpeg"@ {
        "mp3"@
    } else {
        "bin"@
    }
}

/// The file extension for an asset's media type.
pub fn mime_ext(mime: &str) -> (r: &'static str)
    ensures
        r@ == mime_ext_spec(mime@),
{
    if crate::text::str_eq(mime, "image/png") {
        "png"
    } else if crate::text::str_eq(mime, "image/jpeg") {
        "jpg"
    } else if crate::text::str_eq(mime, "image/gif") {
        "gif"
    } else if crate::text::str_eq(mime, "image/svg+xml") {
        "svg"
    } else if crate::text::str_eq(mime, "image/webp") {
        "webp"
    } else if crate::text::str_eq(mime, "video/mp4") {
        "mp4"
    } else if crate::text::str_eq(mime, "audio/mpeg") {
        "mp3"
    } else {
        "bin"
    }
}

/// The tags read as inline content.
pub open spec fn inline_tags() -> Seq<Seq<char>> {
    seq![
        "em"@, "i"@, "strong"@, "b"@, "u"@, "ins"@, "s"@, "strike"@, "del"@, "code"@, "a"@, "img"@,
        "br"@, "span"@, "mark"@, "sub"@, "sup"@, "small"@, "q"@, "abbr"@, "cite"@, "var"@, "kbd"@,
        "samp"@, "time"@, "wbr"@, "font"@, "big"@,
    ]
}

/// The tags read as inline content.
fn inline_tag_list() -> (r: Vec<&'static str>)
    ensures
        r@.map_values(|s: &str| s@) == inline_tags(),
{
    let v: Vec<&'static str> = vec![
        "em", "i", "strong", "b", "u", "ins", "s", "strike", "del", "code", "a", "img", "br", "span",
        "mark", "sub", "sup", "small", "q", "abbr", "cite", "var", "kbd", "samp", "time", "wbr",
        "font", "big",
    ];
    assert(v@.map_values(|s: &str| s@) =~= inline_tags());
    v
}

/// An element read as inline content.
pub fn is_inline_tag(name: &str) -> (r: bool)
    ensures
        r == inline_tags().contains(name@),
{
    let tags = inline_tag_list();
    let ghost t = inline_tags();
    let mut i: usize = 0;
    while i < tags.len()
        invariant
            i <= tags.len(),
            tags@.map_values(|s: &str| s@) == t,
            t == inline_tags(),
            forall|j: int| 0 <= j < i ==> t[j] != name@,
        decreases tags.len() - i,
    {
        if crate::text::str_eq(tags[i], name) {
            assert(t[i as int] == name@);
            assert(t.contains(name@));
            return true;
        }
        i = i + 1;
    }
    assert(!t.contains(name@)) by {
        if t.contains(name@) {
            let j = choose|j: int| 0 <= j < t.len() && t[j] == name@;
        }
    }
    false
}

/// A custom element: its name holds a hyphen.
pub fn is_custom_element(name: &str) -> (r: bool)
    ensures
        r == name@.contains('-'),
{
    let v = chars_of(name);
    match crate::text::find_char(v.as_slice(), '-') {
        Some(_) => true,
        None => false,
    }
}

/// Escape of text content: `&`, `<`, `>`.
pub fn escape_text(s: &str) -> (r: String)
    ensures
        r@ == esc(s@, false),
{
    escape_str(s, false)
}

/// Escape of an attribute value: `&`, `<`, `>` and `"`.
pub fn escape_attr(s: &str) -> (r: String)
    ensures
        r@ == esc(s@, true),
{
    escape_str(s, true)
}

/// Each run of whitespace as one space.
pub open spec fn squeeze_ws(s: Seq<char>) -> Seq<char>
    decreases s.len(),
{
    if s.len() == 0 {
        Seq::empty()
    } else {
        let r = squeeze_ws(s.drop_last());
        if is_ws(s.last()) {
            if s.len() >= 2 && is_ws(s[s.len() - 2]) {
                r
            } else {
                r.push(' ')
            }
        } else {
            r.push(s.last())
        }
    }
}

/// Whitespace runs folded to one space, then trimmed.
pub open spec fn collapse_ws_spec(s: Seq<char>) -> Seq<char> {
    trim_seq(squeeze_ws(s))
}

/// Folds each whitespace run of a text into one space and trims the ends.
pub fn collapse_ws(s: &str) -> (r: String)
    ensures
        r@ == collapse_ws_spec(s@),
{
    let v = chars_of(s);
    let mut out: Vec<char> = Vec::new();
    let mut in_ws = false;
    let mut i: usize = 0;
    while i < v.len()
        invariant
            i <= v.len(),
            out@ == squeeze_ws(v@.take(i as int)),
            in_ws == (i > 0 && is_ws(v@[i - 1])),
        decreases v.len() - i,
    {
        let c = v[i];
        let ghost t = v@.take(i + 1);
        assert(t.drop_last() =~= v@.take(i as int));
        assert(t.last() == c);
        if is_whitespace(c) {
            if !in_ws {
                out.push(' ');
                in_ws = true;
            }
            proof {
                if i >= 1 {
                    assert(t[t.len() - 2] == v@[i - 1]);
                }
            }
        } else {
            out.push(c);
            in_ws = false;
        }
        i = i + 1;
    }
    assert(v@.take(v.len() as int) =~= v@);
    let t = trim(out.as_slice());
    string_of(t.as_slice())
}


/// Every whitespace character is a single space, never next to another
/// whitespace character.
pub open spec fn folded(t: Seq<char>) -> bool {
    forall|i: int| 0 <= i < t.len() && is_ws(#[trigger] t[i]) ==> t[i] == ' ' && (i + 1 < t.len() ==> !is_ws(t[i + 1]))
}

proof fn lemma_squeeze_folded(s: Seq<char>)
    ensures
        folded(squeeze_ws(s)),
        squeeze_ws(s).len() > 0 && is_ws(squeeze_ws(s).last()) <==> s.len() > 0 && is_ws(s.last()),
        s.len() > 0 ==> squeeze_ws(s).len() > 0,
    decreases s.len(),
{
    if s.len() > 0 {
        let p = s.drop_last();
        lemma_squeeze_folded(p);
        let r = squeeze_ws(p);
        if is_ws(s.last()) {
            if s.len() >= 2 && is_ws(s[s.len() - 2]) {
                assert(p.last() == s[s.len() - 2]);
            } else {
                if p.len() > 0 {
                    assert(p.last() == s[s.len() - 2]);
                }
                let t = r.push(' ');
                assert forall|i: int| 0 <= i < t.len() && is_ws(#[trigger] t[i]) implies t[i] == ' ' && (i + 1
                    < t.len() ==> !is_ws(t[i + 1])) by {
                    if i < r.len() {
                        assert(t[i] == r[i]);
                        if i + 1 < r.len() {
                            assert(t[i + 1] == r[i + 1]);
                        } else if i + 1 == r.len() {
                            assert(r[i] == r.last());
                        }
                    }
                }
            }
        } else {
            let t = r.push(s.last());
            assert forall|i: int| 0 <= i < t.len() && is_ws(#[trigger] t[i]) implies t[i] == ' ' && (i + 1 < t.len()
                ==> !is_ws(t[i + 1])) by {
                if i < r.len() {
                    assert(t[i] == r[i]);
                    if i + 1 < r.len() {
                        assert(t[i + 1] == r[i + 1]);
                    }
                }
            }
        }
    }
}

proof fn lemma_trim_keeps_folded(t: Seq<char>)
    requires
        folded(t),
    ensures
        folded(trim_seq(t)),
        trim_seq(t).len() > 0 ==> !is_ws(trim_seq(t)[0]) && !is_ws(trim_seq(t).last()),
{
    crate::text::lemma_lead_ws_bound(t);
    let a = lead_ws(t);
    let rest = t.skip(a as int);
    crate::text::lemma_trail_ws_bound(rest);
    let b = trail_ws(rest);
    let r = trim_seq(t);
    assert(r =~= rest.take(rest.len() - b));
    assert forall|i: int| 0 <= i < r.len() && is_ws(#[trigger] r[i]) implies r[i] == ' ' && (i + 1 < r.len()
        ==> !is_ws(r[i + 1])) by {
        assert(r[i] == t[a + i]);
        if i + 1 < r.len() {
            assert(r[i + 1] == t[a + i + 1]);
        }
    }
    if r.len() > 0 {
        assert(r[0] == t[a as int]);
        assert(r.last() == rest[rest.len() - b - 1]);
    }
}

proof fn lemma_folded_fixed(t: Seq<char>)
    requires
        folded(t),
    ensures
        squeeze_ws(t) == t,
    decreases t.len(),
{
    if t.len() > 0 {
        let p = t.drop_last();
        assert(folded(p)) by {
            assert forall|i: int| 0 <= i < p.len() && is_ws(#[trigger] p[i]) implies p[i] == ' ' && (i + 1 < p.len()
                ==> !is_ws(p[i + 1])) by {
                assert(p[i] == t[i]);
                if i + 1 < p.len() {
                    assert(p[i + 1] == t[i + 1]);
                }
            }
        }
        lemma_folded_fixed(p);
        if is_ws(t.last()) {
            assert(t[t.len() - 1] == ' ');
            if t.len() >= 2 {
                assert(!is_ws(t[t.len() - 2])) by {
                    if is_ws(t[t.len() - 2]) {
                        assert(!is_ws(t[t.len() - 2 + 1]));
                    }
                }
            }
        }
        assert(p.push(t.last()) =~= t);
    }
}

/// Folding whitespace leaves single spaces only between other characters,
/// and folding again changes nothing.
pub proof fn law_collapse_ws(s: Seq<char>)
    ensures
        folded(collapse_ws_spec(s)),
        collapse_ws_spec(s).len() > 0 ==> !is_ws(collapse_ws_spec(s)[0]) && !is_ws(collapse_ws_spec(s).last()),
        collapse_ws_spec(collapse_ws_spec(s)) == collapse_ws_spec(s),
{
    lemma_squeeze_folded(s);
    lemma_trim_keeps_folded(squeeze_ws(s));
    let c = collapse_ws_spec(s);
    lemma_folded_fixed(c);
    if c.len() > 0 {
        assert(lead_ws(c) == 0);
        assert(c.skip(0) =~= c);
        assert(trail_ws(c) == 0);
        assert(c.take(c.len() as int) =~= c);
    } else {
        assert(squeeze_ws(c) =~= c);
    }
}

/// Assets take the usual file extensions: PNG `png`, JPEG `jpg`, GIF `gif`,
/// SVG `svg`, WebP `webp`, MP4 video `mp4`, MPEG audio `mp3`, anything else
/// `bin`; and the HTML and Markdown exports name every image type alike.
pub proof fn law_media_extensions(mime: Seq<char>)
    ensures
        mime == "image/png"@ ==> mime_ext_spec(mime) == seq!['p', 'n', 'g'],
        mime == "image/jpeg"@ ==> mime_ext_spec(mime) == seq!['j', 'p', 'g'],
        mime == "image/gif"@ ==> mime_ext_spec(mime) == seq!['g', 'i', 'f'],
        mime == "image/svg+xml"@ ==> mime_ext_spec(mime) == seq!['s', 'v', 'g'],
        mime == "image/webp"@ ==> mime_ext_spec(mime) == seq!['w', 'e', 'b', 'p'],
        mime == "video/mp4"@ ==> mime_ext_spec(mime) == seq!['m', 'p', '4'],
        mime == "audio/mpeg"@ ==> mime_ext_spec(mime) == seq!['m', 'p', '3'],
        !(mime == "image/png"@ || mime == "image/jpeg"@ || mime == "image/gif"@ || mime == "image/svg+xml"@ || mime
            == "image/webp"@ || mime == "video/mp4"@ || mime == "audio/mpeg"@) ==> mime_ext_spec(mime) == seq![
            'b',
            'i',
            'n',
        ],
        mime != "video/mp4"@ && mime != "audio/mpeg"@ ==> mime_ext_spec(mime) == crate::md::mime_to_ext_spec(mime),
{
    reveal_strlit("image/png");
    reveal_strlit("image/jpeg");
    reveal_strlit("image/gif");
    reveal_strlit("image/svg+xml");
    reveal_strlit("image/webp");
    reveal_strlit("video/mp4");
    reveal_strlit("audio/mpeg");
    reveal_strlit("png");
    reveal_strlit("jpg");
    reveal_strlit("gif");
    reveal_strlit("svg");
    reveal_strlit("webp");
    reveal_strlit("mp4");
    reveal_strlit("mp3");
    reveal_strlit("bin");
    assert("png"@ =~= seq!['p', 'n', 'g']);
    assert("jpg"@ =~= seq!['j', 'p', 'g']);
    assert("gif"@ =~= seq!['g', 'i', 'f']);
    assert("svg"@ =~= seq!['s', 'v', 'g']);
    assert("webp"@ =~= seq!['w', 'e', 'b', 'p']);
    assert("mp4"@ =~= seq!['m', 'p', '4']);
    assert("mp3"@ =~= seq!['m', 'p', '3']);
    assert("bin"@ =~= seq!['b', 'i', 'n']);
    assert("image/png"@.len() == 9 && "image/jpeg"@.len() == 10 && "image/gif"@.len() == 9);
    assert("image/svg+xml"@.len() == 13 && "image/webp"@.len() == 10 && "video/mp4"@.len() == 9);
    assert("audio/mpeg"@.len() == 10);
    assert("image/png"@[6] != "image/gif"@[6] && "image/png"@[0] != "video/mp4"@[0]);
    assert("image/gif"@[0] != "video/mp4"@[0]);
    assert("image/jpeg"@[6] != "image/webp"@[6] && "image/jpeg"@[0] != "audio/mpeg"@[0]);
    assert("image/webp"@[0] != "audio/mpeg"@[0]);
}

} // verus!
