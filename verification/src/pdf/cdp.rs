//! Text handling of the DevTools session: the WebSocket address a browser
//! announces, and `file://` URLs of local print documents.

use vstd::prelude::*;
use crate::text::{chars_of, find_first, first_match, is_ws, is_whitespace, push_str, slice_vec, string_of};

verus! {

/// A character that ends the announced address.
pub open spec fn url_stop(c: char) -> bool {
    is_ws(c) || c == '"' || c == '\''
}

/// Length of the leading run without a stop character.
pub open spec fn until_stop(s: Seq<char>) -> nat
    decreases s.len(),
{
    if s.len() == 0 || url_stop(s[0]) {
        0
    } else {
        1 + until_stop(s.drop_first())
    }
}

/// The `ws://` address in a line: from the first `ws://` up to the first
/// whitespace or quote.
pub open spec fn ws_url_of(line: Seq<char>) -> Option<Seq<char>> {
    let i = first_match(line, "ws://"@);
    if i < 0 {
        None
    } else {
        let rest = line.skip(i);
        Some(rest.take(until_stop(rest) as int))
    }
}

fn is_url_stop(c: char) -> (r: bool)
    ensures
        r == url_stop(c),
{
    is_whitespace(c) || c == '"' || c == '\''
}

/// Length of the leading run of `s` without a stop character.
fn stop_len(s: &[char]) -> (r: usize)
    ensures
        r == until_stop(s@),
        r <= s@.len(),
{
    let mut e: usize = 0;
    assert(s@.skip(0) =~= s@);
    while e < s.len() && !is_url_stop(s[e])
        invariant
            e <= s.len(),
            until_stop(s@) == e + until_stop(s@.skip(e as int)),
        decreases s.len() - e,
    {
        assert(s@.skip(e as int)[0] == s@[e as int]);
        assert(s@.skip(e as int).drop_first() =~= s@.skip(e + 1));
        e = e + 1;
    }
    proof {
        if e < s.len() {
            assert(s@.skip(e as int)[0] == s@[e as int]);
        } else {
            assert(s@.skip(e as int).len() == 0);
        }
    }
    e
}

/// The DevTools WebSocket address a browser prints on its error stream.
pub fn parse_ws_url(line: &str) -> (r: Option<String>)
    ensures
        match r {
            Some(u) => ws_url_of(line@) == Some(u@),
            None => ws_url_of(line@) is None,
        },
{
    let l = chars_of(line);
    let pat = chars_of("ws://");
    let i = match find_first(l.as_slice(), pat.as_slice()) {
        Some(i) => i,
        None => return None,
    };
    let rest = slice_vec(l.as_slice(), i, l.len());
    assert(rest@ =~= l@.skip(i as int));
    let e = stop_len(rest.as_slice());
    let u = slice_vec(rest.as_slice(), 0, e);
    assert(u@ =~= rest@.take(e as int));
    Some(string_of(u.as_slice()))
}

/// Percent-escape of the characters reserved in a `file://` URL.
pub open spec fn url_char(c: char) -> Seq<char> {
    if c == ' ' {
        seq!['%', '2', '0']
    } else if c == '#' {
        seq!['%', '2', '3']
    } else if c == '%' {
        seq!['%', '2', '5']
    } else if c == '?' {
        seq!['%', '3', 'F']
    } else {
        seq![c]
    }
}

/// Percent-escape of a path text.
pub open spec fn url_escape(s: Seq<char>) -> Seq<char>
    decreases s.len(),
{
    if s.len() == 0 {
        Seq::empty()
    } else {
        url_escape(s.drop_last()) + url_char(s.last())
    }
}

/// Drops every leading `/`.
pub open spec fn strip_slashes(s: Seq<char>) -> Seq<char>
    decreases s.len(),
{
    if s.len() > 0 && s[0] == '/' {
        strip_slashes(s.drop_first())
    } else {
        s
    }
}

/// The `file://` URL of a local path: backslashes become slashes, leading
/// slashes go, reserved characters are percent-escaped.
pub open spec fn file_url(path: Seq<char>) -> Seq<char> {
    let t = strip_slashes(path.map_values(|c: char| if c == '\\' { '/' } else { c }));
    "file:///"@ + url_escape(t)
}

/// The `file://` URL of a local path given as text.
pub fn url_from_path(path: &str) -> (r: String)
    ensures
        r@ == file_url(path@),
{
    let p = chars_of(path);
    let ghost q = p@.map_values(|c: char| if c == '\\' { '/' } else { c });
    let mut t: Vec<char> = Vec::new();
    let mut i: usize = 0;
    while i < p.len()
        invariant
            i <= p.len(),
            q == p@.map_values(|c: char| if c == '\\' { '/' } else { c }),
            t@ == q.take(i as int),
        decreases p.len() - i,
    {
        let c = p[i];
        t.push(if c == '\\' { '/' } else { c });
        i = i + 1;
        assert(t@ =~= q.take(i as int));
    }
    assert(q.take(p.len() as int) =~= q);
    let mut a: usize = 0;
    assert(t@.skip(0) =~= t@);
    while a < t.len() && t[a] == '/'
        invariant
            a <= t.len(),
            strip_slashes(t@.skip(a as int)) == strip_slashes(t@),
        decreases t.len() - a,
    {
        assert(t@.skip(a as int).drop_first() =~= t@.skip(a + 1));
        a = a + 1;
    }
    let body = slice_vec(t.as_slice(), a, t.len());
    assert(body@ =~= t@.skip(a as int));
    assert(strip_slashes(body@) == body@);
    let mut out: Vec<char> = Vec::new();
    push_str(&mut out, "file:///");
    let ghost start = out@;
    let mut k: usize = 0;
    while k < body.len()
        invariant
            k <= body.len(),
            out@ == start + url_escape(body@.take(k as int)),
        decreases body.len() - k,
    {
        let c = body[k];
        let ghost before = out@;
        if c == ' ' {
            out.push('%'); out.push('2'); out.push('0');
        } else if c == '#' {
            out.push('%'); out.push('2'); out.push('3');
        } else if c == '%' {
            out.push('%'); out.push('2'); out.push('5');
        } else if c == '?' {
            out.push('%'); out.push('3'); out.push('F');
        } else {
            out.push(c);
        }
        assert(out@ =~= before + url_char(c));
        assert(body@.take(k + 1).drop_last() =~= body@.take(k as int));
        k = k + 1;
        assert(out@ =~= start + url_escape(body@.take(k as int)));
    }
    assert(body@.take(body.len() as int) =~= body@);
    string_of(out.as_slice())
}

} // verus!
