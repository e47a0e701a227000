//! Markdown conversion helpers: media types of assets and block indentation.

use vstd::prelude::*;
use crate::text::{chars_of, first_index, lemma_first_index, push_all, push_str, slice_vec, string_of};

pub mod export;
pub mod blocks;

pub use blocks::export_markdown;

verus! {

/// The name of the Markdown converter.
pub fn converter_name() -> (r: &'static str)
    ensures
        r@ == "athanor-md"@,
{
    "athanor-md"
}

/// The file extension for an image's media type (`bin` when unknown).
pub open spec fn mime_to_ext_spec(mime: Seq<char>) -> Seq<char> {
    if mime == "image/png"@ {
        "png"@
    } else if mime == "image/jpeg"@ {
        "jpg"@
    } else if mime == "image/gif"@ {
        "gif"@
    } else if mime == "image/svg+xml"@ {
        "svg"@
    } else if mime == "image/webp"@ {
        "webp"@
    } else {
        "bin"@
    }
}

/// The file extension for an image's media type.
pub fn mime_to_ext(mime: &str) -> (r: &'static str)
    ensures
        r@ == mime_to_ext_spec(mime@),
{
    if crate::text::str_eq(mime, "image/png") {
        "png"
    } else if crate::text::str_eq(mime, "image/jpeg") {
        "jpg"
    } else if crate::text::str_eq(mime, "image/gif") {
        "gif"
    } else if crate::text::str_eq(mime, "image/svg+xml") {
        "svg"
    } else if crate::text::str_eq(mime, "image/webp") {
        "webp"
    } else {
        "bin"
    }
}

/// `str::split_inclusive('\n')`: the lines, each with its newline (the
/// last may lack one); no line for empty text.
pub open spec fn lines_incl(s: Seq<char>) -> Seq<Seq<char>>
    decreases s.len(),
{
    if s.len() == 0 {
        Seq::empty()
    } else {
        let i = first_index(s, '\n');
        if i < 0 {
            seq![s]
        } else {
            proof { lemma_first_index(s, '\n'); }
            seq![s.take(i + 1)] + lines_incl(s.skip(i + 1))
        }
    }
}

/// One line of an indented block: the prefix goes before it unless it is
/// the first line and that is skipped; an empty line stays unprefixed.
pub open spec fn indent_line(line: Seq<char>, prefix: Seq<char>, skip: bool) -> Seq<char> {
    if skip {
        line
    } else if line == seq!['\n'] {
        line
    } else {
        prefix + line
    }
}

/// Indents every line of a block.
pub open spec fn indented(lines: Seq<Seq<char>>, prefix: Seq<char>, skip_first: bool) -> Seq<char>
    decreases lines.len(),
{
    if lines.len() == 0 {
        Seq::empty()
    } else {
        indented(lines.drop_last(), prefix, skip_first) + indent_line(
            lines.last(),
            prefix,
            skip_first && lines.len() == 1,
        )
    }
}

/// Puts `prefix` before every non-empty line of `s` (before the first only
/// unless `skip_first`).
pub fn indent_block(s: &str, prefix: &str, skip_first: bool) -> (r: String)
    ensures
        r@ == indented(lines_incl(s@), prefix@, skip_first),
{
    let v = chars_of(s);
    let p = chars_of(prefix);
    let mut out: Vec<char> = Vec::new();
    let mut start: usize = 0;
    let mut n: usize = 0;
    let ghost mut done: Seq<Seq<char>> = Seq::empty();
    assert(v@.skip(0) =~= v@);
    while start < v.len()
        invariant
            start <= v.len(),
            done + lines_incl(v@.skip(start as int)) == lines_incl(v@),
            n == done.len(),
            n <= start,
            out@ == indented(done, p@, skip_first),
        decreases v.len() - start,
    {
        let ghost rest = v@.skip(start as int);
        proof { lemma_first_index(rest, '\n'); }
        let mut e: usize = start;
        while e < v.len() && v[e] != '\n'
            invariant
                start <= e <= v.len(),
                forall|k: int| start <= k < e ==> v@[k] != '\n',
            decreases v.len() - e,
        {
            e = e + 1;
        }
        let end = if e < v.len() { e + 1 } else { e };
        let line = slice_vec(v.as_slice(), start, end);
        proof {
            if e < v.len() {
                assert(rest[e - start] == '\n');
                assert forall|k: int| 0 <= k < e - start implies rest[k] != '\n' by {
                    assert(rest[k] == v@[start + k]);
                }
                assert(first_index(rest, '\n') == e - start) by {
                    lemma_first_index(rest, '\n');
                    let f = first_index(rest, '\n');
                    if f >= 0 && f < e - start {
                        assert(rest[f] == '\n');
                    }
                }
                assert(line@ =~= rest.take(e - start + 1));
                assert(v@.skip(end as int) =~= rest.skip(e - start + 1));
            } else {
                assert(!rest.contains('\n')) by {
                    if rest.contains('\n') {
                        let k = choose|k: int| 0 <= k < rest.len() && rest[k] == '\n';
                        assert(v@[start + k] == '\n');
                    }
                }
                assert(line@ =~= rest);
                assert(v@.skip(end as int).len() == 0);
                assert(lines_incl(v@.skip(end as int)) =~= Seq::<Seq<char>>::empty());
            }
            assert(lines_incl(rest) =~= seq![line@] + lines_incl(v@.skip(end as int)));
            assert(done.push(line@) + lines_incl(v@.skip(end as int)) =~= done + lines_incl(rest));
        }
        let ghost before = out@;
        let skip = skip_first && n == 0;
        if skip {
            push_all(&mut out, line.as_slice());
        } else if line.len() == 1 && line[0] == '\n' {
            out.push('\n');
            assert(line@ =~= seq!['\n']);
        } else {
            push_all(&mut out, p.as_slice());
            push_all(&mut out, line.as_slice());
            assert(line@ != seq!['\n']) by {
                if line@ == seq!['\n'] {
                    assert(line@.len() == 1 && line@[0] == '\n');
                }
            }
        }
        proof {
            let d2 = done.push(line@);
            assert(d2.drop_last() =~= done);
            assert(out@ =~= before + indent_line(line@, p@, skip_first && d2.len() == 1));
            done = d2;
        }
        n = n + 1;
        start = end;
    }
    assert(v@.skip(start as int).len() == 0);
    assert(done + Seq::<Seq<char>>::empty() =~= done);
    string_of(out.as_slice())
}

} // verus!
