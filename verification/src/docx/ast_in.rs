//! Reading the Pandoc JSON AST of an imported document: its title.

use vstd::prelude::*;
use crate::convert::str_or_empty;
use crate::json::{arr_of, get, str_of, Json};
use crate::text::{push_str, string_of, trim, trim_seq};

verus! {

/// The text of title inlines: `Str` contents and a space per `Space`.
pub open spec fn meta_text(inlines: Seq<Json>) -> Seq<char>
    decreases inlines.len(),
{
    if inlines.len() == 0 {
        Seq::empty()
    } else {
        let v = inlines.last();
        let t = str_of(get(v, "t"@));
        meta_text(inlines.drop_last()) + if t == Some("Str"@) {
            str_or_empty(v, "c"@)
        } else if t == Some("Space"@) {
            " "@
        } else {
            Seq::empty()
        }
    }
}

/// The title in a Pandoc document's metadata: a `MetaString` as it is, the
/// trimmed text of `MetaInlines` or `MetaBlocks` contents when not blank.
pub open spec fn meta_title_spec(ast: Json) -> Option<Seq<char>> {
    match get(ast, "meta"@) {
        None => None,
        Some(meta) => match get(meta, "title"@) {
            None => None,
            Some(title) => {
                let t = str_of(get(title, "t"@));
                if t == Some("MetaString"@) {
                    str_of(get(title, "c"@))
                } else if t == Some("MetaInlines"@) || t == Some("MetaBlocks"@) {
                    match arr_of(get(title, "c"@)) {
                        None => None,
                        Some(inl) => {
                            let s = trim_seq(meta_text(inl));
                            if s.len() == 0 {
                                None
                            } else {
                                Some(s)
                            }
                        },
                    }
                } else {
                    None
                }
            },
        },
    }
}

/// The title of a Pandoc document, from its metadata.
pub fn meta_title(ast: &Json) -> (r: Option<String>)
    ensures
        match r {
            Some(s) => meta_title_spec(*ast) == Some(s@),
            None => meta_title_spec(*ast) is None,
        },
{
    let meta = match ast.get("meta") {
        Some(m) => m,
        None => return None,
    };
    let title = match meta.get("title") {
        Some(t) => t,
        None => return None,
    };
    let kind = match title.get_str("t") {
        Some(k) => k,
        None => return None,
    };
    if crate::text::str_eq(kind, "MetaString") {
        return match title.get_str("c") {
            Some(c) => Some(c.to_owned()),
            None => None,
        };
    }
    if !(crate::text::str_eq(kind, "MetaInlines") || crate::text::str_eq(kind, "MetaBlocks")) {
        return None;
    }
    let inlines = match title.get("c") {
        Some(c) => match c.as_array() {
            Some(a) => a,
            None => return None,
        },
        None => return None,
    };
    let mut out: Vec<char> = Vec::new();
    let mut i: usize = 0;
    while i < inlines.len()
        invariant
            i <= inlines.len(),
            out@ == meta_text(inlines@.take(i as int)),
        decreases inlines.len() - i,
    {
        let v = &inlines[i];
        let ghost before = out@;
        match v.get_str("t") {
            Some(t) => {
                if crate::text::str_eq(t, "Str") {
                    push_str(&mut out, crate::convert::str_member(v, "c"));
                } else if crate::text::str_eq(t, "Space") {
                    out.push(' ');
                }
            },
            None => {},
        }
        proof {
            reveal_strlit(" ");
            let tk = inlines@.take(i + 1);
            assert(tk.drop_last() =~= inlines@.take(i as int));
            assert(tk.last() == inlines@[i as int]);
        }
        i = i + 1;
        assert(out@ =~= meta_text(inlines@.take(i as int)));
    }
    assert(inlines@.take(inlines.len() as int) =~= inlines@);
    let t = trim(out.as_slice());
    if t.len() == 0 {
        None
    } else {
        Some(string_of(t.as_slice()))
    }
}

} // verus!
