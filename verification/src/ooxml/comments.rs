//! The comments of `word/comments.xml`: id, author, date and text.

use vstd::prelude::*;
use crate::ooxml::xml::{all_text_of, el_is, el_view, first_attr, string_opt, El};
use crate::ooxml::error::OoxmlError;
use crate::ooxml::package::{
    actual_name, admitted_total, lemma_word_part_safe, part_doc, part_encrypted, part_present, zip_meta,
    OoxmlPackage,
};
use crate::text::{join_chars, join_with, str_eq, string_of, chars_of};

verus! {

/// One comment.
#[derive(Debug, Clone)]
pub struct CommentInfo {
    pub id: String,
    pub author: String,
    pub date: Option<String>,
    pub text: String,
}

/// A comment as plain values: id, author, date, text.
pub open spec fn comment_view(c: CommentInfo) -> (Seq<char>, Seq<char>, Option<Seq<char>>, Seq<char>) {
    (c.id@, c.author@, string_opt(c.date), c.text@)
}

/// The all-text of the `w:p` children, in order.
pub open spec fn para_texts(cs: Seq<El>) -> Seq<Seq<char>>
    decreases cs.len(),
{
    if cs.len() == 0 {
        Seq::empty()
    } else {
        let r = para_texts(cs.drop_last());
        if el_is(cs.last(), "w"@, "p"@) {
            r.push(all_text_of(cs.last()))
        } else {
            r
        }
    }
}

/// The text of a comment: its paragraphs joined by newlines, or all its
/// text when it has no paragraph.
pub open spec fn comment_text(c: El) -> Seq<char> {
    let ps = para_texts(c.children@);
    if ps.len() == 0 {
        all_text_of(c)
    } else {
        join_with(ps, '\n')
    }
}

/// The `w:comment` children with a `w:id`, in order.
pub open spec fn comment_entries(cs: Seq<El>) -> Seq<(Seq<char>, Seq<char>, Option<Seq<char>>, Seq<char>)>
    decreases cs.len(),
{
    if cs.len() == 0 {
        Seq::empty()
    } else {
        let r = comment_entries(cs.drop_last());
        let c = cs.last();
        match first_attr(c.attrs@, "w:id"@) {
            Some(id) => if el_is(c, "w"@, "comment"@) {
                let author = match first_attr(c.attrs@, "w:author"@) {
                    Some(a) => a,
                    None => "unknown"@,
                };
                r.push((id, author, first_attr(c.attrs@, "w:date"@), comment_text(c)))
            } else {
                r
            },
            None => r,
        }
    }
}

/// The comment with this id that comes last.
pub open spec fn comment_lookup(
    s: Seq<(Seq<char>, Seq<char>, Option<Seq<char>>, Seq<char>)>,
    id: Seq<char>,
) -> Option<(Seq<char>, Seq<char>, Option<Seq<char>>, Seq<char>)>
    decreases s.len(),
{
    if s.len() == 0 {
        None
    } else if s.last().0 == id {
        Some(s.last())
    } else {
        comment_lookup(s.drop_last(), id)
    }
}

/// The comments of a document; a later comment with the same id replaces
/// an earlier one.
#[derive(Debug)]
pub struct Comments {
    pub by_id: Vec<CommentInfo>,
}

/// The plain views of a list of comments.
pub open spec fn comment_views(v: Seq<CommentInfo>) -> Seq<(Seq<char>, Seq<char>, Option<Seq<char>>, Seq<char>)> {
    v.map_values(|c: CommentInfo| comment_view(c))
}

fn comment_text_of(c: &El) -> (r: String)
    ensures
        r@ == comment_text(*c),
{
    let mut paras: Vec<Vec<char>> = Vec::new();
    let mut i: usize = 0;
    while i < c.children.len()
        invariant
            i <= c.children.len(),
            paras@.map_values(|v: Vec<char>| v@) == para_texts(c.children@.take(i as int)),
        decreases c.children.len() - i,
    {
        let p = &c.children[i];
        let ghost t = c.children@.take(i + 1);
        assert(t.drop_last() =~= c.children@.take(i as int));
        assert(t.last() == *p);
        if p.is("w", "p") {
            let txt = p.all_text();
            let ghost p0 = paras@.map_values(|v: Vec<char>| v@);
            paras.push(chars_of(txt.as_str()));
            assert(paras@.map_values(|v: Vec<char>| v@) =~= p0.push(all_text_of(*p)));
        }
        i = i + 1;
    }
    assert(c.children@.take(c.children.len() as int) =~= c.children@);
    if paras.len() == 0 {
        c.all_text()
    } else {
        let j = join_chars(paras.as_slice(), '\n');
        string_of(j.as_slice())
    }
}

impl Comments {
    /// No comments.
    pub fn new() -> (r: Self)
        ensures
            r.by_id@.len() == 0,
    {
        Comments { by_id: Vec::new() }
    }

    /// Reads the `w:comment` children of a `w:comments` root.
    pub fn from_doc(doc: &El) -> (r: Self)
        ensures
            comment_views(r.by_id@) == comment_entries(doc.children@),
    {
        let mut out = Comments::new();
        let mut i: usize = 0;
        assert(comment_views(out.by_id@) =~= Seq::empty());
        while i < doc.children.len()
            invariant
                i <= doc.children.len(),
                comment_views(out.by_id@) == comment_entries(doc.children@.take(i as int)),
            decreases doc.children.len() - i,
        {
            let c = &doc.children[i];
            let ghost t = doc.children@.take(i + 1);
            assert(t.drop_last() =~= doc.children@.take(i as int));
            assert(t.last() == *c);
            if c.is("w", "comment") {
                if let Some(id) = c.attr("w:id") {
                    let author = match c.attr("w:author") {
                        Some(a) => a.to_owned(),
                        None => "unknown".to_owned(),
                    };
                    let date = match c.attr("w:date") {
                        Some(d) => Some(d.to_owned()),
                        None => None,
                    };
                    let text = comment_text_of(c);
                    let ghost v0 = comment_views(out.by_id@);
                    let info = CommentInfo { id: id.to_owned(), author, date, text };
                    let ghost iv = comment_view(info);
                    out.by_id.push(info);
                    assert(comment_views(out.by_id@) =~= v0.push(iv));
                }
            }
            i = i + 1;
        }
        assert(doc.children@.take(doc.children.len() as int) =~= doc.children@);
        out
    }

    /// The comment with this id.
    pub fn get(&self, id: &str) -> (r: Option<&CommentInfo>)
        ensures
            match r {
                Some(c) => comment_lookup(comment_views(self.by_id@), id@) == Some(comment_view(*c)),
                None => comment_lookup(comment_views(self.by_id@), id@) is None,
            },
    {
        let ghost m = comment_views(self.by_id@);
        let mut i: usize = self.by_id.len();
        assert(m.take(i as int) =~= m);
        while i > 0
            invariant
                i <= self.by_id.len(),
                m == comment_views(self.by_id@),
                comment_lookup(m, id@) == comment_lookup(m.take(i as int), id@),
            decreases i,
        {
            let ghost t = m.take(i as int);
            assert(t.drop_last() =~= m.take(i - 1));
            if str_eq(self.by_id[i - 1].id.as_str(), id) {
                return Some(&self.by_id[i - 1]);
            }
            i = i - 1;
        }
        None
    }
}


impl Comments {
    /// Reads `word/comments.xml` from a package (no comments when absent).
    pub fn parse(pkg: &mut OoxmlPackage) -> (r: Result<Comments, OoxmlError>)
        ensures
            final(pkg).bytes() == old(pkg).bytes(),
            !part_present(old(pkg).bytes(), "word/comments.xml"@) ==> (r matches Ok(c) && c.by_id@.len() == 0),
            !part_present(old(pkg).bytes(), "word/comments.xml"@) ==> final(pkg).total() == old(pkg).total(),
            part_present(old(pkg).bytes(), "word/comments.xml"@) ==> ({
                let name = "word/comments.xml"@;
                &&& final(pkg).total() == admitted_total(
                    zip_meta(old(pkg).bytes(), actual_name(old(pkg).bytes(), name)),
                    old(pkg).total(),
                )
                &&& (r is Ok) == (part_doc(old(pkg).bytes(), old(pkg).total(), name) is Some)
                &&& r matches Ok(c) ==> exists|doc: El|
                    Some(el_view(doc)) == part_doc(old(pkg).bytes(), old(pkg).total(), name) && #[trigger] comment_views(c.by_id@) == comment_entries(doc.children@)
                &&& part_encrypted(old(pkg).bytes(), name) ==> (r matches Err(OoxmlError::Encrypted { part: p })
                    && p@ == name)
            }),
    {
        proof {
            reveal_strlit("word/comments.xml");
            reveal_strlit("comments.xml");
            reveal_strlit("word/");
            assert("word/"@ + "comments.xml"@ =~= "word/comments.xml"@);
            lemma_word_part_safe("comments.xml"@);
        }
        if !pkg.has_part("word/comments.xml") {
            return Ok(Comments::new());
        }
        match pkg.part_tree("word/comments.xml") {
            Ok(doc) => Ok(Comments::from_doc(&doc)),
            Err(e) => Err(e),
        }
    }
}

} // verus!
