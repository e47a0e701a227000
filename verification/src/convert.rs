//! What a conversion reads of a document and its container, and the loss
//! log it writes: the shared ground of the exporters.

use vstd::prelude::*;
use crate::json::{get, str_of, Json};
use crate::ooxml::document::LossClass;
use crate::text::{chars_of, esc, escape_into, str_eq};

verus! {

/// An asset of the container: its id, media type and storage (`embedded`
/// or `external`), its URL when it has one, its file name, and the file its
/// bytes were written to for a converter that reads files.
pub struct AssetMeta {
    pub id: String,
    pub mime: String,
    pub storage: String,
    pub url: Option<String>,
    pub filename: String,
    pub file: Option<String>,
}

/// What the export reads of a document and its container.
pub struct ExportDoc {
    /// The `content.json` tree.
    pub content: Json,
    pub title: Option<String>,
    pub language: Option<String>,
    pub document_id: Option<String>,
    pub assets: Vec<AssetMeta>,
    /// The URL of each asset reference, as the container resolves it.
    pub urls: Vec<(String, String)>,
    /// The file name of each asset reference that has one.
    pub filenames: Vec<(String, String)>,
    /// Each preserved payload of the container: its path and its text
    /// (the export sanitises it before inlining it).
    pub preserved: Vec<(String, String)>,
}

/// One entry of the loss log.
#[derive(Debug)]
pub enum LossEvent {
    /// A node mapped without loss.
    NodeNone,
    /// A loss: its class, feature, action, detail and message.
    Record(LossClass, &'static str, &'static str, String, &'static str),
}

/// A loss event as plain values.
pub enum LossEventView {
    NodeNone,
    Record(LossClass, Seq<char>, Seq<char>, Seq<char>, Seq<char>),
}

impl View for LossEvent {
    type V = LossEventView;

    open spec fn view(&self) -> LossEventView {
        match self {
            LossEvent::NodeNone => LossEventView::NodeNone,
            LossEvent::Record(c, f, a, d, m) => LossEventView::Record(*c, f@, a@, d@, m@),
        }
    }
}

/// Loss events as plain values.
pub open spec fn events_view(v: Seq<LossEvent>) -> Seq<LossEventView> {
    v.map_values(|e: LossEvent| e@)
}

/// The value of the first pair whose key is `key`.
pub open spec fn lookup(pairs: Seq<(String, String)>, key: Seq<char>) -> Option<Seq<char>>
    decreases pairs.len(),
{
    if pairs.len() == 0 {
        None
    } else if pairs[0].0@ == key {
        Some(pairs[0].1@)
    } else {
        lookup(pairs.drop_first(), key)
    }
}

/// The URL of an asset reference; empty when the container gives none.
pub open spec fn url_of(doc: ExportDoc, asset: Seq<char>) -> Seq<char> {
    match lookup(doc.urls@, asset) {
        Some(u) => u,
        None => Seq::empty(),
    }
}

/// The media type of an asset reference: that of the first asset whose id
/// occurs in the reference, or empty.
pub open spec fn mime_of(assets: Seq<AssetMeta>, asset: Seq<char>) -> Seq<char>
    decreases assets.len(),
{
    if assets.len() == 0 {
        Seq::empty()
    } else if crate::text::occurs(asset, assets[0].id@) {
        assets[0].mime@
    } else {
        mime_of(assets.drop_first(), asset)
    }
}

/// The preserved payload at `path`, sanitised: its clean fragment and whether
/// anything was removed.
pub open spec fn payload_of(ps: Seq<(String, String)>, path: Seq<char>) -> Option<(Seq<char>, bool)> {
    match lookup(ps, path) {
        Some(raw) => Some(crate::html::sanitize::sanitized(raw)),
        None => None,
    }
}

/// A loss record.
pub open spec fn record(class: LossClass, feature: Seq<char>, action: Seq<char>, detail: Seq<char>, message: Seq<char>) -> LossEventView {
    LossEventView::Record(class, feature, action, detail, message)
}


pub fn find_pair<'a>(pairs: &'a Vec<(String, String)>, key: &str) -> (r: Option<&'a str>)
    ensures
        match r {
            Some(v) => lookup(pairs@, key@) == Some(v@),
            None => lookup(pairs@, key@) is None,
        },
{
    let mut i: usize = 0;
    assert(pairs@.skip(0) =~= pairs@);
    while i < pairs.len()
        invariant
            i <= pairs.len(),
            lookup(pairs@, key@) == lookup(pairs@.skip(i as int), key@),
        decreases pairs.len() - i,
    {
        assert(pairs@.skip(i as int).drop_first() =~= pairs@.skip(i + 1));
        if str_eq(pairs[i].0.as_str(), key) {
            return Some(pairs[i].1.as_str());
        }
        i = i + 1;
    }
    None
}
pub fn asset_url<'a>(doc: &'a ExportDoc, asset: &str) -> (r: &'a str)
    ensures
        r@ == url_of(*doc, asset@),
{
    proof { reveal_strlit(""); }
    match find_pair(&doc.urls, asset) {
        Some(u) => u,
        None => "",
    }
}
pub fn asset_mime<'a>(assets: &'a Vec<AssetMeta>, asset: &str) -> (r: &'a str)
    ensures
        r@ == mime_of(assets@, asset@),
{
    proof { reveal_strlit(""); }
    let av = chars_of(asset);
    let mut i: usize = 0;
    assert(assets@.skip(0) =~= assets@);
    while i < assets.len()
        invariant
            i <= assets.len(),
            av@ == asset@,
            mime_of(assets@, asset@) == mime_of(assets@.skip(i as int), asset@),
        decreases assets.len() - i,
    {
        assert(assets@.skip(i as int).drop_first() =~= assets@.skip(i + 1));
        let idv = chars_of(assets[i].id.as_str());
        if crate::text::find(av.as_slice(), idv.as_slice()).is_some() {
            return assets[i].mime.as_str();
        }
        i = i + 1;
    }
    ""
}
pub fn payload(ps: &Vec<(String, String)>, path: &str) -> (r: Option<(String, bool)>)
    ensures
        match r {
            Some((c, rm)) => payload_of(ps@, path@) == Some((c@, rm)),
            None => payload_of(ps@, path@) is None,
        },
{
    match find_pair(ps, path) {
        Some(raw) => Some(crate::html::sanitize::sanitize_fragment(raw)),
        None => None,
    }
}
pub fn log_none(log: &mut Vec<LossEvent>)
    ensures
        events_view(final(log)@) == events_view(old(log)@).push(LossEventView::NodeNone),
{
    let ghost before = events_view(log@);
    log.push(LossEvent::NodeNone);
    assert(events_view(log@) =~= before.push(LossEventView::NodeNone));
}
pub fn log_record(log: &mut Vec<LossEvent>, class: LossClass, feature: &'static str, action: &'static str, detail: &str, message: &'static str)
    ensures
        events_view(final(log)@) == events_view(old(log)@).push(record(class, feature@, action@, detail@, message@)),
{
    let ghost before = events_view(log@);
    let e = LossEvent::Record(class, feature, action, detail.to_owned(), message);
    log.push(e);
    assert(events_view(log@) =~= before.push(record(class, feature@, action@, detail@, message@)));
}

/// Rendered text and the loss events of the rendering, in order.
pub struct Rendered {
    pub html: Seq<char>,
    pub events: Seq<LossEventView>,
}

/// One rendering after the other.
pub open spec fn then(a: Rendered, b: Rendered) -> Rendered {
    Rendered { html: a.html + b.html, events: a.events + b.events }
}

/// Text and no events.
pub open spec fn text(h: Seq<char>) -> Rendered {
    Rendered { html: h, events: Seq::empty() }
}

/// Text and one lossless node.
pub open spec fn lossless(h: Seq<char>) -> Rendered {
    Rendered { html: h, events: seq![LossEventView::NodeNone] }
}

/// `r` between `pre` and `post`.
pub open spec fn wrap(pre: Seq<char>, r: Rendered, post: Seq<char>) -> Rendered {
    Rendered { html: pre + r.html + post, events: r.events }
}

/// A string member, or empty.
pub open spec fn str_or_empty(v: Json, key: Seq<char>) -> Seq<char> {
    match str_of(get(v, key)) {
        Some(s) => s,
        None => Seq::empty(),
    }
}

pub fn str_member<'a>(v: &'a Json, key: &str) -> (r: &'a str)
    ensures
        r@ == str_or_empty(*v, key@),
{
    proof { reveal_strlit(""); }
    match v.get_str(key) {
        Some(s) => s,
        None => "",
    }
}
/// `out` and `log` grew from `out0` and `log0` by `r`.
pub open spec fn wrote(out: Seq<char>, log: Seq<LossEvent>, out0: Seq<char>, log0: Seq<LossEventView>, r: Rendered) -> bool {
    out == out0 + r.html && events_view(log) == log0 + r.events
}

pub fn push_escaped_str(out: &mut Vec<char>, s: &str, quote: bool)
    ensures
        final(out)@ == old(out)@ + esc(s@, quote),
{
    let v = chars_of(s);
    escape_into(out, v.as_slice(), quote);
}

} // verus!
