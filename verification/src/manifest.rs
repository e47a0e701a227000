//! The container manifest: its typed form, the freshness
//! rule of compatibility caches, and the inventory of members the format
//! does not define. Members the types do not name are kept in `extra`
//! maps, in document order.

use vstd::prelude::*;
use crate::json::{get, Json};
use crate::pm::mapping::names_view;
use crate::text::{push_str, str_eq, string_of};

verus! {

/// Members of a JSON object that no field names, in document order.
#[derive(Debug)]
pub struct ExtraMap(pub Vec<(String, Json)>);

impl Default for ExtraMap {
    fn default() -> (r: Self)
        ensures
            r.0@.len() == 0,
    {
        ExtraMap(Vec::new())
    }
}

/// The layer names the format defines.
pub open spec fn known_layers() -> Seq<Seq<char>> {
    seq!["content"@, "assets"@, "semantics"@, "presentation"@, "revisions"@, "publication"@]
}

/// The layer names the format defines.
pub fn known_layer_names() -> (r: Vec<&'static str>)
    ensures
        names_view(r@) == known_layers(),
{
    let v: Vec<&'static str> = vec!["content", "assets", "semantics", "presentation", "revisions", "publication"];
    assert(names_view(v@) =~= known_layers());
    v
}

/// The layers of a container, by name; a layer may be any object.
#[derive(Debug)]
pub struct LayersMap(pub Vec<(String, Json)>);

/// The program that wrote something.
#[derive(Debug)]
pub struct GeneratorInfo {
    pub name: String,
    pub version: Option<String>,
    pub extra: ExtraMap,
}

/// The `azodoc` member: format version, container profile and writer.
#[derive(Debug)]
pub struct AzodocMeta {
    pub format_version: String,
    pub container_profile: Option<String>,
    pub generator: Option<GeneratorInfo>,
    pub extra: ExtraMap,
}

/// The `document` member.
#[derive(Debug)]
pub struct DocumentMeta {
    pub id: String,
    pub schema_version: String,
    pub title: Option<String>,
    pub language: Option<String>,
    pub created_at: Option<String>,
    pub modified_at: Option<String>,
    pub extra: ExtraMap,
}

/// Where a layer lies and its digest.
#[derive(Debug)]
pub struct LayerRef {
    pub path: String,
    pub sha256: String,
    pub extra: ExtraMap,
}

/// A cached rendering of the document in another format.
#[derive(Debug)]
pub struct CompatEntry {
    pub format: String,
    pub path: String,
    /// The revision the cache was made from.
    pub revision: Option<String>,
    pub generated_at: Option<String>,
    pub generator: Option<GeneratorInfo>,
    /// The state the writer claims; freshness is always worked out from the
    /// revision binding instead.
    pub status: Option<String>,
    pub extra: ExtraMap,
}

/// A report stored in the container.
#[derive(Debug)]
pub struct ReportEntry {
    pub path: String,
    pub kind: Option<String>,
    pub sha256: Option<String>,
    pub extra: ExtraMap,
}

/// The container manifest.
#[derive(Debug)]
pub struct Manifest {
    pub azodoc: AzodocMeta,
    pub document: DocumentMeta,
    pub current_revision: Option<String>,
    pub layers: LayersMap,
    pub compatibility: Vec<CompatEntry>,
    pub reports: Vec<ReportEntry>,
    pub extra: ExtraMap,
}

/// An optional string as plain text.
pub open spec fn opt_text(o: Option<String>) -> Option<Seq<char>> {
    match o {
        Some(s) => Some(s@),
        None => None,
    }
}

/// A cache is fresh when it was made from the current revision: both name
/// the same revision, or neither names one.
pub open spec fn fresh(entry_revision: Option<Seq<char>>, current: Option<Seq<char>>) -> bool {
    match (entry_revision, current) {
        (None, None) => true,
        (Some(a), Some(b)) => a == b,
        _ => false,
    }
}

impl Manifest {
    /// The current revision, if the document has one.
    pub fn current_revision(&self) -> (r: Option<&str>)
        ensures
            match r {
                Some(s) => opt_text(self.current_revision) == Some(s@),
                None => self.current_revision is None,
            },
    {
        match &self.current_revision {
            Some(s) => Some(s.as_str()),
            None => None,
        }
    }

    /// Whether a compatibility cache is fresh: only the revision binding
    /// decides.
    pub fn compat_is_fresh(&self, entry: &CompatEntry) -> (r: bool)
        ensures
            r == fresh(opt_text(entry.revision), opt_text(self.current_revision)),
    {
        match (&entry.revision, &self.current_revision) {
            (None, None) => true,
            (Some(a), Some(b)) => str_eq(a.as_str(), b.as_str()),
            _ => false,
        }
    }
}

// ------------------------------------------------------------------ unknown members

/// The top-level members the format defines.
pub open spec fn known_manifest_keys() -> Seq<Seq<char>> {
    seq!["azodoc"@, "document"@, "current_revision"@, "layers"@, "compatibility"@, "reports"@, "extra"@]
}

/// The members of `azodoc` the format defines.
pub open spec fn known_azodoc_keys() -> Seq<Seq<char>> {
    seq!["format_version"@, "container_profile"@, "generator"@]
}

/// The members of `document` the format defines.
pub open spec fn known_document_keys() -> Seq<Seq<char>> {
    seq!["id"@, "schema_version"@, "title"@, "language"@, "created_at"@, "modified_at"@]
}

/// The members of a generator the format defines.
pub open spec fn known_generator_keys() -> Seq<Seq<char>> {
    seq!["name"@, "version"@]
}

/// The members of an object.
pub open spec fn members(v: Json) -> Option<Seq<(String, Json)>> {
    match v {
        Json::Object(ms) => Some(ms@),
        _ => None,
    }
}

/// `prefix + name` for each member whose name is not in `known`, in order.
pub open spec fn unknown_keys(ms: Seq<(String, Json)>, known: Seq<Seq<char>>, prefix: Seq<char>) -> Seq<Seq<char>>
    decreases ms.len(),
{
    if ms.len() == 0 {
        Seq::empty()
    } else {
        unknown_keys(ms.drop_last(), known, prefix) + if known.contains(ms.last().0@) {
            Seq::empty()
        } else {
            seq![prefix + ms.last().0@]
        }
    }
}

/// The unknown members of the object member `key`, each as `key.name`.
pub open spec fn unknown_in(m: Json, key: Seq<char>, known: Seq<Seq<char>>) -> Seq<Seq<char>> {
    match get(m, key) {
        Some(v) => match members(v) {
            Some(ms) => unknown_keys(ms, known, key + "."@),
            None => Seq::empty(),
        },
        None => Seq::empty(),
    }
}

/// The members of the defined layers `names` other than `path` and
/// `sha256`, each as `layers.name.member`.
pub open spec fn layer_extras(layers: Json, names: Seq<Seq<char>>) -> Seq<Seq<char>>
    decreases names.len(),
{
    if names.len() == 0 {
        Seq::empty()
    } else {
        let key = names.last();
        layer_extras(layers, names.drop_last()) + match get(layers, key) {
            Some(l) => match members(l) {
                Some(ms) => unknown_keys(ms, seq!["path"@, "sha256"@], "layers."@ + key + "."@),
                None => Seq::empty(),
            },
            None => Seq::empty(),
        }
    }
}

/// The paths of the members of a manifest that the format does not define:
/// unknown top-level members, unknown members of `azodoc` and `document`,
/// unknown layers, and extra members of the defined layers.
pub open spec fn unknown_paths(m: Json) -> Seq<Seq<char>> {
    match members(m) {
        None => Seq::empty(),
        Some(top) => unknown_keys(top, known_manifest_keys(), Seq::empty())
            + unknown_in(m, "azodoc"@, known_azodoc_keys())
            + unknown_in(m, "document"@, known_document_keys())
            + match get(m, "layers"@) {
                Some(l) => match members(l) {
                    Some(ms) => unknown_keys(ms, known_layers(), "layers."@) + layer_extras(l, known_layers()),
                    None => Seq::empty(),
                },
                None => Seq::empty(),
            },
    }
}

/// Strings as plain values.
pub open spec fn strings(v: Seq<String>) -> Seq<Seq<char>> {
    v.map_values(|s: String| s@)
}

fn is_one_of(list: &[&str], s: &str) -> (r: bool)
    ensures
        r == names_view(list@).contains(s@),
{
    let mut i: usize = 0;
    while i < list.len()
        invariant
            i <= list.len(),
            forall|j: int| 0 <= j < i ==> names_view(list@)[j] != s@,
        decreases list.len() - i,
    {
        if str_eq(list[i], s) {
            assert(names_view(list@)[i as int] == s@);
            return true;
        }
        i = i + 1;
    }
    false
}

fn push_unknown_keys(ms: &Vec<(String, Json)>, known: &[&str], prefix: &str, out: &mut Vec<String>)
    ensures
        strings(final(out)@) == strings(old(out)@) + unknown_keys(ms@, names_view(known@), prefix@),
{
    let ghost start = strings(out@);
    let mut i: usize = 0;
    assert(strings(out@) =~= start + unknown_keys(ms@.take(0), names_view(known@), prefix@));
    while i < ms.len()
        invariant
            i <= ms.len(),
            strings(out@) == start + unknown_keys(ms@.take(i as int), names_view(known@), prefix@),
        decreases ms.len() - i,
    {
        let k = ms[i].0.as_str();
        let ghost prev = strings(out@);
        if !is_one_of(known, k) {
            let mut v: Vec<char> = Vec::new();
            push_str(&mut v, prefix);
            push_str(&mut v, k);
            let name = string_of(v.as_slice());
            out.push(name);
            assert(strings(out@) =~= prev.push(prefix@ + k@));
        }
        proof {
            let t = ms@.take(i + 1);
            assert(t.drop_last() =~= ms@.take(i as int));
        }
        i = i + 1;
        assert(strings(out@) =~= start + unknown_keys(ms@.take(i as int), names_view(known@), prefix@));
    }
    assert(ms@.take(ms.len() as int) =~= ms@);
}

fn object_members(v: Option<&Json>) -> (r: Option<&Vec<(String, Json)>>)
    ensures
        match r {
            Some(ms) => v is Some && members(*v.unwrap()) == Some(ms@),
            None => v is None || members(*v.unwrap()) is None,
        },
{
    match v {
        Some(Json::Object(ms)) => Some(ms),
        _ => None,
    }
}

fn push_unknown_in(m: &Json, key: &str, known: &[&str], out: &mut Vec<String>)
    ensures
        strings(final(out)@) == strings(old(out)@) + unknown_in(*m, key@, names_view(known@)),
{
    let ghost start = strings(out@);
    match object_members(m.get(key)) {
        Some(ms) => {
            let mut v: Vec<char> = Vec::new();
            push_str(&mut v, key);
            push_str(&mut v, ".");
            let prefix = string_of(v.as_slice());
            push_unknown_keys(ms, known, prefix.as_str(), out);
        },
        None => {
            assert(strings(out@) =~= start + unknown_in(*m, key@, names_view(known@)));
        },
    }
}

/// Paths of the manifest members that the format does not define, in
/// document order, group by group.
pub fn unknown_manifest_key_paths(m: &Json) -> (r: Vec<String>)
    ensures
        strings(r@) == unknown_paths(*m),
{
    let mut out: Vec<String> = Vec::new();
    let top = match m {
        Json::Object(ms) => ms,
        _ => {
            assert(strings(out@) =~= unknown_paths(*m));
            return out;
        },
    };
    assert(strings(out@) =~= Seq::<Seq<char>>::empty());
    let top_keys: Vec<&str> = vec!["azodoc", "document", "current_revision", "layers", "compatibility", "reports", "extra"];
    assert(names_view(top_keys@) =~= known_manifest_keys());
    proof {
        reveal_strlit("");
        assert(""@ =~= Seq::<char>::empty());
    }
    push_unknown_keys(top, top_keys.as_slice(), "", &mut out);
    assert(strings(out@) =~= unknown_keys(top@, known_manifest_keys(), Seq::empty()));
    let az_keys: Vec<&str> = vec!["format_version", "container_profile", "generator"];
    assert(names_view(az_keys@) =~= known_azodoc_keys());
    push_unknown_in(m, "azodoc", az_keys.as_slice(), &mut out);
    let doc_keys: Vec<&str> = vec!["id", "schema_version", "title", "language", "created_at", "modified_at"];
    assert(names_view(doc_keys@) =~= known_document_keys());
    push_unknown_in(m, "document", doc_keys.as_slice(), &mut out);
    let ghost before_layers = strings(out@);
    assert(before_layers =~= unknown_keys(top@, known_manifest_keys(), Seq::empty())
        + unknown_in(*m, "azodoc"@, known_azodoc_keys()) + unknown_in(*m, "document"@, known_document_keys()));
    if let Some(layers) = object_members(m.get("layers")) {
        let names = known_layer_names();
        push_unknown_keys(layers, names.as_slice(), "layers.", &mut out);
        let lj = m.get("layers").unwrap();
        let ghost mid = strings(out@);
        let fields: Vec<&str> = vec!["path", "sha256"];
        assert(names_view(fields@) =~= seq!["path"@, "sha256"@]);
        let mut i: usize = 0;
        assert(strings(out@) =~= mid + layer_extras(*lj, known_layers().take(0)));
        while i < names.len()
            invariant
                i <= names.len(),
                names_view(names@) == known_layers(),
                names_view(fields@) == seq!["path"@, "sha256"@],
                strings(out@) == mid + layer_extras(*lj, known_layers().take(i as int)),
            decreases names.len() - i,
        {
            let key = names[i];
            assert(known_layers()[i as int] == key@);
            assert(known_layers().take(i + 1).drop_last() =~= known_layers().take(i as int));
            match object_members(lj.get(key)) {
                Some(ms) => {
                    let mut v: Vec<char> = Vec::new();
                    push_str(&mut v, "layers.");
                    push_str(&mut v, key);
                    push_str(&mut v, ".");
                    let prefix = string_of(v.as_slice());
                    push_unknown_keys(ms, fields.as_slice(), prefix.as_str(), &mut out);
                },
                None => {},
            }
            i = i + 1;
            assert(strings(out@) =~= mid + layer_extras(*lj, known_layers().take(i as int)));
        }
        assert(known_layers().take(6) =~= known_layers());
        assert(strings(out@) =~= before_layers + (unknown_keys(layers@, known_layers(), "layers."@) + layer_extras(*lj, known_layers())));
    }
    assert(strings(out@) =~= unknown_paths(*m));
    out
}

} // verus!
