use azodoc::json::Json;
use azodoc::manifest::{
    unknown_manifest_key_paths, AzodocMeta, CompatEntry, DocumentMeta, ExtraMap, LayersMap, Manifest,
};

fn s(v: &str) -> Json {
    Json::Str(v.to_string())
}

fn obj(members: Vec<(&str, Json)>) -> Json {
    Json::Object(members.into_iter().map(|(k, v)| (k.to_string(), v)).collect())
}

fn manifest_with_revision(rev: Option<String>) -> Manifest {
    Manifest {
        azodoc: AzodocMeta {
            format_version: "1.0".into(),
            container_profile: None,
            generator: None,
            extra: ExtraMap::default(),
        },
        document: DocumentMeta {
            id: "doc_01JAVG2Z7Q4M8XK3N5P9R2T6W8".into(),
            schema_version: "1.0".into(),
            title: None,
            language: None,
            created_at: None,
            modified_at: None,
            extra: ExtraMap::default(),
        },
        current_revision: rev,
        layers: LayersMap(vec![(
            "content".to_string(),
            obj(vec![("path", s("document/content.json")), ("sha256", s(&"00".repeat(32)))]),
        )]),
        compatibility: Vec::new(),
        reports: Vec::new(),
        extra: ExtraMap::default(),
    }
}

#[test]
fn compat_freshness_by_revision_binding() {
    let entry = |revision: Option<&str>| CompatEntry {
        format: "text".into(),
        path: "compatibility/text/document.txt".into(),
        revision: revision.map(str::to_string),
        generated_at: None,
        generator: None,
        status: None,
        extra: Default::default(),
    };
    let mut m = manifest_with_revision(Some("rev_01JAVG3A9B2C4D6E8F0H1J3K5M7".into()));
    assert!(m.compat_is_fresh(&entry(Some("rev_01JAVG3A9B2C4D6E8F0H1J3K5M7"))));
    assert!(!m.compat_is_fresh(&entry(Some("rev_01JAVG3QK2M4N6P8R0T2V4X6Z8"))));
    // A document without revisions: a cache without one is fresh.
    m.current_revision = None;
    assert!(m.compat_is_fresh(&entry(None)));
    // A cache without a revision, for a document with one, is stale.
    m.current_revision = Some("rev_01JAVG3A9B2C4D6E8F0H1J3K5M7".into());
    assert!(!m.compat_is_fresh(&entry(None)));
    assert_eq!(m.current_revision(), Some("rev_01JAVG3A9B2C4D6E8F0H1J3K5M7"));
}

#[test]
fn claimed_status_does_not_decide_freshness() {
    let m = manifest_with_revision(Some("rev_01JAVG3A9B2C4D6E8F0H1J3K5M7".into()));
    let stale = CompatEntry {
        format: "text".into(),
        path: "compatibility/text/document.txt".into(),
        revision: Some("rev_01JAVG3QK2M4N6P8R0T2V4X6Z8".into()),
        generated_at: None,
        generator: None,
        status: Some("fresh".into()),
        extra: Default::default(),
    };
    assert!(!m.compat_is_fresh(&stale));
}

#[test]
fn unknown_manifest_members_are_listed() {
    let m = obj(vec![
        ("azodoc", obj(vec![("format_version", s("1.0")), ("vendor_note", obj(vec![]))])),
        ("document", obj(vec![("id", s("doc_x")), ("future_flag", Json::Bool(true))])),
        ("current_revision", Json::Null),
        (
            "layers",
            obj(vec![
                ("content", obj(vec![("path", s("document/content.json")), ("sha256", s("00")), ("size", s("1"))])),
                ("ai_state", obj(vec![("path", s("ai/state.json"))])),
            ]),
        ),
        ("provenance", obj(vec![])),
        ("extra", obj(vec![])),
    ]);
    assert_eq!(
        unknown_manifest_key_paths(&m),
        vec![
            "provenance".to_string(),
            "azodoc.vendor_note".to_string(),
            "document.future_flag".to_string(),
            "layers.ai_state".to_string(),
            "layers.content.size".to_string(),
        ]
    );
    assert!(unknown_manifest_key_paths(&s("not an object")).is_empty());
}
