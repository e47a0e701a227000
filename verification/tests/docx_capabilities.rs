use azodoc::docx::capabilities::{capability_matrix, MATRIX_VERSION};
use azodoc::json::{Json, JsonNumber};

fn s(v: &str) -> Json {
    Json::Str(v.to_string())
}

fn arr(items: Vec<Json>) -> Json {
    Json::Array(items)
}

fn obj(members: Vec<(&str, Json)>) -> Json {
    Json::Object(members.into_iter().map(|(k, v)| (k.to_string(), v)).collect())
}

fn show(j: &Json) -> String {
    match j {
        Json::Null => "null".to_string(),
        Json::Bool(b) => b.to_string(),
        Json::Number(JsonNumber::PosInt(u)) => u.to_string(),
        Json::Number(JsonNumber::NegInt(i)) => i.to_string(),
        Json::Number(JsonNumber::Float(bits)) => format!("{:?}", f64::from_bits(*bits)),
        Json::Str(t) => format!("\"{}\"", t),
        Json::Array(a) => format!("[{}]", a.iter().map(show).collect::<Vec<_>>().join(",")),
        Json::Object(ms) => format!(
            "{{{}}}",
            ms.iter().map(|(k, v)| format!("\"{}\":{}", k, show(v))).collect::<Vec<_>>().join(",")
        ),
    }
}

fn member<'a>(j: &'a Json, key: &str) -> &'a Json {
    match j {
        Json::Object(ms) => &ms.iter().find(|(k, _)| k == key).unwrap().1,
        _ => panic!("not an object"),
    }
}

fn count(j: &Json) -> u64 {
    match j {
        Json::Number(JsonNumber::PosInt(u)) => *u,
        _ => panic!("not a count"),
    }
}

fn sample() -> Json {
    obj(vec![
        ("schema_version", s("1.0")),
        (
            "content",
            arr(vec![
                obj(vec![
                    ("type", s("paragraph")),
                    (
                        "content",
                        arr(vec![
                            obj(vec![("type", s("text")), ("text", s("hi"))]),
                            obj(vec![("type", s("mention")), ("target", s("@x"))]),
                            obj(vec![("type", s("footnote_ref")), ("id", s("blk_f1"))]),
                        ]),
                    ),
                ]),
                obj(vec![
                    ("type", s("callout")),
                    ("variant", s("warning")),
                    (
                        "children",
                        arr(vec![obj(vec![
                            ("type", s("paragraph")),
                            ("content", arr(vec![obj(vec![("type", s("text")), ("text", s("!"))])])),
                        ])]),
                    ),
                ]),
                obj(vec![("type", s("unknown")), ("payload_ref", s("preserved/ooxml/part-0001.bin"))]),
                obj(vec![("type", s("page_break"))]),
            ]),
        ),
    ])
}

#[test]
fn matrix_classifies_supported_degraded_preserved() {
    let content = sample();
    let m = capability_matrix(&content);
    assert_eq!(show(member(&m, "matrix_version")), "\"1.0\"");
    assert_eq!(show(member(&m, "target")), "\"docx\"");
    let counts = member(&m, "counts");
    assert_eq!(count(member(counts, "supported")), 6);
    assert_eq!(count(member(counts, "degraded")), 2);
    assert_eq!(count(member(counts, "preserved")), 1);
    let features = match member(&m, "features") {
        Json::Array(a) => a,
        _ => panic!("features is an array"),
    };
    let callout = features.iter().find(|f| show(member(f, "type")) == "\"callout\"").unwrap();
    assert_eq!(show(member(callout, "status")), "\"degraded\"");
    assert_eq!(count(member(callout, "count")), 1);
    assert_eq!(show(&m), show(&capability_matrix(&content)));
}

#[test]
fn matrix_rows_are_in_type_order() {
    let m = capability_matrix(&sample());
    assert_eq!(MATRIX_VERSION, "1.0");
    assert_eq!(
        show(&m),
        "{\"matrix_version\":\"1.0\",\"target\":\"docx\",\"counts\":{\"degraded\":2,\"preserved\":1,\"supported\":6,\"unsupported\":0},\"features\":[{\"type\":\"callout\",\"status\":\"degraded\",\"count\":1},{\"type\":\"footnote_ref\",\"status\":\"supported\",\"count\":1},{\"type\":\"mention\",\"status\":\"degraded\",\"count\":1},{\"type\":\"page_break\",\"status\":\"supported\",\"count\":1},{\"type\":\"paragraph\",\"status\":\"supported\",\"count\":2},{\"type\":\"text\",\"status\":\"supported\",\"count\":2},{\"type\":\"unknown\",\"status\":\"preserved\",\"count\":1}]}"
    );
}

#[test]
fn matrix_last_status_of_a_type_wins() {
    let content = obj(vec![(
        "content",
        arr(vec![
            obj(vec![("type", s("weird")), ("content", arr(vec![]))]),
            obj(vec![("type", s("weird"))]),
            obj(vec![("type", s("doc"))]),
            obj(vec![("type", s(""))]),
        ]),
    )]);
    let m = capability_matrix(&content);
    assert_eq!(
        show(&m),
        "{\"matrix_version\":\"1.0\",\"target\":\"docx\",\"counts\":{\"degraded\":1,\"preserved\":1,\"supported\":0,\"unsupported\":0},\"features\":[{\"type\":\"weird\",\"status\":\"preserved\",\"count\":2}]}"
    );
}

#[test]
fn matrix_type_counts_add_up_to_status_counts() {
    let m = capability_matrix(&sample());
    let counts = member(&m, "counts");
    let total = count(member(counts, "supported")) + count(member(counts, "degraded")) + count(member(counts, "preserved"));
    let per_type: u64 = match member(&m, "features") {
        Json::Array(a) => a.iter().map(|f| count(member(f, "count"))).sum(),
        _ => panic!("features is an array"),
    };
    assert_eq!(total, per_type);
    assert_eq!(total, 9);
}
