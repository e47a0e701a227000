use azodoc::id::{is_valid_id, is_valid_ulid, split_id, AzodocId, IdError, IdKind};

#[test]
fn parses_valid_ids() {
    let id = AzodocId::parse("doc_01JAVG2Z7Q4M8XK3N5P9R2T6W8").unwrap();
    assert_eq!(id.kind(), IdKind::Doc);
    assert!(is_valid_id("blk_01JAVG3QK2M4N6P8R0T2V4X6Z8"));
    assert!(is_valid_id("li_ABCDEFGHJKMNPQRSTVWXYZ2345"));
}

#[test]
fn rejects_bad_ids() {
    assert!(matches!(
        split_id("doc_01JAVG2Z7Q4M8XK3N5P9R2T6WI"),
        Err(IdError::BadUlid(_))
    ));
    assert!(matches!(split_id("doc_SHORT"), Err(IdError::BadUlid(_))));
    assert!(matches!(
        split_id("xyz_01JAVG2Z7Q4M8XK3N5P9R2T6W8"),
        Err(IdError::UnknownPrefix(_))
    ));
    assert!(matches!(
        split_id("nounderscore"),
        Err(IdError::MissingPrefix(_))
    ));
    assert!(matches!(
        split_id("doc_01javg2z7q4m8xk3n5p9r2t6w8"),
        Err(IdError::BadUlid(_))
    ));
}

#[test]
fn generates_valid_ids() {
    for kind in [IdKind::Doc, IdKind::Blk, IdKind::As, IdKind::Rev, IdKind::Iss] {
        let id = AzodocId::generate(kind);
        assert_eq!(id.kind(), kind);
        assert!(is_valid_id(id.as_str()), "generated id is invalid: {}", id.as_str());
    }
}

#[test]
fn prefixes_round_trip_through_kinds() {
    let kinds = [
        IdKind::Doc, IdKind::Sec, IdKind::Blk, IdKind::Li, IdKind::Cel, IdKind::Col,
        IdKind::Row, IdKind::As, IdKind::Ann, IdKind::Rev, IdKind::Pub, IdKind::Iss,
    ];
    for k in kinds {
        assert_eq!(IdKind::from_prefix(k.prefix()), Some(k));
    }
    assert_eq!(IdKind::Li.prefix(), "li");
    assert_eq!(IdKind::As.prefix(), "as");
    assert_eq!(IdKind::from_prefix("blk"), Some(IdKind::Blk));
    assert_eq!(IdKind::from_prefix("BLK"), None);
    assert_eq!(IdKind::from_prefix(""), None);
}

#[test]
fn split_id_returns_kind_and_ulid() {
    let (k, u) = split_id("sec_01JAVG2Z7Q4M8XK3N5P9R2T6W8").unwrap();
    assert_eq!(k, IdKind::Sec);
    assert_eq!(u, "01JAVG2Z7Q4M8XK3N5P9R2T6W8");
    let id = AzodocId::parse("ann_01JAVG2Z7Q4M8XK3N5P9R2T6W8").unwrap();
    assert_eq!(id.as_str(), "ann_01JAVG2Z7Q4M8XK3N5P9R2T6W8");
    assert_eq!(id.kind(), IdKind::Ann);
}

#[test]
fn ulid_alphabet_is_crockford_upper_case() {
    assert!(is_valid_ulid("01JAVG2Z7Q4M8XK3N5P9R2T6W8"));
    assert!(!is_valid_ulid("01JAVG2Z7Q4M8XK3N5P9R2T6W"));
    assert!(!is_valid_ulid("01JAVG2Z7Q4M8XK3N5P9R2T6WU"));
    assert!(!is_valid_ulid("01JAVG2Z7Q4M8XK3N5P9R2T6WL"));
    assert!(!is_valid_ulid("01JAVG2Z7Q4M8XK3N5P9R2T6WO"));
    assert!(!is_valid_ulid(""));
}

#[test]
fn id_error_messages_name_the_input() {
    assert_eq!(
        IdError::MissingPrefix("x".to_string()).message(),
        "缺少下划线分隔的前缀: `x`"
    );
    assert_eq!(IdError::UnknownPrefix("q".to_string()).message(), "未知 ID 前缀: `q`");
    match split_id("doc_SHORT") {
        Err(e) => assert!(e.message().contains("SHORT")),
        Ok(_) => panic!("expected an error"),
    }
}

#[test]
fn only_the_first_underscore_separates_the_prefix() {
    assert!(matches!(split_id("doc__01JAVG2Z7Q4M8XK3N5P9R2T6W8"), Err(IdError::BadUlid(_))));
    assert!(matches!(split_id("_01JAVG2Z7Q4M8XK3N5P9R2T6W8"), Err(IdError::UnknownPrefix(_))));
}
