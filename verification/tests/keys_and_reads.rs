use redis_queries::error::QueryError;
use redis_queries::keys::{join, pattern_of, relative_key_of, DatabaseQueries};
use redis_queries::read::{ReadMethod, ReadPlan};
use redis_queries::text::{same_text, starts_with, strip_prefix};

fn texts(list: &[&str]) -> Vec<String> {
    list.iter().map(|t| t.to_string()).collect()
}

#[test]
fn identifier_keeps_its_delimiters() {
    assert_eq!(
        DatabaseQueries::record_id_from_scanned_key("trader-1:positions:P-1:2", "trader-1", "positions"),
        Some("P-1:2")
    );
    assert_eq!(
        DatabaseQueries::record_id_from_scanned_key("t:accounts:\u{e9}:\u{1f600}", "t", "accounts"),
        Some("\u{e9}:\u{1f600}")
    );
}

#[test]
fn identifier_may_be_empty() {
    assert_eq!(DatabaseQueries::record_id_from_scanned_key("t:orders:", "t", "orders"), Some(""));
}

#[test]
fn key_of_another_collection_has_no_identifier() {
    assert_eq!(DatabaseQueries::record_id_from_scanned_key("t:orders_old:1", "t", "orders"), None);
    assert_eq!(DatabaseQueries::record_id_from_scanned_key("u:orders:1", "t", "orders"), None);
    assert_eq!(DatabaseQueries::record_id_from_scanned_key("t:orders", "t", "orders"), None);
}

#[test]
fn collection_stands_before_first_delimiter() {
    assert_eq!(DatabaseQueries::get_collection_key("orders:O-1:x").unwrap(), "orders");
    assert_eq!(DatabaseQueries::get_collection_key(":x").unwrap(), "");
}

#[test]
fn key_without_delimiter_is_refused() {
    let error = DatabaseQueries::get_collection_key("orders").unwrap_err();
    assert_eq!(error, QueryError::MissingDelimiter("orders".to_string()));
    assert_eq!(error.message(), "Invalid `key`, missing a ':' delimiter, was orders");
}

#[test]
fn keys_are_joined_and_parted() {
    assert_eq!(join("trader", "general:x"), "trader:general:x");
    assert_eq!(pattern_of("trader", "orders"), "trader:orders*");
    assert_eq!(relative_key_of("trader:general:x", "trader"), "general:x");
    assert_eq!(relative_key_of("other:general:x", "trader"), "other:general:x");
}

#[test]
fn texts_are_compared_by_character() {
    assert!(same_text("abc", "abc"));
    assert!(!same_text("abc", "abd"));
    assert!(starts_with("ts_init", "ts_"));
    assert!(!starts_with("ts", "ts_"));
    assert_eq!(strip_prefix("\u{e9}a", "\u{e9}"), Some("a"));
    assert_eq!(strip_prefix("a", "b"), None);
}

#[test]
fn collections_are_read_by_their_method() {
    for name in ["general", "currencies", "instruments", "synthetics", "actors", "strategies"] {
        let plan = DatabaseQueries::read("t", &format!("{name}:id")).unwrap();
        assert_eq!(plan, ReadPlan { method: ReadMethod::Value, key: format!("t:{name}:id") });
    }
    for name in ["accounts", "orders", "positions"] {
        let plan = DatabaseQueries::read("t", &format!("{name}:id")).unwrap();
        assert_eq!(plan, ReadPlan { method: ReadMethod::Elements, key: format!("t:{name}:id") });
    }
}

#[test]
fn indexes_are_read_by_their_method() {
    for name in [
        "index:order_ids",
        "index:orders",
        "index:orders_open",
        "index:orders_closed",
        "index:orders_emulated",
        "index:orders_inflight",
        "index:positions",
        "index:positions_open",
        "index:positions_closed",
    ] {
        let plan = DatabaseQueries::read("t", name).unwrap();
        assert_eq!(plan, ReadPlan { method: ReadMethod::Members, key: format!("t:{name}") });
    }
    for name in ["index:order_position", "index:order_client"] {
        let plan = DatabaseQueries::read("t", name).unwrap();
        assert_eq!(plan, ReadPlan { method: ReadMethod::Fields, key: format!("t:{name}") });
    }
}

#[test]
fn unknown_index_is_refused() {
    let error = DatabaseQueries::read("t", "index:nothing").unwrap_err();
    assert_eq!(error, QueryError::UnknownIndex("index:nothing".to_string()));
    assert_eq!(error.message(), "Index unknown 'index:nothing' on read");
    assert!(DatabaseQueries::read_index("orders").is_err());
}

#[test]
fn unreadable_collection_is_refused() {
    let error = DatabaseQueries::read("t", "custom:1:2").unwrap_err();
    assert_eq!(error, QueryError::UnsupportedCollection("custom".to_string()));
    assert_eq!(error.message(), "Unsupported operation: `read` for collection 'custom'");
    assert_eq!(
        DatabaseQueries::read("t", "custom").unwrap_err(),
        QueryError::MissingDelimiter("custom".to_string())
    );
}

#[test]
fn empty_value_is_no_payload() {
    assert!(DatabaseQueries::read_string(vec![]).is_empty());
    let payloads = DatabaseQueries::read_string(vec![1, 2]);
    assert_eq!(payloads.len(), 1);
    assert_eq!(payloads[0].as_ref(), &[1u8, 2]);
}

#[test]
fn hash_is_one_json_object() {
    let pairs = vec![
        ("O-2".to_string(), "P-\"2\"".to_string()),
        ("O-1".to_string(), "P-1".to_string()),
    ];
    let payloads = DatabaseQueries::read_hset(pairs).unwrap();
    assert_eq!(payloads.len(), 1);
    assert_eq!(payloads[0].as_ref(), br#"{"O-1":"P-1","O-2":"P-\"2\""}"#);
    assert_eq!(DatabaseQueries::read_hset(vec![]).unwrap()[0].as_ref(), b"{}");
}

#[test]
fn bulk_read_asks_for_all_keys_at_once() {
    assert_eq!(DatabaseQueries::read_bulk(&vec![]), None);
    assert_eq!(DatabaseQueries::read_bulk(&texts(&["a", "b"])), Some(texts(&["a", "b"])));
    let payloads = DatabaseQueries::read_bulk_reply(vec![Some(vec![7]), None]);
    assert_eq!(payloads.len(), 2);
    assert_eq!(payloads[0].as_ref().unwrap().as_ref(), &[7u8]);
    assert!(payloads[1].is_none());
}

#[test]
fn batches_hold_all_keys_in_order() {
    let keys = texts(&["a", "b", "c", "d", "e"]);
    assert_eq!(
        DatabaseQueries::read_bulk_batched(&keys, 2).unwrap(),
        vec![texts(&["a", "b"]), texts(&["c", "d"]), texts(&["e"])]
    );
    assert_eq!(DatabaseQueries::read_bulk_batched(&keys, 5).unwrap(), vec![keys.clone()]);
    assert_eq!(DatabaseQueries::read_bulk_batched(&keys, usize::MAX).unwrap(), vec![keys.clone()]);
    assert!(DatabaseQueries::read_bulk_batched(&vec![], 3).unwrap().is_empty());
}

#[test]
fn batches_of_none_are_refused() {
    let error = DatabaseQueries::read_bulk_batched(&vec![], 0).unwrap_err();
    assert_eq!(error, QueryError::ZeroBatchSize);
    assert_eq!(error.message(), "`batch_size` must be greater than zero");
}

#[test]
fn replies_to_batches_are_one_list() {
    let payloads = DatabaseQueries::read_bulk_batched_reply(vec![
        vec![Some(vec![1]), None],
        vec![],
        vec![Some(vec![2])],
    ]);
    let bytes: Vec<Option<Vec<u8>>> = payloads.iter().map(|p| p.as_ref().map(|b| b.to_vec())).collect();
    assert_eq!(bytes, vec![Some(vec![1]), None, Some(vec![2])]);
}

#[test]
fn scan_goes_on_until_the_cursor_is_zero() {
    let mut scan = DatabaseQueries::scan_keys("t:orders*".to_string());
    let request = scan.request().unwrap();
    assert_eq!(request.cursor, 0);
    assert_eq!(request.pattern, "t:orders*");
    assert_eq!(request.count, 5000);
    scan.receive(17, texts(&["a"]));
    assert_eq!(scan.request().unwrap().cursor, 17);
    scan.receive(3, vec![]);
    assert_eq!(scan.request().unwrap().cursor, 3);
    scan.receive(0, texts(&["b", "a"]));
    assert!(scan.request().is_none());
    assert_eq!(scan.into_keys(), texts(&["a", "b", "a"]));
}

#[test]
fn other_errors_have_their_sentences() {
    let reason = || "why".to_string();
    assert_eq!(
        QueryError::SerializeMsgPack(reason()).message(),
        "Failed to serialize msgpack `payload`: why"
    );
    assert_eq!(QueryError::SerializeJson(reason()).message(), "Failed to serialize json `payload`: why");
    assert_eq!(
        QueryError::InvalidValue(reason()).message(),
        "Failed to convert value to target type: why"
    );
    assert_eq!(QueryError::InvalidRecord(reason()).message(), "why");
    assert_eq!(QueryError::Store(reason()).message(), "why");
    assert_eq!(QueryError::InvalidDateTime.message(), "Invalid DateTime");
    assert_eq!(
        QueryError::LoadCache(Box::new(QueryError::Store(reason()))).message(),
        "Error loading cache data: why"
    );
}
