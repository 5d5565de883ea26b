use redis_queries::error::QueryError;
use redis_queries::json::{json_from_value, value_from_json, Json};
use redis_queries::keys::DatabaseQueries;
use redis_queries::payload::SerializationEncoding;
use redis_queries::timestamps::{
    convert_timestamp_strings, convert_timestamps, integer_of_instant, is_timestamp_field,
    timestamps_in_range,
};

const NANOS: u64 = 1_700_000_000_000_000_000;
const TEXT: &str = "2023-11-14T22:13:20.000000000Z";

fn number(n: u64) -> Json {
    Json::Number(serde_json::Number::from(n))
}

fn text(t: &str) -> Json {
    Json::Text(t.to_string())
}

fn object(fields: Vec<(&str, Json)>) -> Json {
    Json::Object(fields.into_iter().map(|(k, v)| (k.to_string(), v)).collect())
}

fn parsed(json: &str) -> Json {
    json_from_value(serde_json::from_str(json).unwrap())
}

#[test]
fn recognises_timestamp_fields() {
    assert!(is_timestamp_field("ts_init"));
    assert!(is_timestamp_field("ts_"));
    assert!(is_timestamp_field("expire_time_ns"));
    assert!(!is_timestamp_field("expire_time_ns2"));
    assert!(!is_timestamp_field("price"));
    assert!(!is_timestamp_field("Ts_init"));
    assert!(!is_timestamp_field(""));
}

#[test]
fn integers_become_texts_at_any_depth() {
    let mut document = object(vec![
        ("ts_event", number(NANOS)),
        ("size", number(NANOS)),
        ("legs", Json::Array(vec![object(vec![("expire_time_ns", number(1))])])),
        ("ts_nested", object(vec![("ts_init", number(0))])),
    ]);
    convert_timestamps(&mut document);
    assert_eq!(
        document,
        object(vec![
            ("ts_event", text(TEXT)),
            ("size", number(NANOS)),
            ("legs", Json::Array(vec![object(vec![("expire_time_ns", text("1970-01-01T00:00:00.000000001Z"))])])),
            ("ts_nested", object(vec![("ts_init", text("1970-01-01T00:00:00.000000000Z"))])),
        ])
    );
}

#[test]
fn other_values_under_timestamp_names_stay() {
    let mut document = parsed(r#"{"ts_a":-1,"ts_b":1.5,"ts_c":null,"ts_d":true,"ts_e":"soon"}"#);
    convert_timestamps(&mut document);
    assert_eq!(document, parsed(r#"{"ts_a":-1,"ts_b":1.5,"ts_c":null,"ts_d":true,"ts_e":"soon"}"#));
    convert_timestamp_strings(&mut document);
    assert_eq!(document, parsed(r#"{"ts_a":-1,"ts_b":1.5,"ts_c":null,"ts_d":true,"ts_e":"soon"}"#));
}

#[test]
fn timestamps_of_an_array_of_integers_stay() {
    let mut document = object(vec![("ts_list", Json::Array(vec![number(1)]))]);
    convert_timestamps(&mut document);
    assert_eq!(document, object(vec![("ts_list", Json::Array(vec![number(1)]))]));
}

#[test]
fn large_integers_wrap_and_come_back() {
    let mut document = object(vec![("ts_init", number(u64::MAX))]);
    convert_timestamps(&mut document);
    assert_eq!(document, object(vec![("ts_init", text("1969-12-31T23:59:59.999999999Z"))]));
    convert_timestamp_strings(&mut document);
    assert_eq!(document, object(vec![("ts_init", number(u64::MAX))]));
}

#[test]
fn texts_with_an_offset_become_integers() {
    let mut document = object(vec![
        ("ts_init", text("2023-11-14T23:13:20+01:00")),
        ("note", text("2023-11-14T23:13:20+01:00")),
    ]);
    convert_timestamp_strings(&mut document);
    assert_eq!(
        document,
        object(vec![("ts_init", number(NANOS)), ("note", text("2023-11-14T23:13:20+01:00"))])
    );
}

#[test]
fn turning_again_changes_nothing() {
    let mut document = object(vec![("ts_init", number(NANOS))]);
    convert_timestamps(&mut document);
    convert_timestamps(&mut document);
    assert_eq!(document, object(vec![("ts_init", text(TEXT))]));
    convert_timestamp_strings(&mut document);
    convert_timestamp_strings(&mut document);
    assert_eq!(document, object(vec![("ts_init", number(NANOS))]));
}

#[test]
fn bits_of_a_negative_count_are_kept() {
    assert_eq!(integer_of_instant(Some(Some(-1))), Some(number(u64::MAX)));
    assert_eq!(integer_of_instant(Some(Some(5))), Some(number(5)));
    assert_eq!(integer_of_instant(Some(None)), None);
    assert_eq!(integer_of_instant(None), None);
}

#[test]
fn instants_out_of_range_are_found() {
    let late = object(vec![("ts_init", text("9999-01-01T00:00:00Z"))]);
    assert!(!timestamps_in_range(&late));
    assert!(!timestamps_in_range(&Json::Array(vec![Json::Null, late])));
    assert!(timestamps_in_range(&object(vec![("note", text("9999-01-01T00:00:00Z"))])));
    assert!(timestamps_in_range(&object(vec![("ts_init", text(TEXT))])));
    let replaced = object(vec![("ts_init", text("9999-01-01T00:00:00Z")), ("ts_init", text(TEXT))]);
    assert!(timestamps_in_range(&replaced));
}

#[test]
fn json_payload_has_exact_bytes() {
    let document = object(vec![("ts_init", number(NANOS)), ("a", number(1)), ("a", number(2))]);
    let bytes = DatabaseQueries::serialize_payload(SerializationEncoding::Json, document).unwrap();
    assert_eq!(bytes, br#"{"a":2,"ts_init":"2023-11-14T22:13:20.000000000Z"}"#);
}

#[test]
fn msgpack_payload_has_exact_bytes() {
    let document = object(vec![("a", Json::Array(vec![Json::Null, Json::Bool(true), number(300)]))]);
    let bytes = DatabaseQueries::serialize_payload(SerializationEncoding::MsgPack, document).unwrap();
    assert_eq!(bytes, vec![0x81, 0xa1, b'a', 0x93, 0xc0, 0xc3, 0xcd, 0x01, 0x2c]);
}

#[test]
fn payloads_read_back() {
    for encoding in [SerializationEncoding::Json, SerializationEncoding::MsgPack] {
        let make = || {
            parsed(
                r#"{"ts_init":1700000000000000000,"id":"x:\u00e9\"","neg":-9223372036854775808,
                    "big":18446744073709551615,"list":[1,[],{},null,true],"expire_time_ns":0}"#,
            )
        };
        let bytes = DatabaseQueries::serialize_payload(encoding, make()).unwrap();
        assert_eq!(DatabaseQueries::deserialize_payload(encoding, &bytes).unwrap(), make());
        assert_eq!(DatabaseQueries::try_deserialize_payload(encoding, &bytes).unwrap(), make());
    }
}

#[test]
fn msgpack_keeps_floats() {
    let bytes =
        DatabaseQueries::serialize_payload(SerializationEncoding::MsgPack, parsed("[0.1,-0.0]")).unwrap();
    let back = DatabaseQueries::try_deserialize_payload(SerializationEncoding::MsgPack, &bytes).unwrap();
    assert_eq!(back, parsed("[0.1,-0.0]"));
}

#[test]
fn json_reads_back_to_its_greatest_depth() {
    let nest = |depth: usize| {
        let mut document = Json::Null;
        for _ in 0..depth {
            document = Json::Array(vec![document]);
        }
        document
    };
    let encoding = SerializationEncoding::Json;
    let bytes = DatabaseQueries::serialize_payload(encoding, nest(127)).unwrap();
    assert_eq!(DatabaseQueries::try_deserialize_payload(encoding, &bytes).unwrap(), nest(127));
    let bytes = DatabaseQueries::serialize_payload(encoding, nest(128)).unwrap();
    assert!(DatabaseQueries::try_deserialize_payload(encoding, &bytes).is_err());
}

#[test]
fn msgpack_reads_back_to_its_greatest_depth() {
    let nest = |depth: usize| {
        let mut document = Json::Null;
        for _ in 0..depth {
            document = Json::Array(vec![document]);
        }
        document
    };
    let encoding = SerializationEncoding::MsgPack;
    let bytes = DatabaseQueries::serialize_payload(encoding, nest(1023)).unwrap();
    assert_eq!(DatabaseQueries::try_deserialize_payload(encoding, &bytes).unwrap(), nest(1023));
    let bytes = DatabaseQueries::serialize_payload(encoding, nest(1024)).unwrap();
    assert!(DatabaseQueries::try_deserialize_payload(encoding, &bytes).is_err());
}

#[test]
fn broken_payloads_are_refused() {
    match DatabaseQueries::try_deserialize_payload(SerializationEncoding::Json, b"{") {
        Err(QueryError::DeserializeJson(reason)) => {
            assert_eq!(reason, "EOF while parsing an object at line 1 column 1")
        }
        other => panic!("{other:?}"),
    }
    match DatabaseQueries::try_deserialize_payload(SerializationEncoding::MsgPack, &[]) {
        Err(error @ QueryError::DeserializeMsgPack(_)) => {
            assert!(error.message().starts_with("Failed to deserialize msgpack `payload`: "))
        }
        other => panic!("{other:?}"),
    }
    let error = DatabaseQueries::deserialize_payload(SerializationEncoding::Json, b"]").unwrap_err();
    assert!(error.message().starts_with("Failed to deserialize json `payload`: "));
}

#[test]
fn payload_with_an_instant_out_of_range_is_refused() {
    let payload = br#"{"ts_init":"9999-01-01T00:00:00Z"}"#;
    assert_eq!(
        DatabaseQueries::try_deserialize_payload(SerializationEncoding::Json, payload).unwrap_err(),
        QueryError::InvalidDateTime
    );
}

#[test]
fn documents_convert_both_ways() {
    let value: serde_json::Value =
        serde_json::from_str(r#"{"b":[1,"x",null,false,-2,0.5],"a":{"c":{}}}"#).unwrap();
    assert_eq!(value_from_json(json_from_value(value.clone())), value);
    let doubled = object(vec![("k", number(1)), ("k", number(2))]);
    assert_eq!(value_from_json(doubled).to_string(), r#"{"k":2}"#);
}
