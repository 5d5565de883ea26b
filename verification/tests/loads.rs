use ahash::AHashMap;
use bytes::Bytes;
use redis_queries::bulk::BulkRow;
use redis_queries::custom::{short_name_of, CustomRow, DataType};
use redis_queries::error::QueryError;
use redis_queries::index::ParsedId;
use redis_queries::json::{json_from_value, Json};
use redis_queries::keys::DatabaseQueries;
use redis_queries::load::{Row, RowStep, REDIS_KEY_LOAD_CONCURRENCY};
use redis_queries::payload::SerializationEncoding;
use redis_queries::read::{ReadMethod, ReadPlan};
use redis_queries::record::EventDocuments;
use redis_queries::sort::sort_by_date;
use ustr::Ustr;

const JSON: SerializationEncoding = SerializationEncoding::Json;

fn payloads(list: &[&str]) -> Vec<Bytes> {
    list.iter().map(|t| Bytes::from(t.as_bytes().to_vec())).collect()
}

fn parsed(json: &str) -> Json {
    json_from_value(serde_json::from_str(json).unwrap())
}

fn text(t: &str) -> String {
    t.to_string()
}

fn plan(method: ReadMethod, key: &str) -> ReadPlan {
    ReadPlan { method, key: text(key) }
}

#[test]
fn single_records_stand_under_their_keys() {
    assert_eq!(
        DatabaseQueries::load_currency("t", "USD").unwrap(),
        plan(ReadMethod::Value, "t:currencies:USD")
    );
    assert_eq!(
        DatabaseQueries::load_instrument("t", "A.B:C").unwrap(),
        plan(ReadMethod::Value, "t:instruments:A.B:C")
    );
    assert_eq!(
        DatabaseQueries::load_synthetic("t", "S.SYNTH").unwrap(),
        plan(ReadMethod::Value, "t:synthetics:S.SYNTH")
    );
    assert_eq!(
        DatabaseQueries::load_account("t", "SIM-1").unwrap(),
        plan(ReadMethod::Elements, "t:accounts:SIM-1")
    );
    assert_eq!(
        DatabaseQueries::load_order("t", "O-1").unwrap(),
        plan(ReadMethod::Elements, "t:orders:O-1")
    );
    assert_eq!(
        DatabaseQueries::load_position("t", "P-1").unwrap(),
        plan(ReadMethod::Elements, "t:positions:P-1")
    );
}

#[test]
fn records_of_one_value_are_its_document() {
    let found = payloads(&["[1]"]);
    assert_eq!(DatabaseQueries::load_instrument_reply(JSON, &found).unwrap(), Some(parsed("[1]")));
    assert_eq!(DatabaseQueries::load_synthetic_reply(JSON, &found).unwrap(), Some(parsed("[1]")));
    assert_eq!(DatabaseQueries::load_currency_reply(JSON, &found).unwrap(), Some(parsed("[1]")));
    assert_eq!(DatabaseQueries::load_instrument_reply(JSON, &vec![]).unwrap(), None);
    assert!(DatabaseQueries::load_instrument_reply(JSON, &payloads(&["{"])).is_err());
}

#[test]
fn null_currency_is_none() {
    assert_eq!(DatabaseQueries::load_currency_reply(JSON, &payloads(&["null"])).unwrap(), None);
    assert_eq!(
        DatabaseQueries::load_instrument_reply(JSON, &payloads(&["null"])).unwrap(),
        Some(Json::Null)
    );
}

#[test]
fn last_state_of_a_position_counts() {
    let found = payloads(&["{", "1", "2"]);
    assert_eq!(DatabaseQueries::load_position_reply(JSON, &found).unwrap(), Some(parsed("2")));
    assert_eq!(DatabaseQueries::load_position_reply(JSON, &vec![]).unwrap(), None);
}

#[test]
fn events_are_read_up_to_the_first_broken_one() {
    assert_eq!(DatabaseQueries::load_account_reply(JSON, &vec![]), None);
    assert_eq!(
        DatabaseQueries::load_account_reply(JSON, &payloads(&["1", "2"])),
        Some(EventDocuments { documents: vec![parsed("1"), parsed("2")], failure: None })
    );
    let events = DatabaseQueries::load_order_reply(JSON, &payloads(&["1", "{", "3"])).unwrap();
    assert_eq!(events.documents, vec![parsed("1")]);
    assert!(matches!(events.failure, Some(QueryError::DeserializeJson(_))));
}

#[test]
fn instruments_are_parsed_fetched_and_converted() {
    let load = DatabaseQueries::load_instruments("t", JSON);
    assert_eq!(load.scan().request().unwrap().pattern, "t:instruments*");
    assert_eq!(load.begin("t:instruments:A.B"), RowStep::Parse(text("A.B")));
    assert_eq!(load.begin("t:instrument:A.B"), RowStep::Done(Row::InvalidKey));
    assert_eq!(load.parsed(None), RowStep::Done(Row::InvalidIdentifier));
    assert_eq!(
        load.parsed(Some(text("A.B"))),
        RowStep::Fetch { identifier: text("A.B"), plan: plan(ReadMethod::Value, "t:instruments:A.B") }
    );
    assert_eq!(
        load.fetched(text("A.B"), Ok(payloads(&["7"]))),
        RowStep::Convert {
            identifier: text("A.B"),
            events: EventDocuments { documents: vec![parsed("7")], failure: None }
        }
    );
    assert_eq!(load.fetched(text("A.B"), Ok(vec![])), RowStep::Done(Row::Missing));
    assert!(matches!(
        load.fetched(text("A.B"), Ok(payloads(&["{"]))),
        RowStep::Done(Row::Invalid(QueryError::DeserializeJson(_)))
    ));
    assert_eq!(
        load.fetched(text("A.B"), Err(QueryError::Store(text("down")))),
        RowStep::Done(Row::Failed(QueryError::Store(text("down"))))
    );
}

#[test]
fn other_kinds_are_fetched_at_once() {
    let account = DatabaseQueries::load_accounts("t", JSON);
    assert_eq!(
        account.begin("t:accounts:SIM-1"),
        RowStep::Fetch { identifier: text("SIM-1"), plan: plan(ReadMethod::Elements, "t:accounts:SIM-1") }
    );
    let order = DatabaseQueries::load_orders("t", JSON);
    assert_eq!(order.scan().request().unwrap().pattern, "t:orders*");
    assert_eq!(
        order.fetched(text("O"), Ok(payloads(&["1", "2"]))),
        RowStep::Convert {
            identifier: text("O"),
            events: EventDocuments { documents: vec![parsed("1"), parsed("2")], failure: None }
        }
    );
    assert_eq!(order.fetched(text("O"), Ok(vec![])), RowStep::Done(Row::Missing));
    let position = DatabaseQueries::load_positions("t", JSON);
    assert_eq!(
        position.fetched(text("P"), Ok(payloads(&["1", "2"]))),
        RowStep::Convert {
            identifier: text("P"),
            events: EventDocuments { documents: vec![parsed("2")], failure: None }
        }
    );
    let synthetic = DatabaseQueries::load_synthetics("t", JSON);
    assert_eq!(synthetic.begin("t:synthetics:S"), RowStep::Parse(text("S")));
}

#[test]
fn instant_out_of_range_stops_a_load() {
    let load = DatabaseQueries::load_positions("t", JSON);
    let step = load.fetched(text("P"), Ok(payloads(&[r#"{"ts_init":"9999-01-01T00:00:00Z"}"#])));
    assert_eq!(step, RowStep::Done(Row::Failed(QueryError::InvalidDateTime)));
}

#[test]
fn conversion_decides_before_a_later_failure() {
    let broken = || Some(QueryError::InvalidRecord(text("broken")));
    let failure = || Some(QueryError::DeserializeJson(text("cut")));
    assert_eq!(EventDocuments::failure_after(None, None), None);
    assert_eq!(EventDocuments::failure_after(broken(), failure()), broken());
    assert_eq!(EventDocuments::failure_after(None, failure()), failure());
}

#[test]
fn converted_rows_are_loaded_or_say_why_not() {
    assert_eq!(RowStep::converted(text("A"), None), Row::Loaded(text("A")));
    assert_eq!(
        RowStep::converted(text("A"), Some(QueryError::InvalidRecord(text("broken")))),
        Row::Invalid(QueryError::InvalidRecord(text("broken")))
    );
    assert_eq!(
        RowStep::converted(text("A"), Some(QueryError::InvalidDateTime)),
        Row::Failed(QueryError::InvalidDateTime)
    );
}

#[test]
fn load_keeps_the_last_row_of_each_record() {
    let load = DatabaseQueries::load_orders("t", JSON);
    let rows = vec![
        Row::Loaded(text("A")),
        Row::Missing,
        Row::Loaded(text("B")),
        Row::Invalid(QueryError::DeserializeJson(text("x"))),
        Row::InvalidKey,
        Row::InvalidIdentifier,
        Row::Loaded(text("A")),
    ];
    let map = load.finish(rows).unwrap();
    assert_eq!(map.len(), 2);
    assert_eq!(map.get("A"), Some(&6));
    assert_eq!(map.get("B"), Some(&2));
}

#[test]
fn load_stops_where_the_store_fails() {
    let load = DatabaseQueries::load_accounts("t", JSON);
    let rows = vec![Row::Loaded(text("A")), Row::Failed(QueryError::Store(text("down")))];
    assert_eq!(load.finish(rows).unwrap_err(), QueryError::Store(text("down")));
    assert_eq!(REDIS_KEY_LOAD_CONCURRENCY, 64);
}

#[test]
fn currencies_are_read_in_bulk() {
    assert_eq!(DatabaseQueries::load_currencies("t").request().unwrap().pattern, "t:currencies*");
    let keys = vec![
        text("t:currencies:USD"),
        text("t:currencies:EUR"),
        text("bad"),
        text("t:currencies:GBP"),
        text("t:currencies:JPY"),
    ];
    let bytes = |t: &str| Some(Bytes::from(t.as_bytes().to_vec()));
    let found = vec![bytes("1"), None, bytes("1"), bytes("{")];
    let rows = DatabaseQueries::load_currencies_reply("t", JSON, &keys, &found);
    assert_eq!(rows.len(), 4);
    assert_eq!(rows[0], BulkRow::Convert { identifier: text("USD"), document: parsed("1") });
    assert_eq!(rows[1], BulkRow::Done(Row::Missing));
    assert_eq!(rows[2], BulkRow::Done(Row::InvalidKey));
    assert!(matches!(rows[3], BulkRow::Done(Row::Invalid(_))));
    let map = DatabaseQueries::load_currencies_finish(vec![
        BulkRow::converted(text("USD"), None),
        BulkRow::converted(text("EUR"), Some(QueryError::InvalidValue(text("no")))),
        BulkRow::converted(text("USD"), None),
    ])
    .unwrap();
    assert_eq!(map.len(), 1);
    assert_eq!(map.get(&Ustr::from("USD")), Some(&2));
    assert_eq!(
        DatabaseQueries::load_currencies_finish(vec![Row::Failed(QueryError::InvalidDateTime)]).unwrap_err(),
        QueryError::InvalidDateTime
    );
}

#[test]
fn general_rows_have_relative_keys() {
    assert_eq!(DatabaseQueries::load_general_kv("t").request().unwrap().pattern, "t:general*");
    let keys = vec![
        text("t:general:a"),
        text("t:general:b"),
        text("u:general:c"),
        text("t:generals:b"),
        text("t:general"),
        text("t:general:x:y"),
    ];
    let bytes = |t: &str| Some(Bytes::from(t.as_bytes().to_vec()));
    let found = vec![bytes("1"), None, bytes("3"), bytes("4"), bytes("5"), bytes("6")];
    let map = DatabaseQueries::load_general_kv_reply("t", &keys, &found);
    assert_eq!(map.len(), 2);
    assert_eq!(map.get("general:a").unwrap().as_ref(), b"1");
    assert_eq!(map.get("general:x:y").unwrap().as_ref(), b"6");
    assert!(!map.contains_key("u:general:c"));
    assert!(!map.contains_key("generals:b"));
}

#[test]
fn keys_of_other_collections_are_no_general_rows() {
    let keys = vec![text("t:general:a"), text("t:generals:b")];
    let found = vec![Some(Bytes::from(b"1".to_vec())), Some(Bytes::from(b"2".to_vec()))];
    let map = DatabaseQueries::load_general_kv_reply("t", &keys, &found);
    assert_eq!(map.len(), 1);
    assert_eq!(map.get("general:a").unwrap().as_ref(), b"1");
}

fn data_type(name: &str, identifier: Option<&str>, metadata: Option<&str>) -> DataType {
    DataType {
        name: text(name),
        identifier: identifier.map(text),
        metadata: metadata.map(|m| Some(parsed(m))),
    }
}

fn record(data_type: DataType, ts_init: u64) -> CustomRow {
    CustomRow::Record { data_type, ts_init }
}

#[test]
fn short_name_follows_the_last_separator() {
    assert_eq!(short_name_of("a.b:C"), "C");
    assert_eq!(short_name_of("a:b.C"), "C");
    assert_eq!(short_name_of("C"), "C");
    assert_eq!(short_name_of("a."), "");
    assert_eq!(short_name_of(""), "");
}

#[test]
fn custom_data_is_sorted_by_time_and_stable() {
    assert_eq!(DatabaseQueries::load_custom_data("t").request().unwrap().pattern, "t:custom*");
    let rows = vec![
        record(data_type("m.Quote", None, None), 5),
        CustomRow::Missing,
        record(data_type("Quote", Some(""), None), 3),
        record(data_type("Trade", None, None), 1),
        record(data_type("Quote", None, None), 5),
        record(data_type("Quote", Some("X"), None), 2),
        record(data_type("Quote", None, Some("{}")), 2),
    ];
    let found = DatabaseQueries::load_custom_data_reply(data_type("m.Quote", None, None), rows).unwrap();
    assert_eq!(found, vec![2, 0, 4]);
}

#[test]
fn long_stored_name_needs_the_long_request() {
    let rows = vec![record(data_type("m.Quote", None, None), 1)];
    let found = DatabaseQueries::load_custom_data_reply(data_type("Quote", None, None), rows).unwrap();
    assert!(found.is_empty());
}

#[test]
fn metadata_is_compared_as_json() {
    let rows = || {
        vec![
            record(data_type("Q", None, Some(r#"{"a":1,"b":0.0}"#)), 1),
            record(data_type("Q", None, Some(r#"{"b":-0.0,"a":1}"#)), 2),
            record(data_type("Q", None, Some(r#"{"a":1}"#)), 3),
            record(data_type("Q", None, None), 4),
            record(DataType { name: text("Q"), identifier: None, metadata: Some(None) }, 5),
        ]
    };
    let request = data_type("Q", None, Some(r#"{"a":1,"b":0.0}"#));
    assert_eq!(DatabaseQueries::load_custom_data_reply(request, rows()).unwrap(), vec![0, 1]);
    let request = DataType { name: text("Q"), identifier: None, metadata: Some(None) };
    assert_eq!(DatabaseQueries::load_custom_data_reply(request, rows()).unwrap(), vec![4]);
}

#[test]
fn broken_custom_data_stops_the_load() {
    let rows = vec![
        record(data_type("Q", None, None), 1),
        CustomRow::Invalid(QueryError::InvalidRecord(text("first"))),
        CustomRow::Invalid(QueryError::InvalidRecord(text("second"))),
    ];
    assert_eq!(
        DatabaseQueries::load_custom_data_reply(data_type("Q", None, None), rows).unwrap_err(),
        QueryError::InvalidRecord(text("first"))
    );
}

#[test]
fn dated_positions_are_sorted() {
    assert_eq!(
        sort_by_date(vec![(5, 0), (1, 1), (5, 2), (0, 3), (1, 4)]),
        vec![(0, 3), (1, 1), (1, 4), (5, 0), (5, 2)]
    );
    assert!(sort_by_date(vec![]).is_empty());
}

#[test]
fn clients_of_orders_are_loaded() {
    assert_eq!(
        DatabaseQueries::load_index_order_client_hash("t"),
        plan(ReadMethod::Fields, "t:index:order_client")
    );
    let valid = |t: &str| ParsedId::Valid(text(t));
    let map = DatabaseQueries::load_index_order_client_hash_reply(vec![
        (valid("O-1"), valid("C-1")),
        (valid("O-2"), valid("C-1")),
    ])
    .unwrap();
    assert_eq!(map.len(), 2);
    assert_eq!(map.get("O-2"), Some(&text("C-1")));
}

#[test]
fn invalid_identifiers_of_the_index_are_refused() {
    let valid = |t: &str| ParsedId::Valid(text(t));
    let error = DatabaseQueries::load_index_order_client_hash_reply(vec![
        (valid("O-1"), valid("C-1")),
        (valid("O-2"), ParsedId::Invalid(text(""))),
        (ParsedId::Invalid(text("later")), valid("C-1")),
    ])
    .unwrap_err();
    assert_eq!(error, QueryError::InvalidIdentifier(text("")));
    let error = DatabaseQueries::load_index_order_client_hash_reply(vec![(
        ParsedId::Invalid(text("key")),
        ParsedId::Invalid(text("value")),
    )])
    .unwrap_err();
    assert_eq!(error.message(), "Invalid identifier: key");
}

#[test]
fn positions_of_orders_are_resolved() {
    let load = DatabaseQueries::load_index_order_position_resolved("t", JSON);
    assert_eq!(load.index(), plan(ReadMethod::Fields, "t:index:order_position"));
    assert_eq!(
        load.begin(text("O-1"), "P:1"),
        RowStep::Fetch { identifier: text("O-1"), plan: plan(ReadMethod::Elements, "t:positions:P:1") }
    );
    assert_eq!(
        load.fetched(text("O-1"), Ok(payloads(&["1", "2"]))),
        RowStep::Convert {
            identifier: text("O-1"),
            events: EventDocuments { documents: vec![parsed("2")], failure: None }
        }
    );
    let map = load.finish(vec![Row::Missing, Row::Loaded(text("O-1"))]).unwrap();
    assert_eq!(map.len(), 1);
    assert_eq!(map.get("O-1"), Some(&1));
}

#[test]
fn broken_position_stops_the_resolution() {
    let load = DatabaseQueries::load_index_order_position_resolved("t", JSON);
    let rows = vec![
        Row::Loaded(text("O-1")),
        Row::Invalid(QueryError::DeserializeJson(text("x"))),
        Row::Failed(QueryError::Store(text("down"))),
    ];
    assert_eq!(load.finish(rows).unwrap_err(), QueryError::DeserializeJson(text("x")));
}

fn one(name: &str) -> AHashMap<String, usize> {
    let mut map = AHashMap::new();
    map.insert(text(name), 1);
    map
}

#[test]
fn whole_cache_has_all_loads() {
    let mut currencies = AHashMap::new();
    currencies.insert(Ustr::from("USD"), 4usize);
    let cache = DatabaseQueries::load_all(
        Ok(currencies),
        Ok(one("i")),
        Ok(one("s")),
        Ok(one("a")),
        Ok(one("o")),
        Ok(one("p")),
    )
    .map_err(|e| e.message())
    .ok()
    .unwrap();
    assert_eq!(cache.currencies.get(&Ustr::from("USD")), Some(&4));
    assert_eq!(cache.instruments, one("i"));
    assert_eq!(cache.synthetics, one("s"));
    assert_eq!(cache.accounts, one("a"));
    assert_eq!(cache.orders, one("o"));
    assert_eq!(cache.positions, one("p"));
    assert!(cache.greeks.is_empty());
    assert!(cache.yield_curves.is_empty());
}

#[test]
fn whole_cache_fails_with_any_load() {
    let failed = || Err(QueryError::Store(text("down")));
    let error = DatabaseQueries::load_all(
        Ok(AHashMap::new()),
        Ok(one("i")),
        failed(),
        Ok(one("a")),
        Err(QueryError::InvalidDateTime),
        Ok(one("p")),
    )
    .err()
    .unwrap();
    assert_eq!(error, QueryError::LoadCache(Box::new(QueryError::Store(text("down")))));
}
