//! Loads of collections whose records are read all at once: currencies and general rows.

use ahash::AHashMap;
use bytes::Bytes;
use ustr::Ustr;
use vstd::prelude::*;

use crate::error::{ErrorView, QueryError};
use crate::json::{Json, JsonView};
use crate::keys::{
    belongs_to, collection_of, collection_pattern, identifier_makes_record_key, joined,
    joined_key_has_collection, only_record_keys_hold_identifiers, pattern_of, record_id, record_key,
    record_key_holds_identifier, record_prefix, relative_key, relative_key_of,
    relative_key_parts_the_trader, relative_key_restores_key, DatabaseQueries, CURRENCIES, GENERAL,
    REDIS_DELIMITER,
};
use crate::load::{
    first_stop, gathered, lemma_stop_stays, row_positions, rows_view, unreadable, unreadable_row,
    Row, RowView,
};
use crate::outside::{
    buffer_bytes, buffer_clone, code_positions, found_buffers_view, found_view,
    insert_code_position, insert_payload, intern, key_payloads, no_code_positions, no_payloads,
};
use crate::payload::{read_document, read_payload, SerializationEncoding};
use crate::scan::{scan_start, KeyScan};
use crate::text::texts_view;

verus! {

/// What stands under one key of a bulk read.
#[derive(Debug, PartialEq)]
pub enum BulkRow {
    /// Nothing more to do: the row is done.
    Done(Row),
    /// Turn this document into the record of this identifier.
    Convert { identifier: String, document: Json },
}

/// What a `BulkRow` is.
pub enum BulkRowView {
    Done(RowView),
    Convert { identifier: Seq<char>, document: JsonView },
}

impl View for BulkRow {
    type V = BulkRowView;

    open spec fn view(&self) -> BulkRowView {
        match self {
            BulkRow::Done(row) => BulkRowView::Done(row@),
            BulkRow::Convert { identifier, document } => BulkRowView::Convert {
                identifier: identifier@,
                document: document@,
            },
        }
    }
}

/// What the currency under a key is.
pub open spec fn currency_row(
    trader_key: Seq<char>,
    encoding: SerializationEncoding,
    key: Seq<char>,
    payload: Option<Seq<u8>>,
) -> BulkRowView {
    match record_id(key, trader_key, CURRENCIES@) {
        None => BulkRowView::Done(RowView::InvalidKey),
        Some(code) => match payload {
            None => BulkRowView::Done(RowView::Missing),
            Some(bytes) => match read_payload(encoding, bytes) {
                Ok(document) => BulkRowView::Convert { identifier: code, document },
                Err(error) => BulkRowView::Done(unreadable_row(error)),
            },
        },
    }
}

/// The smaller of two lengths.
pub open spec fn shorter(a: nat, b: nat) -> nat {
    if a <= b {
        a
    } else {
        b
    }
}

/// What the currencies under the given keys are, each key with its payload.
pub open spec fn currency_rows(
    trader_key: Seq<char>,
    encoding: SerializationEncoding,
    keys: Seq<Seq<char>>,
    payloads: Seq<Option<Seq<u8>>>,
) -> Seq<BulkRowView> {
    Seq::new(
        shorter(keys.len(), payloads.len()),
        |i: int| currency_row(trader_key, encoding, keys[i], payloads[i]),
    )
}

/// What each row of a bulk read is.
pub open spec fn bulk_rows_view(rows: Seq<BulkRow>) -> Seq<BulkRowView> {
    Seq::new(rows.len(), |i: int| rows[i]@)
}

/// What the positions of currencies that a load hands out are.
pub open spec fn currencies_outcome(result: Result<AHashMap<Ustr, usize>, QueryError>) -> Result<
    Map<Seq<char>, usize>,
    ErrorView,
> {
    match result {
        Ok(map) => Ok(code_positions(map)),
        Err(error) => Err(error@),
    }
}

/// Whether a full key is the key of a general row of a trader.
pub open spec fn is_general(full_key: Seq<char>, trader_key: Seq<char>) -> bool {
    record_id(full_key, trader_key, GENERAL@) is Some
}

/// The general rows under the given keys: each payload that was found, by its relative key.
///
/// The pattern of a scan finds keys of other collections too; they are left out.
pub open spec fn general_rows(
    trader_key: Seq<char>,
    keys: Seq<Seq<char>>,
    payloads: Seq<Option<Seq<u8>>>,
    len: nat,
) -> Map<Seq<char>, Seq<u8>>
    decreases len,
{
    if len == 0 {
        Map::empty()
    } else {
        let last = len - 1;
        let before = general_rows(trader_key, keys, payloads, last as nat);
        match payloads[last] {
            Some(bytes) if is_general(keys[last], trader_key) => before.insert(
                relative_key(keys[last], trader_key),
                bytes,
            ),
            _ => before,
        }
    }
}

/// The key of a general row is one of its trader.
proof fn lemma_general_belongs(full_key: Seq<char>, trader_key: Seq<char>)
    requires
        is_general(full_key, trader_key),
    ensures
        belongs_to(full_key, trader_key),
{
    let prefix = record_prefix(trader_key, GENERAL@);
    let start = trader_key.push(REDIS_DELIMITER);
    assert(start =~= prefix.take(start.len() as int));
    assert(start =~= full_key.take(start.len() as int));
}

/// General rows of distinct keys are all there, each under its relative key.
pub proof fn general_rows_are_all_there(
    trader_key: Seq<char>,
    keys: Seq<Seq<char>>,
    payloads: Seq<Option<Seq<u8>>>,
    len: nat,
    i: int,
)
    requires
        0 <= i < len <= shorter(keys.len(), payloads.len()),
        forall|j: int, k: int| 0 <= j < k < len ==> #[trigger] keys[j] != #[trigger] keys[k],
        is_general(keys[i], trader_key),
        payloads[i] is Some,
    ensures
        general_rows(trader_key, keys, payloads, len).dom().contains(
            relative_key(keys[i], trader_key),
        ),
        general_rows(trader_key, keys, payloads, len)[relative_key(keys[i], trader_key)]
            == payloads[i]->0,
    decreases len,
{
    let last = len - 1;
    if i < last {
        general_rows_are_all_there(trader_key, keys, payloads, last as nat, i);
        if is_general(keys[last], trader_key) {
            lemma_general_belongs(keys[i], trader_key);
            lemma_general_belongs(keys[last], trader_key);
            relative_key_restores_key(keys[i], trader_key);
            relative_key_restores_key(keys[last], trader_key);
            assert(keys[i] != keys[last]);
        }
    }
}

/// Nothing but general rows is loaded: each relative key belongs to the general collection, and is
/// that of a scanned key with the payload that was found under it.
pub proof fn only_general_rows_are_there(
    trader_key: Seq<char>,
    keys: Seq<Seq<char>>,
    payloads: Seq<Option<Seq<u8>>>,
    len: nat,
    key: Seq<char>,
)
    requires
        len <= shorter(keys.len(), payloads.len()),
        general_rows(trader_key, keys, payloads, len).dom().contains(key),
    ensures
        collection_of(key) == Some(GENERAL@),
        exists|i: int|
            0 <= i < len && #[trigger] keys[i] == joined(trader_key, key) && payloads[i] == Some(
                general_rows(trader_key, keys, payloads, len)[key],
            ),
    decreases len,
{
    let last = len - 1;
    if payloads[last] is Some && is_general(keys[last], trader_key) && relative_key(
        keys[last],
        trader_key,
    ) == key {
        let identifier = record_id(keys[last], trader_key, GENERAL@)->0;
        identifier_makes_record_key(keys[last], trader_key, GENERAL@);
        lemma_general_belongs(keys[last], trader_key);
        relative_key_restores_key(keys[last], trader_key);
        assert(key =~= joined(GENERAL@, identifier));
        reveal_strlit("general");
        joined_key_has_collection(GENERAL@, identifier);
    } else {
        only_general_rows_are_there(trader_key, keys, payloads, last as nat, key);
    }
}

/// The key of a currency with a payload that can be read gives the currency of the whole code, with
/// the document of that payload; no other key gives one.
pub proof fn currencies_have_their_own_codes(
    trader_key: Seq<char>,
    encoding: SerializationEncoding,
    code: Seq<char>,
    payload: Seq<u8>,
)
    ensures
        ({
            let row = currency_row(
                trader_key,
                encoding,
                record_key(trader_key, CURRENCIES@, code),
                Some(payload),
            );
            match read_payload(encoding, payload) {
                Ok(document) => row matches BulkRowView::Convert { identifier, document: d }
                    && identifier == code && d == document,
                Err(ErrorView::InvalidDateTime) => row matches BulkRowView::Done(
                    RowView::Failed(ErrorView::InvalidDateTime),
                ),
                Err(error) => row matches BulkRowView::Done(RowView::Invalid(e)) && e == error,
            }
        }),
        currency_row(
            trader_key,
            encoding,
            record_key(trader_key, CURRENCIES@, code),
            None,
        ) matches BulkRowView::Done(RowView::Missing),
{
    record_key_holds_identifier(trader_key, CURRENCIES@, code);
}

/// The code of a currency that is loaded makes the key under which it was found, so that distinct
/// keys give distinct currencies; a key of no currency is refused.
pub proof fn currency_codes_make_their_keys(
    trader_key: Seq<char>,
    encoding: SerializationEncoding,
    key: Seq<char>,
    payload: Option<Seq<u8>>,
)
    ensures
        currency_row(trader_key, encoding, key, payload) matches BulkRowView::Convert {
            identifier,
            document,
        } ==> record_key(trader_key, CURRENCIES@, identifier) == key && (payload matches Some(bytes)
            && (read_payload(encoding, bytes) matches Ok(d) && d == document)),
        (forall|code: Seq<char>| #[trigger] record_key(trader_key, CURRENCIES@, code) != key)
            <==> (currency_row(trader_key, encoding, key, payload) matches BulkRowView::Done(
            RowView::InvalidKey,
        )),
{
    only_record_keys_hold_identifiers(key, trader_key, CURRENCIES@);
    if record_id(key, trader_key, CURRENCIES@) is Some {
        identifier_makes_record_key(key, trader_key, CURRENCIES@);
    }
}

/// Each scanned key that has an answer has its own row, made of its own payload.
pub proof fn each_currency_has_its_row(
    trader_key: Seq<char>,
    encoding: SerializationEncoding,
    keys: Seq<Seq<char>>,
    payloads: Seq<Option<Seq<u8>>>,
    i: int,
)
    ensures
        keys.len() == payloads.len() ==> currency_rows(trader_key, encoding, keys, payloads).len()
            == keys.len(),
        0 <= i < keys.len() && i < payloads.len() ==> i < currency_rows(
            trader_key,
            encoding,
            keys,
            payloads,
        ).len() && currency_rows(trader_key, encoding, keys, payloads)[i] == currency_row(
            trader_key,
            encoding,
            keys[i],
            payloads[i],
        ),
        currency_rows(trader_key, encoding, keys, payloads).len() <= keys.len(),
        currency_rows(trader_key, encoding, keys, payloads).len() <= payloads.len(),
{
}

/// A general row of any identifier is loaded with its payload, where no other scanned key is the
/// same, however many rows and whatever keys stand around it.
pub proof fn every_general_row_is_loaded(
    trader_key: Seq<char>,
    keys: Seq<Seq<char>>,
    payloads: Seq<Option<Seq<u8>>>,
    i: int,
    identifier: Seq<char>,
    payload: Seq<u8>,
)
    requires
        0 <= i < keys.len(),
        i < payloads.len(),
        forall|j: int, k: int| 0 <= j < k < keys.len() ==> #[trigger] keys[j] != #[trigger] keys[k],
        keys[i] == joined(trader_key, joined("general"@, identifier)),
        payloads[i] == Some(payload),
    ensures
        ({
            let rows = general_rows(
                trader_key,
                keys,
                payloads,
                shorter(keys.len(), payloads.len()),
            );
            &&& rows.dom().contains(joined("general"@, identifier))
            &&& rows[joined("general"@, identifier)] == payload
        }),
{
    record_key_holds_identifier(trader_key, GENERAL@, identifier);
    relative_key_parts_the_trader(trader_key, joined(GENERAL@, identifier));
    general_rows_are_all_there(
        trader_key,
        keys,
        payloads,
        shorter(keys.len(), payloads.len()),
        i,
    );
}

/// What the outcome of a load of currencies is: the positions or the error, left whole.
pub proof fn currency_outcomes_are_whole(result: Result<AHashMap<Ustr, usize>, QueryError>)
    ensures
        match result {
            Ok(map) => currencies_outcome(result) matches Ok(view) && view == code_positions(map),
            Err(error) => currencies_outcome(result) matches Err(view) && view == error@,
        },
{
}

/// What a row of a bulk read is, row by row: a list has as many, in the same places.
pub proof fn bulk_rows_keep_their_places(rows: Seq<BulkRow>, i: int)
    requires
        0 <= i < rows.len(),
    ensures
        bulk_rows_view(rows).len() == rows.len(),
        bulk_rows_view(rows)[i] == (match rows[i] {
            BulkRow::Done(row) => BulkRowView::Done(row@),
            BulkRow::Convert { identifier, document } => BulkRowView::Convert {
                identifier: identifier@,
                document: document@,
            },
        }),
{
}

impl DatabaseQueries {
    /// Begins a load of all currencies: the scan that finds their keys.
    pub fn load_currencies(trader_key: &str) -> (scan: KeyScan)
        ensures
            scan@ == scan_start(collection_pattern(trader_key@, CURRENCIES@)),
    {
        DatabaseQueries::scan_keys(pattern_of(trader_key, CURRENCIES))
    }

    /// What the currencies under the scanned keys are: `payloads` are those read in bulk.
    pub fn load_currencies_reply(
        trader_key: &str,
        encoding: SerializationEncoding,
        keys: &Vec<String>,
        payloads: &Vec<Option<Bytes>>,
    ) -> (rows: Vec<BulkRow>)
        ensures
            bulk_rows_view(rows@) == currency_rows(
                trader_key@,
                encoding,
                texts_view(keys@),
                found_buffers_view(payloads@),
            ),
    {
        let len: usize = if keys.len() <= payloads.len() {
            keys.len()
        } else {
            payloads.len()
        };
        let ghost all = currency_rows(
            trader_key@,
            encoding,
            texts_view(keys@),
            found_buffers_view(payloads@),
        );
        let mut rows: Vec<BulkRow> = Vec::new();
        for i in 0..len
            invariant
                len == shorter(keys@.len(), payloads@.len()),
                all == currency_rows(
                    trader_key@,
                    encoding,
                    texts_view(keys@),
                    found_buffers_view(payloads@),
                ),
                bulk_rows_view(rows@) == all.take(i as int),
        {
            let ghost before = rows@;
            let row = read_currency(trader_key, encoding, keys[i].as_str(), &payloads[i]);
            rows.push(row);
            assert(row@ == all[i as int]);
            assert(bulk_rows_view(rows@) =~= bulk_rows_view(before).push(row@));
        }
        assert(all.take(len as int) =~= all);
        rows
    }

    /// Where each currency stands: `rows` are its rows, each document turned into its record.
    pub fn load_currencies_finish(rows: Vec<Row>) -> (result: Result<
        AHashMap<Ustr, usize>,
        QueryError,
    >)
        ensures
            currencies_outcome(result) == gathered(rows_view(rows@), false),
    {
        let ghost all = rows_view(rows@);
        let ghost listed = rows@;
        let mut map = no_code_positions();
        let mut at: usize = 0;
        proof {
            assert(listed.len() == rows.len());
            assert(code_positions(map) =~= Map::empty());
            assert(all.take(0) =~= Seq::empty());
        }
        for row in it: rows
            invariant
                it.seq() == listed,
                all == rows_view(listed),
                listed.len() <= usize::MAX,
                at == it.index(),
                first_stop(all.take(it.index()), false) is None,
                code_positions(map) == row_positions(all.take(it.index())),
        {
            proof {
                assert(all.take(at + 1).drop_last() == all.take(at as int));
                assert(all.take(at + 1).last() == row@);
            }
            match row {
                Row::Failed(error) => {
                    proof {
                        lemma_stop_stays(all, false, at + 1);
                    }
                    return Err(error);
                },
                Row::Loaded(code) => {
                    insert_code_position(&mut map, intern(code.as_str()), at);
                },
                _ => {},
            }
            at = at + 1;
        }
        assert(all.take(all.len() as int) == all);
        Ok(map)
    }

    /// Begins a load of all general rows: the scan that finds their keys.
    pub fn load_general_kv(trader_key: &str) -> (scan: KeyScan)
        ensures
            scan@ == scan_start(collection_pattern(trader_key@, GENERAL@)),
    {
        DatabaseQueries::scan_keys(pattern_of(trader_key, GENERAL))
    }

    /// The general rows under the scanned keys, by relative key: `payloads` are those read in bulk.
    ///
    /// A scanned key of another collection is left out.
    pub fn load_general_kv_reply(
        trader_key: &str,
        keys: &Vec<String>,
        payloads: &Vec<Option<Bytes>>,
    ) -> (rows: AHashMap<String, Bytes>)
        ensures
            key_payloads(rows) == general_rows(
                trader_key@,
                texts_view(keys@),
                found_buffers_view(payloads@),
                shorter(keys@.len(), payloads@.len()),
            ),
    {
        let len: usize = if keys.len() <= payloads.len() {
            keys.len()
        } else {
            payloads.len()
        };
        let mut rows = no_payloads();
        assert(key_payloads(rows) =~= Map::empty());
        for i in 0..len
            invariant
                len == shorter(keys@.len(), payloads@.len()),
                key_payloads(rows) == general_rows(
                    trader_key@,
                    texts_view(keys@),
                    found_buffers_view(payloads@),
                    i as nat,
                ),
        {
            assert(found_buffers_view(payloads@)[i as int] == found_view(payloads[i as int]));
            assert(texts_view(keys@)[i as int] == keys[i as int]@);
            if let Some(payload) = &payloads[i] {
                let key = keys[i].as_str();
                let general = DatabaseQueries::record_id_from_scanned_key(key, trader_key, GENERAL);
                if general.is_some() {
                    let short_key = relative_key_of(key, trader_key);
                    insert_payload(&mut rows, short_key, buffer_clone(payload));
                }
            }
        }
        rows
    }
}

impl BulkRow {
    /// The row after the document of a `Convert` was turned into the record of its identifier, or
    /// could not be: `conversion` is why not.
    pub fn converted(identifier: String, conversion: Option<QueryError>) -> (row: Row)
        ensures
            row@ == (match conversion {
                Some(error) => RowView::Invalid(error@),
                None => RowView::Loaded(identifier@),
            }),
    {
        match conversion {
            Some(error) => Row::Invalid(error),
            None => Row::Loaded(identifier),
        }
    }
}

/// What the currency under a key is.
fn read_currency(
    trader_key: &str,
    encoding: SerializationEncoding,
    key: &str,
    payload: &Option<Bytes>,
) -> (row: BulkRow)
    ensures
        row@ == currency_row(trader_key@, encoding, key@, found_view(*payload)),
{
    match DatabaseQueries::record_id_from_scanned_key(key, trader_key, CURRENCIES) {
        None => BulkRow::Done(Row::InvalidKey),
        Some(code) => match payload {
            None => BulkRow::Done(Row::Missing),
            Some(buffer) => match read_document(encoding, buffer_bytes(buffer)) {
                Ok(document) => BulkRow::Convert { identifier: code.to_owned(), document },
                Err(error) => BulkRow::Done(unreadable(error)),
            },
        },
    }
}

} // verus!
