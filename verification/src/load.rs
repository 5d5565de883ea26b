//! Loads of whole collections: scan the keys, fetch each record, and gather what was found.
//!
//! A load decides; its caller talks to the store, turns documents into records, and keeps the
//! records by the positions of their rows.

use ahash::AHashMap;
use bytes::Bytes;
use vstd::prelude::*;

use crate::error::{ErrorView, QueryError};
use crate::json::{items_view, Json, JsonView};
use crate::keys::{
    collection_pattern, identifier_makes_record_key, only_record_keys_hold_identifiers, pattern_of,
    record_id, record_key, record_key_holds_identifier, records_match_pattern, DatabaseQueries,
    ACCOUNTS, INSTRUMENTS, ORDERS, POSITIONS, SYNTHETICS,
};
use crate::outside::{buffers_view, insert_position, no_positions, positions};
use crate::payload::{read_payload, SerializationEncoding};
use crate::read::{PlanView, ReadMethod, ReadPlan};
use crate::record::{
    all_events_are_read, event_documents, failure_view, first_broken_event_is_told, first_document,
    last_document, position_is_its_last_state, value_is_its_first_payload, EventDocuments,
    EventsView,
};
use crate::scan::{scan_start, KeyScan};

verus! {

/// How many records of a load are fetched at a time.
pub const REDIS_KEY_LOAD_CONCURRENCY: usize = 64;

/// A kind of record that is fetched key by key.
#[derive(Clone, Copy, Debug, PartialEq, Eq, Structural)]
pub enum RecordKind {
    Instrument,
    Synthetic,
    Account,
    Order,
    Position,
}

/// The collection of a kind of record.
pub open spec fn kind_collection(kind: RecordKind) -> Seq<char> {
    match kind {
        RecordKind::Instrument => INSTRUMENTS@,
        RecordKind::Synthetic => SYNTHETICS@,
        RecordKind::Account => ACCOUNTS@,
        RecordKind::Order => ORDERS@,
        RecordKind::Position => POSITIONS@,
    }
}

/// How a kind of record is read.
pub open spec fn kind_method(kind: RecordKind) -> ReadMethod {
    match kind {
        RecordKind::Instrument | RecordKind::Synthetic => ReadMethod::Value,
        _ => ReadMethod::Elements,
    }
}

/// Whether not every text is an identifier of this kind of record.
pub open spec fn kind_parses(kind: RecordKind) -> bool {
    kind is Instrument || kind is Synthetic
}

/// A load of all records of one kind.
pub struct CollectionLoad {
    kind: RecordKind,
    trader_key: String,
    encoding: SerializationEncoding,
}

/// What a `CollectionLoad` is.
pub struct LoadView {
    pub kind: RecordKind,
    pub trader_key: Seq<char>,
    pub encoding: SerializationEncoding,
}

impl View for CollectionLoad {
    type V = LoadView;

    closed spec fn view(&self) -> LoadView {
        LoadView { kind: self.kind, trader_key: self.trader_key@, encoding: self.encoding }
    }
}

/// What became of one row of a load.
#[derive(Debug, PartialEq)]
pub enum Row {
    /// The key is none of the collection.
    InvalidKey,
    /// The key holds no identifier.
    InvalidIdentifier,
    /// The store holds nothing under the key.
    Missing,
    /// The store holds no record under the key; holds why.
    Invalid(QueryError),
    /// The row stops the load; holds why.
    Failed(QueryError),
    /// The record is there; holds its identifier.
    Loaded(String),
}

/// What a `Row` is.
pub enum RowView {
    InvalidKey,
    InvalidIdentifier,
    Missing,
    Invalid(ErrorView),
    Failed(ErrorView),
    Loaded(Seq<char>),
}

impl View for Row {
    type V = RowView;

    open spec fn view(&self) -> RowView {
        match self {
            Row::InvalidKey => RowView::InvalidKey,
            Row::InvalidIdentifier => RowView::InvalidIdentifier,
            Row::Missing => RowView::Missing,
            Row::Invalid(error) => RowView::Invalid(error@),
            Row::Failed(error) => RowView::Failed(error@),
            Row::Loaded(identifier) => RowView::Loaded(identifier@),
        }
    }
}

/// What to do next for one row of a load.
#[derive(Debug, PartialEq)]
pub enum RowStep {
    /// Nothing: the row is done.
    Done(Row),
    /// Parse this text as an identifier.
    Parse(String),
    /// Read the record of this identifier.
    Fetch { identifier: String, plan: ReadPlan },
    /// Turn these documents into the record of this identifier.
    Convert { identifier: String, events: EventDocuments },
}

/// What a `RowStep` is.
pub enum StepView {
    Done(RowView),
    Parse(Seq<char>),
    Fetch { identifier: Seq<char>, plan: PlanView },
    Convert { identifier: Seq<char>, events: EventsView },
}

impl View for RowStep {
    type V = StepView;

    open spec fn view(&self) -> StepView {
        match self {
            RowStep::Done(row) => StepView::Done(row@),
            RowStep::Parse(text) => StepView::Parse(text@),
            RowStep::Fetch { identifier, plan } => StepView::Fetch {
                identifier: identifier@,
                plan: plan@,
            },
            RowStep::Convert { identifier, events } => StepView::Convert {
                identifier: identifier@,
                events: events@,
            },
        }
    }
}

/// Reading the record of an identifier is the next step.
pub open spec fn fetch_step(load: LoadView, identifier: Seq<char>) -> StepView {
    StepView::Fetch {
        identifier,
        plan: PlanView {
            method: kind_method(load.kind),
            key: record_key(load.trader_key, kind_collection(load.kind), identifier),
        },
    }
}

/// The first step for a key.
pub open spec fn key_step(load: LoadView, key: Seq<char>) -> StepView {
    match record_id(key, load.trader_key, kind_collection(load.kind)) {
        None => StepView::Done(RowView::InvalidKey),
        Some(identifier) => if kind_parses(load.kind) {
            StepView::Parse(identifier)
        } else {
            fetch_step(load, identifier)
        },
    }
}

/// The step after a text was parsed: with the identifier that it is, where it is one.
pub open spec fn parsed_step(load: LoadView, identifier: Option<Seq<char>>) -> StepView {
    match identifier {
        None => StepView::Done(RowView::InvalidIdentifier),
        Some(id) => fetch_step(load, id),
    }
}

/// The row of a payload that cannot be read: one with a timestamp out of range stops the load.
pub open spec fn unreadable_row(error: ErrorView) -> RowView {
    if error is InvalidDateTime {
        RowView::Failed(error)
    } else {
        RowView::Invalid(error)
    }
}

/// The step after one document was read.
pub open spec fn document_step(
    identifier: Seq<char>,
    document: Result<Option<JsonView>, ErrorView>,
) -> StepView {
    match document {
        Ok(Some(d)) => StepView::Convert {
            identifier,
            events: EventsView { documents: seq![d], failure: None },
        },
        Ok(None) => StepView::Done(RowView::Missing),
        Err(error) => StepView::Done(unreadable_row(error)),
    }
}

/// The step after the store has answered.
pub open spec fn fetched_step(
    load: LoadView,
    identifier: Seq<char>,
    reply: Result<Seq<Seq<u8>>, ErrorView>,
) -> StepView {
    match reply {
        Err(error) => StepView::Done(RowView::Failed(error)),
        Ok(payloads) => match load.kind {
            RecordKind::Instrument | RecordKind::Synthetic => document_step(
                identifier,
                first_document(load.encoding, payloads),
            ),
            RecordKind::Position => document_step(
                identifier,
                last_document(load.encoding, payloads),
            ),
            RecordKind::Account | RecordKind::Order => if payloads.len() == 0 {
                StepView::Done(RowView::Missing)
            } else {
                StepView::Convert {
                    identifier,
                    events: event_documents(load.encoding, payloads),
                }
            },
        },
    }
}

/// The row after its documents were turned into a record, or could not be; `failure` is why not.
pub open spec fn converted_row(identifier: Seq<char>, failure: Option<ErrorView>) -> RowView {
    match failure {
        Some(error) => unreadable_row(error),
        None => RowView::Loaded(identifier),
    }
}

/// What the reply of the store is.
pub open spec fn reply_outcome(reply: Result<Vec<Bytes>, QueryError>) -> Result<
    Seq<Seq<u8>>,
    ErrorView,
> {
    match reply {
        Ok(payloads) => Ok(buffers_view(payloads@)),
        Err(error) => Err(error@),
    }
}

/// What each row of a list is.
pub open spec fn rows_view(rows: Seq<Row>) -> Seq<RowView> {
    Seq::new(rows.len(), |i: int| rows[i]@)
}

/// Where each record of a load stands: an identifier has the position of its last row.
pub open spec fn row_positions(rows: Seq<RowView>) -> Map<Seq<char>, usize>
    decreases rows.len(),
{
    if rows.len() == 0 {
        Map::empty()
    } else {
        let before = row_positions(rows.drop_last());
        match rows.last() {
            RowView::Loaded(identifier) => before.insert(identifier, (rows.len() - 1) as usize),
            _ => before,
        }
    }
}

/// Whether a row stops a load; where `strict`, one without a record does.
pub open spec fn row_stops(row: RowView, strict: bool) -> bool {
    row is Failed || (strict && row is Invalid)
}

/// Why the first row that stops a load does so; where `strict`, a row without a record does.
pub open spec fn first_stop(rows: Seq<RowView>, strict: bool) -> Option<ErrorView>
    decreases rows.len(),
{
    if rows.len() == 0 {
        None
    } else if first_stop(rows.drop_last(), strict) is Some {
        first_stop(rows.drop_last(), strict)
    } else {
        match rows.last() {
            RowView::Failed(error) => Some(error),
            RowView::Invalid(error) if strict => Some(error),
            _ => None,
        }
    }
}

/// What a load comes to: why it was stopped, else where each record stands.
pub open spec fn gathered(rows: Seq<RowView>, strict: bool) -> Result<
    Map<Seq<char>, usize>,
    ErrorView,
> {
    match first_stop(rows, strict) {
        Some(error) => Err(error),
        None => Ok(row_positions(rows)),
    }
}

/// What the positions that a load hands out are.
pub open spec fn gathered_outcome(result: Result<AHashMap<String, usize>, QueryError>) -> Result<
    Map<Seq<char>, usize>,
    ErrorView,
> {
    match result {
        Ok(map) => Ok(positions(map)),
        Err(error) => Err(error@),
    }
}

/// A record whose identifier needs no parsing is read under the key that the scan found; so is one
/// whose identifier is the text that was parsed.
pub proof fn scanned_record_is_read_under_its_key(load: LoadView, key: Seq<char>)
    ensures
        key_step(load, key) matches StepView::Fetch { plan, .. } ==> plan.key == key,
        key_step(load, key) matches StepView::Parse(text) ==> (parsed_step(
            load,
            Some(text),
        ) matches StepView::Fetch { plan, .. } && plan.key == key),
{
    if record_id(key, load.trader_key, kind_collection(load.kind)) is Some {
        identifier_makes_record_key(key, load.trader_key, kind_collection(load.kind));
    }
}

/// Whether this is the collection of a kind of record, and the method by which it is read.
pub open spec fn kind_facts(kind: RecordKind, collection: Seq<char>, method: ReadMethod) -> bool {
    ||| kind is Instrument && collection == INSTRUMENTS@ && method is Value
    ||| kind is Synthetic && collection == SYNTHETICS@ && method is Value
    ||| kind is Account && collection == ACCOUNTS@ && method is Elements
    ||| kind is Order && collection == ORDERS@ && method is Elements
    ||| kind is Position && collection == POSITIONS@ && method is Elements
}

/// The key of a record of the collection is never refused: its identifier is parsed where the kind
/// of record has identifiers that are parsed, and else the record is read at once, by the method of
/// its kind and under this very key.
pub proof fn record_keys_are_taken_up(
    load: LoadView,
    collection: Seq<char>,
    method: ReadMethod,
    identifier: Seq<char>,
)
    requires
        kind_facts(load.kind, collection, method),
    ensures
        ({
            let key = record_key(load.trader_key, collection, identifier);
            match key_step(load, key) {
                StepView::Parse(text) => text == identifier && (load.kind is Instrument
                    || load.kind is Synthetic),
                StepView::Fetch { identifier: id, plan } => id == identifier && plan.key == key
                    && plan.method == method && !(load.kind is Instrument) && !(
                load.kind is Synthetic),
                _ => false,
            }
        }),
{
    record_key_holds_identifier(load.trader_key, collection, identifier);
}

/// A scanned key is refused exactly where it is the key of no record of the collection.
pub proof fn only_other_keys_are_refused(
    load: LoadView,
    collection: Seq<char>,
    method: ReadMethod,
    key: Seq<char>,
)
    requires
        kind_facts(load.kind, collection, method),
    ensures
        key_step(load, key) is Done ==> key_step(load, key)->Done_0 is InvalidKey,
        key_step(load, key) is Done <==> forall|identifier: Seq<char>| #[trigger]
            record_key(load.trader_key, collection, identifier) != key,
{
    only_record_keys_hold_identifiers(key, load.trader_key, collection);
}

/// The pattern of the scan finds the key of every record of the collection.
pub proof fn scan_finds_the_collection(
    load: LoadView,
    collection: Seq<char>,
    method: ReadMethod,
    identifier: Seq<char>,
)
    requires
        kind_facts(load.kind, collection, method),
    ensures
        collection_pattern(load.trader_key, kind_collection(load.kind)).last() == '*',
        collection_pattern(load.trader_key, kind_collection(load.kind)).drop_last().is_prefix_of(
            record_key(load.trader_key, collection, identifier),
        ),
{
    records_match_pattern(load.trader_key, collection, identifier);
}

/// Of a text that was parsed, the record is read under the key of the identifier, whatever the
/// identifier; a text that is none ends its row.
pub proof fn parsed_records_are_read(
    load: LoadView,
    collection: Seq<char>,
    method: ReadMethod,
    identifier: Seq<char>,
)
    requires
        kind_facts(load.kind, collection, method),
    ensures
        parsed_step(load, Some(identifier)) matches StepView::Fetch { identifier: id, plan } && id
            == identifier && plan.method == method && plan.key == record_key(
            load.trader_key,
            collection,
            identifier,
        ),
        parsed_step(load, None) matches StepView::Done(RowView::InvalidIdentifier),
{
}

/// A read that the store refuses stops the load with the store's error, and a record of which the
/// store holds nothing is missing, of every kind.
pub proof fn refused_and_missing_records(
    load: LoadView,
    identifier: Seq<char>,
    error: ErrorView,
)
    ensures
        fetched_step(load, identifier, Err(error)) matches StepView::Done(RowView::Failed(e)) && e
            == error,
        fetched_step(load, identifier, Ok(Seq::empty())) matches StepView::Done(RowView::Missing),
{
}

/// A payload that can be read becomes the record, as the first of several payloads of an instrument
/// and as the last of several of a position; one that cannot be read is left out with its error, but
/// for a timestamp out of range, which stops the load.
pub proof fn stored_states_become_records(
    load: LoadView,
    identifier: Seq<char>,
    payload: Seq<u8>,
    others: Seq<Seq<u8>>,
)
    requires
        !(load.kind is Account) && !(load.kind is Order),
    ensures
        ({
            let payloads = if load.kind is Position {
                others.push(payload)
            } else {
                seq![payload] + others
            };
            let step = fetched_step(load, identifier, Ok(payloads));
            match read_payload(load.encoding, payload) {
                Ok(document) => step matches StepView::Convert { identifier: id, events } && id
                    == identifier && events.documents == seq![document] && events.failure is None,
                Err(ErrorView::InvalidDateTime) => step matches StepView::Done(
                    RowView::Failed(ErrorView::InvalidDateTime),
                ),
                Err(error) => step matches StepView::Done(RowView::Invalid(e)) && e == error,
            }
        }),
{
    if load.kind is Position {
        position_is_its_last_state(load.encoding, others, payload);
    } else {
        value_is_its_first_payload(load.encoding, payload, others);
    }
}

/// The events of an account or an order become its record, every one of them and in their order;
/// where one cannot be read, those before it are converted first and its error is kept.
pub proof fn stored_events_become_records(
    load: LoadView,
    identifier: Seq<char>,
    payloads: Seq<Seq<u8>>,
)
    requires
        load.kind is Account || load.kind is Order,
        payloads.len() > 0,
    ensures
        fetched_step(load, identifier, Ok(payloads)) matches StepView::Convert {
            identifier: id,
            events,
        } && id == identifier && events.documents.len() <= payloads.len() && (forall|i: int|
            0 <= i < events.documents.len() ==> (read_payload(
                load.encoding,
                payloads[i],
            ) matches Ok(document) && document == #[trigger] events.documents[i]))
            && (match events.failure {
            None => events.documents.len() == payloads.len(),
            Some(error) => events.documents.len() < payloads.len() && (read_payload(
                load.encoding,
                payloads[events.documents.len() as int],
            ) matches Err(e) && e == error),
        }),
{
    all_events_are_read(load.encoding, payloads);
    first_broken_event_is_told(load.encoding, payloads);
}

/// A record that was made is loaded under its identifier; one that could not be made is left out
/// with its error, but for a timestamp out of range, which stops the load.
pub proof fn made_records_are_loaded(identifier: Seq<char>, error: ErrorView)
    ensures
        converted_row(identifier, None) == RowView::Loaded(identifier),
        converted_row(identifier, Some(error)) == (match error {
            ErrorView::InvalidDateTime => RowView::Failed(error),
            _ => RowView::Invalid(error),
        }),
{
}

/// A load fails exactly where a row stopped it, and with the error of the first such row; where
/// `strict`, a row with a record that could not be made stops it too.
pub proof fn load_fails_with_its_first_failure(rows: Seq<RowView>, strict: bool)
    ensures
        match gathered(rows, strict) {
            Err(error) => exists|i: int|
                0 <= i < rows.len() && (#[trigger] rows[i] == RowView::Failed(error) || (strict
                    && rows[i] == RowView::Invalid(error))) && forall|j: int|
                    0 <= j < i ==> !(#[trigger] rows[j] is Failed) && !(strict
                        && rows[j] is Invalid),
            Ok(_) => forall|i: int|
                0 <= i < rows.len() ==> !(#[trigger] rows[i] is Failed) && !(strict
                    && rows[i] is Invalid),
        },
    decreases rows.len(),
{
    if rows.len() > 0 {
        let rest = rows.drop_last();
        let last = rows.len() - 1;
        load_fails_with_its_first_failure(rest, strict);
        assert(forall|i: int| 0 <= i < last ==> #[trigger] rows[i] == rest[i]);
        assert(rows[last] == rows.last());
        if first_stop(rest, strict) is Some {
            let error = first_stop(rest, strict)->0;
            let i = choose|i: int|
                0 <= i < rest.len() && (#[trigger] rest[i] == RowView::Failed(error) || (strict
                    && rest[i] == RowView::Invalid(error))) && forall|j: int|
                    0 <= j < i ==> !(#[trigger] rest[j] is Failed) && !(strict
                        && rest[j] is Invalid);
            assert(rows[i] == rest[i]);
        }
    }
}

/// A load that does not fail holds exactly the identifiers of its loaded rows, each with the
/// position of its last row.
pub proof fn load_holds_its_records(rows: Seq<RowView>, strict: bool, identifier: Seq<char>)
    requires
        rows.len() <= usize::MAX,
        gathered(rows, strict) is Ok,
    ensures
        gathered(rows, strict)->Ok_0.dom().contains(identifier) <==> rows.contains(
            RowView::Loaded(identifier),
        ),
        gathered(rows, strict)->Ok_0.dom().contains(identifier) ==> ({
            let at = gathered(rows, strict)->Ok_0[identifier] as int;
            &&& 0 <= at < rows.len()
            &&& rows[at] == RowView::Loaded(identifier)
            &&& forall|j: int| at < j < rows.len() ==> rows[j] != RowView::Loaded(identifier)
        }),
{
    loaded_records_are_held(rows, identifier);
}

/// What a row of a load is, row by row: a list has as many, in the same places.
pub proof fn rows_keep_their_places(rows: Seq<Row>, i: int)
    requires
        0 <= i < rows.len(),
    ensures
        rows_view(rows).len() == rows.len(),
        rows_view(rows)[i] == rows[i]@,
        match rows[i] {
            Row::InvalidKey => rows[i]@ is InvalidKey,
            Row::InvalidIdentifier => rows[i]@ is InvalidIdentifier,
            Row::Missing => rows[i]@ is Missing,
            Row::Invalid(error) => rows[i]@ == RowView::Invalid(error@),
            Row::Failed(error) => rows[i]@ == RowView::Failed(error@),
            Row::Loaded(identifier) => rows[i]@ == RowView::Loaded(identifier@),
        },
{
}

/// What the outcome of a load is, and what the reply of the store is: the positions, the payloads or
/// the error, whichever it is, left whole.
pub proof fn load_outcomes_are_whole(
    result: Result<AHashMap<String, usize>, QueryError>,
    reply: Result<Vec<Bytes>, QueryError>,
)
    ensures
        match result {
            Ok(map) => gathered_outcome(result) matches Ok(view) && view == positions(map),
            Err(error) => gathered_outcome(result) matches Err(view) && view == error@,
        },
        match reply {
            Ok(payloads) => reply_outcome(reply) matches Ok(views) && views == buffers_view(
                payloads@,
            ),
            Err(error) => reply_outcome(reply) matches Err(view) && view == error@,
        },
{
}

/// A record in the store is in the load, from its key to its place: its key is taken up and read,
/// what is read there can be converted, and once it is, any load that does not fail and has its row
/// holds its identifier.
pub proof fn stored_record_is_loaded(
    load: LoadView,
    collection: Seq<char>,
    method: ReadMethod,
    identifier: Seq<char>,
    payloads: Seq<Seq<u8>>,
    rows: Seq<RowView>,
)
    requires
        kind_facts(load.kind, collection, method),
        payloads.len() > 0,
        forall|i: int|
            0 <= i < payloads.len() ==> read_payload(load.encoding, #[trigger] payloads[i]) is Ok,
        rows.len() <= usize::MAX,
        rows.contains(converted_row(identifier, None)),
        gathered(rows, false) is Ok,
    ensures
        ({
            let key = record_key(load.trader_key, collection, identifier);
            let first = key_step(load, key);
            let fetch = if first is Parse {
                parsed_step(load, Some(first->Parse_0))
            } else {
                first
            };
            &&& fetch matches StepView::Fetch { identifier: id, plan } && id == identifier
                && plan.key == key && plan.method == method
            &&& fetched_step(load, identifier, Ok(payloads)) matches StepView::Convert {
                identifier: id,
                events,
            } && id == identifier && events.failure is None && events.documents.len() > 0
            &&& gathered(rows, false)->Ok_0.dom().contains(identifier)
        }),
{
    record_keys_are_taken_up(load, collection, method, identifier);
    parsed_records_are_read(load, collection, method, identifier);
    if load.kind is Account || load.kind is Order {
        stored_events_become_records(load, identifier, payloads);
    } else if load.kind is Position {
        assert(payloads.drop_last().push(payloads.last()) =~= payloads);
        assert(payloads[payloads.len() - 1] == payloads.last());
        stored_states_become_records(load, identifier, payloads.last(), payloads.drop_last());
    } else {
        assert(seq![payloads[0]] + payloads.skip(1) =~= payloads);
        stored_states_become_records(load, identifier, payloads[0], payloads.skip(1));
    }
    made_records_are_loaded(identifier, ErrorView::InvalidDateTime);
    load_holds_its_records(rows, false, identifier);
}

/// What a step is: its text, its identifier, its plan and its documents are left whole.
pub proof fn steps_are_whole(step: RowStep)
    ensures
        match step {
            RowStep::Done(row) => step@ == StepView::Done(row@),
            RowStep::Parse(text) => step@ == StepView::Parse(text@),
            RowStep::Fetch { identifier, plan } => step@ matches StepView::Fetch {
                identifier: id,
                plan: read,
            } && id == identifier@ && read.key == plan.key@ && read.method == plan.method,
            RowStep::Convert { identifier, events } => step@ matches StepView::Convert {
                identifier: id,
                events: made,
            } && id == identifier@ && made.documents == items_view(events.documents@)
                && made.failure == failure_view(events.failure),
        },
{
}

/// Whether the row at `i` is the last of a record.
pub open spec fn last_row_of(rows: Seq<RowView>, identifier: Seq<char>, i: int) -> bool {
    &&& 0 <= i < rows.len()
    &&& rows[i] == RowView::Loaded(identifier)
    &&& forall|j: int| i < j < rows.len() ==> rows[j] != RowView::Loaded(identifier)
}

/// A load holds exactly the records that were loaded, each at its last row.
pub proof fn loaded_records_are_held(rows: Seq<RowView>, identifier: Seq<char>)
    requires
        rows.len() <= usize::MAX,
    ensures
        row_positions(rows).dom().contains(identifier) <==> rows.contains(
            RowView::Loaded(identifier),
        ),
        row_positions(rows).dom().contains(identifier) ==> last_row_of(
            rows,
            identifier,
            row_positions(rows)[identifier] as int,
        ),
    decreases rows.len(),
{
    if rows.len() > 0 {
        let rest = rows.drop_last();
        let last = rows.len() - 1;
        loaded_records_are_held(rest, identifier);
        if rows.contains(RowView::Loaded(identifier)) {
            let i = rows.index_of(RowView::Loaded(identifier));
            if i < last {
                assert(rest[i] == rows[i]);
            }
        }
        if rest.contains(RowView::Loaded(identifier)) {
            let i = rest.index_of(RowView::Loaded(identifier));
            assert(rows[i] == rest[i]);
        }
        if row_positions(rows).dom().contains(identifier) {
            let at = row_positions(rows)[identifier] as int;
            if rows[last] != RowView::Loaded(identifier) {
                assert(last_row_of(rest, identifier, at));
                assert forall|j: int| at < j < rows.len() implies rows[j] != RowView::Loaded(
                    identifier,
                ) by {
                    if j < last {
                        assert(rest[j] == rows[j]);
                    }
                }
            }
        }
    }
}

/// Which records a load holds does not depend on the order in which its rows were done.
pub proof fn loaded_records_need_no_order(rows: Seq<RowView>, reordered: Seq<RowView>)
    requires
        rows.len() <= usize::MAX,
        rows.to_multiset() == reordered.to_multiset(),
    ensures
        row_positions(rows).dom() == row_positions(reordered).dom(),
{
    broadcast use vstd::seq_lib::group_to_multiset_ensures;

    assert(rows.to_multiset().len() == rows.len());
    assert(reordered.to_multiset().len() == reordered.len());
    assert forall|identifier: Seq<char>|
        row_positions(rows).dom().contains(identifier) == row_positions(reordered).dom().contains(
            identifier,
        ) by {
        let row = RowView::Loaded(identifier);
        loaded_records_are_held(rows, identifier);
        loaded_records_are_held(reordered, identifier);
        assert(rows.contains(row) <==> rows.to_multiset().count(row) > 0);
        assert(reordered.contains(row) <==> reordered.to_multiset().count(row) > 0);
    }
    assert(row_positions(rows).dom() =~= row_positions(reordered).dom());
}

/// A load is stopped exactly where one of its rows stops it, in whatever order they were done.
pub proof fn stopped_by_some_row(rows: Seq<RowView>, strict: bool)
    ensures
        first_stop(rows, strict) is Some <==> exists|i: int|
            0 <= i < rows.len() && row_stops(#[trigger] rows[i], strict),
    decreases rows.len(),
{
    if rows.len() > 0 {
        let rest = rows.drop_last();
        let last = rows.len() - 1;
        stopped_by_some_row(rest, strict);
        if first_stop(rest, strict) is Some {
            let i = choose|i: int|
                0 <= i < rest.len() && row_stops(#[trigger] rest[i], strict);
            assert(rows[i] == rest[i]);
        } else {
            assert forall|i: int| 0 <= i < last implies !row_stops(
                #[trigger] rows[i],
                strict,
            ) by {
                assert(rows[i] == rest[i]);
            }
            assert(rows[last] == rows.last());
        }
    }
}

/// Gathers the rows of a load.
pub(crate) fn gather(rows: Vec<Row>, strict: bool) -> (result: Result<
    AHashMap<String, usize>,
    QueryError,
>)
    ensures
        gathered_outcome(result) == gathered(rows_view(rows@), strict),
{
    let ghost all = rows_view(rows@);
    let ghost listed = rows@;
    let mut map = no_positions();
    let mut at: usize = 0;
    proof {
        assert(listed.len() == rows.len());
        assert(positions(map) =~= Map::empty());
        assert(all.take(0) =~= Seq::empty());
    }
    for row in it: rows
        invariant
            it.seq() == listed,
            all == rows_view(listed),
            listed.len() <= usize::MAX,
            at == it.index(),
            first_stop(all.take(it.index()), strict) is None,
            positions(map) == row_positions(all.take(it.index())),
    {
        proof {
            assert(all.take(at + 1).drop_last() == all.take(at as int));
            assert(all.take(at + 1).last() == row@);
        }
        match row {
            Row::Failed(error) => {
                proof {
                    lemma_stop_stays(all, strict, at + 1);
                }
                return Err(error);
            },
            Row::Invalid(error) => {
                if strict {
                    proof {
                        lemma_stop_stays(all, strict, at + 1);
                    }
                    return Err(error);
                }
            },
            Row::Loaded(identifier) => {
                insert_position(&mut map, identifier, at);
            },
            _ => {},
        }
        at = at + 1;
    }
    assert(all.take(all.len() as int) == all);
    Ok(map)
}

/// Rows after one that stops a load change nothing.
pub proof fn lemma_stop_stays(rows: Seq<RowView>, strict: bool, len: int)
    requires
        0 <= len <= rows.len(),
        first_stop(rows.take(len), strict) is Some,
    ensures
        first_stop(rows, strict) == first_stop(rows.take(len), strict),
    decreases rows.len(),
{
    if len == rows.len() {
        assert(rows.take(len) == rows);
    } else {
        assert(rows.drop_last().take(len) == rows.take(len));
        lemma_stop_stays(rows.drop_last(), strict, len);
    }
}

impl RecordKind {
    /// The collection of this kind of record.
    fn collection(self) -> (name: &'static str)
        ensures
            name@ == kind_collection(self),
    {
        match self {
            RecordKind::Instrument => INSTRUMENTS,
            RecordKind::Synthetic => SYNTHETICS,
            RecordKind::Account => ACCOUNTS,
            RecordKind::Order => ORDERS,
            RecordKind::Position => POSITIONS,
        }
    }
}

impl DatabaseQueries {
    /// Begins a load of all instruments.
    pub fn load_instruments(trader_key: &str, encoding: SerializationEncoding) -> (load:
        CollectionLoad)
        ensures
            load@ == (LoadView { kind: RecordKind::Instrument, trader_key: trader_key@, encoding }),
    {
        CollectionLoad { kind: RecordKind::Instrument, trader_key: trader_key.to_owned(), encoding }
    }

    /// Begins a load of all synthetic instruments.
    pub fn load_synthetics(trader_key: &str, encoding: SerializationEncoding) -> (load:
        CollectionLoad)
        ensures
            load@ == (LoadView { kind: RecordKind::Synthetic, trader_key: trader_key@, encoding }),
    {
        CollectionLoad { kind: RecordKind::Synthetic, trader_key: trader_key.to_owned(), encoding }
    }

    /// Begins a load of all accounts.
    pub fn load_accounts(trader_key: &str, encoding: SerializationEncoding) -> (load:
        CollectionLoad)
        ensures
            load@ == (LoadView { kind: RecordKind::Account, trader_key: trader_key@, encoding }),
    {
        CollectionLoad { kind: RecordKind::Account, trader_key: trader_key.to_owned(), encoding }
    }

    /// Begins a load of all orders.
    pub fn load_orders(trader_key: &str, encoding: SerializationEncoding) -> (load: CollectionLoad)
        ensures
            load@ == (LoadView { kind: RecordKind::Order, trader_key: trader_key@, encoding }),
    {
        CollectionLoad { kind: RecordKind::Order, trader_key: trader_key.to_owned(), encoding }
    }

    /// Begins a load of all positions.
    pub fn load_positions(trader_key: &str, encoding: SerializationEncoding) -> (load:
        CollectionLoad)
        ensures
            load@ == (LoadView { kind: RecordKind::Position, trader_key: trader_key@, encoding }),
    {
        CollectionLoad { kind: RecordKind::Position, trader_key: trader_key.to_owned(), encoding }
    }
}

impl CollectionLoad {
    /// The key of the trader whose records are loaded.
    pub(crate) fn trader_key(&self) -> (key: &str)
        ensures
            key@ == self@.trader_key,
    {
        self.trader_key.as_str()
    }

    /// The scan that finds the keys of the records.
    pub fn scan(&self) -> (scan: KeyScan)
        ensures
            scan@ == scan_start(
                collection_pattern(self@.trader_key, kind_collection(self@.kind)),
            ),
    {
        DatabaseQueries::scan_keys(pattern_of(self.trader_key.as_str(), self.kind.collection()))
    }

    /// The step that reads the record of an identifier.
    fn fetch(&self, identifier: &str) -> (step: RowStep)
        ensures
            step@ == fetch_step(self@, identifier@),
    {
        let trader_key = self.trader_key.as_str();
        let plan = match self.kind {
            RecordKind::Instrument => DatabaseQueries::load_instrument(trader_key, identifier),
            RecordKind::Synthetic => DatabaseQueries::load_synthetic(trader_key, identifier),
            RecordKind::Account => DatabaseQueries::load_account(trader_key, identifier),
            RecordKind::Order => DatabaseQueries::load_order(trader_key, identifier),
            RecordKind::Position => DatabaseQueries::load_position(trader_key, identifier),
        };
        match plan {
            Ok(plan) => RowStep::Fetch { identifier: identifier.to_owned(), plan },
            Err(error) => RowStep::Done(Row::Failed(error)),
        }
    }

    /// The first step for a key of the scan.
    pub fn begin(&self, key: &str) -> (step: RowStep)
        ensures
            step@ == key_step(self@, key@),
    {
        match DatabaseQueries::record_id_from_scanned_key(
            key,
            self.trader_key.as_str(),
            self.kind.collection(),
        ) {
            None => RowStep::Done(Row::InvalidKey),
            Some(identifier) => match self.kind {
                RecordKind::Instrument | RecordKind::Synthetic => RowStep::Parse(
                    identifier.to_owned(),
                ),
                _ => self.fetch(identifier),
            },
        }
    }

    /// The step after a text was parsed: with the identifier that it is, where it is one.
    pub fn parsed(&self, identifier: Option<String>) -> (step: RowStep)
        ensures
            step@ == parsed_step(
                self@,
                (match identifier {
                    Some(id) => Some(id@),
                    None => None,
                }),
            ),
    {
        match identifier {
            None => RowStep::Done(Row::InvalidIdentifier),
            Some(id) => self.fetch(id.as_str()),
        }
    }

    /// The step after the store has answered with the payloads under the key of a record.
    pub fn fetched(&self, identifier: String, reply: Result<Vec<Bytes>, QueryError>) -> (step:
        RowStep)
        ensures
            step@ == fetched_step(self@, identifier@, reply_outcome(reply)),
    {
        let payloads = match reply {
            Ok(payloads) => payloads,
            Err(error) => {
                return RowStep::Done(Row::Failed(error));
            },
        };
        let document = match self.kind {
            RecordKind::Instrument => DatabaseQueries::load_instrument_reply(
                self.encoding,
                &payloads,
            ),
            RecordKind::Synthetic => DatabaseQueries::load_synthetic_reply(
                self.encoding,
                &payloads,
            ),
            RecordKind::Position => DatabaseQueries::load_position_reply(self.encoding, &payloads),
            RecordKind::Account => {
                return events_step(
                    identifier,
                    DatabaseQueries::load_account_reply(self.encoding, &payloads),
                );
            },
            RecordKind::Order => {
                return events_step(
                    identifier,
                    DatabaseQueries::load_order_reply(self.encoding, &payloads),
                );
            },
        };
        match document {
            Ok(Some(document)) => {
                let mut documents: Vec<Json> = Vec::new();
                documents.push(document);
                let events = EventDocuments { documents, failure: None };
                assert(items_view(documents@) =~= seq![document@]);
                RowStep::Convert { identifier, events }
            },
            Ok(None) => RowStep::Done(Row::Missing),
            Err(error) => RowStep::Done(unreadable(error)),
        }
    }

    /// Where each record stands: `rows` are the rows in the order in which they were done.
    pub fn finish(self, rows: Vec<Row>) -> (result: Result<AHashMap<String, usize>, QueryError>)
        ensures
            gathered_outcome(result) == gathered(rows_view(rows@), false),
    {
        gather(rows, false)
    }
}

impl RowStep {
    /// The row after the documents of a `Convert` were turned into the record of its identifier, or
    /// could not be: `failure` is why not.
    pub fn converted(identifier: String, failure: Option<QueryError>) -> (row: Row)
        ensures
            row@ == converted_row(identifier@, failure_view(failure)),
    {
        match failure {
            Some(error) => unreadable(error),
            None => Row::Loaded(identifier),
        }
    }
}

/// The row of a payload that cannot be read.
pub(crate) fn unreadable(error: QueryError) -> (row: Row)
    ensures
        row@ == unreadable_row(error@),
{
    match error {
        QueryError::InvalidDateTime => Row::Failed(QueryError::InvalidDateTime),
        other => Row::Invalid(other),
    }
}

/// The step after the events of a record were read.
fn events_step(identifier: String, events: Option<EventDocuments>) -> (step: RowStep)
    ensures
        step@ == (match events {
            Some(e) => StepView::Convert { identifier: identifier@, events: e@ },
            None => StepView::Done(RowView::Missing),
        }),
{
    match events {
        Some(events) => RowStep::Convert { identifier, events },
        None => RowStep::Done(Row::Missing),
    }
}

} // verus!
