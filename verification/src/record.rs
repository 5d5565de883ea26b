//! Single records: the key under which a record stands, and the documents in what is read there.

use bytes::Bytes;
use vstd::prelude::*;

use crate::error::{outcome, ErrorView, QueryError};
use crate::json::{items_view, lemma_items_push, Json, JsonView};
use crate::keys::{
    join, joined, joined_key_has_collection, record_key, DatabaseQueries, ACCOUNTS, ACTORS,
    CURRENCIES, GENERAL, INDEX, INSTRUMENTS, ORDERS, POSITIONS, REDIS_DELIMITER, STRATEGIES,
    SYNTHETICS,
};
use crate::outside::{buffer_bytes, buffers_view, bytes_view};
use crate::payload::{
    payload_document, payload_in_range, read_document, read_payload, SerializationEncoding,
};
use crate::read::{collection_method, read_plan, PlanView, ReadMethod, ReadPlan};

verus! {

/// The documents of the events that a record is made of, up to the first that cannot be read.
#[derive(Debug, PartialEq)]
pub struct EventDocuments {
    /// The documents, oldest first.
    pub documents: Vec<Json>,
    /// Why the event after them cannot be read.
    pub failure: Option<QueryError>,
}

/// What `EventDocuments` are.
#[verifier::ext_equal]
pub struct EventsView {
    pub documents: Seq<JsonView>,
    pub failure: Option<ErrorView>,
}

/// What a failure that may be missing is.
pub open spec fn failure_view(failure: Option<QueryError>) -> Option<ErrorView> {
    match failure {
        Some(error) => Some(error@),
        None => None,
    }
}

impl View for EventDocuments {
    type V = EventsView;

    open spec fn view(&self) -> EventsView {
        EventsView {
            documents: items_view(self.documents@),
            failure: failure_view(self.failure),
        }
    }
}

/// What the outcome of reading a document that may be missing is.
pub open spec fn found_outcome(result: Result<Option<Json>, QueryError>) -> Result<
    Option<JsonView>,
    ErrorView,
> {
    match result {
        Ok(Some(document)) => Ok(Some(document@)),
        Ok(None) => Ok(None),
        Err(error) => Err(error@),
    }
}

/// What the outcome of reading a record is: the document, that there is none, or the error, whichever
/// it is, left whole.
pub proof fn found_outcomes_are_whole(
    result: Result<Option<Json>, QueryError>,
    failure: Option<QueryError>,
)
    ensures
        match result {
            Ok(Some(document)) => found_outcome(result) matches Ok(Some(view)) && view
                == document@,
            Ok(None) => found_outcome(result) matches Ok(None),
            Err(error) => found_outcome(result) matches Err(view) && view == error@,
        },
        failure_view(failure) is Some <==> failure is Some,
        failure matches Some(error) ==> failure_view(failure) == Some(error@),
{
}

/// The document of one payload, as one that was found.
pub open spec fn found_document(encoding: SerializationEncoding, payload: Seq<u8>) -> Result<
    Option<JsonView>,
    ErrorView,
> {
    match read_payload(encoding, payload) {
        Ok(document) => Ok(Some(document)),
        Err(error) => Err(error),
    }
}

/// The document of a record that stands in one payload: of the first one read.
pub open spec fn first_document(
    encoding: SerializationEncoding,
    payloads: Seq<Seq<u8>>,
) -> Result<Option<JsonView>, ErrorView> {
    if payloads.len() == 0 {
        Ok(None)
    } else {
        found_document(encoding, payloads[0])
    }
}

/// The document of a record of which each payload is a later state: of the last one read.
pub open spec fn last_document(
    encoding: SerializationEncoding,
    payloads: Seq<Seq<u8>>,
) -> Result<Option<JsonView>, ErrorView> {
    if payloads.len() == 0 {
        Ok(None)
    } else {
        found_document(encoding, payloads.last())
    }
}

/// The document of a currency: a null document is none.
pub open spec fn currency_document(
    encoding: SerializationEncoding,
    payloads: Seq<Seq<u8>>,
) -> Result<Option<JsonView>, ErrorView> {
    match first_document(encoding, payloads) {
        Ok(Some(JsonView::Null)) => Ok(None),
        found => found,
    }
}

/// The documents of the events in the given payloads, up to the first that cannot be read.
pub open spec fn event_documents(
    encoding: SerializationEncoding,
    payloads: Seq<Seq<u8>>,
) -> EventsView
    decreases payloads.len(),
{
    if payloads.len() == 0 {
        EventsView { documents: Seq::empty(), failure: None }
    } else {
        let before = event_documents(encoding, payloads.drop_last());
        if before.failure is Some {
            before
        } else {
            match read_payload(encoding, payloads.last()) {
                Ok(document) => EventsView {
                    documents: before.documents.push(document),
                    failure: None,
                },
                Err(error) => EventsView { documents: before.documents, failure: Some(error) },
            }
        }
    }
}

/// Why a record of events cannot be made: an event that was read and could not be converted stands
/// before one that could not be read.
pub open spec fn events_failure(
    conversion: Option<ErrorView>,
    failure: Option<ErrorView>,
) -> Option<ErrorView> {
    match conversion {
        Some(error) => Some(error),
        None => failure,
    }
}

/// All events of a record are read exactly where each of its payloads can be read, and then there
/// is one document of each, in order.
pub proof fn all_events_are_read(encoding: SerializationEncoding, payloads: Seq<Seq<u8>>)
    ensures
        event_documents(encoding, payloads).failure is None <==> (forall|i: int|
            0 <= i < payloads.len() ==> read_payload(encoding, #[trigger] payloads[i]) is Ok),
        event_documents(encoding, payloads).failure is None ==> event_documents(
            encoding,
            payloads,
        ).documents.len() == payloads.len(),
        event_documents(encoding, payloads).documents.len() <= payloads.len(),
        forall|i: int|
            0 <= i < event_documents(encoding, payloads).documents.len() ==> (read_payload(
                encoding,
                payloads[i],
            ) matches Ok(document) && document == #[trigger] event_documents(
                encoding,
                payloads,
            ).documents[i]),
    decreases payloads.len(),
{
    if payloads.len() > 0 {
        let rest = payloads.drop_last();
        all_events_are_read(encoding, rest);
        let last = payloads.len() - 1;
        if event_documents(encoding, rest).failure is Some {
            let i = choose|i: int|
                0 <= i < rest.len() && !(read_payload(encoding, #[trigger] rest[i]) is Ok);
            assert(payloads[i] == rest[i]);
        } else {
            assert forall|i: int| 0 <= i < last implies read_payload(
                encoding,
                #[trigger] payloads[i],
            ) is Ok by {
                assert(payloads[i] == rest[i]);
            }
            assert(payloads[last] == payloads.last());
        }
        assert forall|i: int| 0 <= i < event_documents(encoding, payloads).documents.len() implies (
        read_payload(encoding, payloads[i]) matches Ok(document) && document
            == #[trigger] event_documents(encoding, payloads).documents[i]) by {
            if i < event_documents(encoding, rest).documents.len() {
                assert(payloads[i] == rest[i]);
                assert(event_documents(encoding, payloads).documents[i] == event_documents(
                    encoding,
                    rest,
                ).documents[i]);
            }
        }
    }
}

/// Where the events of a record are cut short, the first event without a document is the one that
/// cannot be read, and its error is told.
pub proof fn first_broken_event_is_told(encoding: SerializationEncoding, payloads: Seq<Seq<u8>>)
    ensures
        event_documents(encoding, payloads).failure matches Some(error) ==> event_documents(
            encoding,
            payloads,
        ).documents.len() < payloads.len() && (read_payload(
            encoding,
            payloads[event_documents(encoding, payloads).documents.len() as int],
        ) matches Err(reason) && reason == error),
    decreases payloads.len(),
{
    if payloads.len() > 0 {
        let rest = payloads.drop_last();
        first_broken_event_is_told(encoding, rest);
        all_events_are_read(encoding, rest);
    }
}

/// A position is what its last payload says, whatever stands before it, in either encoding: a
/// payload with a document gives that document, a broken one its error. Without payloads there is
/// no position.
pub proof fn position_is_its_last_state(
    encoding: SerializationEncoding,
    earlier: Seq<Seq<u8>>,
    payload: Seq<u8>,
)
    ensures
        read_payload(encoding, payload) matches Ok(document) ==> (last_document(
            encoding,
            earlier.push(payload),
        ) matches Ok(Some(found)) && found == document),
        read_payload(encoding, payload) matches Err(error) ==> (last_document(
            encoding,
            earlier.push(payload),
        ) matches Err(reason) && reason == error),
        last_document(encoding, earlier.push(payload)) == last_document(encoding, seq![payload]),
        last_document(encoding, Seq::empty()) matches Ok(None),
{
    assert(earlier.push(payload).last() == payload);
    assert(seq![payload].last() == payload);
}

/// A record that stands in one value is what its first payload says, whatever follows it: a payload
/// with a document gives that document, a broken one its error. Without payloads there is no
/// record.
pub proof fn value_is_its_first_payload(
    encoding: SerializationEncoding,
    payload: Seq<u8>,
    later: Seq<Seq<u8>>,
)
    ensures
        read_payload(encoding, payload) matches Ok(document) ==> (first_document(
            encoding,
            seq![payload] + later,
        ) matches Ok(Some(found)) && found == document),
        read_payload(encoding, payload) matches Err(error) ==> (first_document(
            encoding,
            seq![payload] + later,
        ) matches Err(reason) && reason == error),
        first_document(encoding, Seq::empty()) matches Ok(None),
{
    assert((seq![payload] + later)[0] == payload);
}

/// A currency is what its first payload says; it is missing exactly where there is no payload or
/// the payload is null.
pub proof fn currency_is_its_first_payload(
    encoding: SerializationEncoding,
    payload: Seq<u8>,
    later: Seq<Seq<u8>>,
)
    ensures
        read_payload(encoding, payload) matches Ok(document) ==> (match currency_document(
            encoding,
            seq![payload] + later,
        ) {
            Ok(Some(found)) => found == document && !(document is Null),
            Ok(None) => document is Null,
            Err(_) => false,
        }),
        read_payload(encoding, payload) matches Err(error) ==> (currency_document(
            encoding,
            seq![payload] + later,
        ) matches Err(reason) && reason == error),
        currency_document(encoding, Seq::empty()) matches Ok(None),
{
    assert((seq![payload] + later)[0] == payload);
}

/// What was written of a record is what is read of it: a payload whose document is `document` makes
/// the single value, the last state, and the only event.
pub proof fn written_records_are_read(
    encoding: SerializationEncoding,
    payload: Seq<u8>,
    document: JsonView,
    earlier: Seq<Seq<u8>>,
)
    requires
        payload_in_range(encoding, payload),
        payload_document(encoding, payload) matches Ok(d) && d == document,
    ensures
        first_document(encoding, seq![payload]) matches Ok(Some(found)) && found == document,
        last_document(encoding, earlier.push(payload)) matches Ok(Some(found)) && found == document,
        event_documents(encoding, seq![payload]).documents == seq![document],
        event_documents(encoding, seq![payload]).failure is None,
{
    assert(earlier.push(payload).last() == payload);
    let events = event_documents(encoding, seq![payload]);
    assert(seq![payload].drop_last() =~= Seq::empty());
    assert(event_documents(encoding, Seq::empty()).documents =~= Seq::empty());
    assert(event_documents(encoding, Seq::empty()).failure is None);
    assert(events.documents =~= seq![document]);
}

/// An event that was added to those that can all be read is read after them, and a broken one is
/// told with all of them read.
pub proof fn events_are_read_one_by_one(
    encoding: SerializationEncoding,
    earlier: Seq<Seq<u8>>,
    payload: Seq<u8>,
)
    ensures
        event_documents(encoding, earlier).failure is Some ==> event_documents(
            encoding,
            earlier.push(payload),
        ) == event_documents(encoding, earlier),
        event_documents(encoding, earlier).failure is None ==> (match read_payload(
            encoding,
            payload,
        ) {
            Ok(document) => event_documents(encoding, earlier.push(payload)).failure is None
                && event_documents(encoding, earlier.push(payload)).documents == event_documents(
                encoding,
                earlier,
            ).documents.push(document),
            Err(error) => event_documents(encoding, earlier.push(payload)).failure == Some(error)
                && event_documents(encoding, earlier.push(payload)).documents == event_documents(
                encoding,
                earlier,
            ).documents,
        }),
{
    assert(earlier.push(payload).drop_last() =~= earlier);
}

/// A record of events has no failure exactly where no event failed to be read or converted; a
/// failed conversion is told rather than a later event that cannot be read.
pub proof fn no_failure_is_passed_over(
    conversion: Option<ErrorView>,
    failure: Option<ErrorView>,
)
    ensures
        events_failure(conversion, failure) is None <==> conversion is None && failure is None,
        conversion is Some ==> events_failure(conversion, failure) == conversion,
        conversion is None ==> events_failure(conversion, failure) == failure,
{
}

/// A record of any collection that can be read is read under its own key.
pub proof fn records_can_be_read(
    trader_key: Seq<char>,
    collection: Seq<char>,
    identifier: Seq<char>,
)
    requires
        collection_method(collection) is Some,
    ensures
        read_plan(trader_key, joined(collection, identifier)) matches Ok(plan) && plan == (
        PlanView {
            method: collection_method(collection)->0,
            key: record_key(trader_key, collection, identifier),
        }),
{
    reveal_strlit("index");
    reveal_strlit("general");
    reveal_strlit("currencies");
    reveal_strlit("instruments");
    reveal_strlit("synthetics");
    reveal_strlit("accounts");
    reveal_strlit("orders");
    reveal_strlit("positions");
    reveal_strlit("actors");
    reveal_strlit("strategies");
    assert(!collection.contains(REDIS_DELIMITER));
    joined_key_has_collection(collection, identifier);
    assert(collection != INDEX@) by {
        assert(INDEX@.len() == 5);
    }
}

/// The collections that hold lists are none of those that hold single values.
pub proof fn lemma_list_collections()
    ensures
        collection_method(ACCOUNTS@) == Some(ReadMethod::Elements),
        collection_method(ORDERS@) == Some(ReadMethod::Elements),
        collection_method(POSITIONS@) == Some(ReadMethod::Elements),
{
    reveal_strlit("general");
    reveal_strlit("currencies");
    reveal_strlit("instruments");
    reveal_strlit("synthetics");
    reveal_strlit("accounts");
    reveal_strlit("orders");
    reveal_strlit("positions");
    reveal_strlit("actors");
    reveal_strlit("strategies");
    assert(GENERAL@.len() == 7 && CURRENCIES@.len() == 10 && INSTRUMENTS@.len() == 11);
    assert(SYNTHETICS@.len() == 10 && ACTORS@.len() == 6 && STRATEGIES@.len() == 10);
    assert(ACCOUNTS@.len() == 8 && POSITIONS@.len() == 9);
    assert(ORDERS@[0] == 'o' && ACTORS@[0] == 'a');
}

/// How a record is read.
fn plan_record(trader_key: &str, collection: &str, identifier: &str) -> (plan: Result<
    ReadPlan,
    QueryError,
>)
    requires
        collection_method(collection@) is Some,
    ensures
        plan matches Ok(p) && p@ == (PlanView {
            method: collection_method(collection@)->0,
            key: record_key(trader_key@, collection@, identifier@),
        }),
{
    proof {
        records_can_be_read(trader_key@, collection@, identifier@);
    }
    DatabaseQueries::read(trader_key, join(collection, identifier).as_str())
}

/// The document of one payload, as one that was found.
fn read_found(encoding: SerializationEncoding, payload: &Bytes) -> (document: Result<
    Option<Json>,
    QueryError,
>)
    ensures
        found_outcome(document) == found_document(encoding, bytes_view(*payload)),
{
    match read_document(encoding, buffer_bytes(payload)) {
        Ok(document) => Ok(Some(document)),
        Err(error) => Err(error),
    }
}

/// The document of the first payload, where there is one.
fn read_first(encoding: SerializationEncoding, payloads: &Vec<Bytes>) -> (document: Result<
    Option<Json>,
    QueryError,
>)
    ensures
        found_outcome(document) == first_document(encoding, buffers_view(payloads@)),
{
    if payloads.is_empty() {
        Ok(None)
    } else {
        read_found(encoding, &payloads[0])
    }
}

/// The documents of the events in the given payloads, where there are any.
fn read_events(encoding: SerializationEncoding, payloads: &Vec<Bytes>) -> (events: Option<
    EventDocuments,
>)
    ensures
        match events {
            Some(e) => payloads@.len() > 0 && e@ == event_documents(
                encoding,
                buffers_view(payloads@),
            ),
            None => payloads@.len() == 0,
        },
{
    if payloads.is_empty() {
        return None;
    }
    let ghost all = buffers_view(payloads@);
    let mut documents: Vec<Json> = Vec::new();
    for i in 0..payloads.len()
        invariant
            all == buffers_view(payloads@),
            payloads@.len() > 0,
            event_documents(encoding, all.take(i as int)) == (EventsView {
                documents: items_view(documents@),
                failure: None,
            }),
    {
        proof {
            assert(all.take(i + 1).drop_last() == all.take(i as int));
            lemma_items_push(documents@);
        }
        match read_document(encoding, buffer_bytes(&payloads[i])) {
            Ok(document) => {
                documents.push(document);
            },
            Err(error) => {
                let events = EventDocuments { documents, failure: Some(error) };
                proof {
                    lemma_failure_stays(encoding, all, i + 1);
                }
                return Some(events);
            },
        }
    }
    assert(all.take(all.len() as int) == all);
    Some(EventDocuments { documents, failure: None })
}

/// Events after one that cannot be read change nothing.
proof fn lemma_failure_stays(encoding: SerializationEncoding, payloads: Seq<Seq<u8>>, len: int)
    requires
        0 <= len <= payloads.len(),
        event_documents(encoding, payloads.take(len)).failure is Some,
    ensures
        event_documents(encoding, payloads) == event_documents(encoding, payloads.take(len)),
    decreases payloads.len(),
{
    if len == payloads.len() {
        assert(payloads.take(len) == payloads);
    } else {
        assert(payloads.drop_last().take(len) == payloads.take(len));
        lemma_failure_stays(encoding, payloads.drop_last(), len);
    }
}

impl EventDocuments {
    /// Why the record of these events cannot be made: `conversion` is why one of the documents could
    /// not be converted, and `failure` is that of the documents.
    pub fn failure_after(conversion: Option<QueryError>, failure: Option<QueryError>) -> (error:
        Option<QueryError>)
        ensures
            failure_view(error) == events_failure(failure_view(conversion), failure_view(failure)),
    {
        match conversion {
            Some(error) => Some(error),
            None => failure,
        }
    }
}

impl DatabaseQueries {
    /// How a currency is read.
    pub fn load_currency(trader_key: &str, code: &str) -> (plan: Result<ReadPlan, QueryError>)
        ensures
            plan matches Ok(p) && p@ == (PlanView {
                method: ReadMethod::Value,
                key: record_key(trader_key@, CURRENCIES@, code@),
            }),
    {
        plan_record(trader_key, CURRENCIES, code)
    }

    /// The document of a currency in what was read.
    pub fn load_currency_reply(encoding: SerializationEncoding, payloads: &Vec<Bytes>) -> (document:
        Result<Option<Json>, QueryError>)
        ensures
            found_outcome(document) == currency_document(encoding, buffers_view(payloads@)),
    {
        match read_first(encoding, payloads) {
            Ok(Some(Json::Null)) => Ok(None),
            found => found,
        }
    }

    /// How an instrument is read.
    pub fn load_instrument(trader_key: &str, instrument_id: &str) -> (plan: Result<
        ReadPlan,
        QueryError,
    >)
        ensures
            plan matches Ok(p) && p@ == (PlanView {
                method: ReadMethod::Value,
                key: record_key(trader_key@, INSTRUMENTS@, instrument_id@),
            }),
    {
        plan_record(trader_key, INSTRUMENTS, instrument_id)
    }

    /// The document of an instrument in what was read.
    pub fn load_instrument_reply(encoding: SerializationEncoding, payloads: &Vec<Bytes>) -> (
        document: Result<Option<Json>, QueryError>)
        ensures
            found_outcome(document) == first_document(encoding, buffers_view(payloads@)),
    {
        read_first(encoding, payloads)
    }

    /// How a synthetic instrument is read.
    pub fn load_synthetic(trader_key: &str, instrument_id: &str) -> (plan: Result<
        ReadPlan,
        QueryError,
    >)
        ensures
            plan matches Ok(p) && p@ == (PlanView {
                method: ReadMethod::Value,
                key: record_key(trader_key@, SYNTHETICS@, instrument_id@),
            }),
    {
        plan_record(trader_key, SYNTHETICS, instrument_id)
    }

    /// The document of a synthetic instrument in what was read.
    pub fn load_synthetic_reply(encoding: SerializationEncoding, payloads: &Vec<Bytes>) -> (document:
        Result<Option<Json>, QueryError>)
        ensures
            found_outcome(document) == first_document(encoding, buffers_view(payloads@)),
    {
        read_first(encoding, payloads)
    }

    /// How an account is read.
    pub fn load_account(trader_key: &str, account_id: &str) -> (plan: Result<ReadPlan, QueryError>)
        ensures
            plan matches Ok(p) && p@ == (PlanView {
                method: ReadMethod::Elements,
                key: record_key(trader_key@, ACCOUNTS@, account_id@),
            }),
    {
        proof {
            lemma_list_collections();
        }
        plan_record(trader_key, ACCOUNTS, account_id)
    }

    /// The documents of the events of an account in what was read.
    pub fn load_account_reply(encoding: SerializationEncoding, payloads: &Vec<Bytes>) -> (events:
        Option<EventDocuments>)
        ensures
            match events {
                Some(e) => payloads@.len() > 0 && e@ == event_documents(
                    encoding,
                    buffers_view(payloads@),
                ),
                None => payloads@.len() == 0,
            },
    {
        read_events(encoding, payloads)
    }

    /// How an order is read.
    pub fn load_order(trader_key: &str, client_order_id: &str) -> (plan: Result<
        ReadPlan,
        QueryError,
    >)
        ensures
            plan matches Ok(p) && p@ == (PlanView {
                method: ReadMethod::Elements,
                key: record_key(trader_key@, ORDERS@, client_order_id@),
            }),
    {
        proof {
            lemma_list_collections();
        }
        plan_record(trader_key, ORDERS, client_order_id)
    }

    /// The documents of the events of an order in what was read.
    pub fn load_order_reply(encoding: SerializationEncoding, payloads: &Vec<Bytes>) -> (events:
        Option<EventDocuments>)
        ensures
            match events {
                Some(e) => payloads@.len() > 0 && e@ == event_documents(
                    encoding,
                    buffers_view(payloads@),
                ),
                None => payloads@.len() == 0,
            },
    {
        read_events(encoding, payloads)
    }

    /// How a position is read.
    pub fn load_position(trader_key: &str, position_id: &str) -> (plan: Result<
        ReadPlan,
        QueryError,
    >)
        ensures
            plan matches Ok(p) && p@ == (PlanView {
                method: ReadMethod::Elements,
                key: record_key(trader_key@, POSITIONS@, position_id@),
            }),
    {
        proof {
            lemma_list_collections();
        }
        plan_record(trader_key, POSITIONS, position_id)
    }

    /// The document of a position in what was read: each update of a position adds its full state,
    /// so the last payload counts.
    pub fn load_position_reply(encoding: SerializationEncoding, payloads: &Vec<Bytes>) -> (document:
        Result<Option<Json>, QueryError>)
        ensures
            found_outcome(document) == last_document(encoding, buffers_view(payloads@)),
    {
        if payloads.is_empty() {
            Ok(None)
        } else {
            read_found(encoding, &payloads[payloads.len() - 1])
        }
    }
}

} // verus!
