//! Reads: how a key is asked for, and what the replies of the store come to.

use bytes::Bytes;
use vstd::prelude::*;

use crate::error::{outcome, ErrorView, QueryError};
use crate::json::{fields_view, value_from_json, Json, JsonView};
use crate::keys::{
    collection_of, collection_stands_before_the_first_colon, join, joined,
    joined_key_has_collection, DatabaseQueries, ACCOUNTS, ACTORS, CURRENCIES, GENERAL, INDEX,
    INDEX_ORDERS, INDEX_ORDERS_CLOSED, INDEX_ORDERS_EMULATED, INDEX_ORDERS_INFLIGHT,
    INDEX_ORDERS_OPEN, INDEX_ORDER_CLIENT, INDEX_ORDER_IDS, INDEX_ORDER_POSITION, INDEX_POSITIONS,
    INDEX_POSITIONS_CLOSED, INDEX_POSITIONS_OPEN, INSTRUMENTS, ORDERS, POSITIONS, STRATEGIES,
    SYNTHETICS,
};
use crate::outside::{buffer_from, buffers_view, bytes_view, found_buffers_view};
use crate::payload::{
    encode_json, json_decoded, json_encoded, keeps, keeps_within, SerializationEncoding,
};
use crate::record::lemma_list_collections;
use crate::text::{same_text, texts_view};

verus! {

/// How a key is asked for.
#[derive(Clone, Copy, Debug, PartialEq, Eq, Structural)]
pub enum ReadMethod {
    /// One value: `GET`.
    Value,
    /// All elements of a list: `LRANGE` from first to last.
    Elements,
    /// All members of a set: `SMEMBERS`.
    Members,
    /// All fields of a hash: `HGETALL`.
    Fields,
}

/// One read of the store.
#[derive(Debug, PartialEq)]
pub struct ReadPlan {
    /// How the key is asked for.
    pub method: ReadMethod,
    /// The full key.
    pub key: String,
}

/// What a `ReadPlan` is.
pub struct PlanView {
    pub method: ReadMethod,
    pub key: Seq<char>,
}

impl View for ReadPlan {
    type V = PlanView;

    open spec fn view(&self) -> PlanView {
        PlanView { method: self.method, key: self.key@ }
    }
}

/// How an index is asked for; `None` of an unknown one.
pub open spec fn index_method(index_key: Seq<char>) -> Option<ReadMethod> {
    if index_key == INDEX_ORDER_POSITION@ || index_key == INDEX_ORDER_CLIENT@ {
        Some(ReadMethod::Fields)
    } else if index_key == INDEX_ORDER_IDS@ || index_key == INDEX_ORDERS@ || index_key
        == INDEX_ORDERS_OPEN@ || index_key == INDEX_ORDERS_CLOSED@ || index_key
        == INDEX_ORDERS_EMULATED@ || index_key == INDEX_ORDERS_INFLIGHT@ || index_key
        == INDEX_POSITIONS@ || index_key == INDEX_POSITIONS_OPEN@ || index_key
        == INDEX_POSITIONS_CLOSED@ {
        Some(ReadMethod::Members)
    } else {
        None
    }
}

/// How the records of a collection other than the indexes are asked for; `None` of one that cannot
/// be read.
pub open spec fn collection_method(collection: Seq<char>) -> Option<ReadMethod> {
    if collection == GENERAL@ || collection == CURRENCIES@ || collection == INSTRUMENTS@
        || collection == SYNTHETICS@ || collection == ACTORS@ || collection == STRATEGIES@ {
        Some(ReadMethod::Value)
    } else if collection == ACCOUNTS@ || collection == ORDERS@ || collection == POSITIONS@ {
        Some(ReadMethod::Elements)
    } else {
        None
    }
}

/// How the key of a trader is read, or why it is not.
pub open spec fn read_plan(trader_key: Seq<char>, key: Seq<char>) -> Result<PlanView, ErrorView> {
    match collection_of(key) {
        None => Err(ErrorView::MissingDelimiter(key)),
        Some(collection) => if collection == INDEX@ {
            match index_method(key) {
                Some(method) => Ok(PlanView { method, key: joined(trader_key, key) }),
                None => Err(ErrorView::UnknownIndex(key)),
            }
        } else {
            match collection_method(collection) {
                Some(method) => Ok(PlanView { method, key: joined(trader_key, key) }),
                None => Err(ErrorView::UnsupportedCollection(collection)),
            }
        },
    }
}

/// The JSON object whose fields are the given pairs of texts.
pub open spec fn text_fields(pairs: Seq<(String, String)>) -> Map<Seq<char>, JsonView>
    decreases pairs.len(),
{
    if pairs.len() == 0 {
        Map::empty()
    } else {
        text_fields(pairs.drop_last()).insert(pairs.last().0@, JsonView::Text(pairs.last().1@))
    }
}

/// All fields of an object made of texts are texts.
proof fn lemma_text_fields(pairs: Seq<(String, String)>)
    ensures
        forall|key: Seq<char>| #[trigger]
            text_fields(pairs).dom().contains(key) ==> text_fields(pairs)[key] is Text,
    decreases pairs.len(),
{
    if pairs.len() > 0 {
        lemma_text_fields(pairs.drop_last());
    }
}

/// The bytes of a value that may be missing.
pub open spec fn found_bytes(value: Option<Vec<u8>>) -> Option<Seq<u8>> {
    match value {
        Some(bytes) => Some(bytes@),
        None => None,
    }
}

/// The bytes of each value of a reply.
pub open spec fn reply_view(reply: Seq<Option<Vec<u8>>>) -> Seq<Option<Seq<u8>>> {
    Seq::new(reply.len(), |i: int| found_bytes(reply[i]))
}

/// The values of several replies, one reply after the other.
pub open spec fn replies_view(replies: Seq<Vec<Option<Vec<u8>>>>) -> Seq<Option<Seq<u8>>>
    decreases replies.len(),
{
    if replies.len() == 0 {
        Seq::empty()
    } else {
        replies_view(replies.drop_last()) + reply_view(replies.last()@)
    }
}

/// The keys in batches of `size`, the last of which may be smaller.
pub open spec fn batches(keys: Seq<Seq<char>>, size: nat) -> Seq<Seq<Seq<char>>>
    decreases keys.len(),
{
    if size == 0 || keys.len() == 0 {
        Seq::empty()
    } else if keys.len() <= size {
        seq![keys]
    } else {
        seq![keys.take(size as int)] + batches(keys.skip(size as int), size)
    }
}

/// What the store holds under each of the given keys.
pub open spec fn looked_up(
    store: spec_fn(Seq<char>) -> Option<Seq<u8>>,
    keys: Seq<Seq<char>>,
) -> Seq<Option<Seq<u8>>> {
    Seq::new(keys.len(), |i: int| store(keys[i]))
}

/// What the store holds under the keys of each batch, one batch after the other.
pub open spec fn looked_up_in_batches(
    store: spec_fn(Seq<char>) -> Option<Seq<u8>>,
    lists: Seq<Seq<Seq<char>>>,
) -> Seq<Option<Seq<u8>>>
    decreases lists.len(),
{
    if lists.len() == 0 {
        Seq::empty()
    } else {
        looked_up(store, lists.first()) + looked_up_in_batches(store, lists.drop_first())
    }
}

/// Reading keys in batches gives what reading them at once gives, key by key.
pub proof fn batches_read_the_same(
    store: spec_fn(Seq<char>) -> Option<Seq<u8>>,
    keys: Seq<Seq<char>>,
    size: nat,
)
    requires
        size > 0,
    ensures
        looked_up_in_batches(store, batches(keys, size)) == looked_up(store, keys),
    decreases keys.len(),
{
    let lists = batches(keys, size);
    if keys.len() == 0 {
        assert(looked_up(store, keys) =~= Seq::empty());
    } else if keys.len() <= size {
        assert(lists.drop_first() =~= Seq::empty());
        assert(looked_up_in_batches(store, lists.drop_first()) =~= Seq::empty());
        assert(looked_up_in_batches(store, lists) =~= looked_up(store, keys));
    } else {
        batches_read_the_same(store, keys.skip(size as int), size);
        assert(lists.drop_first() =~= batches(keys.skip(size as int), size));
        assert(lists.first() == keys.take(size as int));
        assert(looked_up_in_batches(store, lists) =~= looked_up(store, keys));
    }
}

/// No batch is empty or larger than asked for, and all but the last are exactly as large.
pub proof fn batches_are_full(keys: Seq<Seq<char>>, size: nat, i: int)
    requires
        size > 0,
        0 <= i < batches(keys, size).len(),
    ensures
        0 < batches(keys, size)[i].len() <= size,
        i < batches(keys, size).len() - 1 ==> batches(keys, size)[i].len() == size,
    decreases keys.len(),
{
    if keys.len() > size && i > 0 {
        batches_are_full(keys.skip(size as int), size, i - 1);
    }
}

/// The batches hold all keys and no others, in their order.
pub proof fn batches_are_the_keys_in_a_row(keys: Seq<Seq<char>>, size: nat)
    requires
        size > 0,
    ensures
        batches(keys, size).flatten() == keys,
    decreases keys.len(),
{
    let lists = batches(keys, size);
    if keys.len() == 0 {
        assert(lists.flatten() =~= keys);
    } else if keys.len() <= size {
        lists.lemma_flatten_one_element();
    } else {
        batches_are_the_keys_in_a_row(keys.skip(size as int), size);
        assert(lists.drop_first() =~= batches(keys.skip(size as int), size));
        assert(lists.first() == keys.take(size as int));
        assert(lists.flatten() =~= keys);
    }
}

/// The values of several replies stand one reply after the other, each value in its place.
pub proof fn replies_stand_in_a_row(replies: Seq<Vec<Option<Vec<u8>>>>)
    ensures
        replies_view(replies) == replies.map_values(
            |reply: Vec<Option<Vec<u8>>>| reply_view(reply@),
        ).flatten(),
    decreases replies.len(),
{
    let lists = replies.map_values(|reply: Vec<Option<Vec<u8>>>| reply_view(reply@));
    lists.lemma_flatten_and_flatten_alt_are_equivalent();
    if replies.len() > 0 {
        let rest = replies.drop_last();
        let earlier = rest.map_values(|reply: Vec<Option<Vec<u8>>>| reply_view(reply@));
        replies_stand_in_a_row(rest);
        earlier.lemma_flatten_and_flatten_alt_are_equivalent();
        assert(lists.drop_last() =~= earlier);
        assert(lists.last() == reply_view(replies.last()@));
    }
}

/// What a value of a reply is, value by value: a reply has as many, in the same places, and a value
/// that was found has all its bytes.
pub proof fn values_keep_their_places(reply: Seq<Option<Vec<u8>>>, i: int)
    requires
        0 <= i < reply.len(),
    ensures
        reply_view(reply).len() == reply.len(),
        reply_view(reply)[i] is Some <==> reply[i] is Some,
        reply[i] matches Some(bytes) ==> reply_view(reply)[i] == Some(bytes@),
{
}

/// The object of a hash has exactly the fields of the hash, each with the text of its last pair.
pub proof fn hash_fields_are_all_there(pairs: Seq<(String, String)>, key: Seq<char>)
    ensures
        text_fields(pairs).dom().contains(key) <==> exists|i: int|
            0 <= i < pairs.len() && (#[trigger] pairs[i]).0@ == key,
        text_fields(pairs).dom().contains(key) ==> exists|i: int|
            0 <= i < pairs.len() && (#[trigger] pairs[i]).0@ == key && text_fields(pairs)[key]
                == JsonView::Text(pairs[i].1@) && forall|j: int|
                i < j < pairs.len() ==> (#[trigger] pairs[j]).0@ != key,
    decreases pairs.len(),
{
    if pairs.len() > 0 {
        let rest = pairs.drop_last();
        let last = pairs.len() - 1;
        hash_fields_are_all_there(rest, key);
        assert(forall|i: int| 0 <= i < last ==> #[trigger] pairs[i] == rest[i]);
        assert(forall|i: int| 0 <= i < last ==> #[trigger] rest[i] == pairs[i]);
        assert(pairs[last] == pairs.last());
        if pairs[last].0@ != key && text_fields(pairs).dom().contains(key) {
            let i = choose|i: int|
                0 <= i < rest.len() && (#[trigger] rest[i]).0@ == key && text_fields(rest)[key]
                    == JsonView::Text(rest[i].1@) && forall|j: int|
                    i < j < rest.len() ==> (#[trigger] rest[j]).0@ != key;
            assert(pairs[i] == rest[i]);
        }
    }
}

/// The collections that can be read, by their names, and how each is read.
pub proof fn readable_collections(collection: Seq<char>)
    ensures
        collection_method(collection) == Some(ReadMethod::Value) <==> seq![
            "general"@,
            "currencies"@,
            "instruments"@,
            "synthetics"@,
            "actors"@,
            "strategies"@,
        ].contains(collection),
        collection_method(collection) == Some(ReadMethod::Elements) <==> seq![
            "accounts"@,
            "orders"@,
            "positions"@,
        ].contains(collection),
        collection_method(collection) != Some(ReadMethod::Members),
        collection_method(collection) != Some(ReadMethod::Fields),
{
    lemma_list_collections();
    let values = seq![
        "general"@,
        "currencies"@,
        "instruments"@,
        "synthetics"@,
        "actors"@,
        "strategies"@,
    ];
    let lists = seq!["accounts"@, "orders"@, "positions"@];
    assert(values[0] == GENERAL@ && values[1] == CURRENCIES@ && values[2] == INSTRUMENTS@);
    assert(values[3] == SYNTHETICS@ && values[4] == ACTORS@ && values[5] == STRATEGIES@);
    assert(lists[0] == ACCOUNTS@ && lists[1] == ORDERS@ && lists[2] == POSITIONS@);
}

/// The indexes that can be read, by their names, and how each is read: those of pairs as hashes, and
/// all others as sets.
pub proof fn readable_indexes(index_key: Seq<char>)
    ensures
        index_method(index_key) == Some(ReadMethod::Fields) <==> seq![
            "index:order_position"@,
            "index:order_client"@,
        ].contains(index_key),
        index_method(index_key) == Some(ReadMethod::Members) <==> seq![
            "index:order_ids"@,
            "index:orders"@,
            "index:orders_open"@,
            "index:orders_closed"@,
            "index:orders_emulated"@,
            "index:orders_inflight"@,
            "index:positions"@,
            "index:positions_open"@,
            "index:positions_closed"@,
        ].contains(index_key),
        index_method(index_key) != Some(ReadMethod::Value),
        index_method(index_key) != Some(ReadMethod::Elements),
{
    lemma_index_names();
    let hashes = seq!["index:order_position"@, "index:order_client"@];
    let sets = seq![
        "index:order_ids"@,
        "index:orders"@,
        "index:orders_open"@,
        "index:orders_closed"@,
        "index:orders_emulated"@,
        "index:orders_inflight"@,
        "index:positions"@,
        "index:positions_open"@,
        "index:positions_closed"@,
    ];
    assert(hashes[0] == INDEX_ORDER_POSITION@ && hashes[1] == INDEX_ORDER_CLIENT@);
    assert(sets[0] == INDEX_ORDER_IDS@ && sets[1] == INDEX_ORDERS@);
    assert(sets[2] == INDEX_ORDERS_OPEN@);
    assert(sets[3] == INDEX_ORDERS_CLOSED@ && sets[4] == INDEX_ORDERS_EMULATED@);
    assert(sets[5] == INDEX_ORDERS_INFLIGHT@ && sets[6] == INDEX_POSITIONS@);
    assert(sets[7] == INDEX_POSITIONS_OPEN@ && sets[8] == INDEX_POSITIONS_CLOSED@);
}

/// A key that is read is read under the trader's key joined to it, by a method that does not depend
/// on the trader; whether a key is read, and why it is not, does not depend on the trader either.
pub proof fn keys_are_read_under_their_trader(a: Seq<char>, b: Seq<char>, key: Seq<char>)
    ensures
        read_plan(a, key) matches Ok(plan) ==> plan.key == joined(a, key) && (read_plan(
            b,
            key,
        ) matches Ok(other) && other.method == plan.method),
        read_plan(a, key) matches Err(error) ==> (read_plan(b, key) matches Err(other) && other
            == error),
{
}

/// A key without a colon is refused; a key of a collection other than the indexes is read by the
/// method of the collection, whatever follows its name, and refused where it has none.
pub proof fn keys_are_read_by_their_collection(
    trader_key: Seq<char>,
    collection: Seq<char>,
    rest: Seq<char>,
)
    requires
        !collection.contains(':'),
    ensures
        read_plan(trader_key, collection) matches Err(error) && error
            == ErrorView::MissingDelimiter(collection),
        collection != "index"@ ==> (match collection_method(collection) {
            Some(method) => read_plan(trader_key, joined(collection, rest)) matches Ok(plan)
                && plan.method == method,
            None => read_plan(trader_key, joined(collection, rest)) matches Err(error) && error
                == ErrorView::UnsupportedCollection(collection),
        }),
{
    joined_key_has_collection(collection, rest);
    collection_stands_before_the_first_colon(collection);
}

/// An index is read by its own method, and an unknown one is refused by its whole key.
pub proof fn indexes_are_read_by_their_names(trader_key: Seq<char>, rest: Seq<char>)
    ensures
        match index_method(joined("index"@, rest)) {
            Some(method) => read_plan(trader_key, joined("index"@, rest)) matches Ok(plan)
                && plan.method == method,
            None => read_plan(trader_key, joined("index"@, rest)) matches Err(error) && error
                == ErrorView::UnknownIndex(joined("index"@, rest)),
        },
{
    reveal_strlit("index");
    joined_key_has_collection("index"@, rest);
}

/// The indexes that are sets are none of those that are hashes.
proof fn lemma_index_names()
    ensures
        INDEX_ORDER_POSITION@.len() == 20,
        INDEX_ORDER_CLIENT@.len() == 18,
        forall|key: Seq<char>| #[trigger]
            index_method(key) == Some(ReadMethod::Members) ==> key != INDEX_ORDER_POSITION@ && key
                != INDEX_ORDER_CLIENT@,
        index_method(INDEX_ORDERS_CLOSED@) == Some(ReadMethod::Members),
        index_method(INDEX_ORDERS_EMULATED@) == Some(ReadMethod::Members),
        index_method(INDEX_ORDER_IDS@) == Some(ReadMethod::Members),
        index_method(INDEX_ORDERS@) == Some(ReadMethod::Members),
        index_method(INDEX_ORDERS_OPEN@) == Some(ReadMethod::Members),
        index_method(INDEX_ORDERS_INFLIGHT@) == Some(ReadMethod::Members),
        index_method(INDEX_POSITIONS@) == Some(ReadMethod::Members),
        index_method(INDEX_POSITIONS_OPEN@) == Some(ReadMethod::Members),
        index_method(INDEX_POSITIONS_CLOSED@) == Some(ReadMethod::Members),
{
    reveal_strlit("index:order_ids");
    reveal_strlit("index:order_position");
    reveal_strlit("index:order_client");
    reveal_strlit("index:orders");
    reveal_strlit("index:orders_open");
    reveal_strlit("index:orders_closed");
    reveal_strlit("index:orders_emulated");
    reveal_strlit("index:orders_inflight");
    reveal_strlit("index:positions");
    reveal_strlit("index:positions_open");
    reveal_strlit("index:positions_closed");
    assert(INDEX_ORDER_POSITION@[11] == '_' && INDEX_ORDER_CLIENT@[11] == '_');
    assert(INDEX_ORDERS_OPEN@[11] == 's' && INDEX_ORDERS_CLOSED@[11] == 's');
    assert(INDEX_ORDERS_EMULATED@[11] == 's' && INDEX_ORDERS_INFLIGHT@[11] == 's');
    assert(INDEX_POSITIONS@[6] == 'p' && INDEX_POSITIONS_OPEN@[6] == 'p');
    assert(INDEX_POSITIONS_CLOSED@[6] == 'p' && INDEX_ORDER_POSITION@[6] == 'o');
    assert(INDEX_ORDER_CLIENT@[6] == 'o' && INDEX_ORDER_IDS@.len() == 15);
    assert(INDEX_ORDERS@.len() == 12);
}

/// The texts of each list of a list.
pub open spec fn text_lists_view(lists: Seq<Vec<String>>) -> Seq<Seq<Seq<char>>> {
    Seq::new(lists.len(), |i: int| texts_view(lists[i]@))
}

/// What a list of a list of texts is, list by list, and what a plan is.
pub proof fn lists_keep_their_places(lists: Seq<Vec<String>>, i: int, plan: ReadPlan)
    ensures
        text_lists_view(lists).len() == lists.len(),
        0 <= i < lists.len() ==> text_lists_view(lists)[i] == texts_view(lists[i]@),
        plan@.method == plan.method,
        plan@.key == plan.key@,
{
}

impl DatabaseQueries {
    /// How the index of this key is read.
    pub fn read_index(index_key: &str) -> (method: Result<ReadMethod, QueryError>)
        ensures
            match method {
                Ok(m) => index_method(index_key@) == Some(m),
                Err(error) => index_method(index_key@) is None && error@
                    == ErrorView::UnknownIndex(index_key@),
            },
    {
        if same_text(index_key, INDEX_ORDER_POSITION) || same_text(index_key, INDEX_ORDER_CLIENT) {
            Ok(ReadMethod::Fields)
        } else if same_text(index_key, INDEX_ORDER_IDS)
            || same_text(index_key, INDEX_ORDERS)
            || same_text(index_key, INDEX_ORDERS_OPEN)
            || same_text(index_key, INDEX_ORDERS_CLOSED)
            || same_text(index_key, INDEX_ORDERS_EMULATED)
            || same_text(index_key, INDEX_ORDERS_INFLIGHT)
            || same_text(index_key, INDEX_POSITIONS)
            || same_text(index_key, INDEX_POSITIONS_OPEN)
            || same_text(index_key, INDEX_POSITIONS_CLOSED) {
            Ok(ReadMethod::Members)
        } else {
            Err(QueryError::UnknownIndex(index_key.to_owned()))
        }
    }

    /// How the key of a trader is read.
    pub fn read(trader_key: &str, key: &str) -> (plan: Result<ReadPlan, QueryError>)
        ensures
            outcome(plan) == read_plan(trader_key@, key@),
    {
        let collection = DatabaseQueries::get_collection_key(key)?;
        let full_key = join(trader_key, key);
        let method = if same_text(collection, INDEX) {
            DatabaseQueries::read_index(key)?
        } else if same_text(collection, GENERAL)
            || same_text(collection, CURRENCIES)
            || same_text(collection, INSTRUMENTS)
            || same_text(collection, SYNTHETICS)
            || same_text(collection, ACTORS)
            || same_text(collection, STRATEGIES) {
            ReadMethod::Value
        } else if same_text(collection, ACCOUNTS)
            || same_text(collection, ORDERS)
            || same_text(collection, POSITIONS) {
            ReadMethod::Elements
        } else {
            return Err(QueryError::UnsupportedCollection(collection.to_owned()));
        };
        Ok(ReadPlan { method, key: full_key })
    }

    /// The payloads in the reply to `GET`: a missing or empty value is none.
    pub fn read_string(reply: Vec<u8>) -> (payloads: Vec<Bytes>)
        ensures
            buffers_view(payloads@) == (if reply@.len() == 0 {
                Seq::<Seq<u8>>::empty()
            } else {
                seq![reply@]
            }),
    {
        let mut payloads: Vec<Bytes> = Vec::new();
        if !reply.is_empty() {
            payloads.push(buffer_from(reply));
        }
        payloads
    }

    /// The payloads in the reply to `HGETALL`: one JSON object of all fields.
    pub fn read_hset(reply: Vec<(String, String)>) -> (payloads: Result<Vec<Bytes>, QueryError>)
        ensures
            payloads matches Ok(p) && buffers_view(p@) == seq![
                json_encoded(JsonView::Object(text_fields(reply@))),
            ] && (json_decoded(bytes_view(p@[0])) matches Ok(object) && object == JsonView::Object(
                text_fields(reply@),
            )),
    {
        let mut fields: Vec<(String, Json)> = Vec::new();
        let ghost pairs = reply@;
        for pair in it: reply
            invariant
                it.seq() == pairs,
                fields_view(fields@) == text_fields(pairs.take(it.index())),
        {
            let ghost before = fields@;
            let (key, text) = pair;
            fields.push((key, Json::Text(text)));
            proof {
                assert(fields@.drop_last() == before);
                assert(fields@.last().1@ == JsonView::Text(pair.1@));
                assert(pairs.take(it.index() + 1).drop_last() == pairs.take(it.index()));
            }
        }
        proof {
            assert(pairs.take(pairs.len() as int) == pairs);
            lemma_text_fields(pairs);
            let object = text_fields(pairs);
            assert forall|key: Seq<char>| #[trigger] object.dom().contains(key) implies keeps_within(
                SerializationEncoding::Json,
                object[key],
                126,
            ) by {}
            assert(keeps(SerializationEncoding::Json, JsonView::Object(object)));
        }
        let value = value_from_json(Json::Object(fields));
        match encode_json(&value) {
            Ok(bytes) => {
                let mut payloads: Vec<Bytes> = Vec::new();
                payloads.push(buffer_from(bytes));
                assert(buffers_view(payloads@) == seq![bytes@]);
                Ok(payloads)
            },
            Err(reason) => Err(QueryError::SerializeJson(reason)),
        }
    }

    /// The keys to ask for in one `MGET`; `None` where there is nothing to ask for.
    pub fn read_bulk(keys: &Vec<String>) -> (request: Option<Vec<String>>)
        ensures
            match request {
                Some(asked) => keys@.len() > 0 && texts_view(asked@) == texts_view(keys@),
                None => keys@.len() == 0,
            },
    {
        if keys.is_empty() {
            None
        } else {
            Some(copy_range(keys, 0, keys.len()))
        }
    }

    /// The payloads in the reply to an `MGET`, key by key.
    pub fn read_bulk_reply(reply: Vec<Option<Vec<u8>>>) -> (payloads: Vec<Option<Bytes>>)
        ensures
            found_buffers_view(payloads@) == reply_view(reply@),
    {
        let mut payloads: Vec<Option<Bytes>> = Vec::new();
        append_reply(&mut payloads, reply);
        assert(found_buffers_view(payloads@) == reply_view(reply@));
        payloads
    }

    /// The keys to ask for in each of several `MGET`s, at most `batch_size` in one.
    pub fn read_bulk_batched(keys: &Vec<String>, batch_size: usize) -> (requests: Result<
        Vec<Vec<String>>,
        QueryError,
    >)
        ensures
            match requests {
                Ok(asked) => batch_size > 0 && text_lists_view(asked@) == batches(
                    texts_view(keys@),
                    batch_size as nat,
                ),
                Err(error) => batch_size == 0 && error@ == ErrorView::ZeroBatchSize,
            },
    {
        if batch_size == 0 {
            return Err(QueryError::ZeroBatchSize);
        }
        let ghost all = texts_view(keys@);
        let mut requests: Vec<Vec<String>> = Vec::new();
        let mut start: usize = 0;
        assert(all.skip(0) == all);
        assert(text_lists_view(requests@) + batches(all, batch_size as nat) =~= batches(
            all,
            batch_size as nat,
        ));
        while start < keys.len()
            invariant
                batch_size > 0,
                all == texts_view(keys@),
                start <= keys.len(),
                text_lists_view(requests@) + batches(all.skip(start as int), batch_size as nat)
                    == batches(all, batch_size as nat),
            decreases keys.len() - start,
        {
            let end: usize = if keys.len() - start <= batch_size {
                keys.len()
            } else {
                start + batch_size
            };
            let ghost before = text_lists_view(requests@);
            let ghost rest = all.skip(start as int);
            requests.push(copy_range(keys, start, end));
            proof {
                assert(rest.take(end - start) == all.subrange(start as int, end as int));
                assert(text_lists_view(requests@) == before.push(rest.take(end - start)));
                assert(rest.skip(end - start) == all.skip(end as int));
                if rest.len() <= batch_size {
                    assert(rest.take(end - start) == rest);
                    assert(batches(all.skip(end as int), batch_size as nat) =~= Seq::empty());
                }
                assert(text_lists_view(requests@) + batches(all.skip(end as int), batch_size as nat)
                    =~= before + batches(rest, batch_size as nat));
            }
            start = end;
        }
        proof {
            assert(batches(all.skip(start as int), batch_size as nat) =~= Seq::empty());
            assert(text_lists_view(requests@) =~= batches(all, batch_size as nat));
        }
        Ok(requests)
    }

    /// The payloads in the replies to several `MGET`s, one reply after the other.
    pub fn read_bulk_batched_reply(replies: Vec<Vec<Option<Vec<u8>>>>) -> (payloads: Vec<
        Option<Bytes>,
    >)
        ensures
            found_buffers_view(payloads@) == replies_view(replies@),
    {
        let mut payloads: Vec<Option<Bytes>> = Vec::new();
        let ghost all = replies@;
        for reply in it: replies
            invariant
                it.seq() == all,
                found_buffers_view(payloads@) == replies_view(all.take(it.index())),
        {
            append_reply(&mut payloads, reply);
            assert(all.take(it.index() + 1).drop_last() == all.take(it.index()));
        }
        assert(all.take(all.len() as int) == all);
        payloads
    }
}

/// Copies of the keys from `start` up to `end`.
fn copy_range(keys: &Vec<String>, start: usize, end: usize) -> (copies: Vec<String>)
    requires
        start <= end <= keys.len(),
    ensures
        texts_view(copies@) == texts_view(keys@).subrange(start as int, end as int),
{
    let mut copies: Vec<String> = Vec::new();
    for i in start..end
        invariant
            start <= end <= keys.len(),
            texts_view(copies@) == texts_view(keys@).subrange(start as int, i as int),
    {
        let ghost before = copies@;
        copies.push(keys[i].clone());
        assert(texts_view(copies@) == texts_view(before).push(keys[i as int]@));
    }
    copies
}

/// Adds the payloads of a reply.
fn append_reply(payloads: &mut Vec<Option<Bytes>>, reply: Vec<Option<Vec<u8>>>)
    ensures
        found_buffers_view(final(payloads)@) == found_buffers_view(old(payloads)@) + reply_view(
            reply@,
        ),
{
    let ghost all = reply@;
    let ghost first = payloads@;
    for value in it: reply
        invariant
            it.seq() == all,
            found_buffers_view(payloads@) == found_buffers_view(first) + reply_view(all).take(
                it.index(),
            ),
    {
        let ghost before = payloads@;
        let payload = match value {
            Some(bytes) => Some(buffer_from(bytes)),
            None => None,
        };
        payloads.push(payload);
        assert(found_buffers_view(payloads@) == found_buffers_view(before).push(found_bytes(value)));
    }
    assert(reply_view(all).take(all.len() as int) == reply_view(all));
}

} // verus!
