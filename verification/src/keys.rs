//! Keys of the store.
//!
//! A record of a trader stands under `{trader_key}:{collection}:{identifier}`.

use vstd::prelude::*;

use crate::error::{ErrorView, QueryError};
use crate::text::{chars_of, strip_prefix};

verus! {

pub const INDEX: &'static str = "index";

pub const GENERAL: &'static str = "general";

pub const CURRENCIES: &'static str = "currencies";

pub const INSTRUMENTS: &'static str = "instruments";

pub const SYNTHETICS: &'static str = "synthetics";

pub const ACCOUNTS: &'static str = "accounts";

pub const ORDERS: &'static str = "orders";

pub const POSITIONS: &'static str = "positions";

pub const ACTORS: &'static str = "actors";

pub const STRATEGIES: &'static str = "strategies";

pub const CUSTOM: &'static str = "custom";

pub const INDEX_ORDER_IDS: &'static str = "index:order_ids";

pub const INDEX_ORDER_POSITION: &'static str = "index:order_position";

pub const INDEX_ORDER_CLIENT: &'static str = "index:order_client";

pub const INDEX_ORDERS: &'static str = "index:orders";

pub const INDEX_ORDERS_OPEN: &'static str = "index:orders_open";

pub const INDEX_ORDERS_CLOSED: &'static str = "index:orders_closed";

pub const INDEX_ORDERS_EMULATED: &'static str = "index:orders_emulated";

pub const INDEX_ORDERS_INFLIGHT: &'static str = "index:orders_inflight";

pub const INDEX_POSITIONS: &'static str = "index:positions";

pub const INDEX_POSITIONS_OPEN: &'static str = "index:positions_open";

pub const INDEX_POSITIONS_CLOSED: &'static str = "index:positions_closed";

/// What stands between the parts of a key.
pub const REDIS_DELIMITER: char = ':';

/// The queries of the cache.
#[derive(Debug)]
pub struct DatabaseQueries;

/// Two parts of a key, with the delimiter between them.
pub open spec fn joined(left: Seq<char>, right: Seq<char>) -> Seq<char> {
    left.push(REDIS_DELIMITER) + right
}

/// What stands before the identifier in the key of a record.
pub open spec fn record_prefix(trader_key: Seq<char>, collection: Seq<char>) -> Seq<char> {
    joined(trader_key, collection).push(REDIS_DELIMITER)
}

/// The key of a record.
pub open spec fn record_key(
    trader_key: Seq<char>,
    collection: Seq<char>,
    identifier: Seq<char>,
) -> Seq<char> {
    joined(trader_key, joined(collection, identifier))
}

/// The pattern of the keys of a collection.
pub open spec fn collection_pattern(trader_key: Seq<char>, collection: Seq<char>) -> Seq<char> {
    joined(trader_key, collection).push('*')
}

/// The identifier in the key of a record of a collection.
pub open spec fn record_id(
    full_key: Seq<char>,
    trader_key: Seq<char>,
    collection: Seq<char>,
) -> Option<Seq<char>> {
    if record_prefix(trader_key, collection).is_prefix_of(full_key) {
        Some(full_key.skip(record_prefix(trader_key, collection).len() as int))
    } else {
        None
    }
}

/// Whether a full key is one of a trader.
pub open spec fn belongs_to(full_key: Seq<char>, trader_key: Seq<char>) -> bool {
    trader_key.push(REDIS_DELIMITER).is_prefix_of(full_key)
}

/// A full key without the trader's key in front; a key of another trader stays as it is.
pub open spec fn relative_key(full_key: Seq<char>, trader_key: Seq<char>) -> Seq<char> {
    if belongs_to(full_key, trader_key) {
        full_key.skip(trader_key.len() + 1int)
    } else {
        full_key
    }
}

/// Whether the first delimiter of `key` stands at `i`.
pub open spec fn first_delimiter(key: Seq<char>, i: int) -> bool {
    &&& 0 <= i < key.len()
    &&& key[i] == REDIS_DELIMITER
    &&& forall|j: int| 0 <= j < i ==> key[j] != REDIS_DELIMITER
}

/// The collection of a key: what stands before its first delimiter.
pub open spec fn collection_of(key: Seq<char>) -> Option<Seq<char>> {
    if exists|i: int| first_delimiter(key, i) {
        Some(key.take(choose|i: int| first_delimiter(key, i)))
    } else {
        None
    }
}

/// The key of a record gives its identifier back, whatever delimiters the identifier holds.
pub proof fn record_key_holds_identifier(
    trader_key: Seq<char>,
    collection: Seq<char>,
    identifier: Seq<char>,
)
    ensures
        record_id(record_key(trader_key, collection, identifier), trader_key, collection) == Some(
            identifier,
        ),
{
    let key = record_key(trader_key, collection, identifier);
    let prefix = record_prefix(trader_key, collection);
    assert(key =~= prefix + identifier);
    assert(key.subrange(0, prefix.len() as int) =~= prefix);
    assert(key.skip(prefix.len() as int) =~= identifier);
}

/// A full key with an identifier is the key of that record.
pub proof fn identifier_makes_record_key(
    full_key: Seq<char>,
    trader_key: Seq<char>,
    collection: Seq<char>,
)
    requires
        record_id(full_key, trader_key, collection) is Some,
    ensures
        record_key(trader_key, collection, record_id(full_key, trader_key, collection)->0)
            == full_key,
{
    let prefix = record_prefix(trader_key, collection);
    assert(record_key(trader_key, collection, full_key.skip(prefix.len() as int)) =~= prefix
        + full_key.skip(prefix.len() as int));
    assert(full_key =~= prefix + full_key.skip(prefix.len() as int));
}

/// The key of each record of a collection begins as the pattern of the collection says.
pub proof fn records_match_pattern(
    trader_key: Seq<char>,
    collection: Seq<char>,
    identifier: Seq<char>,
)
    ensures
        collection_pattern(trader_key, collection).last() == '*',
        collection_pattern(trader_key, collection).drop_last().is_prefix_of(
            record_key(trader_key, collection, identifier),
        ),
{
    let start = collection_pattern(trader_key, collection).drop_last();
    let key = record_key(trader_key, collection, identifier);
    assert(start =~= joined(trader_key, collection));
    assert(key.subrange(0, start.len() as int) =~= start);
}

/// The relative key of a trader's key, joined to the trader's key again, is the full key.
pub proof fn relative_key_restores_key(full_key: Seq<char>, trader_key: Seq<char>)
    requires
        belongs_to(full_key, trader_key),
    ensures
        joined(trader_key, relative_key(full_key, trader_key)) == full_key,
{
    assert(joined(trader_key, relative_key(full_key, trader_key)) =~= full_key);
}

/// The collection of a key is the part before the first delimiter, whatever follows it.
pub proof fn joined_key_has_collection(collection: Seq<char>, rest: Seq<char>)
    requires
        !collection.contains(REDIS_DELIMITER),
    ensures
        collection_of(joined(collection, rest)) == Some(collection),
{
    let key = joined(collection, rest);
    let at = collection.len() as int;
    assert forall|j: int| 0 <= j < at implies key[j] != REDIS_DELIMITER by {
        assert(key[j] == collection[j]);
    }
    assert(first_delimiter(key, at));
    let i = choose|i: int| first_delimiter(key, i);
    assert(i == at);
    assert(key.take(at) =~= collection);
}

/// A joined key holds both parts whole, with one colon between them.
pub proof fn joined_key_holds_both_parts(left: Seq<char>, right: Seq<char>)
    ensures
        joined(left, right).len() == left.len() + 1 + right.len(),
        joined(left, right).take(left.len() as int) == left,
        joined(left, right)[left.len() as int] == ':',
        joined(left, right).skip(left.len() + 1int) == right,
{
    assert(joined(left, right).take(left.len() as int) =~= left);
    assert(joined(left, right).skip(left.len() + 1int) =~= right);
}

/// The key of a record is its collection's key with the identifier joined to it, so that records of
/// one collection have one key exactly where they have one identifier.
pub proof fn record_keys_tell_records_apart(
    trader_key: Seq<char>,
    collection: Seq<char>,
    a: Seq<char>,
    b: Seq<char>,
)
    ensures
        record_key(trader_key, collection, a) == joined(joined(trader_key, collection), a),
        record_key(trader_key, collection, a) == record_key(trader_key, collection, b) <==> a == b,
{
    assert(record_key(trader_key, collection, a) =~= joined(joined(trader_key, collection), a));
    record_key_holds_identifier(trader_key, collection, a);
    record_key_holds_identifier(trader_key, collection, b);
}

/// A key has an identifier in a collection exactly where some record of the collection has the key.
pub proof fn only_record_keys_hold_identifiers(
    full_key: Seq<char>,
    trader_key: Seq<char>,
    collection: Seq<char>,
)
    ensures
        record_id(full_key, trader_key, collection) is Some <==> exists|identifier: Seq<char>|
            #[trigger] record_key(trader_key, collection, identifier) == full_key,
{
    if record_id(full_key, trader_key, collection) is Some {
        identifier_makes_record_key(full_key, trader_key, collection);
    }
    assert forall|identifier: Seq<char>|
        #[trigger] record_key(trader_key, collection, identifier) == full_key implies record_id(
        full_key,
        trader_key,
        collection,
    ) is Some by {
        record_key_holds_identifier(trader_key, collection, identifier);
    }
}

/// The pattern of a collection is the key of the collection with a star after it, no shorter and no
/// longer: it is not met by the keys of another trader.
pub proof fn pattern_is_the_collection_and_a_star(trader_key: Seq<char>, collection: Seq<char>)
    ensures
        collection_pattern(trader_key, collection).len() == trader_key.len() + collection.len() + 2,
        collection_pattern(trader_key, collection).take(trader_key.len() as int) == trader_key,
        collection_pattern(trader_key, collection)[trader_key.len() as int] == ':',
        collection_pattern(trader_key, collection).subrange(
            trader_key.len() + 1int,
            trader_key.len() + 1int + collection.len(),
        ) == collection,
        collection_pattern(trader_key, collection).last() == '*',
{
    let pattern = collection_pattern(trader_key, collection);
    assert(pattern.take(trader_key.len() as int) =~= trader_key);
    assert(pattern.subrange(trader_key.len() + 1int, trader_key.len() + 1int + collection.len())
        =~= collection);
}

/// What was joined to a trader's key is the relative key of the whole, and a key that was not joined
/// to the trader's key is its own relative key.
pub proof fn relative_key_parts_the_trader(trader_key: Seq<char>, key: Seq<char>)
    ensures
        belongs_to(joined(trader_key, key), trader_key),
        relative_key(joined(trader_key, key), trader_key) == key,
        (forall|rest: Seq<char>| #[trigger] joined(trader_key, rest) != key) ==> relative_key(
            key,
            trader_key,
        ) == key,
{
    let whole = joined(trader_key, key);
    assert(whole.take(trader_key.len() + 1int) =~= trader_key.push(REDIS_DELIMITER));
    assert(whole.skip(trader_key.len() + 1int) =~= key);
    if belongs_to(key, trader_key) {
        relative_key_restores_key(key, trader_key);
    }
}

/// A key has a collection exactly where it has a colon, and the collection is then the part without
/// colons to which the rest of the key is joined.
pub proof fn collection_stands_before_the_first_colon(key: Seq<char>)
    ensures
        collection_of(key) is Some <==> key.contains(':'),
        collection_of(key) matches Some(collection) ==> !collection.contains(':') && joined(
            collection,
            key.skip(collection.len() + 1int),
        ) == key,
    decreases key.len(),
{
    if key.contains(':') {
        let i = lemma_first_delimiter(key);
        let k = choose|k: int| first_delimiter(key, k);
        assert(k == i);
        assert(joined(key.take(k), key.skip(k + 1)) =~= key);
        assert(key.take(k).len() == k);
    }
}

/// Where the first delimiter of a key stands.
proof fn lemma_first_delimiter(key: Seq<char>) -> (i: int)
    requires
        key.contains(REDIS_DELIMITER),
    ensures
        first_delimiter(key, i),
    decreases key.len(),
{
    let rest = key.drop_last();
    if rest.contains(REDIS_DELIMITER) {
        let i = lemma_first_delimiter(rest);
        assert forall|j: int| 0 <= j < i implies key[j] != REDIS_DELIMITER by {
            assert(key[j] == rest[j]);
        }
        i
    } else {
        assert forall|j: int| 0 <= j < key.len() - 1 implies key[j] != REDIS_DELIMITER by {
            assert(rest[j] == key[j]);
        }
        key.len() - 1
    }
}

/// Two parts of a key, with the delimiter between them.
pub fn join(left: &str, right: &str) -> (key: String)
    ensures
        key@ == joined(left@, right@),
{
    let key = left.to_owned().concat(":").concat(right);
    proof {
        reveal_strlit(":");
        assert(key@ == joined(left@, right@));
    }
    key
}

/// A full key without the trader's key in front; a key of another trader stays as it is.
pub fn relative_key_of(full_key: &str, trader_key: &str) -> (key: String)
    ensures
        key@ == relative_key(full_key@, trader_key@),
{
    let prefix = trader_key.to_owned().concat(":");
    proof {
        reveal_strlit(":");
        assert(prefix@ =~= trader_key@.push(REDIS_DELIMITER));
    }
    match strip_prefix(full_key, prefix.as_str()) {
        Some(rest) => {
            assert(rest@ =~= full_key@.skip(trader_key@.len() + 1int));
            rest.to_owned()
        },
        None => full_key.to_owned(),
    }
}

/// The pattern of the keys of a collection.
pub fn pattern_of(trader_key: &str, collection: &str) -> (pattern: String)
    ensures
        pattern@ == collection_pattern(trader_key@, collection@),
{
    let pattern = join(trader_key, collection).concat("*");
    proof {
        reveal_strlit("*");
        assert(pattern@ == collection_pattern(trader_key@, collection@));
    }
    pattern
}

impl DatabaseQueries {
    /// Strips `{trader_key}:{collection}:` from a full key.
    ///
    /// The rest is the identifier of the record, which may hold delimiters itself.
    pub fn record_id_from_scanned_key<'a>(
        full_key: &'a str,
        trader_key: &str,
        collection: &str,
    ) -> (identifier: Option<&'a str>)
        ensures
            match identifier {
                Some(id) => record_id(full_key@, trader_key@, collection@) == Some(id@),
                None => record_id(full_key@, trader_key@, collection@) is None,
            },
    {
        let prefix = join(trader_key, collection).concat(":");
        proof {
            reveal_strlit(":");
            assert(prefix@ == record_prefix(trader_key@, collection@));
        }
        let identifier = strip_prefix(full_key, prefix.as_str());
        proof {
            if let Some(id) = identifier {
                assert(id@ == full_key@.skip(prefix@.len() as int));
            }
        }
        identifier
    }

    /// The collection of a key: what stands before its first delimiter.
    pub fn get_collection_key<'a>(key: &'a str) -> (collection: Result<&'a str, QueryError>)
        ensures
            match collection {
                Ok(name) => collection_of(key@) == Some(name@),
                Err(error) => {
                    &&& collection_of(key@) is None
                    &&& error@ == ErrorView::MissingDelimiter(key@)
                },
            },
    {
        let chars = chars_of(key);
        for i in 0..chars.len()
            invariant
                chars@ == key@,
                forall|j: int| 0 <= j < i ==> key@[j] != REDIS_DELIMITER,
        {
            if chars[i] == REDIS_DELIMITER {
                assert(first_delimiter(key@, i as int));
                return Ok(key.substring_char(0, i));
            }
        }
        Err(QueryError::MissingDelimiter(key.to_owned()))
    }
}

} // verus!
