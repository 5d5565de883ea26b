//! Loads of the indexes of orders: their clients and their positions.

use ahash::AHashMap;
use bytes::Bytes;
use vstd::prelude::*;

use crate::error::{ErrorView, QueryError};
use crate::keys::{
    join, joined, record_key, DatabaseQueries, INDEX_ORDER_CLIENT, INDEX_ORDER_POSITION, POSITIONS,
};
use crate::load::{
    fetched_step, gather, gathered, gathered_outcome, reply_outcome, rows_view, CollectionLoad,
    LoadView, RecordKind, Row, RowStep, StepView,
};
use crate::outside::{insert_text_pair, no_text_pairs, text_pairs};
use crate::payload::SerializationEncoding;
use crate::read::{PlanView, ReadMethod, ReadPlan};

verus! {

/// A text of an index, parsed: the identifier that it is, or the text where it is none.
#[derive(Debug, PartialEq)]
pub enum ParsedId {
    Valid(String),
    Invalid(String),
}

/// What a `ParsedId` is.
pub enum ParsedIdView {
    Valid(Seq<char>),
    Invalid(Seq<char>),
}

impl View for ParsedId {
    type V = ParsedIdView;

    open spec fn view(&self) -> ParsedIdView {
        match self {
            ParsedId::Valid(identifier) => ParsedIdView::Valid(identifier@),
            ParsedId::Invalid(text) => ParsedIdView::Invalid(text@),
        }
    }
}

/// What each pair of a list is.
pub open spec fn id_pairs_view(pairs: Seq<(ParsedId, ParsedId)>) -> Seq<
    (ParsedIdView, ParsedIdView),
> {
    Seq::new(pairs.len(), |i: int| (pairs[i].0@, pairs[i].1@))
}

/// The clients of the orders in the given pairs, or the first text that is no identifier.
pub open spec fn order_clients(pairs: Seq<(ParsedIdView, ParsedIdView)>) -> Result<
    Map<Seq<char>, Seq<char>>,
    ErrorView,
>
    decreases pairs.len(),
{
    if pairs.len() == 0 {
        Ok(Map::empty())
    } else {
        match order_clients(pairs.drop_last()) {
            Err(error) => Err(error),
            Ok(before) => match pairs.last() {
                (ParsedIdView::Invalid(text), _) => Err(ErrorView::InvalidIdentifier(text)),
                (_, ParsedIdView::Invalid(text)) => Err(ErrorView::InvalidIdentifier(text)),
                (ParsedIdView::Valid(order), ParsedIdView::Valid(client)) => Ok(
                    before.insert(order, client),
                ),
            },
        }
    }
}

/// What the clients that a load hands out are.
pub open spec fn clients_outcome(result: Result<AHashMap<String, String>, QueryError>) -> Result<
    Map<Seq<char>, Seq<char>>,
    ErrorView,
> {
    match result {
        Ok(map) => Ok(text_pairs(map)),
        Err(error) => Err(error@),
    }
}

/// Pairs after one that holds no identifier change nothing.
proof fn lemma_error_stays(pairs: Seq<(ParsedIdView, ParsedIdView)>, len: int)
    requires
        0 <= len <= pairs.len(),
        order_clients(pairs.take(len)) is Err,
    ensures
        order_clients(pairs) == order_clients(pairs.take(len)),
    decreases pairs.len(),
{
    if len == pairs.len() {
        assert(pairs.take(len) == pairs);
    } else {
        assert(pairs.drop_last().take(len) == pairs.take(len));
        lemma_error_stays(pairs.drop_last(), len);
    }
}

/// The clients are loaded exactly where every text is an identifier, and then each order of
/// distinct orders has its own client.
pub proof fn clients_of_distinct_orders(pairs: Seq<(ParsedIdView, ParsedIdView)>)
    ensures
        order_clients(pairs) is Ok <==> forall|i: int|
            0 <= i < pairs.len() ==> (#[trigger] pairs[i]).0 is Valid && pairs[i].1 is Valid,
        order_clients(pairs) is Ok && (forall|i: int, j: int|
            0 <= i < j < pairs.len() ==> (#[trigger] pairs[i]).0 != (#[trigger] pairs[j]).0)
            ==> forall|i: int|
            0 <= i < pairs.len() ==> order_clients(pairs)->Ok_0.dom().contains(
                (#[trigger] pairs[i]).0->Valid_0,
            ) && order_clients(pairs)->Ok_0[pairs[i].0->Valid_0] == pairs[i].1->Valid_0,
    decreases pairs.len(),
{
    if pairs.len() > 0 {
        let rest = pairs.drop_last();
        let last = pairs.len() - 1;
        clients_of_distinct_orders(rest);
        assert(forall|i: int| 0 <= i < last ==> #[trigger] pairs[i] == rest[i]);
        assert(forall|i: int| 0 <= i < last ==> #[trigger] rest[i] == pairs[i]);
        assert(pairs[last] == pairs.last());
        if order_clients(pairs) is Ok && (forall|i: int, j: int|
            0 <= i < j < pairs.len() ==> (#[trigger] pairs[i]).0 != (#[trigger] pairs[j]).0) {
            assert(order_clients(rest) is Ok);
            assert forall|i: int| 0 <= i < pairs.len() implies order_clients(
                pairs,
            )->Ok_0.dom().contains((#[trigger] pairs[i]).0->Valid_0) && order_clients(
                pairs,
            )->Ok_0[pairs[i].0->Valid_0] == pairs[i].1->Valid_0 by {
                if i < last {
                    assert(rest[i] == pairs[i]);
                    assert(pairs[i].0 != pairs[last].0);
                }
            }
        }
    }
}

/// The load fails exactly with the first text that is no identifier: that of the order before that of
/// its client, and of an earlier pair before a later one.
pub proof fn first_bad_identifier_is_told(pairs: Seq<(ParsedIdView, ParsedIdView)>)
    ensures
        order_clients(pairs) matches Err(error) ==> exists|i: int|
            0 <= i < pairs.len() && (match #[trigger] pairs[i] {
                (ParsedIdView::Invalid(text), _) => error == ErrorView::InvalidIdentifier(text),
                (ParsedIdView::Valid(_), ParsedIdView::Invalid(text)) => error
                    == ErrorView::InvalidIdentifier(text),
                _ => false,
            }) && forall|j: int|
                0 <= j < i ==> (#[trigger] pairs[j]).0 is Valid && pairs[j].1 is Valid,
    decreases pairs.len(),
{
    if pairs.len() > 0 {
        let rest = pairs.drop_last();
        let last = pairs.len() - 1;
        first_bad_identifier_is_told(rest);
        clients_of_distinct_orders(rest);
        assert(forall|i: int| 0 <= i < last ==> #[trigger] pairs[i] == rest[i]);
        assert(forall|i: int| 0 <= i < last ==> #[trigger] rest[i] == pairs[i]);
        assert(pairs[last] == pairs.last());
        if order_clients(rest) is Err {
            let error = order_clients(rest)->Err_0;
            let i = choose|i: int|
                0 <= i < rest.len() && (match #[trigger] rest[i] {
                    (ParsedIdView::Invalid(text), _) => error == ErrorView::InvalidIdentifier(text),
                    (ParsedIdView::Valid(_), ParsedIdView::Invalid(text)) => error
                        == ErrorView::InvalidIdentifier(text),
                    _ => false,
                }) && forall|j: int|
                    0 <= j < i ==> (#[trigger] rest[j]).0 is Valid && rest[j].1 is Valid;
            assert(pairs[i] == rest[i]);
        }
    }
}

/// The orders with a client are exactly those of the pairs, each with the client of its last pair.
pub proof fn clients_are_those_of_the_pairs(
    pairs: Seq<(ParsedIdView, ParsedIdView)>,
    order: Seq<char>,
)
    requires
        order_clients(pairs) is Ok,
    ensures
        order_clients(pairs)->Ok_0.dom().contains(order) <==> exists|i: int|
            0 <= i < pairs.len() && (#[trigger] pairs[i]).0 == ParsedIdView::Valid(order),
        order_clients(pairs)->Ok_0.dom().contains(order) ==> exists|i: int|
            0 <= i < pairs.len() && #[trigger] pairs[i] == (
                ParsedIdView::Valid(order),
                ParsedIdView::Valid(order_clients(pairs)->Ok_0[order]),
            ) && forall|j: int|
                i < j < pairs.len() ==> (#[trigger] pairs[j]).0 != ParsedIdView::Valid(order),
    decreases pairs.len(),
{
    if pairs.len() > 0 {
        let rest = pairs.drop_last();
        let last = pairs.len() - 1;
        clients_are_those_of_the_pairs(rest, order);
        assert(forall|i: int| 0 <= i < last ==> #[trigger] pairs[i] == rest[i]);
        assert(forall|i: int| 0 <= i < last ==> #[trigger] rest[i] == pairs[i]);
        assert(pairs[last] == pairs.last());
        let clients = order_clients(pairs)->Ok_0;
        if pairs[last].0 != ParsedIdView::Valid(order) && clients.dom().contains(order) {
            let i = choose|i: int|
                0 <= i < rest.len() && #[trigger] rest[i] == (
                    ParsedIdView::Valid(order),
                    ParsedIdView::Valid(order_clients(rest)->Ok_0[order]),
                ) && forall|j: int|
                    i < j < rest.len() ==> (#[trigger] rest[j]).0 != ParsedIdView::Valid(order);
            assert(pairs[i] == rest[i]);
        }
    }
}

/// What the outcome of a load of clients is: the pairs or the error, left whole.
pub proof fn client_outcomes_are_whole(result: Result<AHashMap<String, String>, QueryError>)
    ensures
        match result {
            Ok(map) => clients_outcome(result) matches Ok(view) && view == text_pairs(map),
            Err(error) => clients_outcome(result) matches Err(view) && view == error@,
        },
{
}

/// What a pair of an index is, pair by pair: a list has as many, in the same places.
pub proof fn pairs_keep_their_places(pairs: Seq<(ParsedId, ParsedId)>, i: int)
    requires
        0 <= i < pairs.len(),
    ensures
        id_pairs_view(pairs).len() == pairs.len(),
        id_pairs_view(pairs)[i].0 == (match pairs[i].0 {
            ParsedId::Valid(identifier) => ParsedIdView::Valid(identifier@),
            ParsedId::Invalid(text) => ParsedIdView::Invalid(text@),
        }),
        id_pairs_view(pairs)[i].1 == (match pairs[i].1 {
            ParsedId::Valid(identifier) => ParsedIdView::Valid(identifier@),
            ParsedId::Invalid(text) => ParsedIdView::Invalid(text@),
        }),
{
}

/// A load of the positions of all orders.
pub struct OrderPositionLoad {
    positions: CollectionLoad,
}

impl View for OrderPositionLoad {
    type V = LoadView;

    closed spec fn view(&self) -> LoadView {
        self.positions@
    }
}

impl DatabaseQueries {
    /// How the clients of all orders are read.
    pub fn load_index_order_client_hash(trader_key: &str) -> (plan: ReadPlan)
        ensures
            plan@ == (PlanView {
                method: ReadMethod::Fields,
                key: joined(trader_key@, INDEX_ORDER_CLIENT@),
            }),
    {
        ReadPlan { method: ReadMethod::Fields, key: join(trader_key, INDEX_ORDER_CLIENT) }
    }

    /// The clients of all orders: `pairs` are the fields that were read, each an order and its
    /// client.
    pub fn load_index_order_client_hash_reply(pairs: Vec<(ParsedId, ParsedId)>) -> (clients: Result<
        AHashMap<String, String>,
        QueryError,
    >)
        ensures
            clients_outcome(clients) == order_clients(id_pairs_view(pairs@)),
    {
        let ghost all = id_pairs_view(pairs@);
        let ghost listed = pairs@;
        let mut map = no_text_pairs();
        proof {
            assert(text_pairs(map) =~= Map::empty());
            assert(all.take(0) =~= Seq::empty());
        }
        for pair in it: pairs
            invariant
                it.seq() == listed,
                all == id_pairs_view(listed),
                order_clients(all.take(it.index())) matches Ok(so_far) && so_far == text_pairs(map),
        {
            proof {
                assert(all.take(it.index() + 1).drop_last() == all.take(it.index()));
                assert(all.take(it.index() + 1).last() == (pair.0@, pair.1@));
            }
            match pair {
                (ParsedId::Invalid(text), _) => {
                    proof {
                        lemma_error_stays(all, it.index() + 1);
                    }
                    return Err(QueryError::InvalidIdentifier(text));
                },
                (_, ParsedId::Invalid(text)) => {
                    proof {
                        lemma_error_stays(all, it.index() + 1);
                    }
                    return Err(QueryError::InvalidIdentifier(text));
                },
                (ParsedId::Valid(order), ParsedId::Valid(client)) => {
                    insert_text_pair(&mut map, order, client);
                },
            }
        }
        assert(all.take(all.len() as int) == all);
        Ok(map)
    }

    /// Begins a load of the positions of all orders.
    pub fn load_index_order_position_resolved(
        trader_key: &str,
        encoding: SerializationEncoding,
    ) -> (load: OrderPositionLoad)
        ensures
            load@ == (LoadView { kind: RecordKind::Position, trader_key: trader_key@, encoding }),
    {
        OrderPositionLoad { positions: DatabaseQueries::load_positions(trader_key, encoding) }
    }
}

impl OrderPositionLoad {
    /// How the index of positions is read.
    pub fn index(&self) -> (plan: ReadPlan)
        ensures
            plan@ == (PlanView {
                method: ReadMethod::Fields,
                key: joined(self@.trader_key, INDEX_ORDER_POSITION@),
            }),
    {
        ReadPlan {
            method: ReadMethod::Fields,
            key: join(self.positions.trader_key(), INDEX_ORDER_POSITION),
        }
    }

    /// The first step for a field of the index: an order and its position.
    pub fn begin(&self, client_order_id: String, position_id: &str) -> (step: RowStep)
        ensures
            step@ == (StepView::Fetch {
                identifier: client_order_id@,
                plan: PlanView {
                    method: ReadMethod::Elements,
                    key: record_key(self@.trader_key, POSITIONS@, position_id@),
                },
            }),
    {
        match DatabaseQueries::load_position(self.positions.trader_key(), position_id) {
            Ok(plan) => RowStep::Fetch { identifier: client_order_id, plan },
            Err(error) => RowStep::Done(Row::Failed(error)),
        }
    }

    /// The step after the store has answered with the payloads of the position of an order.
    pub fn fetched(&self, client_order_id: String, reply: Result<Vec<Bytes>, QueryError>) -> (step:
        RowStep)
        ensures
            step@ == fetched_step(self@, client_order_id@, reply_outcome(reply)),
    {
        self.positions.fetched(client_order_id, reply)
    }

    /// Where the position of each order stands: `rows` are the rows in the order in which they were
    /// done. An order without a position is left out; a position that is none stops the load.
    pub fn finish(self, rows: Vec<Row>) -> (result: Result<AHashMap<String, usize>, QueryError>)
        ensures
            gathered_outcome(result) == gathered(rows_view(rows@), true),
    {
        gather(rows, true)
    }
}

} // verus!
