//! The whole cache: all collections of a trader.

use ahash::AHashMap;
use ustr::Ustr;
use vstd::prelude::*;

use crate::bulk::currencies_outcome;
use crate::error::{ErrorView, QueryError};
use crate::keys::DatabaseQueries;
use crate::load::gathered_outcome;
use crate::outside::{code_positions, no_positions, positions};

verus! {

/// The whole cache: where each record of each collection stands in the rows of its load.
pub struct CacheMap {
    pub currencies: AHashMap<Ustr, usize>,
    pub instruments: AHashMap<String, usize>,
    pub synthetics: AHashMap<String, usize>,
    pub accounts: AHashMap<String, usize>,
    pub orders: AHashMap<String, usize>,
    pub positions: AHashMap<String, usize>,
    /// Not kept in the store, so always empty.
    pub greeks: AHashMap<String, usize>,
    /// Not kept in the store, so always empty.
    pub yield_curves: AHashMap<String, usize>,
}

/// What a `CacheMap` is.
pub struct CacheView {
    pub currencies: Map<Seq<char>, usize>,
    pub instruments: Map<Seq<char>, usize>,
    pub synthetics: Map<Seq<char>, usize>,
    pub accounts: Map<Seq<char>, usize>,
    pub orders: Map<Seq<char>, usize>,
    pub positions: Map<Seq<char>, usize>,
    pub greeks: Map<Seq<char>, usize>,
    pub yield_curves: Map<Seq<char>, usize>,
}

impl View for CacheMap {
    type V = CacheView;

    open spec fn view(&self) -> CacheView {
        CacheView {
            currencies: code_positions(self.currencies),
            instruments: positions(self.instruments),
            synthetics: positions(self.synthetics),
            accounts: positions(self.accounts),
            orders: positions(self.orders),
            positions: positions(self.positions),
            greeks: positions(self.greeks),
            yield_curves: positions(self.yield_curves),
        }
    }
}

/// What a load that failed makes of the whole.
pub open spec fn load_failure(error: ErrorView) -> Result<CacheView, ErrorView> {
    Err(ErrorView::LoadCache(Box::new(error)))
}

/// The whole cache out of its loads, or the first of them that failed.
pub open spec fn whole_cache(
    currencies: Result<Map<Seq<char>, usize>, ErrorView>,
    instruments: Result<Map<Seq<char>, usize>, ErrorView>,
    synthetics: Result<Map<Seq<char>, usize>, ErrorView>,
    accounts: Result<Map<Seq<char>, usize>, ErrorView>,
    orders: Result<Map<Seq<char>, usize>, ErrorView>,
    positions: Result<Map<Seq<char>, usize>, ErrorView>,
) -> Result<CacheView, ErrorView> {
    match (currencies, instruments, synthetics, accounts, orders, positions) {
        (Err(error), _, _, _, _, _) => load_failure(error),
        (_, Err(error), _, _, _, _) => load_failure(error),
        (_, _, Err(error), _, _, _) => load_failure(error),
        (_, _, _, Err(error), _, _) => load_failure(error),
        (_, _, _, _, Err(error), _) => load_failure(error),
        (_, _, _, _, _, Err(error)) => load_failure(error),
        (Ok(c), Ok(i), Ok(s), Ok(a), Ok(o), Ok(p)) => Ok(
            CacheView {
                currencies: c,
                instruments: i,
                synthetics: s,
                accounts: a,
                orders: o,
                positions: p,
                greeks: Map::empty(),
                yield_curves: Map::empty(),
            },
        ),
    }
}

/// What the cache that a load hands out is.
pub open spec fn cache_outcome(result: Result<CacheMap, QueryError>) -> Result<
    CacheView,
    ErrorView,
> {
    match result {
        Ok(cache) => Ok(cache@),
        Err(error) => Err(error@),
    }
}

/// The whole cache is loaded exactly where each of its loads succeeds; it then holds what each of
/// them loaded, every one in its own place, and no greeks and no yield curves. Else it fails with
/// the error of the first load that failed.
pub proof fn cache_is_made_of_its_loads(
    currencies: Result<Map<Seq<char>, usize>, ErrorView>,
    instruments: Result<Map<Seq<char>, usize>, ErrorView>,
    synthetics: Result<Map<Seq<char>, usize>, ErrorView>,
    accounts: Result<Map<Seq<char>, usize>, ErrorView>,
    orders: Result<Map<Seq<char>, usize>, ErrorView>,
    positions: Result<Map<Seq<char>, usize>, ErrorView>,
)
    ensures
        ({
            let cache = whole_cache(
                currencies,
                instruments,
                synthetics,
                accounts,
                orders,
                positions,
            );
            let loads = seq![currencies, instruments, synthetics, accounts, orders, positions];
            match cache {
                Ok(whole) => {
                    &&& seq![
                        whole.currencies,
                        whole.instruments,
                        whole.synthetics,
                        whole.accounts,
                        whole.orders,
                        whole.positions,
                    ] == loads.map_values(
                        |load: Result<Map<Seq<char>, usize>, ErrorView>| load->Ok_0,
                    )
                    &&& forall|i: int| 0 <= i < 6 ==> #[trigger] loads[i] is Ok
                    &&& forall|key: Seq<char>| !(#[trigger] whole.greeks.dom().contains(key))
                    &&& forall|key: Seq<char>|
                        !(#[trigger] whole.yield_curves.dom().contains(key))
                },
                Err(error) => exists|i: int|
                    0 <= i < 6 && (#[trigger] loads[i] matches Err(cause) && error
                        == ErrorView::LoadCache(Box::new(cause))) && forall|j: int|
                        0 <= j < i ==> #[trigger] loads[j] is Ok,
            }
        }),
{
    let cache = whole_cache(currencies, instruments, synthetics, accounts, orders, positions);
    let loads = seq![currencies, instruments, synthetics, accounts, orders, positions];
    assert(loads[0] == currencies && loads[1] == instruments && loads[2] == synthetics);
    assert(loads[3] == accounts && loads[4] == orders && loads[5] == positions);
    if let Ok(whole) = cache {
        assert(seq![
            whole.currencies,
            whole.instruments,
            whole.synthetics,
            whole.accounts,
            whole.orders,
            whole.positions,
        ] =~= loads.map_values(|load: Result<Map<Seq<char>, usize>, ErrorView>| load->Ok_0));
    }
}

/// What a cache is: each of its maps in its own place. What the outcome of a load is: the cache or
/// the error, left whole.
pub proof fn caches_are_whole(cache: CacheMap, result: Result<CacheMap, QueryError>)
    ensures
        match result {
            Ok(whole) => cache_outcome(result) matches Ok(view) && view == whole@,
            Err(error) => cache_outcome(result) matches Err(view) && view == error@,
        },
        cache@.currencies == code_positions(cache.currencies),
        cache@.instruments == positions(cache.instruments),
        cache@.synthetics == positions(cache.synthetics),
        cache@.accounts == positions(cache.accounts),
        cache@.orders == positions(cache.orders),
        cache@.positions == positions(cache.positions),
        cache@.greeks == positions(cache.greeks),
        cache@.yield_curves == positions(cache.yield_curves),
{
}

/// Whatever came of one load, or why it failed, as a failure of the whole.
fn part<T>(result: Result<T, QueryError>) -> (outcome: Result<T, QueryError>)
    ensures
        match result {
            Ok(value) => outcome matches Ok(v) && v == value,
            Err(error) => outcome matches Err(e) && e@ == ErrorView::LoadCache(
                Box::new(error@),
            ),
        },
{
    match result {
        Ok(value) => Ok(value),
        Err(error) => Err(QueryError::LoadCache(Box::new(error))),
    }
}

impl DatabaseQueries {
    /// The whole cache out of its loads.
    pub fn load_all(
        currencies: Result<AHashMap<Ustr, usize>, QueryError>,
        instruments: Result<AHashMap<String, usize>, QueryError>,
        synthetics: Result<AHashMap<String, usize>, QueryError>,
        accounts: Result<AHashMap<String, usize>, QueryError>,
        orders: Result<AHashMap<String, usize>, QueryError>,
        positions: Result<AHashMap<String, usize>, QueryError>,
    ) -> (cache: Result<CacheMap, QueryError>)
        ensures
            cache_outcome(cache) == whole_cache(
                currencies_outcome(currencies),
                gathered_outcome(instruments),
                gathered_outcome(synthetics),
                gathered_outcome(accounts),
                gathered_outcome(orders),
                gathered_outcome(positions),
            ),
    {
        let currencies = part(currencies)?;
        let instruments = part(instruments)?;
        let synthetics = part(synthetics)?;
        let accounts = part(accounts)?;
        let orders = part(orders)?;
        let positions = part(positions)?;
        let greeks = no_positions();
        let yield_curves = no_positions();
        let cache = CacheMap {
            currencies,
            instruments,
            synthetics,
            accounts,
            orders,
            positions,
            greeks,
            yield_curves,
        };
        proof {
            assert(cache@.greeks =~= Map::empty());
            assert(cache@.yield_curves =~= Map::empty());
        }
        Ok(cache)
    }
}

} // verus!
