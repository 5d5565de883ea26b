# redis_queries

Queries of a trading cache that is kept in Redis, verified with Verus.

`src/` holds every decision of the queries, with its contract:

- `keys`: the keys of records, collections and indexes.
- `scan`, `read`: what to ask the server, and what its replies come to.
- `json`, `timestamps`, `payload`: documents, their timestamps, and their bytes as JSON or
  MessagePack.
- `record`, `load`, `bulk`, `custom`, `index`, `cache`: single records, whole collections, and the
  whole cache.
- `error`: why a query fails.
- `text`, `sort`, `outside`: helpers, and the types of other crates with what is trusted of them.

`app/` performs the requests and turns documents into the records of a trading system, which a
`Model` provides. `tests/` runs the library.
