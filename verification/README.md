# powdb_query

Query execution for PowDB. The library takes a plan and a snapshot of the
tables and decides what comes of the plan: an answer, steps for the storage to
take, or a view to refresh first. Every function of `src/` carries a contract
that Verus proves.

## Layout

- `src/` is the library.
  - `value`, `expr`, `plan`, `catalog`, `storage`: the data.
  - `scalars`, `wording`, `session`, `error`: what a query runs with. How
    expressions are evaluated, values are ordered and floats are added is
    supplied by the embedding program; contracts speak of these functions by
    their models.
  - `coerce`, `lower`, `validate`, `scope`, `stable`: how a plan is made ready and
    checked.
  - `sort`, `ordering`, `aggregate`, `group`, `window`, `join`, `index`,
    `links`, `nested`, `operators`, `provenance`, `fast`, `read`: how a plan is
    answered.
  - `rows`, `mutate`, `removal`, `define`: what statements that write come to.
  - `views`, `fresh`: materialized views, and which of them a statement meets out
    of date.
  - `explain`, `labels`, `json`, `text`: how things are told.
  - `engine`: the statements as a whole, the views and the transaction.
- `tests/` runs the library.
- `app/` runs an engine over a storage.

Floats are held as the bits of their doubles, so that two floats are the same
value exactly when their bits agree.
