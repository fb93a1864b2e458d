# Streamertail query planning, verified

A Verus library for planning RDF queries: building logical plans from query
parts, a memoizing cost-based optimizer with star-join detection and RUN
(ML model) clause placement, evaluation of basic graph patterns, and the
fixpoint bookkeeping of the probabilistic reasoner.

Layout of `src/`:

- `text`, `terms`, `dictionary`, `query`, `operators`, `database`: strings,
  terms and patterns, the string dictionary and prefix table, query parts,
  logical and physical plans with their mathematical values, the triple store
  and its statistics.
- `cost`: cardinality, selectivity (in parts per million) and plan costs.
- `plan`, `ml_clause`: logical plan construction and RUN clause insertion.
- `optimizer`, `star`, `search`, `serialize`: cost estimates of logical plans,
  star grouping, the memoizing search for the best physical plan, and the memo
  keys.
- `execution`: rows of scans, joins, star joins and projections.
- `reasoning`: premise resolution and the absorption of inference rounds.

`app/` holds what stays outside the verified library: finding the model
directory on disk and the floating-point probability code.

Design notes:

- The optimizer's memo is a `Vec<(String, PhysicalOperator)>` with one entry
  per key, not a `HashMap<String, _>`: for maps keyed by `String`, the
  specifications that Verus's library gives prove nothing about lookups, so
  the read-after-write behaviour of the memo could not be stated. The `Vec`
  keeps the map's meaning (insert replaces the entry under its key) and is
  proved to.
- A VALUES plan's memo key lists its rows, not only their number, so that
  two VALUES plans with other rows are not planned as one. That distinct
  plans always get distinct keys is not claimed: keys hold strings as they
  are, and `{:?}` quoting where they are quoted. What is proved is that the
  memo only saves work wherever the parts of a plan that share a key have
  one plan and the memo holds no other under them (`lemma_memo_only_caches`).
- Selectivities are integers in parts per million (`PPM`), and scaled counts
  are rounded down (`scaled`, `scale`): where a floating-point product
  `(x as f64 * sel) as u64` would be used, results can differ by rounding.
- The physical cost model (`physical_cost`) charges a nested loop the product
  of its inputs' costs plus both inputs, so it never costs less than the
  optimized hash join, which wins ties as the first candidate.
- Plan execution covers basic graph patterns: scans, joins, star joins and
  projections; other operators are reported as not executed (`None`).
