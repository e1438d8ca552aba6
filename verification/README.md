# merksql

Queries over streams and tables of JSON records, written and verified in Verus.

- `src/` is the library. SQL (`sql`) and a builder (`builder`) make query plans
  (`plan`), plans are compiled to pipelines of operators (`engine`), and pipelines are
  run over the records of topics (`runtime`). The library decides and computes; it does
  not touch topics, files or threads.
- `tests/` runs the library, on values and over a broker in a temporary directory.
- `app/` runs queries over the topics of a broker: it reads and writes records, starts
  threads, and turns the library's types into ones that can be serialized.

Values are JSON-like (`value`): doubles are bit patterns with verified arithmetic
(`double`), reading (`decimal`) and writing (`shortest`), so that the meaning of every
expression is part of the contracts. The modules named `laws`, and `right` and `times`
beside those of pipelines, state what holds of the library as a whole: how values are
ordered, what filters, projections, joins, groups and windows make of rows, that rows fit
the schema of their pipeline, that what is put into the right side of a join is what later
rows are joined to, that it does not matter when rows that carry their times are read, and
what statements change.

Calls into `chrono`, `serde_json`, `sqlparser` and parts of the standard library stand
behind small functions whose contracts are taken on trust; their doc comments say what is
claimed.
