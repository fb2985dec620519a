# whycache

Explains why Turborepo tasks missed the cache by comparing two run summaries:
it diffs task inputs, environment fingerprints, global inputs, task
configuration and upstream task hashes, classifies each task (root cause,
cascade, cache unavailable, new task, unchanged, unexplained), ranks the causes
and renders the report for a terminal or as Markdown.

The library in `src/` is verified with Verus; each public function states what
it returns in its `ensures`, and the `law_*` proof functions state properties
that span functions.

- `text`, `map`, `order`: strings, a sorted string-keyed map, stable sorting.
  `SortedMap` holds its entries in a vector kept in ascending key order, so
  that contracts can speak of its keys in order; vstd's specification of
  `BTreeMap` with `String` keys lets little about such a map be proved.
- `model`: run summaries and the report.
- `causes`, `hints`, `graph`, `diagnosis`: the comparison, the dependency order
  of tasks, classification and the report. The report lists tasks in
  investigation order: by classification (root causes, unavailable caches and
  new tasks first, then cascades, then unexplained and last unchanged tasks),
  then in dependency order, then by task id.
- `render`: human and Markdown output.
- `discovery`, `git`, `parser`, `error`, `cli`: choosing the summaries (a state
  machine driven by the caller), Git statistics, and the tool's errors. Paths
  are joined and shortened as `std::path` does on the platform, whose
  `PathStyle` the caller passes in.

`app/` is the command: argument parsing, JSON decoding and encoding, the file
system, and running Turborepo and Git.
