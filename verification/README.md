# KTANN

The verified core of a K-means tree approximate nearest-neighbor index over
transactional key-value storage, and the asynchronous runtime around it.

`src/` holds what the index decides between its reads and writes: the limits and
validation of its public values, routing through trees that are being split and
merged, the balance of splits, the training protocol, the maintenance state
machines, the bounded maintenance queue, retries, admission, index lifecycle,
import pacing, search accounting, and the audit of a stored index. Each function
carries its contract, and Verus proves the code against it. What holds across
functions is stated as public proof functions beside them; what holds of whole
descents stands in `src/maintenance/snapshot.rs` and
`src/maintenance/agreement.rs`.

Two calls leave the core: XXH3 hashes from `xxhash-rust`, wrapped in
`src/hashing.rs`. Floating-point numbers enter it as bit patterns, and distances
as ranks that order as the numbers do.

`app/` is ordinary Rust: Tokio tasks, locks and timers, metrics and traces,
vector arithmetic, and the traits that a storage backend implements. It reads,
asks the core what to do, and writes.

A storage backend, behind those traits, owns the persistent encodings, the writes
that make one membership change atomic, and the stages of a search: enumerating
Tree Keys, traversing partitions, and exact reranking. The core plans around them
and accounts for what they report.

`tests/` runs the core on concrete values.

| Directory | Content |
| --- | --- |
| `src/api` | errors, identifiers, schema, configuration, records, requests |
| `src/maintenance` | routing, mutation plans, split, merge, drain, pulls, training |
| `src/runtime` | admission, attempts, queue, import, index lifecycle, results |
| `src/verify` | the bounded read-only audit |
| `src/observe` | bounded metric labels and samples |
