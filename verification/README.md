# ream_da

The core of a standalone data-availability node, with its behaviour stated in
contracts and proved by Verus.

- `src/id.rs` — block roots, column ids (`ColumnId::new` accepts indices below
  `NUMBER_OF_COLUMNS`).
- `src/column.rs` — candidate columns, whole-block batches (`CandidateBlock`:
  non-empty, indices in range, no index twice), verified columns.
- `src/store.rs`, `src/store_laws.rs` — the in-memory column store: `put`,
  `get`, availability bitmaps, retention floor and pruning, with the laws that
  relate them (read after write, first copy kept, pruning keeps exactly the
  blocks at or above the floor, ...).
- `src/kzg.rs` — the verifier's checks of a decoded sidecar, in order.
- `src/ingest.rs` — the bounded ingest queue (tokio `mpsc`) and its
  load-shedding submissions.
- `src/wire.rs` — the SSZ decoding of a block-ingest body into its
  `(column index, payload)` entries.
- `src/rpc.rs` — request decisions: block ids, hex payloads, batch bodies,
  the answers to queue failures.
- `src/service.rs`, `src/feed.rs` — the decisions of the verification service
  and of the feeding tool.
- `app/` — the runtime around it: messages, the shared store behind a lock,
  awaiting submissions, the service loop, the HTTP handlers, the
  availability table and the feeding tool.
