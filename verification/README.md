# ClickVault

Backups of a ClickHouse database to S3, in chains of one full backup and the incremental backups
that build on it. The decisions are a Verus library: what is planned, followed, recorded, listed,
kept, deleted and reported is stated in contracts and proved.

## Layout

- `src/backup/`: chains of backups and their discovery, the plan and the run of a backup, and how
  its progress is followed. `chain_laws.rs`, `growth_laws.rs` and `membership_laws.rs` state what
  holds of all chains.
- `src/cleanup.rs`, `src/deletion.rs`: which chains are given up, and how their objects go.
- `src/s3.rs`: paths, SQL fragments, sidecars and listings.
- `src/retry.rs`, `src/time.rs`, `src/text.rs`, `src/order.rs`, `src/error.rs`: the ground that the
  others stand on.
- `src/config.rs`, `src/cli.rs`, `src/check.rs`, `src/commands.rs`: settings, arguments, the
  staleness check and what the commands print.
- `src/notify/`: which events are sent where, and what is sent.
- `tests/`: tests of the library with the real crates linked.
- `app/`: the program. It performs the requests that the library asks for and hands the answers
  back.

Work that waits on a server is a state machine in the library: a function from a state and an event
to the next state and the step to perform. Calls into other crates stand behind small functions
marked `external_body`; the comment above each says what is taken on trust.
