# tk_store

The store behind `tk`, a command-line tool for work items: Tickets and Epics,
what blocks them, the Plan, and the log of changes that still have to reach an
issue tracker. The library is written in Verus: what its functions return and
change is stated in contracts, and Verus proves the code against them.

## Layout

- `src/tables.rs`, `rows.rs`, `load.rs`, `keep.rs`, `revise.rs`: the store as
  tables with an invariant, and the changes that keep it.
- `src/repository/`: what a user asks of the store: create, update, close,
  block, plan, list, search, show, select the next Ticket, detach.
- `src/mutations.rs`, `sequences.rs`, `sync.rs`, `payload.rs`: the log of changes
  meant for the issue tracker.
- `src/promotion/`: moving local Items to the issue tracker, and what to do when
  that goes wrong.
- `src/migrations.rs`, `backup.rs`: the schema's versions and the copies taken
  before an upgrade.
- `src/association.rs`, `recovery.rs`, `initialize.rs`, `relocation/`: which
  Store belongs to which Git repository, how one is created, found again, and
  moved out of the Git directory.
- `src/domain.rs`, `display_prefix.rs`, `graph.rs`, `messages.rs`, `paths.rs`, `select.rs`,
  `text.rs`: the vocabulary that the rest speaks.
- `tests/`: the library at work on concrete values.
- `app/`: SQLite, files, locks and Git around the library. It reads the database
  into a `Store`, lets the library decide, and writes back what changed.

## Reading the contracts

A `Store` is described by `StoreView`, its tables as sequences. An operation is a
spec function from one view, and the request, to the next view or a fault; the
executable function returns exactly that and, where it refuses, leaves the store
as it was. Work that goes through files or Git is described step by step:
`initialize::Setup` and `relocation::Cutover` say what to do next and what each
answer means. Properties that span several operations stand as `law_` functions
beside them.

What is taken on trust is what `serde_json` writes and reads for strings, the
SHA-256 digest of `sha2`, the bytes that `rand` draws, and `String::push`.
