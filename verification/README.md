# smolvm

The rules by which lightweight virtual machines are managed, as a Verus library.

- `src/db*`: the state database — machines, create reservations, settings, and
  fork pools with their workers and leases. `db_model.rs` says what each step
  does to the tables, `db_laws.rs` what holds of all of them.
- `src/daemon/`: the shared CUDA daemon — where a connection is served, how a
  golden's memory and modules get to a clone's worker, tensor bundles, readiness,
  and when things end.
- `src/machine/`: the machine commands — what each is asked for, what it decides,
  and in which order it acts.
- `src/records.rs`: what is stored of machines, pools, workers and leases.
- `src/text.rs`, `split.rs`, `phrase.rs`, `numerals.rs`, `wire.rs`, `table.rs`,
  `paths.rs`, `copying.rs`, `digest.rs`: what these are written with.
- `app/`: the program around the library — arguments, SQLite, processes, sockets
  and descriptors.
- `tests/`: the library on concrete values.

Times are handed in, as are the answers of the operating system and of the GPU
driver; the library decides what follows from them.
