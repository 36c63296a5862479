# coinstribute

The logic of a marketplace for software that is paid for in Monero, written in
Rust and proved with Verus, and the server around it.

- `src/` is the library. Every function states in its contract what it returns
  for which inputs, and what holds of several of them together is stated in
  public proof functions beside them.
  - `auth`: accounts, passwords and sessions
  - `money`: balances, deposits, withdrawals and the queue of transfers
  - `fundraiser`: opening and finding fundraisers
  - `software`: describing, uploading, finding and downloading software
  - `wallet`: what is sent to a Monero wallet and a Monero daemon, and what is
    made of their answers
  - `db`, `denial`, `logging`, `text`, `bytes`: the keys of the database, what
    refused clients are told, the log, and small helpers
  - `outside`: the functions of other crates that the library calls, with
    contracts that are believed and not proved
- `app/` is the server: routes, files, the database and the connections. It
  holds copies of the library's values that can be stored and sent.
- `tests/` runs the library.
