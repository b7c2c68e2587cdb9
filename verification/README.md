# KnightVerse

The logic of an online chess service, verified with Verus.

- `src/pgn*.rs`: reading, writing and strictly checking games in Portable Game
  Notation. `board.rs` is the boundary to the `shakmaty` chess library,
  `text.rs` and `unicode.rs` hold the text handling. What holds of the three
  together is stated and proved in `pgn_laws.rs`, `pgn_strict_laws.rs` and
  `pgn_accepted_laws.rs`.
- `src/arbiter_escrow.rs`, `src/referral_splitter.rs`, `src/title_badge.rs`: the
  ledger contracts. Each call takes the contract's environment to its next state
  and leaves a script of what the host has to do: authorisations, storage writes,
  transfers, events. `host.rs` is what they share. The laws of the escrow are in
  `arbiter_escrow_laws.rs`, those of the other two beside their code.
- `src/redis_broadcast.rs`, `src/metrics.rs`, `src/server.rs`: the bounded outbox
  of a spectator, the metrics, and the settings of the server.
- `app/`: the ordinary Rust around it: the tasks and connections of the backend,
  and the contracts on their ledger, which perform the scripts.
- `tests/`: tests that run the library.
