# pelanca

A chess engine library verified with Verus: bitboard move generation, make
and unmake, FEN and UCI parsing, perft with a cache, static exchange
evaluation, piece-square and NNUE evaluation, transposition tables and two
alpha-beta searches. Nearly every function in `src/` carries a contract
that Verus proves; the searches' scores are tied by spec relations to the
scores of the positions they search.

What Verus takes on trust is a small set of wrappers and declarations:
the `FxHashMap` calls of one transposition table (`fxhash` and std's
`HashMap`), `rand`'s thread generator for random network weights, std's
`HashMap::capacity`, the `DefaultHasher` behind the Zobrist keys, and the
clock (`Instant`, `Duration`) that the searches read to stop in time.

- `src/` — the verified library.
- `tests/` — tests run against the compiled library.
- `app/` — the program around it: the UCI loop, the benchmark with
  threaded perft, profiling helpers and file input/output.
