# gambit_core

The decision logic of the gambit chess ingest and studio tools, written in Verus
and proved against its contracts: PGN stream splitting, Lichess catalog parsing,
COPY row encoding, year-load scheduling, job tracking, search paging cursors,
grpc-web framing, and the state of the studio's panels and board.

## Layout

- `src/` — the verified library. Each module states its behaviour over spec
  functions and views, and proves the laws that span several calls (round trips,
  what a run of operations keeps, what a cursor continues).
- `tests/` — tests run against the compiled library.
- `app/` — ordinary Rust around the library: files and zstd streams, shard
  downloads, threads and the job manager, printed reports, command-line
  arguments. It hands the library plain values and acts on its decisions.

## Outside crates

- `anyhow`: error chains are read in `src/errors.rs`.
- `sha2`: digests are computed in `src/download.rs`.
- `zstd`: whole-file decompression is in `src/pgn_stream.rs`; streaming
  decompression of an open file is in `app/stream.rs`.
- `clap`: command-line arguments are in `app/cli.rs`.

Calls into these crates stand behind small trusted items, whose doc comments
say what is claimed of them.
