# substrate_lessons

Verified (Verus) logic of a set of Substrate exercises.

- `src/erc20.rs`: an ERC-20 style token pallet (issue, transfer, approve,
  transfer from an allowance), its state held in ordered maps.
- `src/kitties.rs`: the kitties pallet (create, breed, transfer, and calls
  that reserve or move funds through a pluggable `Currency`).
- `src/linked_list.rs`: the per-owner doubly linked lists the kitties pallet
  keeps in one flat map, with the proof that each account's entries encode
  its list.
- `src/dna.rs`: gene mixing and the random DNA of a new kitty (SCALE encoding
  by `parity-scale-codec`, hashing by `sp_io::hashing::blake2_128`).
- `src/dispatch.rs`: call origins and `ensure_signed`.
- `src/number.rs`, `src/echo.rs`, `src/print_info.rs`: the decisions of the
  echo server and of the command-line tool.
- `app/`: the echo server and the command-line tool themselves (sockets,
  threads, files, `clap`).
