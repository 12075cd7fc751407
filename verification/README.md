# netfile-core

A LAN and peer-to-peer file transfer tool whose core is written in Verus:
transfer sessions (chunks, resume, compression, the whole-file SHA-256
check), device discovery, the signalling server's and client's state
machines, the relay and the server's admission limits, chat message
storage, configuration and the stores of history, shares and tasks.

- `src/` holds the verified library. Each module states its behaviour in
  `requires`/`ensures` contracts over spec functions, and the laws that
  span several functions are public proof functions named `law_*`.
  Calls into outside crates (sha2, crc32fast, zstd, uuid, hostname, dirs,
  stun) go through small trusted wrappers whose doc comments say what is
  assumed of them.
- `app/` is the command-line program around it: sockets, files, clocks,
  serde and the floating-point progress display.
- `tests/` exercises the library with concrete values.

Verify with Verus on `src/lib.rs`; build and test with Cargo.
