# sunrise

A small host that game-streaming clients can discover, pair with and stream from.

The library in `src/` is written in Rust and verified with Verus. Its functions
state in their contracts what they return or change, over models made of sequences,
maps and integers, and the proofs are checked. Where a result rests on chance or on
the process, such as a random number or a TLS configuration, the contract says what
holds of every outcome, which may be nothing. Facts that relate several functions,
such as that the packets of a frame carry the frame, that an encrypted payload can
be read by who holds the key, or that a client pairs exactly when its answer
decrypts, under the key that salt and PIN give, to the right digest, are stated and
proved: as public proof functions, or in the contract of the function concerned.

Ciphers, digests, random numbers, hexadecimal and PEM text, certificates and UUIDs
come from other crates. Each such call stands in a small function of its own whose
contract is taken on trust; its comment says what is trusted.

- `src/` is the library. `src/lib.rs` says what each module is about.
- `tests/` runs it on given values, with the other crates linked.
- `app/` is the program around it: listeners, the settings file, logging, and on
  Windows screen capture, encoders and sound. It is ordinary Rust and not verified.
