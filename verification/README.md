# quil_shard

The decision logic of the shard side of a Quilibrium node, verified with Verus.

- `src/`: the library. Every function states what it returns in its contract, and Verus proves it.
  The proof functions named `law_*` state what holds across functions.
- `app/`: the program and the node services around the library. It does the network and store work
  and asks the library what to do.
- `tests/`: the library on concrete values, with the outside crates linked.

The Falcon primitives (parsing a key, decoding a certificate, checking its signatures) are handed to
the library as functions. What is believed of outside crates without proof stands in
`src/commonware.rs` and `src/hex_text.rs`.
