# btfy

A small blockchain node. Blocks are sealed by a verifiable delay function
(Pietrzak, from `vdf-rs`) and carry a temperature beacon read at places that
the previous block's hash picks; transactions spend unspent outputs and are
signed with RSA keys.

- `src/` is the library, verified with Verus: keys, hashing and hexadecimal
  text; transactions, unspent outputs and coinbase rewards; blocks, chains and
  their validation; payment and block generation; the pool, the peers and the
  node's state machine (`update::update`), whose every step is specified by
  `update::spec_update`.
- `app/` is the node program around it: command-line settings, the chain and
  key files, the HTTP API (axum), the peer protocol over TCP (bitcode), the
  temperature providers and the event loop.
- `tests/` exercises the library.
