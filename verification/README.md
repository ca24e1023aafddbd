# snap_coin

The verified core of a small proof-of-work coin node, written in Verus.

- `src/merkle_tree.rs` — Merkle trees of transaction ids: building a tree,
  inclusion checks, generating and validating inclusion proofs, and proofs
  made from a flat list of leaf hashes. Laws: generated proofs validate
  against the root of a well-hashed tree; created proofs lead to the same
  Merkle root the built tree has, and on a built tree the generated proof
  is step for step the created one.
- `src/address_inclusion_filter.rs` — per-block bloom filters of touched
  addresses (probabilistic-collections, stored as serde_json bytes); no false
  negatives.
- `src/interesting_blocks.rs` — a light node's record of the blocks that touch
  the addresses it watches.
- `src/light_node_behavior.rs`, `src/message.rs`, `src/peer.rs` — how a light
  node answers each peer-to-peer command.
- `src/api_server.rs`, `src/sync.rs`, `src/node.rs`, `src/utils.rs` — the
  API server's request plan and paging, the decisions of both initial block
  downloads (reading each peer reply), accepting blocks and transactions,
  small numeric helpers.
- `src/hashing.rs`, `src/transaction.rs` — SHA-256 (sha2) and the transaction
  data the logic reads.
- `app/` — plain Rust around the library: floating-point helpers, sizing of
  bloom filters, peer channels (tokio), the light node's message handling and
  both initial block downloads driven by the library's decisions, and the
  serde / bincode / thiserror forms of the library's types.
