# crosslink

The verified core of a Crosslink wallet and of the finality service of its node.

- `src/` is the library, written in Verus. Every function there states what it does in `requires` and
  `ensures`, and Verus proves it.
  - The wallet's data: amounts, heights, notes, transactions, accounts (`zats`, `height`, `notes`,
    `tx_part`, `wallet_tx`, `accounts`, `staking`, `byte_map`, `listing`, `limits`).
  - What the chain tells it: `blocks`, `compact`, `full_tx`, `scan`, `books`, `audit`, `reorg`, `sync`,
    `tree`.
  - What is saved and loaded: `wire`, `records`, `anchors`, `shard_form`, `tree_wire`, `snapshot`,
    `rollback`, `walkback`, `files`.
  - What it is asked for and shows: `state`, `queue`, `perform`, `propose`, `fees`, `assemble`, `submit`,
    `bonds`, `funds`, `commands`, `text`.
  - The finality service: `bft`, `decide`, `hardfork`, `voters`, `store`, `recency`, `service`,
    `block_seq`, `issuance`, `node_key`.
- `tests/` runs the library on given values.
- `app/` is ordinary Rust around it: files, the network, clocks and tasks.

What the library takes from other crates, it takes through functions marked `external_body`. The comment
above each says which function it calls and what is claimed of it without proof.
