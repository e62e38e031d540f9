# northstar

The logic of an ephemeral-rollup manager for Solana, written in Verus: what a
rollup takes over from the base layer, what it lets a transaction touch, how its
results are settled, and what is committed and stored along the way. Every item
of the library is verified; `app/` holds the ordinary Rust around it (threads,
files, RPC and the bank).

| Where | What |
| --- | --- |
| `src/codec.rs`, `src/order.rs`, `src/hashing.rs`, `src/merkle.rs` | the canonical encoding, byte order, hashes and Merkle trees |
| `src/checkpoint/` | checkpoint artifacts: building, encoding, reading and checking them |
| `src/settlement/` | settlement plans: chunks, lamport and owner changes, receipts, batches, instructions |
| `src/runtime/` | the rollup: delegation, deposits, refresh, receipts, differences, slots, token deposits |
| `src/unsettled_state/` | the snapshot and the journal in which unsettled state survives a restart |
| `src/manager/` | sessions, checkpoints, what is due, portal events, stored plans |
| `src/replay.rs`, `src/tx_client.rs`, `src/slot_advancer.rs`, `src/timing.rs` | replaying a step, admitting a transaction, advancing slots, time scales |

Contracts speak of plain models (`...Model` structs, `Seq`, `Map`, `Set`). The
laws that relate several operations are public proof functions beside them.
Calls into Solana's crates, `bincode` and `std` stand behind small wrappers marked
`external_body`, each with a doc comment that says what is taken on trust.
