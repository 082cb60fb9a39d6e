# gsx_dag

Verified core of a settlement chain: the state that blocks are executed on, the
fast path with its quorum and slashing rules, the bridge to L2 chains, and the
index of committed blocks. Everything under `src/` is verified with Verus.

## Layout

- `src/substrate.rs`, `ledger.rs`: the state (balances, byte records, height) and
  its mathematical model. `apply.rs` says what each intent does to it;
  `transfers.rs`, `staking.rs`, `delegating.rs`, `slots.rs`, `sequencing.rs`,
  `rollup.rs`, `blob.rs` and `assets.rs` hold the intents by topic. `block.rs`
  runs blocks, `state_root.rs` commits to the state, `readers.rs` answers queries.
- `src/*_registry.rs`, `force_include.rs`, `burn_nullifier.rs`, `l2_state.rs`: the
  byte records, each with its codec. `table.rs` holds what fixed-width codecs
  share, `ordered.rs` the maps and sets in key order, `bytes.rs` big-endian fields.
- `src/bridge.rs`, `l2_proof.rs`, `findings.rs`: payload checks, burn inclusion, proof
  gates, what the host found of proofs.
- `src/fastpath/`: certificates, binding to the main lane, quorum, equivocation
  and slashing.
- `src/indexer/`: the block store, the event stream and the catch-up walk.
- `src/laws/`: what holds across intents and modules: conservation of supply,
  escrow and stake accounting, one-way lifecycles, replay protection, codecs that
  read back what they write, state roots that tell states apart.
- `tests/`: tests on concrete values.
- `app/`: the indexer program (command line, WebSocket, HTTP, Postgres) and the
  adapters for the state database and the proof verifier.

## What is trusted

One function: `hash::blake3_hash` calls `blake3::hash`. Its result is named, not
described, so every contract that involves a digest holds for whatever function of
its input BLAKE3 is. Laws that need two digests to differ say so: those on
distinct protocol accounts are stated under `reserved::apart()`, which
`reserved::addresses_are_apart()` decides at run time, and those on distinct
identifiers and roots under the absence of a collision.

The pairing check of an L2 proof is made by the host. It hands in what it found with
`InMemorySubstrate::set_pairings` before a block is executed, as it hands in the
height, and each commit goes by what was found of its own proof; a proof that nothing
was said of does not pass. `rehearse_intent` is an entry point for rehearsals on states
whose roots are made up: it can let a burn through without an inclusion proof. Nothing
that runs a chain goes that way.
