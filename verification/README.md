# kvbm_engine

Atomic multi-resource cache bundles for a tiered key-value block manager.

A *bundle* is the cached state of one token prefix in every logical resource of a model: the block
histories of its attention layers and the capsules at the boundary. A bundle is of use only as a
whole, so the library offloads, finds, pulls and loads bundles all-or-nothing.

`src/` is the library. Every item in it is verified with Verus; the contracts are stated over the
views of the types, and the laws that relate several functions are public proof functions beside
them.

- `bundle/`: the index and catalog of committed bundles, finding the longest usable boundary,
  parked searches, admission, and the offload and onboard transactions.
- `policy/`: retention by hits per byte, component widths, and which bundles an evicted block takes
  with it.
- `remote/`: advertisements, leased candidates, the pull of a bundle from its owner, the remote
  lookup, placement and prefill, and publication.
- `p2p/`: checksums that bind payloads to their place, staging, attached pulls and parked sessions.
- `offload/`, `onboard/`: plans, routes, completion and folding of transfers.
- `leader/`, `connector/`: aggregation over workers, layouts, tiers, request slots and the
  directory's records.
- `faults`: failures injected into a pull against a holder in memory.
- `ordered`, `ids`, `manifest`, `time`, `positive`, `bytes`, `lists`, `message`: the vocabulary of
  the rest.

What decides over several rounds of outside work is a machine with a `step` function from state and
event to next state and action. `app/` performs the actions: it holds the tasks, locks, clocks and
service traits, the serialised copies of configuration types, and the error messages.

Outside code that the library rests on without proof: `blake3::hash`, and the map of parked sessions
(`dashmap::DashMap`).
