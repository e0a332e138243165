# agent_lifecycle

Verified lifecycle bookkeeping of locally managed agent processes.

- `src/types.rs`: records, runtimes and process states as plain values.
- `src/runtimes.rs`: the runtime map, one entry per agent and relay.
- `src/reclaim.rs`: probing and killing processes, with a log of every call.
- `src/stale.rs`: killing what an earlier session left behind.
- `src/sweep.rs`: the inputs of the periodic orphan sweep.
- `src/sync.rs`: syncing exited roots into the agent records.
- `src/laws.rs`: what holds of the passes together.
- `app/`: the host side, which owns the child processes.

The host probes each root with `try_wait` and hands the finding over as a
`ChildState`. The clock, the marker probe and the kill are closures; contracts
speak of them through `call_requires` and `call_ensures`.
