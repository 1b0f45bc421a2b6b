# triad

The networking and bookkeeping core of a TRIAD node, written in Verus. The
library's own functions carry contracts that Verus proves; the few calls
into outside crates and std (codecs, hashing, random numbers, clocks, UUIDs)
go through small trusted wrappers whose contracts state what those crates
document, and nothing more.

## Layout

- `src/dag.rs` — the transaction DAG: parents, children, tips, depth and
  cycle detection, with laws relating them.
- `src/sorting.rs` — a stable sort by key, used for ordered answers.
- `src/text.rs` — text building and parsing on character sequences.
- `src/github.rs` — requests, URLs and answers of the Codespaces API.
- `src/error_analysis.rs` — error categories and the texts of semantic
  error analysis.
- `src/network/` — peers, messages, framing, the TCP transport's decisions,
  UDP discovery, HTTP and WebSocket messages, and error analysis.
- `src/network/discovery/` — the DHT, gossip, compression, sharding, state
  synchronisation, the QUIC connection table and the swarm's decisions.
- `app/` — the node program: sockets, timers, HTTP and WebSocket calls,
  serialisation, and the measures that need floating point.
- `tests/` — tests of the library on concrete values.
