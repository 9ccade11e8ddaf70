# leansim

A simulator of hierarchical signature aggregation: validators publish
signatures over gossipsub, local aggregators collect their subnet's
threshold and publish a local proof, and global aggregators combine local
proofs. Experiments run as real libp2p nodes inside the Shadow network
simulator.

## Layout

- `src/` — the library, verified with Verus: configuration rules, the wire
  format and message ids, node state and the aggregator decisions, traffic
  accounting, topic names and payload judgement, the Shadow layout and
  topology graph, metrics over event logs, and the netviz trace.
- `app/` — the `lean-sim` program: command line, the libp2p swarm and its
  event loop, the QUIC prototype transport, file I/O, and the country
  latency model (floating point).
- `tests/` — tests of the library.

The country latency model reads `data/country_latencies.json` and
`data/weights.json` from the working directory.
