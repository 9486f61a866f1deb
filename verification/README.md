# floatnet

The decisions of a peer-to-peer overlay network node, as a Verus library: which
packets are accepted and with which key, how routes are learned, refreshed and
dropped, how membership is synchronised in parts, how nodes agree on virtual
addresses without a server, how packets are protected by forward error
correction, and how outgoing traffic is paced and shared fairly.

- `src/` is the library. Every function states what it returns and changes; the
  public proof functions state what holds across calls.
- `tests/` runs it on concrete values, with the outside crates linked.
- `app/` is the ordinary Rust around it: sockets, threads, JSON, clocks and the
  floating-point congestion control.

Times are milliseconds in the engine, the claims and the discovery, and
microseconds in the error correction and the pacing. Addresses are plain values
(`addr::Endpoint`), and what the engine keeps of a peer stands in
`engine_state::EngineState`.

The calls that leave the verified code are few: `serde_json` writes the parts of a
sync, `reed_solomon_erasure` computes parity and rebuilds shards, `indexmap` holds
the lanes in their order, `rand` draws numbers, and `core::str::from_utf8` reads
text. Each stands in a small function whose doc comment says what is believed of it.
