# Zero Protocol

A decentralised, end-to-end encrypted messaging protocol: a Kademlia DHT
with anti-Sybil bucket rules, three-hop onion routing, Noise IK sessions
with a symmetric ratchet, reliable and lossy streams, file transfer, group
sessions with sender keys, and proof-of-work protected offline storage.

## Layout

- `src/` — the protocol library, verified with Verus. Every public function
  carries a contract over a mathematical model of its data (byte sequences,
  maps of keys, the buckets of the routing table, the covered bytes of a
  file), and the protocol's laws are public proof functions:
  - `wire`, `dht::wire`, `onion::wire`, `offload::wire`, `session::friend`:
    the byte formats, each proved prefix-free so that a reader recovers
    exactly what was written;
  - `dht`: XOR distance, the routing table (bucket splitting, eviction,
    at most two nodes of a /24 subnet per bucket) and closest-node search;
  - `node`: packet framing, rate limiting, and the node's decision for
    each incoming packet (`NodeCore::handle_packet`), lookups, lease sets;
  - `onion`: layering and peeling, with the law that three hops peel the
    layers in order and the last delivers the payload;
  - `session`: ratchets, lossless delivery, file transfer, groups;
  - `offload`: the offline blob store and the client that makes blobs;
  - `crypto`: the primitives, each a thin trusted wrapper over its crate;
  - `api`, `net`, `push`: Zero IDs, message preparation, transport choice,
    LAN announcements and the wake server's answer.
- `tests/` — tests of the library.
- `app/` — the programs around it: sockets, background loops, the client
  API, the bootstrap node, the wake server and the Matrix bridge.

## Notes on behaviour

- Packets travel in 2048-byte cells: the header is the type byte and a
  two-byte padding length, so every payload of up to 2045 bytes is sent as
  exactly 2048 bytes, and longer ones fill whole cells.
- `find_closest` returns at most `K` (20) nodes, whatever count is asked.
- A closest-node search cannot return more nodes than the table admitted.
  Five nodes whose addresses share one /24 subnet, inserted into a fresh
  table, leave two of them in it (at most two per subnet per bucket), so a
  search for three of them finds two.
- Group roles cannot be escalated: a Founder or Admin adds members only at
  its own rank or below.
- The lossless queue drops a packet that was already delivered; its
  buffer holds only packets that arrived early.

Verify with `verus`, build and test with `cargo`.
