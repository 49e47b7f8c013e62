# nano_snapshots

Verified wire formats and decision logic of a nano node:

- `codec`, `primitives`, `blocks`: integer encodings, 256-bit values,
  frontiers and blocks, with byte-level readers and writers.
- `asc_pull_req`, `asc_pull_ack`, `keepalive`: the ascending-bootstrap pull
  request and reply and the keepalive message. Each has a spec encoding and a
  spec decoder; the exec serializers and deserializers are proved to match
  them, and round-trip lemmas show that decoding an encoding gives the value
  back.
- `header`: the 16 header extension bits (a `bitvec` bit array) that carry a
  pull message's payload length.
- `snapshot_messages`, `consensus`, `aggregator`, `snapshot_state`,
  `ledger_snapshots`: the ledger-snapshot protocol (preproposals, proposals,
  proposal votes, quorum by representative weight) as a state machine, with
  lemmas over runs of events.
- `text`: decimal and hexadecimal text, and the description of a pull request.

`app/` holds what stays outside verification: writing to `std::io` streams,
`std::net` socket addresses, `serde` views, and the node service that locks,
signs, logs and floods around the library's decisions.
