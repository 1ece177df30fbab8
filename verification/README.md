# Waggle

A verified library for the Waggle pubsub protocol, in Verus. Peers subscribe
to topics and exchange the pieces of objects until each holds the whole
object.

- `src/` is the library. It decides what is cached, what is sent to whom, and
  how streams are opened, written and closed. Its functions carry
  contracts, and `src/laws.rs` states what holds over several calls or in every
  state. What the library believes of other crates stands in `src/outside.rs`.
- `app/` runs the library on a libp2p swarm: the network behaviour, the
  connection handler, the stream upgrades, and the protobuf codecs.
- `tests/` runs the library on concrete values.

Applications implement two traits of `src/shard.rs`: `Shard`, which splits an
object into pieces and says what to send for some metadata, and `Metadata`,
which describes the pieces that somebody holds.
