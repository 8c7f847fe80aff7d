# alvr_stream

The streams between a PC that renders for a headset and the headset: video, audio, haptics,
tracking and statistics. A message is cut into shards that each fit in a datagram, and put
together again at the other end from whatever arrives in time.

`src/` is verified with Verus:

- `wire`, `sender`, `socket`, `receiver`: the format of a shard, cutting, routing, reassembly;
- `laws`, `provenance`: what these promise together, as proofs;
- `connection`, `negotiation`, `video`, `battery`, `hud`: what the client decides while it looks
  for a streamer and while it streams;
- `buffer` and `clock`, together with the first items of `negotiation`: what is believed of the
  outside crates.

`app/` holds the sockets, the tasks and the serialization around it. `tests/` runs the library.
