# meshcore-rs

A client library for MeshCore companion radio nodes, with its protocol
logic verified by Verus.

## Layout

- `src/` — the verified library (crate `meshcore_rs`):
  - `packets.rs`: packet, request, route and payload type codes;
  - `connection.rs`: the `[0x3c][len][payload]` frame codec and the frame
    decoder of a serial or TCP link, device selection for BLE;
  - `parsing.rs`: little-endian readers, payload parsers, hex codec;
  - `events.rs`: the event model, attributes and filters;
  - `reader.rs`: the state machine that turns packets into events (including
    the record of every packet the radio hears) and
    matches binary responses to pending requests;
  - `commands.rs`: destinations, the bytes of every command, and what
    each command makes of its reply;
  - `cache.rs`: the client's record of its device (contacts keyed by
    public key, self-info, time);
  - `error.rs`, `text.rs`: errors and text helpers.
- `app/` — the async client around the library: serial, TCP and BLE links,
  the event dispatcher, the command handler, and floating-point helpers.
- `tests/` — tests of the library.
