# rtp_midi

Packets of RTP MIDI (AppleMIDI): MIDI command lists with delta times and
running status, their headers, the RTP header, clock synchronisation and
session initiation control packets, and parts of the recovery journal. Every
parser and writer in `src/` is verified with Verus: its contract gives the exact
bytes written, the exact fields read, and the inputs on which each error comes.
Proof functions state that what is written reads back.

Layout:

- `src/packets/`: packets, commands, command lists, control packets, zero-copy
  readers and the packet builder.
- `src/packet/`: the stream-based packet types and the recovery journal reader.
- `src/delta_time.rs`, `src/midi_command.rs`, `src/midi_packet.rs`,
  `src/clock_sync_packet.rs`, `src/control_packet.rs`: the slice-based types.
- `src/endian.rs`, `src/stream.rs`, `src/buffer.rs`, `src/bits.rs`,
  `src/text.rs`: big-endian integers, byte readers and sinks, `bytes` buffers,
  bit reading and text, each call of an outside crate behind a stated contract.
- `tests/`: tests run against the compiled library.
- `app/`: error type with `thiserror`, `Debug` views and `midi-types`
  conversions.

`verus` checks the library; `cargo test` runs the tests.
