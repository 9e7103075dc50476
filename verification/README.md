# Dusklapse

Camera control for holy-grail timelapses: a sequence shot from daylight into night (or back)
whose exposure is ramped one notch at a time so the finished video neither flickers nor jumps.
Canon bodies are driven over CCAPI (HTTP), Nikon and Sony bodies over PTP-IP, and a simulator
stands in for a camera during development.

## Layout

- `src/` is the verified library. Everything in it is checked by Verus against its contracts:
  - `camera/ptpip.rs`: the PTP-IP wire format (framing, the handshake replies, datasets,
    the exchange of one operation, what an event-channel packet calls for);
  - `camera/canon.rs`, `camera/nikon.rs`, `camera/sony.rs`, `camera/mock.rs`: each backend's
    protocol decisions (endpoint resolution, refusals, which events count, property
    encodings, the Sony SDIO handshake, the simulator's dials);
  - `camera/model.rs`, `camera/error.rs`, `camera/histogram.rs`, `camera/patience.rs`: the
    shared data, the error kinds, histogram counting and the retry decision for a busy body;
  - `settings.rs`, `ramp.rs`: the secondary settings and the ramp's vocabulary;
  - `text.rs`: the character-level helpers the messages and parsers are built from.
- `tests/` exercises the library on concrete values.
- `app/` is the application around it: sockets, HTTP, timers and locks, the exposure and
  brightness arithmetic in fractional stops, solar position, and the command surface a user
  interface calls. It is ordinary Rust and is not verified.

The library relies on three calls it does not verify: `jpeg_decoder`'s header reader, whose
result is named rather than described, and two standard-library conversions, `char::from_u32`
and collecting characters into a `String`. Each is a small wrapper whose contract is marked as
trusted where it is declared.
