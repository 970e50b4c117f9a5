# duckwatch

The verified core of a smartwatch firmware, written in Verus.

- `src/` is the library. Every function in it carries a `requires` /
  `ensures` contract that Verus proves: real-time-clock and power-chip
  register logic, touch gestures and page navigation, display state and
  frame-buffer clipping, playlist files and song search, the SSH shell's
  output and authorization, the Wi-Fi keeper, and a WireGuard engine
  (configuration file, Noise handshake, transport keys, replay window,
  timers and rate limiting).
- Calls into outside crates (BLAKE2s, X25519, ChaCha20-Poly1305, the
  generator, hash tables, PNG decoding, fuzzy matching) go through small
  trusted wrappers whose contracts say what those crates do.
- `app/` is the glue Verus does not see: buses, sockets, files, the
  terminal, waits and loops. It hands the library plain values and carries
  out the actions the library decides.
- `tests/` runs the library on concrete values.
