# lan_clipboard

A clipboard that the devices of a local network share: what is copied on one device can
be pasted on the others. Devices find each other by mDNS and by UDP broadcast, and speak an
encrypted, authenticated protocol over TCP. Devices belong together if they have the same
pairing key.

- `src/` is the library, verified with [Verus](https://github.com/verus-lang/verus):
  settings and pairing keys, the handshake and its session keys, control frames and raw
  streams, queues, deduplication and the latest-item rule, transfers, discovery and the set
  of members, archives and their path rules, images, rich text and its plain fallback.
  Time, random draws at their edge, and what the system says come in as plain values.
- `app/` is the program around it: sockets, threads, files, the clipboards of the
  platforms and the settings file. It has no window; commands come in on its standard
  input, one on each line, and answers go out as JSON.
- `tests/` runs the library with the crates that it builds on.

The macOS part of `app/platform.rs` needs `objc2`, `objc2-app-kit` and `objc2-foundation`,
which build on Apple platforms only and are left to the manifest of a macOS build.
