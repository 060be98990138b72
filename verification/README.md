# rocola

Recreate a Spotify playlist on Apple Music, from the terminal.

The crate is in two parts.

- `src/` is the library, verified with Verus: the matching engine
  (normalisation, scoring, classification and the order tracks are looked up
  in), the parsers and decision rules of both services (playlist links, the
  sign-in callback, playlist pages, HTTP statuses and the single retry,
  request paths and batches, the developer token's claims), the review
  screen's state machine, and what a run reports. Calls into `sha2`,
  `base64`, `rand`, `jsonwebtoken` and std's lowercase tables and sort sit
  behind small trusted wrappers whose contracts say what is assumed of
  them.
- `app/` is the program around it: the command line, the config file, the
  browser sign-ins on the loopback ports, HTTP with `reqwest`, the MusicKit
  page served with `axum`, and the terminal screens drawn with `ratatui`. It
  performs what the library decides and hands back what came in.

`tests/` runs the library on concrete values, with the real outside crates
linked.
