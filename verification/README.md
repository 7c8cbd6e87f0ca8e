# pubg-analyzer-core

Collects a PUBG player's matches through the official API, keeps them in a
SQLite store, and analyzes the raw telemetry of each match into phase-aware
spatial cells and training rows.

- `src/` is the verified core (Verus): validation of settings, identifiers
  and telemetry URLs; the match and player records built from API documents;
  rate-limit headers and request pacing; telemetry decompression, decoding and
  fingerprinting; the bookkeeping of a collection run; the store's identifier
  sets and dashboard; grouping by ordered keys and cell identifiers.
- `app/` is the program around it: the HTTP client, the SQLite store, the
  asynchronous collection run, the floating-point analysis, and the desktop
  commands with the API key in the system keyring.
- `tests/` exercises the core on concrete values.

What the outside crates compute is named rather than restated: the text that
`flate2` decompresses, the outcome of `serde_json` on the telemetry text (refused,
not an array, or the elements in order, each with whether it is an object) and on an error
body (what stands at a JSON pointer), the URL that `url` parses, the SHA-256
digest, and the gzip form of a payload. The contracts of the core are exact
over these names: for instance, decoding is refused with the error of the
first check that fails (decompression, size, JSON syntax, array root, object
elements), and otherwise gives the array's elements, in order. The lower-case
hexadecimal text of the digest is stated in full and computed by verified
code.
