# tessera

The verified core of Tessera, a zero-knowledge identity service built on
OPAQUE (RFC 9807), written in Verus.

`src/` is the library. Its functions are verified against their contracts,
except the small trusted wrappers in `crypto`, `encoding`, `blind_index`,
`protocol` and `sidecar` that call the outside crates and a few `std`
functions (HKDF, XChaCha20-Poly1305, Argon2id, the OS random source,
zeroing, base64, Unicode lowercasing, `Debug` quoting, integer parsing):
their contracts state what those functions are documented to do, and are
believed, not proved. The modules:

- `protocol` — the sidecar's request and response messages, their redacted
  debug renderings, and `[u32 big-endian length][payload]` framing with the
  1 MiB limit.
- `error` — the error taxonomy and its stable wire codes.
- `blind_index` — email normalization (trim, then lowercase) and the Argon2id
  blind index.
- `login_state` — sealing an in-flight server login state under a key derived
  from the server setup (HKDF-SHA-512, XChaCha20-Poly1305), with an
  authenticated expiry and login id.
- `login_store` — the table of in-flight logins with its time-to-live.
- `sidecar` — the request engine: decoding requests, taking and recording
  login state, shaping responses and errors, and reading numeric settings.
- `encoding`, `crypto` — big-endian integers, hex, base64, and the trusted
  boundary to the cryptographic crates.

`app/` is the `tessera-sidecar` program: the Unix-socket server, the JSON
shape of the messages, and the OPAQUE computations themselves, which run over
`opaque-ke` with the fixed cipher suite.
