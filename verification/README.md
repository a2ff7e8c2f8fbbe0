# client_pin

The platform's side of CTAP2's `authenticatorClientPIN` with PIN protocol one, verified with Verus:
asking for the number of PIN attempts left, agreeing on a secret with the authenticator, setting and
changing the PIN, and getting a PIN token.

- `src/request.rs` writes requests, `src/response.rs` reads answers.
- `src/commands.rs` holds the five commands, `src/wire.rs` puts them on the wire and takes the status
  byte off an answer.
- `src/pin.rs` holds PINs, their hashes and blocks, tokens, authentication codes, and PIN errors.
- `src/cbor.rs` and `src/crypto.rs` are the edges: what is had from `serde_cbor`, `serde_bytes` and
  `sha2`, and the trait `CryptoBackend` of the library that does AES, HMAC and ECDH. Nothing is taken
  for granted of a backend: contracts speak of whatever it returns.
- `src/laws/` states what holds across functions, such as that an answer reads back as it was
  written and in whatever order, that no two requests are written in the same way, and that no
  refusal is a success. Where a law needs it, its premise says so: that neither of two keys goes on
  where the other ends, which is shown of plain CBOR values; that an entry is read from its own
  bytes; that the backend gives the same result for the same arguments.
- `app/` adds the traits of `std` and `serde` that callers expect.
