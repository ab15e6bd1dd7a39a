# roughenough-client

A Roughtime client. The library in `src/` is verified with Verus; `app/` is
the command-line program around it (arguments, sockets, threads, files,
logging).

Library modules:

- `bytes`: little-endian integers and byte helpers.
- `tag`, `error`, `version`: wire tags, errors, protocol versions.
- `message`: the message wire format; parsing an encoding gives the message
  back (`lemma_parse_encode`).
- `request`: nonces, padded requests, framing, receiving responses.
- `merkle`: the root of a server's Merkle tree from a nonce and its path.
- `response`: splitting a response and checking it against the server key.
- `crypto`, `keys`, `time`: calls into `ring`, `data-encoding` and `chrono`.
- `session`: the decisions of the network loops.
