# ee2e-chat

End-to-end encrypted terminal chat with no server. Every participant runs the
same program, nodes connect directly to one another, and the rest of the room is
discovered by gossip.

`src/` is the library: everything that a node decides, with contracts that Verus
proves. It opens no socket and no file. `app/` is the program around it: the
command line, the files, the sockets and the screen. `tests/` runs the library on
concrete values, whole networks included.

| | |
|---|---|
| `bytes`, `text`, `digits`, `hex` | comparing, trimming and writing things down |
| `crypto` | key pairs, sealing and opening, fingerprints |
| `json` | documents, as `serde_json` reads and writes them |
| `messages`, `protocol` | what is sealed, and what crosses the wire |
| `room` | invite codes and the proof of holding one |
| `identity`, `secretfile` | what the stored key pair and room code look like |
| `peers` | who is here, name clashes, dial collisions |
| `handshake`, `node`, `node::connection` | introductions, gossip, chat, one connection from start to end |
| `setup`, `ui`, `clipboard`, `update` | what the person at the keyboard sees and does |

What other crates compute (X25519, SHA-256, the ciphers, HMAC, JSON text) enters
the proofs through a small set of trusted functions. Each stands beside the code
that uses it, and its comment says what is claimed of the crate it calls.
