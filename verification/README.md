# dev_shm_server

Shared memory data plane for high-throughput IPC, verified with Verus. Bulk data moves
through ring buffers in `/dev/shm`; gRPC stays the control plane.

```
Client                              Server
  │                                   │
  │── write payload to /dev/shm ────▶│  data plane
  │                                   │
  │══ gRPC "data ready" ═══════════▶│  control plane
  │◀═ gRPC "done" ═════════════════│
  │                                   │
  │◀── read response from /dev/shm ──│  data plane
```

## Layout

- `src/` is the library. Its functions are verified, but for the few that only call std or
  `serde_json` (see "What is trusted"); each module states its laws as public proof functions
  named `law_…`.
- `tests/` runs the library on concrete values.
- `app/` is ordinary Rust around it: mapped files, atomics, clocks, the terminal, tonic.

## What is proved

- **ring**: a push puts a message behind the unread ones and a pop takes the oldest one, byte
  for byte, also where a message or a position wraps, and in any order of pushes and pops; a
  full ring and an empty one are left as they are. A producer may work with an old read position, and a consumer with an old write
  position.
- **protocol**: frames and messages decode to what was encoded; every other input gives the
  error that its bytes call for.
- **channel**: a frame that was sent is the one that is received. A `ring_size` is rounded
  down to a power of two, which is the capacity of both rings.
- **client**, **server**: each command and each line comes to one request, or none, and
  interactive mode ends where it is told to; an answer has the id of its request; only a
  shutdown message stops the server.
- **service**, **ez_bridge**: each call goes through its stages and ends once; datagrams reach
  the handler, from the channel or from the request itself, and its answer reaches the caller,
  unchanged and in order. A channel name can be used again, and stays in use where no other
  channel could be made.

Messages of 2^32 bytes and more do not fit the length prefix of the ring and are outside the
delivery laws.

## What is trusted

`std::str::from_utf8` and two conversions of std in `src/text.rs`, and the few `serde_json`
functions in `src/json.rs`, whose results are described by the compact text of a document. Shared memory itself is outside: `app/` loads and
stores the two positions of a ring atomically, and there is one writer and one reader per
ring.
