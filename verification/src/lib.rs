//! Shared memory data plane for high-throughput inter-process communication.
//!
//! Bulk data travels through ring buffers that live in shared memory; small
//! control messages travel separately and only say where the data is.
//!
//! | Module | Purpose |
//! |--------|---------|
//! | `wire` | Little-endian integers |
//! | `text` | UTF-8, decimal numbers, paths and words |
//! | `names` | Maps by name |
//! | `json` | JSON documents of `serde_json` |
//! | `status` | How a control-plane call that fails is answered |
//! | `ring` | Single-producer, single-consumer ring buffer over a memory region |
//! | `protocol` | `Frame` (extensible headers and a raw payload) and `Message` |
//! | `channel` | `ShmChannel`, a bidirectional channel over two rings |
//! | `server` | Request handling, main loop and command line of the server |
//! | `client` | Requests, responses, command line and interactive mode of the client |
//! | `service` | `ShmTransferService`, channel lifecycle and one call at a time |
//! | `ez_bridge` | `EzIsolateBridgeShm` and `EzShmClient`, isolate calls with datagrams in channels |
//!
//! Nothing here maps a file, waits or talks to a socket. Operations on a ring are handed
//! the region that it lives in; what takes time is cut into turns and steps that the
//! caller performs, and the outcome of each is handed back.

pub mod channel;
pub mod client;
pub mod ez_bridge;
pub mod json;
pub mod names;
pub mod protocol;
pub mod ring;
pub mod server;
pub mod service;
pub mod status;
pub mod text;
pub mod wire;
