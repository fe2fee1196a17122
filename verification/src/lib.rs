//! Verified logic of an indexer client: the download planner and the
//! per-slab download state machine, the upload sessions, the builder life
//! cycle, and the text and JSON forms in which objects travel.

pub mod account;
pub mod base64_text;
pub mod builder;
pub mod bytes;
pub mod chunked;
pub mod download;
pub mod encryption;
pub mod erasure;
pub mod events;
pub mod ids;
pub mod laws;
pub mod logging;
pub mod node;
pub mod object;
pub mod progress;
pub mod random;
pub mod rhp;
pub mod sealed;
pub mod seed;
pub mod signing;
pub mod slab_download;
pub mod slab_laws;
pub mod slab_run;
pub mod stream;
pub mod text;
pub mod timestamp;
pub mod urls;
pub mod wasm;
