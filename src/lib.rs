//! A read-only block device backed by a content-addressed chunk store.
//!
//! The library holds the verified logic: the interval index that maps the
//! reconstructed address space onto chunks, the store header framing, the
//! chunk store layout and validity rules, the read planning of the chunked
//! device and the binary framing of the block-device wire protocol.
pub mod chunk_map;
pub mod wire;
pub mod bytes_util;
pub mod header;
pub mod store;
pub mod device;
pub mod size;
pub mod dict;
pub mod server;
