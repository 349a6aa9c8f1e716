//! Server core of a home-cloud file-synchronization service.
//!
//! Clients mirror a directory tree held by the server. Every mutation is a
//! change event recorded in an ordered change log keyed by a monotonically
//! increasing server version. This crate holds the verified core of the
//! server: the wire data model and codec, the change-log and content-store
//! models, the change-event optimizer, and the per-connection session engine.
//! The surrounding binary (listener, sockets, real disk and database) lives
//! outside the library and hands plain values in and out.

use vstd::prelude::*;

pub mod changelog;
pub mod codec;
pub mod data;
pub mod fs_model;
pub mod optimize;
pub mod serve;
pub mod sync_client_to_server;
pub mod sync_server_to_client;

verus! {

/// Greatest number of bytes carried by one file-body packet on the wire.
pub const BUFFER_SIZE: u64 = 1024;

/// Number of file-body packets that carry `byte_size` bytes:
/// `byte_size / BUFFER_SIZE`, rounded up.
pub open spec fn spec_num_packets(byte_size: u64) -> int {
    if byte_size % BUFFER_SIZE == 0 {
        byte_size as int / BUFFER_SIZE as int
    } else {
        byte_size as int / BUFFER_SIZE as int + 1
    }
}

/// Sender and receiver agree on the packet count for a file body by both
/// calling this function.
pub fn calculate_num_packets(byte_size: u64) -> (r: u64)
    ensures
        r == spec_num_packets(byte_size),
{
    if byte_size % BUFFER_SIZE == 0 {
        byte_size / BUFFER_SIZE
    } else {
        byte_size / BUFFER_SIZE + 1
    }
}

} // verus!
