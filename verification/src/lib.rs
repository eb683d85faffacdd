//! Server-side coordination core for collaborative CRDT documents.
//!
//! The crate provides the per-document synchronization engine: the in-memory
//! CRDT state, the durable key/value view with its dirty set, the wire
//! protocol between peers, the per-connection state machine, and the document
//! registry with debounced checkpointing and safe eviction.

pub mod codec;
pub mod crdt;
pub mod docstate;
pub mod errors;
pub mod kv;
pub mod manager;
pub mod protocol;
pub mod s3;

use vstd::prelude::*;

verus! {

/// Upper bound on the length, in bytes, of any store key.
pub const MAX_KEY_LEN: usize = 1024;

/// A key is acceptable to every store backend when it is non-empty and
/// no longer than `MAX_KEY_LEN` bytes.
pub open spec fn valid_key(k: Seq<u8>) -> bool {
    0 < k.len() <= MAX_KEY_LEN
}

/// Checks that a key satisfies the length bounds every backend imposes.
pub fn key_ok(k: &Vec<u8>) -> (r: bool)
    ensures
        r == valid_key(k@),
{
    let n = k.len();
    0 < n && n <= MAX_KEY_LEN
}

} // verus!
