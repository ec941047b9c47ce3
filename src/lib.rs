//! A leecher-side BitTorrent download engine: piece layout over a file table,
//! a hash-checked piece store, the peer wire protocol and the decisions of the
//! download loop. Sockets, threads and the disk are left to the caller.
use vstd::prelude::*;

pub mod blocks;
pub mod wire;
pub mod layout;
pub mod digest;
pub mod tf;
pub mod bitfield;
pub mod content;
pub mod peer;
pub mod swarm;
pub mod http;
pub mod tracker;
pub mod event;

verus! {

/// The size of one block, the unit of a `request` message.
pub const BLOCK_SIZE: u32 = 16384;

} // verus!
