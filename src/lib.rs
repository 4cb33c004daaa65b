//! A decoder for still images in the FLIF format.
//!
//! The range coder, the adaptive chance tables, the near-zero integer coding,
//! the colour transforms, the MANIAC trees and the scanline loop that rebuilds
//! the pixels are verified. The one assumption is the contract of the DEFLATE
//! decompression of metadata, done by the `inflate` crate.
use vstd::prelude::*;

pub mod chances;
pub mod decoder;
pub mod error;
pub mod header;
pub mod image;
pub mod maniac;
pub mod metadata;
pub mod near_zero;
pub mod pixels;
pub mod predict;
pub mod rac;
pub mod reader;
pub mod roundtrip;
pub mod symbol;
pub mod transform;

pub use decoder::{Decoder, Flif, FlifInfo};
pub use error::Error;

verus! {

/// Limits on input images, against memory exhaustion by hostile files.
#[derive(Clone, Copy, Debug, PartialEq, Eq, Structural)]
pub struct Limits {
    /// The largest compressed metadata chunk, in bytes (default 1 MB).
    pub metadata_chunk: u32,
    /// The most metadata chunks (default 8).
    pub metadata_count: u32,
    /// The most pixels, `width * height * frames` (default 2^26).
    pub pixels: u64,
    /// The most nodes of one MANIAC tree (default 2^14).
    pub maniac_nodes: u32,
}

impl Default for Limits {
    fn default() -> (r: Limits)
        ensures
            r.metadata_chunk == 0x10_0000,
            r.metadata_count == 8,
            r.pixels == 0x400_0000,
            r.maniac_nodes == 0x4000,
    {
        Limits { metadata_chunk: 0x10_0000, metadata_count: 8, pixels: 0x400_0000, maniac_nodes: 0x4000 }
    }
}

} // verus!
