//! Resilient-resource and stream-rewriting core for a TV-aggregation service:
//! HLS playlist ad filtering and URL rewriting, spider-binary resolution with
//! tiered caching and failure tracking, and the pure decision logic of the
//! surrounding application.

use vstd::prelude::*;

pub mod adult;
pub mod bangumi;
pub mod config;
pub mod db;
pub mod douban;
pub mod home;
pub mod preload;
pub mod search_page;
pub mod version;
pub mod playlist;
pub mod search_agg;
pub mod tvbox;
pub mod types;
pub mod rewrite;
pub mod segcache;
pub mod spider;
pub mod strutil;

verus! {

/// ZIP local-file-header magic: first byte of a plausible spider binary.
pub const ZIP_MAGIC_0: u8 = 0x50;

/// ZIP local-file-header magic: second byte of a plausible spider binary.
pub const ZIP_MAGIC_1: u8 = 0x4B;

/// Minimum plausible size, in bytes, of a fetched spider binary.
pub const MIN_PAYLOAD_SIZE: usize = 1000;

/// A fetched payload is plausible when it is large enough and carries the
/// ZIP local-file-header magic in its first two bytes.
pub open spec fn payload_valid(data: Seq<u8>) -> bool {
    data.len() >= MIN_PAYLOAD_SIZE && data[0] == ZIP_MAGIC_0 && data[1] == ZIP_MAGIC_1
}

/// Format validation applied to every candidate fetch result.
pub fn validate_payload(data: &Vec<u8>) -> (r: bool)
    ensures
        r == payload_valid(data@),
{
    data.len() >= MIN_PAYLOAD_SIZE && data[0] == ZIP_MAGIC_0 && data[1] == ZIP_MAGIC_1
}

} // verus!
