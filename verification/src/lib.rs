//! Message-persistence core for a service bus.
//!
//! Topics durably store their message streams on 512-byte page blobs.
//! This crate holds the storage logic: the page-blob byte model, the
//! table-of-contents index that maps logical slots to byte extents,
//! uncompressed message pages with their flush path, compressed cluster
//! archives, the per-year index by minute, the topics snapshot with its
//! compare-and-set protocol, and the retry policy that masks transient
//! store errors.

use vstd::prelude::*;

pub mod blob;
pub mod bytes;
pub mod toc;
pub mod msg;
pub mod codec;
pub mod compress;
pub mod cluster;
pub mod page;
pub mod messages_page;
pub mod topic;
pub mod ops;
pub mod index_minute;
pub mod snapshot;
pub mod retry;

verus! {

/// Size in bytes of one page of a page blob; every blob length is a
/// multiple of this.
pub const BLOB_PAGE_SIZE: usize = 512;

/// How many consecutive message ids one logical page covers.
pub const MESSAGES_PER_PAGE: i64 = 100_000;

/// How many logical pages one compressed cluster archives.
pub const PAGES_PER_CLUSTER: i64 = 1000;

/// Rounds `n` up to the next multiple of `BLOB_PAGE_SIZE`.
pub open spec fn round_up_to_page(n: int) -> int {
    ((n + BLOB_PAGE_SIZE - 1) / (BLOB_PAGE_SIZE as int)) * (BLOB_PAGE_SIZE as int)
}

/// Rounds a byte count up to a whole number of 512-byte pages.
pub fn round_up_bytes(n: usize) -> (r: usize)
    requires
        n <= usize::MAX - BLOB_PAGE_SIZE,
    ensures
        r == round_up_to_page(n as int),
        r >= n,
        r % BLOB_PAGE_SIZE == 0,
{
    ((n + BLOB_PAGE_SIZE - 1) / BLOB_PAGE_SIZE) * BLOB_PAGE_SIZE
}

} // verus!
