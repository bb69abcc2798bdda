//! Host-side data plane for a stepwise data-parallel simulation driver.
//!
//! The library owns the row table of entity records, binds heterogeneously
//! typed columns to persistent typed buffers through a bounded staging block,
//! deduplicates buffers shared by successive kernels, tracks the in-flight
//! event list with periodic pruning, and marshals buffer contents back into
//! the row table at capture boundaries and at shutdown.

pub mod text;
pub mod value;
pub mod events;
pub mod table;
pub mod floatbits;
pub mod convert;
pub mod buffer;
pub mod binder;
pub mod registry;
pub mod readback;
pub mod driver;
pub mod colors;
pub mod laws;
pub mod output;

use vstd::prelude::*;

verus! {

/// Number of elements the bounded staging block holds during a transfer.
pub const STAGING_BLOCK_LEN: usize = 8192;

/// Length of the block transferred starting at `offset` out of `total`
/// elements: a full staging block, or the remaining tail.
pub fn staging_chunk_len(total: usize, offset: usize) -> (n: usize)
    requires
        offset < total,
    ensures
        n == if total - offset < STAGING_BLOCK_LEN { total - offset } else { STAGING_BLOCK_LEN as int },
        1 <= n <= STAGING_BLOCK_LEN,
        offset + n <= total,
{
    if total - offset < STAGING_BLOCK_LEN {
        total - offset
    } else {
        STAGING_BLOCK_LEN
    }
}

} // verus!
