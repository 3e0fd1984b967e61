//! What every layout of the catalog shares.

use std::collections::HashMap;
use vstd::prelude::*;

verus! {

/// Index of a physical leaf column inside one block.
pub type ColumnId = u32;

/// Tag that pins the binary layout of what a location points to.
pub type FormatVersion = u64;

/// A path together with the version of the layout found there.
pub type Location = (String, FormatVersion);

/// The layout version of data files.
pub const BLOCK_FORMAT_VERSION: FormatVersion = 0;

/// Codec applied to the pages of a block's column chunks.
#[derive(Clone, Copy, Debug, PartialEq, Eq, Structural)]
pub enum Compression {
    /// Kept for blocks written before the codec was recorded; the write
    /// path no longer chooses it.
    Lz4,
    Lz4Raw,
}

impl Compression {
    /// The codec of every block that records none.
    pub open spec fn spec_legacy() -> Compression {
        Compression::Lz4
    }

    /// The codec of every block that records none.
    #[verifier::when_used_as_spec(spec_legacy)]
    pub fn legacy() -> (c: Compression)
        ensures
            c == Compression::Lz4,
    {
        Compression::Lz4
    }

    /// The codec a persisted block decodes with, given its codec field.
    pub open spec fn spec_or_legacy(field: Option<Compression>) -> Compression {
        match field {
            Some(c) => c,
            None => Compression::Lz4,
        }
    }

    /// The codec that a persisted block decodes with.
    #[verifier::when_used_as_spec(spec_or_legacy)]
    pub fn or_legacy(field: Option<Compression>) -> (c: Compression)
        ensures
            c == Self::spec_or_legacy(field),
    {
        match field {
            Some(c) => c,
            None => Compression::legacy(),
        }
    }
}

/// Where one physical column chunk lies in its file, and how many values
/// it holds.
#[derive(Clone, Copy, Debug, PartialEq, Eq, Structural)]
pub struct ColumnMeta {
    pub offset: u64,
    pub length: u64,
    pub num_values: u64,
}

impl ColumnMeta {
    /// The location of a chunk of `length` bytes at `offset` that holds
    /// `num_values` values.
    pub fn create(offset: u64, length: u64, num_values: u64) -> (meta: ColumnMeta)
        ensures
            meta == (ColumnMeta { offset, length, num_values }),
    {
        ColumnMeta { offset, length, num_values }
    }
}

/// Counters kept per leaf column of a block.
#[derive(Clone, Copy, Debug, PartialEq, Eq, Structural)]
pub struct ColumnStatistics {
    pub null_count: u64,
    pub in_memory_size: u64,
}

/// Which cluster key a block was sorted by.
#[derive(Clone, Copy, Debug, PartialEq, Eq, Structural)]
pub struct ClusterStatistics {
    pub cluster_key_id: u32,
}

/// Totals over the blocks of a segment.
#[derive(Clone, Debug)]
pub struct Statistics {
    pub row_count: u64,
    pub block_count: u64,
    pub uncompressed_byte_size: u64,
    pub compressed_byte_size: u64,
    pub col_stats: HashMap<ColumnId, ColumnStatistics>,
}

} // verus!
