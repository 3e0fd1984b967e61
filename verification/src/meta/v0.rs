//! The first persisted layout, read only to be upgraded.

use crate::meta::common::ColumnId;
use crate::meta::common::ColumnMeta;
use crate::meta::common::ColumnStatistics;
use crate::meta::common::Statistics;
use std::collections::HashMap;
use vstd::prelude::*;

verus! {

/// Where a block of the first layout lies.
#[derive(Clone, Debug)]
pub struct BlockLocation {
    pub path: String,
    pub meta_size: u64,
}

/// A block as the first layout recorded it: no schema tree, no
/// clustering statistics, no codec.
#[derive(Clone, Debug)]
pub struct BlockMeta {
    pub row_count: u64,
    pub block_size: u64,
    pub file_size: u64,
    pub col_stats: HashMap<ColumnId, ColumnStatistics>,
    pub col_metas: HashMap<ColumnId, ColumnMeta>,
    pub location: BlockLocation,
}

/// A segment of the first layout.
#[derive(Clone, Debug)]
pub struct SegmentInfo {
    pub blocks: Vec<BlockMeta>,
    pub summary: Statistics,
}

} // verus!
