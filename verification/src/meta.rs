//! The persisted catalog: segments, the blocks they list, and what is
//! recorded of each block's columns.

pub mod common;
pub mod v0;
pub mod v1;

pub use common::ClusterStatistics;
pub use common::BLOCK_FORMAT_VERSION;
pub use common::ColumnId;
pub use common::ColumnMeta;
pub use common::ColumnStatistics;
pub use common::Compression;
pub use common::FormatVersion;
pub use common::Location;
pub use common::Statistics;
pub use v1::BlockMeta;
pub use v1::ColumnSchema;
pub use v1::SchemaTree;
pub use v1::SegmentInfo;
