//! What can go wrong between a footer and a block, by kind.

use vstd::prelude::*;

verus! {

/// The six ways a part read can fail, as callers need to tell them apart.
#[derive(Clone, Copy, Debug, PartialEq, Eq, Structural)]
pub enum ErrorKind {
    /// The file footer is not laid out as this engine writes it.
    Format,
    /// Catalog and projection disagree; never retried.
    InternalConsistency,
    /// A network or timeout class failure outlived its retry budget.
    TransientIo,
    /// A not-found or permission class failure.
    PermanentIo,
    /// A fetched chunk could not be decompressed or deserialized.
    Decode,
    /// A fetch task could not be joined.
    TaskScheduling,
}

/// What an I/O layer reports when a range read fails.
#[derive(Clone, Copy, Debug, PartialEq, Eq, Structural)]
pub enum IoErrorKind {
    NotFound,
    PermissionDenied,
    ConnectionRefused,
    ConnectionReset,
    ConnectionAborted,
    NotConnected,
    BrokenPipe,
    TimedOut,
    Interrupted,
    UnexpectedEof,
    InvalidInput,
    InvalidData,
    Other,
}

/// Why a footer is refused, a part cannot be planned, or a read fails.
#[derive(Clone, Copy, Debug, PartialEq, Eq, Structural)]
pub enum ErrorCode {
    /// The footer holds `found` row groups where exactly one is expected.
    RowGroupCount { found: usize },
    /// The flat schema list does not fold into exactly one tree.
    SchemaNotATree,
    /// The footer names more schema elements or chunks than column ids exist.
    ColumnIdOverflow,
    /// The chunk at `column` carries no metadata.
    ChunkMetaMissing { column: usize },
    /// The chunk at `column` starts at, or spans, a negative number of bytes.
    NegativeChunkExtent { column: usize },
    /// The data file is written in a layout that no decoder is known for.
    UnknownFormatVersion { version: u64 },
    /// A part of another engine was handed to this reader.
    ForeignPart,
    /// The projected logical column `column` has no entry to expand from.
    ProjectionUnmapped { column: usize },
    /// The leaf `leaf` is projected but has no chunk metadata.
    LeafMetaMissing { leaf: usize },
    /// The leaf `leaf` is projected but no fetched chunk is left for it.
    LeafChunkMissing { leaf: usize },
    /// A transient failure was still seen after `attempts` attempts.
    RetriesExhausted { cause: IoErrorKind, attempts: u32 },
    /// A failure that no retry can mend.
    PermanentIo { cause: IoErrorKind },
    /// The chunk of leaf `leaf` could not be decoded.
    Decode { leaf: usize },
    /// The fetch task for leaf `leaf` could not be joined.
    TaskJoin { leaf: usize },
}

impl ErrorCode {
    /// The kind of each error.
    pub open spec fn spec_kind(self) -> ErrorKind {
        match self {
            ErrorCode::RowGroupCount { .. } => ErrorKind::Format,
            ErrorCode::SchemaNotATree => ErrorKind::Format,
            ErrorCode::ColumnIdOverflow => ErrorKind::Format,
            ErrorCode::ChunkMetaMissing { .. } => ErrorKind::Format,
            ErrorCode::UnknownFormatVersion { .. } => ErrorKind::Format,
            ErrorCode::NegativeChunkExtent { .. } => ErrorKind::InternalConsistency,
            ErrorCode::ForeignPart => ErrorKind::InternalConsistency,
            ErrorCode::ProjectionUnmapped { .. } => ErrorKind::InternalConsistency,
            ErrorCode::LeafMetaMissing { .. } => ErrorKind::InternalConsistency,
            ErrorCode::LeafChunkMissing { .. } => ErrorKind::InternalConsistency,
            ErrorCode::RetriesExhausted { .. } => ErrorKind::TransientIo,
            ErrorCode::PermanentIo { .. } => ErrorKind::PermanentIo,
            ErrorCode::Decode { .. } => ErrorKind::Decode,
            ErrorCode::TaskJoin { .. } => ErrorKind::TaskScheduling,
        }
    }

    /// The kind a caller dispatches on.
    #[verifier::when_used_as_spec(spec_kind)]
    pub fn kind(self) -> (k: ErrorKind)
        ensures
            k == self.spec_kind(),
    {
        match self {
            ErrorCode::RowGroupCount { .. } => ErrorKind::Format,
            ErrorCode::SchemaNotATree => ErrorKind::Format,
            ErrorCode::ColumnIdOverflow => ErrorKind::Format,
            ErrorCode::ChunkMetaMissing { .. } => ErrorKind::Format,
            ErrorCode::UnknownFormatVersion { .. } => ErrorKind::Format,
            ErrorCode::NegativeChunkExtent { .. } => ErrorKind::InternalConsistency,
            ErrorCode::ForeignPart => ErrorKind::InternalConsistency,
            ErrorCode::ProjectionUnmapped { .. } => ErrorKind::InternalConsistency,
            ErrorCode::LeafMetaMissing { .. } => ErrorKind::InternalConsistency,
            ErrorCode::LeafChunkMissing { .. } => ErrorKind::InternalConsistency,
            ErrorCode::RetriesExhausted { .. } => ErrorKind::TransientIo,
            ErrorCode::PermanentIo { .. } => ErrorKind::PermanentIo,
            ErrorCode::Decode { .. } => ErrorKind::Decode,
            ErrorCode::TaskJoin { .. } => ErrorKind::TaskScheduling,
        }
    }

    /// Only an I/O failure of the transient class is worth another attempt.
    pub fn is_retryable(self) -> (r: bool)
        ensures
            r == (self.spec_kind() == ErrorKind::TransientIo),
    {
        match self {
            ErrorCode::RetriesExhausted { .. } => true,
            _ => false,
        }
    }
}

} // verus!
