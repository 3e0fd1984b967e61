//! Where the read of one part stands, and which decoder it takes.

use crate::error::ErrorCode;
use crate::part::FusePartInfo;
use vstd::prelude::*;

verus! {

/// The layouts of data files that a decoder is known for.
#[derive(Clone, Copy, Debug, PartialEq, Eq, Structural)]
pub enum BlockFormat {
    /// The first layout: one row group of compressed column chunks.
    V0,
}

impl BlockFormat {
    /// The layout that a format version stands for, if it stands for one.
    pub open spec fn spec_of(format_version: u64) -> Option<BlockFormat> {
        if format_version == crate::meta::BLOCK_FORMAT_VERSION {
            Some(BlockFormat::V0)
        } else {
            None
        }
    }

    /// The layout to decode a part by: the one that the part's format
    /// version stands for, never another.
    pub fn of_part(part: &FusePartInfo) -> (res: Result<BlockFormat, ErrorCode>)
        ensures
            match Self::spec_of(part.format_version) {
                Some(format) => res == Ok::<BlockFormat, ErrorCode>(format),
                None => res == Err::<BlockFormat, ErrorCode>(
                    ErrorCode::UnknownFormatVersion { version: part.format_version },
                ),
            },
    {
        if part.format_version == crate::meta::BLOCK_FORMAT_VERSION {
            Ok(BlockFormat::V0)
        } else {
            Err(ErrorCode::UnknownFormatVersion { version: part.format_version })
        }
    }
}

/// Where the read of one part stands.
#[derive(Clone, Copy, Debug, PartialEq, Eq, Structural)]
pub enum ReadState {
    Pending,
    Fetching,
    Decoding,
    Assembled,
    Failed(ErrorCode),
}

/// What moves the read of one part on.
#[derive(Clone, Copy, Debug, PartialEq, Eq, Structural)]
pub enum ReadEvent {
    /// The reads were planned and queued.
    Planned,
    /// Every read came back with its bytes.
    Fetched,
    /// Every projected column was decoded and the block put together.
    Decoded,
    /// Planning, a read, a task or decoding failed.
    Failure(ErrorCode),
}

impl ReadState {
    /// Whether nothing moves the read on any more.
    pub open spec fn spec_is_terminal(self) -> bool {
        self is Assembled || self is Failed
    }

    /// Whether nothing moves the read on any more.
    #[verifier::when_used_as_spec(spec_is_terminal)]
    pub fn is_terminal(self) -> (terminal: bool)
        ensures
            terminal == self.spec_is_terminal(),
    {
        match self {
            ReadState::Assembled => true,
            ReadState::Failed(_) => true,
            _ => false,
        }
    }

    /// The state after `event`: a read moves from pending to fetching to
    /// decoding to assembled, a failure ends it in any state but the last
    /// two, and an event that does not fit the state changes nothing.
    pub open spec fn spec_on(self, event: ReadEvent) -> ReadState {
        match (self, event) {
            (ReadState::Pending, ReadEvent::Planned) => ReadState::Fetching,
            (ReadState::Fetching, ReadEvent::Fetched) => ReadState::Decoding,
            (ReadState::Decoding, ReadEvent::Decoded) => ReadState::Assembled,
            (ReadState::Pending, ReadEvent::Failure(e)) => ReadState::Failed(e),
            (ReadState::Fetching, ReadEvent::Failure(e)) => ReadState::Failed(e),
            (ReadState::Decoding, ReadEvent::Failure(e)) => ReadState::Failed(e),
            (state, _) => state,
        }
    }

    /// The state after `event`.
    #[verifier::when_used_as_spec(spec_on)]
    pub fn on(self, event: ReadEvent) -> (next: ReadState)
        ensures
            next == self.spec_on(event),
    {
        match (self, event) {
            (ReadState::Pending, ReadEvent::Planned) => ReadState::Fetching,
            (ReadState::Fetching, ReadEvent::Fetched) => ReadState::Decoding,
            (ReadState::Decoding, ReadEvent::Decoded) => ReadState::Assembled,
            (ReadState::Pending, ReadEvent::Failure(e)) => ReadState::Failed(e),
            (ReadState::Fetching, ReadEvent::Failure(e)) => ReadState::Failed(e),
            (ReadState::Decoding, ReadEvent::Failure(e)) => ReadState::Failed(e),
            (state, _) => state,
        }
    }

    /// A read that was assembled or has failed stays as it is, and a read
    /// is assembled only by way of fetching and decoding.
    pub proof fn lemma_terminal_states_stay(self, event: ReadEvent)
        ensures
            self.spec_is_terminal() ==> self.spec_on(event) == self,
            self.spec_on(event) is Assembled ==> self is Assembled || self is Decoding,
            self.spec_on(event) is Decoding ==> self is Decoding || self is Fetching,
    {
    }
}

} // verus!
