//! Metadata model and projected-read planning for an immutable columnar
//! table engine on object storage.
//!
//! A segment lists immutable blocks. A scan derives one part per block and
//! projection; the reader turns a part into byte-range reads, hands them
//! out under a fan-out bound, answers failed reads with a retry or with
//! giving up, and regroups the fetched bytes by projected column for
//! decoding.
//!
//! - [`meta`]: segments, blocks and what is recorded of their columns.
//! - [`footer`]: from a file footer to a block's chunk table and schema.
//! - [`part`]: the unit of scan work, derived from a block and a
//!   projection.
//! - [`reader`]: read plans, regrouping of fetched chunks, read states.
//! - [`fetch`]: the queue that bounds the reads in flight.
//! - [`retry`]: what follows a failed range read.
//! - [`error`]: what can go wrong, by kind.
//! - [`types`]: typed columns and columns of arrays.
//! - [`grams`], [`filters`], [`chunks`]: n-gram filters over blocks of
//!   texts.

pub mod chunks;
pub mod error;
pub mod fetch;
pub mod filters;
pub mod footer;
pub mod grams;
pub mod meta;
pub mod part;
pub mod reader;
pub mod retry;
pub mod types;
