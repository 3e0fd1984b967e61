//! Columns of numbers.

use crate::types::ArgType;
use crate::types::PopType;
use crate::types::ValueType;
use std::ops::Range;
use vstd::prelude::*;

verus! {

/// Unsigned 64-bit numbers, held in vectors.
#[derive(Clone, Copy, Debug, PartialEq, Eq)]
pub struct UInt64Type;

impl ValueType for UInt64Type {
    type Item = u64;

    type Scalar = u64;

    type Column = Vec<u64>;

    type ColumnBuilder = Vec<u64>;

    open spec fn scalar_view(scalar: &u64) -> u64 {
        *scalar
    }

    open spec fn column_view(col: &Vec<u64>) -> Seq<u64> {
        col@
    }

    open spec fn builder_view(builder: &Vec<u64>) -> Seq<u64> {
        builder@
    }

    open spec fn scalar_wf(scalar: &u64) -> bool {
        true
    }

    open spec fn column_wf(col: &Vec<u64>) -> bool {
        true
    }

    open spec fn builder_wf(builder: &Vec<u64>) -> bool {
        true
    }

    open spec fn default_item() -> u64 {
        0
    }

    fn column_len(col: &Vec<u64>) -> (len: usize) {
        col.len()
    }

    fn index_column(col: &Vec<u64>, index: usize) -> (item: Option<u64>) {
        if index < col.len() {
            Some(col[index])
        } else {
            None
        }
    }

    fn slice_column(col: &Vec<u64>, range: Range<usize>) -> (slice: Vec<u64>) {
        let mut slice: Vec<u64> = Vec::new();
        let mut i: usize = range.start;
        while i < range.end
            invariant
                range.start <= i <= range.end <= col@.len(),
                slice@ == col@.subrange(range.start as int, i as int),
            decreases range.end - i,
        {
            slice.push(col[i]);
            i = i + 1;
        }
        slice
    }

    fn column_to_builder(col: Vec<u64>) -> (builder: Vec<u64>) {
        col
    }

    fn builder_len(builder: &Vec<u64>) -> (len: usize) {
        builder.len()
    }

    fn push_item(builder: &mut Vec<u64>, item: u64) {
        builder.push(item);
    }

    fn push_default(builder: &mut Vec<u64>) {
        builder.push(0);
    }

    fn append_column(builder: &mut Vec<u64>, other: &Vec<u64>) {
        let ghost before = builder@;
        let mut i: usize = 0;
        while i < other.len()
            invariant
                i <= other.len(),
                builder@ == before + other@.subrange(0, i as int),
            decreases other.len() - i,
        {
            builder.push(other[i]);
            i = i + 1;
        }
    }

    fn build_column(builder: Vec<u64>) -> (col: Vec<u64>) {
        builder
    }

    fn build_scalar(builder: Vec<u64>) -> (scalar: u64) {
        builder[0]
    }
}

impl ArgType for UInt64Type {
    fn create_builder(capacity: usize) -> (builder: Vec<u64>) {
        Vec::with_capacity(capacity)
    }
}

impl PopType for UInt64Type {
    fn pop_item(builder: &mut Vec<u64>) -> (item: Option<u64>) {
        builder.pop()
    }
}

} // verus!
