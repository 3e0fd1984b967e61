//! Typed columns: what a value type must offer so that columns of it can
//! be sliced, built and nested.

pub mod array;
pub mod number;

pub use array::ArrayColumn;
pub use array::ArrayColumnBuilder;
pub use array::ArrayIterator;
pub use array::ArrayType;
pub use number::UInt64Type;

use std::ops::Range;
use vstd::prelude::*;

verus! {

/// A type of values together with its column and its column builder.
///
/// A column and a builder are both modelled as the sequence of the values
/// they hold.
pub trait ValueType {
    /// The mathematical model of one value.
    type Item;

    type Scalar;

    type Column;

    type ColumnBuilder;

    spec fn scalar_view(scalar: &Self::Scalar) -> Self::Item;

    spec fn column_view(col: &Self::Column) -> Seq<Self::Item>;

    spec fn builder_view(builder: &Self::ColumnBuilder) -> Seq<Self::Item>;

    spec fn scalar_wf(scalar: &Self::Scalar) -> bool;

    spec fn column_wf(col: &Self::Column) -> bool;

    spec fn builder_wf(builder: &Self::ColumnBuilder) -> bool;

    /// The value that stands for a missing one.
    spec fn default_item() -> Self::Item;

    fn column_len(col: &Self::Column) -> (len: usize)
        requires
            Self::column_wf(col),
        ensures
            len == Self::column_view(col).len(),
    ;

    fn index_column(col: &Self::Column, index: usize) -> (item: Option<Self::Scalar>)
        requires
            Self::column_wf(col),
        ensures
            match item {
                Some(scalar) => {
                    &&& index < Self::column_view(col).len()
                    &&& Self::scalar_wf(&scalar)
                    &&& Self::scalar_view(&scalar) == Self::column_view(col)[index as int]
                },
                None => index >= Self::column_view(col).len(),
            },
    ;

    fn slice_column(col: &Self::Column, range: Range<usize>) -> (slice: Self::Column)
        requires
            Self::column_wf(col),
            range.start <= range.end <= Self::column_view(col).len(),
        ensures
            Self::column_wf(&slice),
            Self::column_view(&slice) == Self::column_view(col).subrange(
                range.start as int,
                range.end as int,
            ),
    ;

    fn column_to_builder(col: Self::Column) -> (builder: Self::ColumnBuilder)
        requires
            Self::column_wf(&col),
        ensures
            Self::builder_wf(&builder),
            Self::builder_view(&builder) == Self::column_view(&col),
    ;

    fn builder_len(builder: &Self::ColumnBuilder) -> (len: usize)
        requires
            Self::builder_wf(builder),
        ensures
            len == Self::builder_view(builder).len(),
    ;

    fn push_item(builder: &mut Self::ColumnBuilder, item: Self::Scalar)
        requires
            Self::builder_wf(old(builder)),
            Self::scalar_wf(&item),
        ensures
            Self::builder_wf(final(builder)),
            Self::builder_view(final(builder)) == Self::builder_view(old(builder)).push(
                Self::scalar_view(&item),
            ),
    ;

    fn push_default(builder: &mut Self::ColumnBuilder)
        requires
            Self::builder_wf(old(builder)),
        ensures
            Self::builder_wf(final(builder)),
            Self::builder_view(final(builder)) == Self::builder_view(old(builder)).push(
                Self::default_item(),
            ),
    ;

    fn append_column(builder: &mut Self::ColumnBuilder, other: &Self::Column)
        requires
            Self::builder_wf(old(builder)),
            Self::column_wf(other),
        ensures
            Self::builder_wf(final(builder)),
            Self::builder_view(final(builder)) == Self::builder_view(old(builder))
                + Self::column_view(other),
    ;

    fn build_column(builder: Self::ColumnBuilder) -> (col: Self::Column)
        requires
            Self::builder_wf(&builder),
        ensures
            Self::column_wf(&col),
            Self::column_view(&col) == Self::builder_view(&builder),
    ;

    fn build_scalar(builder: Self::ColumnBuilder) -> (scalar: Self::Scalar)
        requires
            Self::builder_wf(&builder),
            Self::builder_view(&builder).len() == 1,
        ensures
            Self::scalar_wf(&scalar),
            Self::scalar_view(&scalar) == Self::builder_view(&builder)[0],
    ;
}

/// A value type whose builder can be made from nothing.
pub trait ArgType: ValueType {
    fn create_builder(capacity: usize) -> (builder: Self::ColumnBuilder)
        ensures
            Self::builder_wf(&builder),
            Self::builder_view(&builder) == Seq::<Self::Item>::empty(),
    ;
}

/// A value type whose builder gives its last value back.
pub trait PopType: ArgType {
    fn pop_item(builder: &mut Self::ColumnBuilder) -> (item: Option<Self::Scalar>)
        requires
            Self::builder_wf(old(builder)),
        ensures
            Self::builder_wf(final(builder)),
            match item {
                Some(scalar) => {
                    &&& Self::builder_view(old(builder)).len() > 0
                    &&& Self::scalar_wf(&scalar)
                    &&& Self::scalar_view(&scalar) == Self::builder_view(old(builder)).last()
                    &&& Self::builder_view(final(builder)) == Self::builder_view(
                        old(builder),
                    ).drop_last()
                },
                None => {
                    &&& Self::builder_view(old(builder)).len() == 0
                    &&& Self::builder_view(final(builder)) == Self::builder_view(old(builder))
                },
            },
    ;
}

} // verus!
