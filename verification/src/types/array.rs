//! Columns of arrays: the items of all rows lie in one column of the item
//! type, and offsets say where each row begins and ends.

use crate::types::ArgType;
use crate::types::PopType;
use crate::types::ValueType;
use std::marker::PhantomData;
use std::ops::Range;
use vstd::prelude::*;

verus! {

/// Offsets that delimit rows in `limit` items: at least one offset, none
/// smaller than the one before, none beyond the items.
pub open spec fn offsets_wf(offsets: Seq<u64>, limit: nat) -> bool {
    &&& offsets.len() >= 1
    &&& forall|i: int, j: int| 0 <= i <= j < offsets.len() ==> offsets[i] <= offsets[j]
    &&& offsets.last() <= limit
}

/// The rows that `offsets` delimit in `values`: row `i` holds the items
/// from offset `i` up to offset `i + 1`.
pub open spec fn rows_of<I>(values: Seq<I>, offsets: Seq<u64>) -> Seq<Seq<I>> {
    Seq::new(
        (offsets.len() - 1) as nat,
        |i: int| values.subrange(offsets[i] as int, offsets[i + 1] as int),
    )
}

/// Items behind the last offset belong to no row.
pub proof fn lemma_rows_of_longer<I>(values: Seq<I>, longer: Seq<I>, offsets: Seq<u64>)
    requires
        offsets_wf(offsets, values.len()),
        values.len() <= longer.len(),
        longer.subrange(0, values.len() as int) == values,
    ensures
        rows_of(longer, offsets) == rows_of(values, offsets),
{
    assert forall|row: int| 0 <= row < offsets.len() - 1 implies rows_of(longer, offsets)[row]
        == rows_of(values, offsets)[row] by {
    }
}

/// The type of arrays with items of type `T`. A value is a column of `T`.
pub struct ArrayType<T: ValueType>(PhantomData<T>);

/// A column of arrays.
pub struct ArrayColumn<T: ValueType> {
    pub values: T::Column,
    pub offsets: Vec<u64>,
}

impl<T: ValueType> ArrayColumn<T> {
    /// The values are well formed and the offsets delimit rows in them.
    pub open spec fn wf(&self) -> bool {
        &&& T::column_wf(&self.values)
        &&& offsets_wf(self.offsets@, T::column_view(&self.values).len())
    }

    /// The arrays of the column, each as the sequence of its items.
    pub open spec fn rows(&self) -> Seq<Seq<T::Item>> {
        rows_of(T::column_view(&self.values), self.offsets@)
    }

    /// The number of arrays.
    pub fn len(&self) -> (len: usize)
        requires
            self.wf(),
        ensures
            len == self.rows().len(),
    {
        self.offsets.len() - 1
    }

    /// The array at `index`, if there is one.
    pub fn index(&self, index: usize) -> (item: Option<T::Column>)
        requires
            self.wf(),
        ensures
            match item {
                Some(array) => {
                    &&& index < self.rows().len()
                    &&& T::column_wf(&array)
                    &&& T::column_view(&array) == self.rows()[index as int]
                },
                None => index >= self.rows().len(),
            },
    {
        if index >= self.offsets.len() - 1 {
            return None;
        }
        // no offset lies beyond the length of the values
        let _len = T::column_len(&self.values);
        Some(
            T::slice_column(
                &self.values,
                (self.offsets[index] as usize)..(self.offsets[index + 1] as usize),
            ),
        )
    }

    /// The arrays from `range.start` up to `range.end`.
    pub fn slice(&self, range: Range<usize>) -> (slice: ArrayColumn<T>)
        requires
            self.wf(),
            range.start <= range.end <= self.rows().len(),
        ensures
            slice.wf(),
            T::column_view(&slice.values) == T::column_view(&self.values),
            slice.offsets@ == self.offsets@.subrange(range.start as int, range.end + 1),
            slice.rows() == self.rows().subrange(range.start as int, range.end as int),
    {
        let mut offsets: Vec<u64> = Vec::new();
        let count = self.offsets.len();
        let mut i: usize = range.start;
        while i <= range.end
            invariant
                range.start <= i <= range.end + 1,
                range.end < count,
                count == self.offsets@.len(),
                offsets@ == self.offsets@.subrange(range.start as int, i as int),
            decreases range.end + 1 - i,
        {
            offsets.push(self.offsets[i]);
            i = i + 1;
        }
        let len = T::column_len(&self.values);
        let slice = ArrayColumn { values: T::slice_column(&self.values, 0..len), offsets };
        proof {
            assert(T::column_view(&slice.values) =~= T::column_view(&self.values));
        }
        slice
    }

    /// An iterator over the arrays, first to last.
    pub fn iter(&self) -> (iter: ArrayIterator<'_, T>)
        requires
            self.wf(),
        ensures
            iter.wf(),
            iter.remaining() == self.rows(),
    {
        ArrayIterator { column: self, position: 0 }
    }

    /// The items of all arrays of the column in one column.
    pub fn underlying_column(&self) -> (items: T::Column)
        requires
            self.wf(),
        ensures
            T::column_wf(&items),
            T::column_view(&items) == T::column_view(&self.values).subrange(
                self.offsets@.first() as int,
                self.offsets@.last() as int,
            ),
    {
        // no offset lies beyond the length of the values
        let _len = T::column_len(&self.values);
        let first = self.offsets[0] as usize;
        let last = self.offsets[self.offsets.len() - 1] as usize;
        T::slice_column(&self.values, first..last)
    }
}

/// Walks the arrays of a column.
pub struct ArrayIterator<'a, T: ValueType> {
    column: &'a ArrayColumn<T>,
    position: usize,
}

impl<'a, T: ValueType> ArrayIterator<'a, T> {
    /// The column is well formed and the position lies within its rows.
    pub closed spec fn wf(&self) -> bool {
        &&& self.column.wf()
        &&& self.position <= self.column.rows().len()
    }

    /// The arrays not yet handed out.
    pub closed spec fn remaining(&self) -> Seq<Seq<T::Item>> {
        self.column.rows().subrange(self.position as int, self.column.rows().len() as int)
    }

    /// Hands out the next array, if one is left.
    pub fn next(&mut self) -> (item: Option<T::Column>)
        requires
            old(self).wf(),
        ensures
            final(self).wf(),
            match item {
                Some(array) => {
                    &&& old(self).remaining().len() > 0
                    &&& T::column_wf(&array)
                    &&& T::column_view(&array) == old(self).remaining().first()
                    &&& final(self).remaining() == old(self).remaining().drop_first()
                },
                None => {
                    &&& old(self).remaining().len() == 0
                    &&& final(self).remaining() == old(self).remaining()
                },
            },
    {
        if self.position >= self.column.len() {
            return None;
        }
        let item = self.column.index(self.position);
        self.position = self.position + 1;
        item
    }

    /// The number of arrays left, as a lower and an upper bound.
    pub fn size_hint(&self) -> (hint: (usize, Option<usize>))
        requires
            self.wf(),
        ensures
            hint.0 == self.remaining().len(),
            hint.1 == Some(hint.0),
    {
        let left = self.column.len() - self.position;
        (left, Some(left))
    }
}

/// Builds a column of arrays row by row.
///
/// Items can be put one by one and committed as a row, or a whole array
/// can be pushed as a row.
pub struct ArrayColumnBuilder<T: ValueType> {
    pub builder: T::ColumnBuilder,
    pub offsets: Vec<u64>,
}

impl<T: ValueType> ArrayColumnBuilder<T> {
    /// The items held are well formed and the offsets delimit rows in them.
    pub open spec fn wf(&self) -> bool {
        &&& T::builder_wf(&self.builder)
        &&& offsets_wf(self.offsets@, T::builder_view(&self.builder).len())
    }

    /// The rows committed so far.
    pub open spec fn rows(&self) -> Seq<Seq<T::Item>> {
        rows_of(T::builder_view(&self.builder), self.offsets@)
    }

    /// The items put since the last row was committed.
    pub open spec fn pending(&self) -> Seq<T::Item> {
        T::builder_view(&self.builder).subrange(
            self.offsets@.last() as int,
            T::builder_view(&self.builder).len() as int,
        )
    }

    /// A builder that continues `col`.
    pub fn from_column(col: ArrayColumn<T>) -> (builder: ArrayColumnBuilder<T>)
        requires
            col.wf(),
        ensures
            builder.wf(),
            builder.offsets == col.offsets,
            T::builder_view(&builder.builder) == T::column_view(&col.values),
            builder.rows() == col.rows(),
    {
        ArrayColumnBuilder { builder: T::column_to_builder(col.values), offsets: col.offsets }
    }

    /// A builder that holds `array` as a row `n` times.
    pub fn repeat(array: &T::Column, n: usize) -> (builder: ArrayColumnBuilder<T>)
        requires
            T::column_wf(array),
        ensures
            builder.wf(),
            builder.rows() == Seq::new(n as nat, |i: int| T::column_view(array)),
            T::builder_view(&builder.builder) == repeated(
                T::column_view(array),
                if n == 0 {
                    1
                } else {
                    n as nat
                },
            ),
            builder.offsets@.len() == n + 1,
            forall|k: int|
                0 <= k <= n ==> (#[trigger] builder.offsets@[k]) == k * T::column_view(array).len(),
    {
        let ghost items = T::column_view(array);
        let full = T::column_len(array);
        let mut builder = T::column_to_builder(T::slice_column(array, 0..full));
        let len = T::builder_len(&builder);
        let mut offsets: Vec<u64> = Vec::new();
        offsets.push(0);
        proof {
            assert(repeated(items, 0) =~= Seq::<T::Item>::empty());
            assert(T::builder_view(&builder) =~= repeated(items, 1));
        }
        if n == 0 {
            proof {
                assert(0 * items.len() == 0) by (nonlinear_arith);
            }
            return ArrayColumnBuilder { builder, offsets };
        }
        offsets.push(len as u64);
        let mut i: usize = 1;
        while i < n
            invariant
                1 <= i <= n,
                items == T::column_view(array),
                T::column_wf(array),
                len == items.len(),
                T::builder_wf(&builder),
                T::builder_view(&builder) == repeated(items, i as nat),
                offsets@.len() == i + 1,
                forall|k: int|
                    0 <= k <= i ==> (#[trigger] offsets@[k]) as int == repeated(
                        items,
                        k as nat,
                    ).len(),
            decreases n - i,
        {
            T::append_column(&mut builder, array);
            let total = T::builder_len(&builder);
            offsets.push(total as u64);
            i = i + 1;
        }
        let built = ArrayColumnBuilder { builder, offsets };
        proof {
            lemma_repeat_rows(items, n as nat, built.offsets@);
            assert forall|k: int| 0 <= k <= n implies (#[trigger] built.offsets@[k]) == k
                * items.len() by {
                lemma_repeated_len(items, k as nat);
            }
        }
        built
    }

    /// The number of rows committed.
    pub fn len(&self) -> (len: usize)
        requires
            self.wf(),
        ensures
            len == self.rows().len(),
    {
        self.offsets.len() - 1
    }

    /// Makes room for `additional` more rows.
    pub fn reserve(&mut self, additional: usize)
        ensures
            final(self).offsets@ == old(self).offsets@,
            final(self).builder == old(self).builder,
    {
        self.offsets.reserve(additional);
    }

    /// Puts one item behind those of the row that is being built.
    pub fn put_item(&mut self, item: T::Scalar)
        requires
            old(self).wf(),
            T::scalar_wf(&item),
        ensures
            final(self).wf(),
            final(self).offsets@ == old(self).offsets@,
            T::builder_view(&final(self).builder) == T::builder_view(&old(self).builder).push(
                T::scalar_view(&item),
            ),
            final(self).rows() == old(self).rows(),
            final(self).pending() == old(self).pending().push(T::scalar_view(&item)),
    {
        let ghost before = T::builder_view(&self.builder);
        T::push_item(&mut self.builder, item);
        proof {
            let after = T::builder_view(&self.builder);
            assert(after.subrange(0, before.len() as int) =~= before);
            lemma_rows_of_longer(before, after, self.offsets@);
        }
    }

    /// Commits the items put since the last row as a row.
    pub fn commit_row(&mut self)
        requires
            old(self).wf(),
        ensures
            final(self).wf(),
            final(self).builder == old(self).builder,
            final(self).offsets@ == old(self).offsets@.push(
                T::builder_view(&old(self).builder).len() as u64,
            ),
            final(self).rows() == old(self).rows().push(old(self).pending()),
            final(self).pending().len() == 0,
    {
        self.offsets.push(T::builder_len(&self.builder) as u64);
    }

    /// Commits `item` as a row, behind the items put since the last row.
    pub fn push(&mut self, item: T::Column)
        requires
            old(self).wf(),
            T::column_wf(&item),
        ensures
            final(self).wf(),
            T::builder_view(&final(self).builder) == T::builder_view(&old(self).builder)
                + T::column_view(&item),
            final(self).offsets@ == old(self).offsets@.push(
                (T::builder_view(&old(self).builder).len() + T::column_view(&item).len()) as u64,
            ),
            final(self).rows() == old(self).rows().push(
                old(self).pending() + T::column_view(&item),
            ),
            final(self).pending().len() == 0,
    {
        let ghost before = T::builder_view(&self.builder);
        T::append_column(&mut self.builder, &item);
        let len = T::builder_len(&self.builder);
        self.offsets.push(len as u64);
        proof {
            let after = T::builder_view(&self.builder);
            assert(after.subrange(0, before.len() as int) =~= before);
            lemma_rows_of_longer(before, after, old(self).offsets@);
            assert(after.subrange(old(self).offsets@.last() as int, after.len() as int)
                =~= old(self).pending() + T::column_view(&item));
        }
    }

    /// Commits a row that holds what was put since the last row: an empty
    /// array where nothing was.
    pub fn push_default(&mut self)
        requires
            old(self).wf(),
        ensures
            final(self).wf(),
            final(self).builder == old(self).builder,
            final(self).offsets@ == old(self).offsets@.push(
                T::builder_view(&old(self).builder).len() as u64,
            ),
            final(self).rows() == old(self).rows().push(old(self).pending()),
            final(self).pending().len() == 0,
    {
        let len = T::builder_len(&self.builder);
        self.offsets.push(len as u64);
    }

    /// Appends the rows of `other`.
    ///
    /// The items of `other`'s rows go behind the items held, and each new
    /// offset lies as far behind the last offset held as the row's end
    /// lies behind `other`'s first offset.
    pub fn append_column(&mut self, other: &ArrayColumn<T>)
        requires
            old(self).wf(),
            other.wf(),
        ensures
            final(self).wf(),
            T::builder_view(&final(self).builder) == T::builder_view(&old(self).builder)
                + T::column_view(&other.values).subrange(
                other.offsets@.first() as int,
                other.offsets@.last() as int,
            ),
            final(self).offsets@ == old(self).offsets@ + Seq::new(
                (other.offsets@.len() - 1) as nat,
                |k: int|
                    (old(self).offsets@.last() + (other.offsets@[k + 1]
                        - other.offsets@.first())) as u64,
            ),
            old(self).pending().len() == 0 ==> {
                &&& final(self).rows() == old(self).rows() + other.rows()
                &&& final(self).pending().len() == 0
            },
    {
        // no offset of `other` lies beyond the length of its values
        let _len = T::column_len(&other.values);
        let other_start = other.offsets[0];
        let other_end = other.offsets[other.offsets.len() - 1];
        let other_values = T::slice_column(
            &other.values,
            (other_start as usize)..(other_end as usize),
        );
        let ghost before = T::builder_view(&self.builder);
        let held = T::builder_len(&self.builder);
        T::append_column(&mut self.builder, &other_values);
        let grown = T::builder_len(&self.builder);
        let ghost after = T::builder_view(&self.builder);
        let end = self.offsets[self.offsets.len() - 1];
        let ghost shifted = Seq::new(
            (other.offsets@.len() - 1) as nat,
            |k: int| (end + (other.offsets@[k + 1] - other_start)) as u64,
        );
        let count = other.offsets.len();
        let mut k: usize = 1;
        while k < count
            invariant
                1 <= k <= count,
                count == other.offsets@.len(),
                other.wf(),
                other_start == other.offsets@.first(),
                other_end == other.offsets@.last(),
                end == old(self).offsets@.last(),
                end <= held,
                grown == held + (other_end - other_start),
                T::builder_wf(&self.builder),
                T::builder_view(&self.builder) == after,
                self.offsets@ == old(self).offsets@ + shifted.subrange(0, k - 1),
                shifted == Seq::new(
                    (other.offsets@.len() - 1) as nat,
                    |k: int| (end + (other.offsets@[k + 1] - other_start)) as u64,
                ),
            decreases count - k,
        {
            self.offsets.push(end + (other.offsets[k] - other_start));
            k = k + 1;
        }
        proof {
            if old(self).pending().len() == 0 {
                assert(after.subrange(0, before.len() as int) =~= before);
                assert forall|r: int| 0 <= r < self.rows().len() implies #[trigger] self.rows()[r]
                    == (old(self).rows() + other.rows())[r] by {
                }
            }
        }
    }

    /// The column of the rows committed.
    pub fn build(self) -> (col: ArrayColumn<T>)
        requires
            self.wf(),
        ensures
            col.wf(),
            col.offsets == self.offsets,
            T::column_view(&col.values) == T::builder_view(&self.builder),
            col.rows() == self.rows(),
    {
        ArrayColumn { values: T::build_column(self.builder), offsets: self.offsets }
    }

    /// The one row of a builder that holds exactly one.
    pub fn build_scalar(self) -> (array: T::Column)
        requires
            self.wf(),
            self.offsets@.len() == 2,
        ensures
            T::column_wf(&array),
            T::column_view(&array) == self.rows()[0],
    {
        // no offset lies beyond the number of items held
        let _len = T::builder_len(&self.builder);
        let first = self.offsets[0] as usize;
        let last = self.offsets[1] as usize;
        T::slice_column(&T::build_column(self.builder), first..last)
    }
}

impl<T: ArgType> ArrayColumnBuilder<T> {
    /// A builder without rows, with room for `len` rows and
    /// `values_capacity` items.
    pub fn with_capacity(len: usize, values_capacity: usize) -> (builder: ArrayColumnBuilder<T>)
        ensures
            builder.wf(),
            builder.offsets@ == seq![0u64],
            T::builder_view(&builder.builder) == Seq::<T::Item>::empty(),
    {
        let room = match len.checked_add(1) {
            Some(room) => room,
            None => len,
        };
        let mut offsets: Vec<u64> = Vec::with_capacity(room);
        offsets.push(0);
        ArrayColumnBuilder { builder: T::create_builder(values_capacity), offsets }
    }
}

impl<T: PopType> ArrayColumnBuilder<T> {
    /// Takes the last row off a builder that holds more than one row.
    ///
    /// As many items as the last row holds are taken from the end of the
    /// items held, and come back last item first.
    pub fn pop(&mut self) -> (popped: Option<T::Column>)
        requires
            old(self).wf(),
        ensures
            final(self).wf(),
            match popped {
                Some(col) => {
                    let held = T::builder_view(&old(self).builder);
                    let count = old(self).rows().last().len();
                    &&& old(self).rows().len() > 1
                    &&& final(self).offsets@ == old(self).offsets@.drop_last()
                    &&& count <= held.len()
                    &&& T::builder_view(&final(self).builder) == held.subrange(
                        0,
                        held.len() - count,
                    )
                    &&& T::column_wf(&col)
                    &&& T::column_view(&col) == held.subrange(
                        held.len() - count,
                        held.len() as int,
                    ).reverse()
                },
                None => {
                    &&& old(self).rows().len() <= 1
                    &&& final(self).offsets@ == old(self).offsets@
                    &&& final(self).builder == old(self).builder
                },
            },
    {
        if self.len() > 1 {
            let rows = self.offsets.len();
            let held = T::builder_len(&self.builder);
            let ghost items = T::builder_view(&self.builder);
            let pop_count = self.offsets[rows - 1] as usize - self.offsets[rows - 2] as usize;
            self.offsets.pop();
            let ghost trimmed = self.offsets@;
            let mut builder = T::create_builder(pop_count);
            let mut k: usize = 0;
            while k < pop_count
                invariant
                    k <= pop_count <= held,
                    held == items.len(),
                    self.offsets@ == trimmed,
                    T::builder_wf(&self.builder),
                    T::builder_view(&self.builder) == items.subrange(0, held - k),
                    T::builder_wf(&builder),
                    T::builder_view(&builder) == items.subrange(held - k, held as int).reverse(),
                decreases pop_count - k,
            {
                let item = T::pop_item(&mut self.builder).unwrap();
                T::push_item(&mut builder, item);
                k = k + 1;
            }
            Some(T::build_column(builder))
        } else {
            None
        }
    }
}

impl<T: ValueType> ValueType for ArrayType<T> {
    type Item = Seq<T::Item>;

    type Scalar = T::Column;

    type Column = ArrayColumn<T>;

    type ColumnBuilder = ArrayColumnBuilder<T>;

    open spec fn scalar_view(scalar: &T::Column) -> Seq<T::Item> {
        T::column_view(scalar)
    }

    open spec fn column_view(col: &ArrayColumn<T>) -> Seq<Seq<T::Item>> {
        col.rows()
    }

    open spec fn builder_view(builder: &ArrayColumnBuilder<T>) -> Seq<Seq<T::Item>> {
        builder.rows()
    }

    open spec fn scalar_wf(scalar: &T::Column) -> bool {
        T::column_wf(scalar)
    }

    open spec fn column_wf(col: &ArrayColumn<T>) -> bool {
        col.wf()
    }

    /// A builder between rows: nothing is put that is not committed.
    open spec fn builder_wf(builder: &ArrayColumnBuilder<T>) -> bool {
        builder.wf() && builder.pending().len() == 0
    }

    open spec fn default_item() -> Seq<T::Item> {
        Seq::empty()
    }

    fn column_len(col: &ArrayColumn<T>) -> (len: usize) {
        col.len()
    }

    fn index_column(col: &ArrayColumn<T>, index: usize) -> (item: Option<T::Column>) {
        col.index(index)
    }

    fn slice_column(col: &ArrayColumn<T>, range: Range<usize>) -> (slice: ArrayColumn<T>) {
        col.slice(range)
    }

    /// Items that lie behind the last row of `col` are not taken over.
    fn column_to_builder(col: ArrayColumn<T>) -> (builder: ArrayColumnBuilder<T>) {
        let total = T::column_len(&col.values);
        let last = col.offsets[col.offsets.len() - 1] as usize;
        if last == total {
            ArrayColumnBuilder::from_column(col)
        } else {
            let values = T::slice_column(&col.values, 0..last);
            let builder = ArrayColumnBuilder {
                builder: T::column_to_builder(values),
                offsets: col.offsets,
            };
            proof {
                let kept = T::builder_view(&builder.builder);
                let held = T::column_view(&col.values);
                lemma_rows_of_longer(kept, held, col.offsets@);
            }
            builder
        }
    }

    fn builder_len(builder: &ArrayColumnBuilder<T>) -> (len: usize) {
        builder.len()
    }

    fn push_item(builder: &mut ArrayColumnBuilder<T>, item: T::Column) {
        builder.push(item);
    }

    fn push_default(builder: &mut ArrayColumnBuilder<T>) {
        proof {
            assert(builder.pending() =~= Seq::<T::Item>::empty());
        }
        builder.push_default();
    }

    fn append_column(builder: &mut ArrayColumnBuilder<T>, other: &ArrayColumn<T>) {
        builder.append_column(other);
    }

    fn build_column(builder: ArrayColumnBuilder<T>) -> (col: ArrayColumn<T>) {
        builder.build()
    }

    fn build_scalar(builder: ArrayColumnBuilder<T>) -> (scalar: T::Column) {
        builder.build_scalar()
    }
}

impl<T: ArgType> ArgType for ArrayType<T> {
    fn create_builder(capacity: usize) -> (builder: ArrayColumnBuilder<T>) {
        ArrayColumnBuilder::with_capacity(capacity, 0)
    }
}

/// `items` written `times` times in a row.
pub open spec fn repeated<I>(items: Seq<I>, times: nat) -> Seq<I>
    decreases times,
{
    if times == 0 {
        Seq::empty()
    } else {
        repeated(items, (times - 1) as nat) + items
    }
}

/// `items` written `times` times holds `times` times as many items.
pub proof fn lemma_repeated_len<I>(items: Seq<I>, times: nat)
    ensures
        repeated(items, times).len() == times * items.len(),
    decreases times,
{
    if times > 0 {
        lemma_repeated_len(items, (times - 1) as nat);
        assert(times * items.len() == (times - 1) * items.len() + items.len())
            by (nonlinear_arith);
    } else {
        assert(0 * items.len() == 0) by (nonlinear_arith);
    }
}

proof fn lemma_repeated_grows<I>(items: Seq<I>, fewer: nat, more: nat)
    requires
        fewer <= more,
    ensures
        repeated(items, fewer).len() <= repeated(items, more).len(),
        repeated(items, more).subrange(0, repeated(items, fewer).len() as int) == repeated(
            items,
            fewer,
        ),
    decreases more,
{
    if fewer < more {
        lemma_repeated_grows(items, fewer, (more - 1) as nat);
    }
}

/// Offsets at the ends of the repetitions of `items` delimit `items` as
/// each row.
proof fn lemma_repeat_rows<I>(items: Seq<I>, times: nat, offsets: Seq<u64>)
    requires
        offsets.len() == times + 1,
        forall|k: int|
            0 <= k <= times ==> (#[trigger] offsets[k]) as int == repeated(items, k as nat).len(),
    ensures
        offsets_wf(offsets, repeated(items, times).len()),
        rows_of(repeated(items, times), offsets) == Seq::new(times, |i: int| items),
{
    assert forall|a: int, b: int| 0 <= a <= b < offsets.len() implies offsets[a] <= offsets[b] by {
        lemma_repeated_grows(items, a as nat, b as nat);
    }
    assert forall|r: int| 0 <= r < times implies #[trigger] rows_of(
        repeated(items, times),
        offsets,
    )[r] == items by {
        lemma_repeated_block(items, times, r as nat);
    }
}

/// Block `block` of `items` written `times` times is `items`.
proof fn lemma_repeated_block<I>(items: Seq<I>, times: nat, block: nat)
    requires
        block < times,
    ensures
        repeated(items, (block + 1) as nat).len() <= repeated(items, times).len(),
        repeated(items, times).subrange(
            repeated(items, block).len() as int,
            repeated(items, (block + 1) as nat).len() as int,
        ) == items,
{
    lemma_repeated_grows(items, (block + 1) as nat, times);
    let upto = repeated(items, (block + 1) as nat);
    let before = repeated(items, block);
    assert(repeated(items, times).subrange(before.len() as int, upto.len() as int)
        =~= repeated(items, times).subrange(0, upto.len() as int).subrange(
        before.len() as int,
        upto.len() as int,
    ));
}

} // verus!
