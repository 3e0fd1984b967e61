use fuse_engine::types::ArgType;
use fuse_engine::types::ArrayColumn;
use fuse_engine::types::ArrayColumnBuilder;
use fuse_engine::types::ArrayType;
use fuse_engine::types::PopType;
use fuse_engine::types::UInt64Type;
use fuse_engine::types::ValueType;

type U64Arrays = ArrayType<UInt64Type>;

fn column(values: Vec<u64>, offsets: Vec<u64>) -> ArrayColumn<UInt64Type> {
    ArrayColumn { values, offsets }
}

fn rows(col: &ArrayColumn<UInt64Type>) -> Vec<Vec<u64>> {
    let mut rows = Vec::new();
    let mut iter = col.iter();
    while let Some(row) = iter.next() {
        rows.push(row);
    }
    rows
}

#[test]
fn number_columns_slice_index_and_build() {
    let col = vec![5u64, 6, 7, 8];
    assert_eq!(UInt64Type::column_len(&col), 4);
    assert_eq!(UInt64Type::index_column(&col, 2), Some(7));
    assert_eq!(UInt64Type::index_column(&col, 4), None);
    assert_eq!(UInt64Type::slice_column(&col, 1..3), vec![6, 7]);
    assert_eq!(UInt64Type::slice_column(&col, 2..2), Vec::<u64>::new());
    let mut builder = UInt64Type::column_to_builder(col.clone());
    UInt64Type::push_item(&mut builder, 9);
    UInt64Type::push_default(&mut builder);
    UInt64Type::append_column(&mut builder, &vec![1, 2]);
    assert_eq!(UInt64Type::builder_len(&builder), 8);
    assert_eq!(UInt64Type::pop_item(&mut builder), Some(2));
    assert_eq!(UInt64Type::build_column(builder), vec![5, 6, 7, 8, 9, 0, 1]);
    assert_eq!(UInt64Type::build_scalar(vec![42]), 42);
    assert_eq!(UInt64Type::create_builder(8), Vec::<u64>::new());
    assert_eq!(UInt64Type::pop_item(&mut Vec::new()), None);
}

#[test]
fn array_column_rows_follow_its_offsets() {
    let col = column(vec![1, 2, 3, 4, 5, 6], vec![1, 3, 3, 6]);
    assert_eq!(col.len(), 3);
    assert_eq!(col.index(0), Some(vec![2, 3]));
    assert_eq!(col.index(1), Some(vec![]));
    assert_eq!(col.index(2), Some(vec![4, 5, 6]));
    assert_eq!(col.index(3), None);
    assert_eq!(col.underlying_column(), vec![2, 3, 4, 5, 6]);
    assert_eq!(rows(&col), vec![vec![2, 3], vec![], vec![4, 5, 6]]);
}

#[test]
fn array_column_slice_keeps_the_rows_of_the_range() {
    let col = column(vec![1, 2, 3, 4, 5, 6], vec![0, 2, 3, 6]);
    let slice = col.slice(1..3);
    assert_eq!(slice.offsets, vec![2, 3, 6]);
    assert_eq!(rows(&slice), vec![vec![3], vec![4, 5, 6]]);
    assert_eq!(rows(&col.slice(2..2)), Vec::<Vec<u64>>::new());
    assert_eq!(rows(&col.slice(0..3)), rows(&col));
}

#[test]
fn array_iterator_counts_what_is_left() {
    let col = column(vec![1, 2, 3], vec![0, 1, 3]);
    let mut iter = col.iter();
    assert_eq!(iter.size_hint(), (2, Some(2)));
    assert_eq!(iter.next(), Some(vec![1]));
    assert_eq!(iter.size_hint(), (1, Some(1)));
    assert_eq!(iter.next(), Some(vec![2, 3]));
    assert_eq!(iter.next(), None);
    assert_eq!(iter.size_hint(), (0, Some(0)));
}

#[test]
fn builder_repeat_holds_the_array_n_times() {
    let builder = ArrayColumnBuilder::<UInt64Type>::repeat(&vec![7, 8], 3);
    assert_eq!(builder.len(), 3);
    assert_eq!(builder.offsets, vec![0, 2, 4, 6]);
    assert_eq!(builder.builder, vec![7, 8, 7, 8, 7, 8]);
    let once = ArrayColumnBuilder::<UInt64Type>::repeat(&vec![7, 8], 1);
    assert_eq!(once.offsets, vec![0, 2]);
    assert_eq!(once.build_scalar(), vec![7, 8]);
    let none = ArrayColumnBuilder::<UInt64Type>::repeat(&vec![7, 8], 0);
    assert_eq!(none.len(), 0);
    assert_eq!(none.offsets, vec![0]);
    let empty = ArrayColumnBuilder::<UInt64Type>::repeat(&vec![], 2);
    assert_eq!(rows(&empty.build()), vec![Vec::<u64>::new(), vec![]]);
}

#[test]
fn builder_puts_items_and_commits_rows() {
    let mut builder = ArrayColumnBuilder::<UInt64Type>::with_capacity(4, 8);
    assert_eq!(builder.len(), 0);
    builder.reserve(10);
    builder.put_item(1);
    builder.put_item(2);
    assert_eq!(builder.len(), 0);
    builder.commit_row();
    builder.push_default();
    builder.push(vec![3, 4, 5]);
    builder.put_item(6);
    builder.push(vec![7]);
    assert_eq!(builder.len(), 4);
    assert_eq!(builder.offsets, vec![0, 2, 2, 5, 7]);
    let col = builder.build();
    assert_eq!(rows(&col), vec![vec![1, 2], vec![], vec![3, 4, 5], vec![6, 7]]);
}

#[test]
fn builder_appends_a_column_that_does_not_start_at_zero() {
    let mut builder = ArrayColumnBuilder::<UInt64Type>::from_column(column(vec![1, 2], vec![0, 1, 2]));
    let other = column(vec![9, 9, 3, 4, 5, 9], vec![2, 4, 4, 5]);
    builder.append_column(&other);
    assert_eq!(builder.builder, vec![1, 2, 3, 4, 5]);
    assert_eq!(builder.offsets, vec![0, 1, 2, 4, 4, 5]);
    assert_eq!(rows(&builder.build()), vec![vec![1], vec![2], vec![3, 4], vec![], vec![5]]);
}

#[test]
fn builder_pop_takes_the_last_row_last_item_first() {
    let mut builder = ArrayColumnBuilder::<UInt64Type>::from_column(column(
        vec![1, 2, 3, 4, 5],
        vec![0, 2, 5],
    ));
    assert_eq!(builder.pop(), Some(vec![5, 4, 3]));
    assert_eq!(builder.offsets, vec![0, 2]);
    assert_eq!(builder.builder, vec![1, 2]);
    assert_eq!(builder.pop(), None);
    assert_eq!(builder.offsets, vec![0, 2]);
    assert_eq!(builder.builder, vec![1, 2]);
    let mut empty = ArrayColumnBuilder::<UInt64Type>::with_capacity(0, 0);
    assert_eq!(empty.pop(), None);
}

#[test]
fn arrays_nest() {
    let mut builder = <ArrayType<U64Arrays> as ArgType>::create_builder(2);
    let first = column(vec![1, 2, 3], vec![0, 1, 3]);
    let second = column(vec![9, 4, 9], vec![1, 2]);
    <ArrayType<U64Arrays> as ValueType>::push_item(&mut builder, first);
    <ArrayType<U64Arrays> as ValueType>::push_default(&mut builder);
    <ArrayType<U64Arrays> as ValueType>::push_item(&mut builder, second);
    assert_eq!(<ArrayType<U64Arrays> as ValueType>::builder_len(&builder), 3);
    let col = <ArrayType<U64Arrays> as ValueType>::build_column(builder);
    assert_eq!(<ArrayType<U64Arrays> as ValueType>::column_len(&col), 3);
    let row = <ArrayType<U64Arrays> as ValueType>::index_column(&col, 0).unwrap();
    assert_eq!(rows(&row), vec![vec![1], vec![2, 3]]);
    let row = <ArrayType<U64Arrays> as ValueType>::index_column(&col, 1).unwrap();
    assert_eq!(rows(&row), Vec::<Vec<u64>>::new());
    let row = <ArrayType<U64Arrays> as ValueType>::index_column(&col, 2).unwrap();
    assert_eq!(rows(&row), vec![vec![4]]);
    assert!(<ArrayType<U64Arrays> as ValueType>::index_column(&col, 3).is_none());
}

#[test]
fn array_type_builder_drops_items_behind_the_last_row() {
    let col = column(vec![1, 2, 3, 4], vec![0, 1, 2]);
    let mut builder = U64Arrays::column_to_builder(col);
    assert_eq!(builder.builder, vec![1, 2]);
    U64Arrays::push_item(&mut builder, vec![7]);
    U64Arrays::append_column(&mut builder, &column(vec![8, 9], vec![0, 2]));
    let sliced = U64Arrays::slice_column(&U64Arrays::build_column(builder), 1..4);
    assert_eq!(rows(&sliced), vec![vec![2], vec![7], vec![8, 9]]);
    let mut one = U64Arrays::create_builder(1);
    U64Arrays::push_item(&mut one, vec![4, 2]);
    assert_eq!(U64Arrays::build_scalar(one), vec![4, 2]);
}

#[test]
fn builder_push_appends_items_and_one_offset() {
    let mut builder = ArrayColumnBuilder::<UInt64Type>::from_column(column(vec![9, 5, 5], vec![1, 2, 3]));
    builder.push(vec![7, 8]);
    assert_eq!(builder.builder, vec![9, 5, 5, 7, 8]);
    assert_eq!(builder.offsets, vec![1, 2, 3, 5]);
    builder.push(vec![]);
    assert_eq!(builder.builder, vec![9, 5, 5, 7, 8]);
    assert_eq!(builder.offsets, vec![1, 2, 3, 5, 5]);
    builder.put_item(4);
    assert_eq!(builder.builder, vec![9, 5, 5, 7, 8, 4]);
    assert_eq!(builder.offsets, vec![1, 2, 3, 5, 5]);
    builder.commit_row();
    builder.push_default();
    assert_eq!(builder.offsets, vec![1, 2, 3, 5, 5, 6, 6]);
    assert_eq!(builder.builder, vec![9, 5, 5, 7, 8, 4]);
}
