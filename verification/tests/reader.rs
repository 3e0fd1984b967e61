use fuse_engine::error::ErrorCode;
use fuse_engine::meta::BlockMeta;
use fuse_engine::meta::ColumnMeta;
use fuse_engine::meta::Compression;
use fuse_engine::part::FusePartInfo;
use fuse_engine::part::PartInfo;
use fuse_engine::reader::BlockFormat;
use fuse_engine::reader::BlockReader;
use fuse_engine::reader::ColumnChunks;
use fuse_engine::reader::LeafChunk;
use fuse_engine::reader::RangeRead;
use fuse_engine::reader::ReadEvent;
use fuse_engine::reader::ReadState;
use fuse_engine::reader::DEFAULT_FAN_OUT;
use std::collections::HashMap;
use std::sync::Arc;

fn part(metas: &[(usize, u64, u64, u64)], proj: &[(usize, Vec<usize>)], rows: u64) -> Arc<PartInfo> {
    let columns_meta: HashMap<usize, ColumnMeta> = metas
        .iter()
        .map(|(leaf, offset, length, values)| (*leaf, ColumnMeta::create(*offset, *length, *values)))
        .collect();
    let proj_map: HashMap<usize, Vec<usize>> = proj.iter().cloned().collect();
    FusePartInfo::create("blocks/7.parquet".to_string(), 1, rows, columns_meta, proj_map, Compression::Lz4Raw)
}

fn fuse(part: &Arc<PartInfo>) -> &FusePartInfo {
    FusePartInfo::from_part(part).unwrap()
}

#[test]
fn single_flat_column_is_one_range_read() {
    let part = part(&[(0, 10, 50, 100)], &[(0, vec![0])], 100);
    let reader = BlockReader::create(vec![0]);
    let reads = reader.read_plan(fuse(&part)).unwrap();
    assert_eq!(reads, vec![RangeRead { leaf: 0, offset: 10, length: 50 }]);
    assert_eq!(reads[0].end(), Some(60));
    let groups = reader.group_chunks(fuse(&part), vec![(0, vec![7u8; 50])]).unwrap();
    assert_eq!(groups.len(), 1);
    assert_eq!(groups[0].column, 0);
    assert_eq!(groups[0].leaves.len(), 1);
    assert_eq!(groups[0].leaves[0].meta.num_values, 100);
    assert_eq!(fuse(&part).nums_rows, 100);
}

#[test]
fn nested_column_reads_each_of_its_leaves() {
    let part = part(&[(2, 100, 10, 5), (3, 110, 20, 5), (4, 130, 30, 5)], &[(0, vec![2, 3])], 5);
    let reader = BlockReader::create(vec![0]);
    let reads = reader.read_plan(fuse(&part)).unwrap();
    assert_eq!(
        reads,
        vec![
            RangeRead { leaf: 2, offset: 100, length: 10 },
            RangeRead { leaf: 3, offset: 110, length: 20 },
        ]
    );
    let mut queue = reader.start_fetch(fuse(&part)).unwrap();
    assert!(queue.dispatch().is_some());
    assert!(queue.dispatch().is_some());
    assert_eq!(queue.in_flight(), 2);
    assert!(queue.dispatch().is_none());
    let groups = reader
        .group_chunks(fuse(&part), vec![(3, vec![3u8; 20]), (2, vec![2u8; 10])])
        .unwrap();
    let expected = vec![ColumnChunks {
        column: 0,
        leaves: vec![
            LeafChunk { leaf: 2, meta: ColumnMeta::create(100, 10, 5), data: vec![2u8; 10] },
            LeafChunk { leaf: 3, meta: ColumnMeta::create(110, 20, 5), data: vec![3u8; 20] },
        ],
    }];
    assert_eq!(groups, expected);
}

#[test]
fn plan_follows_projection_order_and_fetches_no_other_leaf() {
    let part = part(
        &[(0, 0, 1, 1), (1, 1, 2, 1), (2, 3, 3, 1), (3, 6, 4, 1), (4, 10, 5, 1)],
        &[(0, vec![0]), (1, vec![1, 2]), (2, vec![3]), (3, vec![4])],
        1,
    );
    let reader = BlockReader::create(vec![3, 1]);
    let reads = reader.read_plan(fuse(&part)).unwrap();
    let leaves: Vec<usize> = reads.iter().map(|r| r.leaf).collect();
    assert_eq!(leaves, vec![4, 1, 2]);
    assert_eq!(reads[1], RangeRead { leaf: 1, offset: 1, length: 2 });
}

#[test]
fn empty_projection_plans_nothing() {
    let part = part(&[(0, 0, 1, 1)], &[(0, vec![0])], 1);
    let reader = BlockReader::create(vec![]);
    assert_eq!(reader.read_plan(fuse(&part)).unwrap(), vec![]);
    assert_eq!(reader.group_chunks(fuse(&part), vec![]).unwrap(), vec![]);
}

#[test]
fn unmapped_projection_is_an_internal_error() {
    let part = part(&[(0, 0, 1, 1)], &[(0, vec![0])], 1);
    let reader = BlockReader::create(vec![0, 9]);
    assert_eq!(
        reader.read_plan(fuse(&part)).unwrap_err(),
        ErrorCode::ProjectionUnmapped { column: 9 }
    );
    assert_eq!(
        reader.start_fetch(fuse(&part)).unwrap_err(),
        ErrorCode::ProjectionUnmapped { column: 9 }
    );
    assert_eq!(
        reader.group_chunks(fuse(&part), vec![(0, vec![1])]).unwrap_err(),
        ErrorCode::ProjectionUnmapped { column: 9 }
    );
}

#[test]
fn leaf_without_meta_is_an_internal_error() {
    let part = part(&[(0, 0, 1, 1)], &[(0, vec![0, 6])], 1);
    let reader = BlockReader::create(vec![0]);
    assert_eq!(
        reader.read_plan(fuse(&part)).unwrap_err(),
        ErrorCode::LeafMetaMissing { leaf: 6 }
    );
    assert_eq!(
        reader.group_chunks(fuse(&part), vec![(0, vec![1]), (6, vec![2])]).unwrap_err(),
        ErrorCode::LeafMetaMissing { leaf: 6 }
    );
}

#[test]
fn missing_chunk_is_an_internal_error() {
    let part = part(&[(0, 0, 1, 1), (1, 1, 1, 1)], &[(0, vec![0]), (1, vec![1])], 1);
    let reader = BlockReader::create(vec![0, 1]);
    assert_eq!(
        reader.group_chunks(fuse(&part), vec![(0, vec![1])]).unwrap_err(),
        ErrorCode::LeafChunkMissing { leaf: 1 }
    );
}

#[test]
fn a_chunk_serves_one_leaf_of_the_plan_once() {
    let part = part(&[(0, 0, 1, 1)], &[(0, vec![0])], 1);
    let reader = BlockReader::create(vec![0, 0]);
    assert_eq!(
        reader.group_chunks(fuse(&part), vec![(0, vec![1]), (0, vec![2])]).unwrap_err(),
        ErrorCode::LeafChunkMissing { leaf: 0 }
    );
}

#[test]
fn the_last_chunk_handed_in_for_a_leaf_counts() {
    let part = part(&[(0, 0, 1, 1)], &[(0, vec![0])], 1);
    let reader = BlockReader::create(vec![0]);
    let groups = reader
        .group_chunks(fuse(&part), vec![(0, vec![1]), (5, vec![9]), (0, vec![2])])
        .unwrap();
    assert_eq!(groups[0].leaves[0].data, vec![2]);
}

#[test]
fn block_plan_takes_projected_indices_as_leaves() {
    let mut col_metas = HashMap::new();
    col_metas.insert(0u32, ColumnMeta::create(4, 10, 3));
    col_metas.insert(1u32, ColumnMeta::create(14, 20, 3));
    col_metas.insert(2u32, ColumnMeta::create(34, 30, 3));
    let block = BlockMeta::new(3, 0, 0, HashMap::new(), col_metas, None, None, ("b".to_string(), 1));
    let reader = BlockReader::create(vec![2, 0]);
    assert_eq!(
        reader.block_read_plan(&block).unwrap(),
        vec![
            RangeRead { leaf: 2, offset: 34, length: 30 },
            RangeRead { leaf: 0, offset: 4, length: 10 },
        ]
    );
    let reader = BlockReader::create(vec![0, 3, 4]);
    assert_eq!(
        reader.block_read_plan(&block).unwrap_err(),
        ErrorCode::LeafMetaMissing { leaf: 3 }
    );
}

#[test]
fn range_end_is_checked() {
    assert_eq!(RangeRead { leaf: 0, offset: u64::MAX, length: 1 }.end(), None);
    assert_eq!(RangeRead { leaf: 0, offset: u64::MAX - 1, length: 1 }.end(), Some(u64::MAX));
}

#[test]
fn reader_keeps_projection_and_fan_out() {
    let reader = BlockReader::create(vec![4, 2]);
    assert_eq!(reader.projection(), &vec![4, 2]);
    assert_eq!(reader.fan_out(), DEFAULT_FAN_OUT);
    assert_eq!(DEFAULT_FAN_OUT, 10);
    assert_eq!(BlockReader::with_fan_out(vec![], 3).fan_out(), 3);
    assert_eq!(BlockReader::with_fan_out(vec![], 0).fan_out(), 1);
}

#[test]
fn read_state_moves_forward_and_stops_at_its_ends() {
    let s = ReadState::Pending;
    assert!(!s.is_terminal());
    let s = s.on(ReadEvent::Planned);
    assert_eq!(s, ReadState::Fetching);
    assert_eq!(s.on(ReadEvent::Decoded), ReadState::Fetching);
    let s = s.on(ReadEvent::Fetched);
    assert_eq!(s, ReadState::Decoding);
    let done = s.on(ReadEvent::Decoded);
    assert_eq!(done, ReadState::Assembled);
    assert!(done.is_terminal());
    assert_eq!(done.on(ReadEvent::Failure(ErrorCode::ForeignPart)), ReadState::Assembled);
    let failed = s.on(ReadEvent::Failure(ErrorCode::Decode { leaf: 2 }));
    assert_eq!(failed, ReadState::Failed(ErrorCode::Decode { leaf: 2 }));
    assert!(failed.is_terminal());
    assert_eq!(failed.on(ReadEvent::Decoded), failed);
    assert_eq!(
        ReadState::Pending.on(ReadEvent::Failure(ErrorCode::ForeignPart)),
        ReadState::Failed(ErrorCode::ForeignPart)
    );
}

#[test]
fn decoding_is_chosen_by_the_format_version_of_the_part() {
    let current = part(&[(0, 10, 50, 100)], &[(0, vec![0])], 100);
    let err = BlockFormat::of_part(fuse(&current)).unwrap_err();
    assert_eq!(err, ErrorCode::UnknownFormatVersion { version: 1 });
    assert_eq!(err.kind(), fuse_engine::error::ErrorKind::Format);
    let first = FusePartInfo::create(
        "blocks/7.parquet".to_string(),
        0,
        1,
        HashMap::new(),
        HashMap::new(),
        Compression::Lz4,
    );
    assert_eq!(BlockFormat::of_part(fuse(&first)), Ok(BlockFormat::V0));
}
