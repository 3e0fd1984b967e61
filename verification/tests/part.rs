use fuse_engine::error::ErrorCode;
use fuse_engine::error::ErrorKind;
use fuse_engine::meta::v0;
use fuse_engine::meta::BlockMeta;
use fuse_engine::meta::ClusterStatistics;
use fuse_engine::meta::ColumnMeta;
use fuse_engine::meta::ColumnSchema;
use fuse_engine::meta::ColumnStatistics;
use fuse_engine::meta::Compression;
use fuse_engine::meta::SegmentInfo;
use fuse_engine::meta::Statistics;
use fuse_engine::part::expand_column;
use fuse_engine::part::FusePartInfo;
use fuse_engine::part::PartInfo;
use std::collections::HashMap;
use std::sync::Arc;

fn node(name: &str, id: Option<u32>, children: Option<Vec<ColumnSchema>>) -> ColumnSchema {
    ColumnSchema { name: name.to_string(), column_id: id, children }
}

fn metas(entries: &[(u32, u64, u64, u64)]) -> HashMap<u32, ColumnMeta> {
    entries
        .iter()
        .map(|(id, offset, length, num_values)| (*id, ColumnMeta::create(*offset, *length, *num_values)))
        .collect()
}

fn nested_schema() -> ColumnSchema {
    let point = node(
        "point",
        None,
        Some(vec![node("x", Some(1), None), node("y", Some(2), None)]),
    );
    node(
        "schema",
        None,
        Some(vec![node("id", Some(0), None), point, node("tail", Some(3), None)]),
    )
}

fn nested_block() -> BlockMeta {
    BlockMeta::new(
        100,
        4000,
        1000,
        HashMap::new(),
        metas(&[(0, 4, 100, 100), (1, 104, 200, 100), (2, 304, 300, 100), (3, 604, 50, 100)]),
        Some(nested_schema()),
        None,
        ("blocks/1.parquet".to_string(), 1),
    )
}

fn fuse(part: &Arc<PartInfo>) -> &FusePartInfo {
    FusePartInfo::from_part(part).unwrap()
}

#[test]
fn column_meta_create_keeps_its_arguments() {
    let meta = ColumnMeta::create(10, 50, 100);
    assert_eq!(meta, ColumnMeta { offset: 10, length: 50, num_values: 100 });
}

#[test]
fn column_schema_new_has_no_children() {
    let leaf = ColumnSchema::new("a".to_string(), Some(7));
    assert_eq!(leaf, node("a", Some(7), None));
}

#[test]
fn column_schema_add_child_appends_in_order() {
    let mut group = ColumnSchema::new("g".to_string(), None);
    group.add_child(node("first", Some(0), None));
    group.add_child(node("second", Some(1), None));
    let expected = node(
        "g",
        None,
        Some(vec![node("first", Some(0), None), node("second", Some(1), None)]),
    );
    assert_eq!(group, expected);
    assert_eq!(group.clone(), expected);
}

#[test]
fn column_schema_leaves_are_in_declared_order() {
    assert_eq!(nested_schema().leaves(), vec![0, 1, 2, 3]);
    assert_eq!(node("only", Some(9), None).leaves(), vec![9]);
    assert_eq!(node("empty", None, None).leaves(), Vec::<u32>::new());
}

#[test]
fn new_block_uses_raw_lz4() {
    let block = nested_block();
    assert_eq!(block.compression(), Compression::Lz4Raw);
    assert_eq!(block.row_count, 100);
    assert_eq!(block.location, ("blocks/1.parquet".to_string(), 1));
}

#[test]
fn block_without_codec_field_decodes_as_legacy() {
    let absent = BlockMeta::restore(
        1,
        2,
        3,
        HashMap::new(),
        metas(&[(0, 4, 100, 1)]),
        None,
        None,
        ("b".to_string(), 0),
        None,
    );
    let explicit = BlockMeta::restore(
        1,
        2,
        3,
        HashMap::new(),
        metas(&[(0, 4, 100, 1)]),
        None,
        None,
        ("b".to_string(), 0),
        Some(Compression::Lz4),
    );
    assert_eq!(absent.compression(), Compression::Lz4);
    assert_eq!(absent.compression(), explicit.compression());
    assert_eq!(Compression::legacy(), Compression::Lz4);
    assert_eq!(Compression::or_legacy(Some(Compression::Lz4Raw)), Compression::Lz4Raw);
    let a = FusePartInfo::projection_part(&absent, &vec![0]).unwrap();
    let b = FusePartInfo::projection_part(&explicit, &vec![0]).unwrap();
    assert!(a.equals(&b));
}

#[test]
fn segment_is_written_in_the_current_version() {
    let summary = Statistics {
        row_count: 100,
        block_count: 1,
        uncompressed_byte_size: 4000,
        compressed_byte_size: 1000,
        col_stats: HashMap::new(),
    };
    let segment = SegmentInfo::new(vec![nested_block()], summary);
    assert_eq!(segment.format_version(), 1);
    assert_eq!(segment.blocks.len(), 1);
    assert_eq!(segment.summary.row_count, 100);
    assert_eq!(segment.blocks().len(), 1);
    assert_eq!(segment.blocks()[0].row_count, 100);
    assert_eq!(segment.blocks()[0].col_schema, Some(nested_schema()));
    assert_eq!(segment.summary().block_count, 1);
    assert_eq!(segment.summary().compressed_byte_size, 1000);
}

#[test]
fn upgrade_fills_new_fields_with_safe_defaults() {
    let mut col_stats = HashMap::new();
    col_stats.insert(0u32, ColumnStatistics { null_count: 2, in_memory_size: 800 });
    let old_block = v0::BlockMeta {
        row_count: 10,
        block_size: 800,
        file_size: 400,
        col_stats: col_stats.clone(),
        col_metas: metas(&[(0, 4, 396, 10)]),
        location: v0::BlockLocation { path: "old/1.parquet".to_string(), meta_size: 33 },
    };
    let old_segment = v0::SegmentInfo {
        blocks: vec![old_block.clone(), old_block],
        summary: Statistics {
            row_count: 20,
            block_count: 2,
            uncompressed_byte_size: 1600,
            compressed_byte_size: 800,
            col_stats,
        },
    };
    let segment = SegmentInfo::from(old_segment);
    assert_eq!(segment.format_version(), 1);
    assert_eq!(segment.summary.block_count, 2);
    assert_eq!(segment.blocks.len(), 2);
    for block in &segment.blocks {
        assert_eq!(block.row_count, 10);
        assert_eq!(block.block_size, 800);
        assert_eq!(block.file_size, 400);
        assert_eq!(block.col_stats[&0], ColumnStatistics { null_count: 2, in_memory_size: 800 });
        assert_eq!(block.col_metas[&0], ColumnMeta::create(4, 396, 10));
        assert_eq!(block.col_schema, None);
        assert_eq!(block.cluster_stats, None);
        assert_eq!(block.location, ("old/1.parquet".to_string(), 0));
        assert_eq!(block.compression(), Compression::Lz4);
    }
}

#[test]
fn block_clone_is_deep() {
    let mut block = nested_block();
    block.cluster_stats = Some(ClusterStatistics { cluster_key_id: 3 });
    let copy = block.clone();
    assert_eq!(copy.col_schema, block.col_schema);
    assert_eq!(copy.col_metas, block.col_metas);
    assert_eq!(copy.cluster_stats, Some(ClusterStatistics { cluster_key_id: 3 }));
    assert_eq!(copy.location, block.location);
}

#[test]
fn create_keeps_what_it_is_given() {
    let mut columns_meta = HashMap::new();
    columns_meta.insert(2usize, ColumnMeta::create(10, 20, 30));
    let mut proj_map = HashMap::new();
    proj_map.insert(0usize, vec![2usize]);
    let part = FusePartInfo::create(
        "p".to_string(),
        1,
        30,
        columns_meta.clone(),
        proj_map.clone(),
        Compression::Lz4Raw,
    );
    let part = fuse(&part);
    assert_eq!(part.location, "p");
    assert_eq!(part.format_version, 1);
    assert_eq!(part.nums_rows, 30);
    assert_eq!(part.columns_meta, columns_meta);
    assert_eq!(part.proj_map, proj_map);
    assert_eq!(part.compression, Compression::Lz4Raw);
}

#[test]
fn foreign_part_is_refused() {
    let part = Arc::new(PartInfo::Foreign { engine: "memory".to_string() });
    let err = FusePartInfo::from_part(&part).unwrap_err();
    assert_eq!(err, ErrorCode::ForeignPart);
    assert_eq!(err.kind(), ErrorKind::InternalConsistency);
    assert!(!err.is_retryable());
}

#[test]
fn flat_column_maps_to_itself() {
    let block = BlockMeta::new(
        100,
        0,
        0,
        HashMap::new(),
        metas(&[(0, 10, 50, 100), (1, 60, 70, 100)]),
        None,
        None,
        ("b".to_string(), 1),
    );
    assert_eq!(expand_column(&block, 1), Some(vec![1]));
    let part = FusePartInfo::projection_part(&block, &vec![1]).unwrap();
    let part = fuse(&part);
    assert_eq!(part.proj_map.len(), 1);
    assert_eq!(part.proj_map[&1], vec![1]);
    assert_eq!(part.columns_meta.len(), 1);
    assert_eq!(part.columns_meta[&1], ColumnMeta::create(60, 70, 100));
    assert_eq!(part.nums_rows, 100);
    assert_eq!(part.location, "b");
    assert_eq!(part.format_version, 1);
}

#[test]
fn nested_column_expands_to_its_leaves_in_declared_order() {
    let block = nested_block();
    assert_eq!(expand_column(&block, 0), Some(vec![0]));
    assert_eq!(expand_column(&block, 1), Some(vec![1, 2]));
    assert_eq!(expand_column(&block, 2), Some(vec![3]));
    assert_eq!(expand_column(&block, 3), None);
    let part = FusePartInfo::projection_part(&block, &vec![2, 1]).unwrap();
    let part = fuse(&part);
    assert_eq!(part.proj_map.len(), 2);
    assert_eq!(part.proj_map[&1], vec![1, 2]);
    assert_eq!(part.proj_map[&2], vec![3]);
    let mut leaves: Vec<usize> = part.columns_meta.keys().copied().collect();
    leaves.sort();
    assert_eq!(leaves, vec![1, 2, 3]);
    assert_eq!(part.columns_meta[&2], ColumnMeta::create(304, 300, 100));
    assert_eq!(part.compression, Compression::Lz4Raw);
}

#[test]
fn projection_beyond_the_schema_is_an_internal_error() {
    let err = FusePartInfo::projection_part(&nested_block(), &vec![0, 5, 7]).unwrap_err();
    assert_eq!(err, ErrorCode::ProjectionUnmapped { column: 5 });
    assert_eq!(err.kind(), ErrorKind::InternalConsistency);
}

#[test]
fn projected_leaf_without_meta_is_an_internal_error() {
    let mut block = nested_block();
    block.col_metas.remove(&2);
    let err = FusePartInfo::projection_part(&block, &vec![0, 1, 2]).unwrap_err();
    assert_eq!(err, ErrorCode::LeafMetaMissing { leaf: 2 });
    assert_eq!(err.kind(), ErrorKind::InternalConsistency);
    let flat = BlockMeta::new(1, 0, 0, HashMap::new(), HashMap::new(), None, None, ("b".to_string(), 1));
    assert_eq!(
        FusePartInfo::projection_part(&flat, &vec![4]).unwrap_err(),
        ErrorCode::LeafMetaMissing { leaf: 4 }
    );
}

#[test]
fn parts_are_equal_when_their_fields_are() {
    let block = nested_block();
    let a = FusePartInfo::projection_part(&block, &vec![1, 2]).unwrap();
    let b = FusePartInfo::projection_part(&block, &vec![2, 1, 1]).unwrap();
    let c = FusePartInfo::projection_part(&block, &vec![1]).unwrap();
    assert!(a.equals(&b));
    assert!(b.equals(&a));
    assert!(!a.equals(&c));
    assert!(!c.equals(&a));
    let mut other = nested_block();
    other.col_metas.insert(3, ColumnMeta::create(604, 51, 100));
    let d = FusePartInfo::projection_part(&other, &vec![1, 2]).unwrap();
    assert!(!a.equals(&d));
    let foreign = PartInfo::Foreign { engine: "memory".to_string() };
    assert!(!a.equals(&foreign));
    assert!(!foreign.equals(&a));
    assert!(foreign.equals(&PartInfo::Foreign { engine: "memory".to_string() }));
    assert!(!foreign.equals(&PartInfo::Foreign { engine: "system".to_string() }));
}

#[test]
fn paths_lead_to_the_nodes_without_children() {
    assert_eq!(
        nested_schema().transverse_path(),
        vec!["schema:id", "schema:point:x", "schema:point:y", "schema:tail"]
    );
    assert_eq!(node("only", Some(0), None).transverse_path(), vec!["only"]);
    assert_eq!(node("bare", None, Some(vec![])).transverse_path(), Vec::<String>::new());
    let deep = node("a", None, Some(vec![node("b", None, Some(vec![node("c", None, None)]))]));
    assert_eq!(deep.transverse_path(), vec!["a:b:c"]);
}
