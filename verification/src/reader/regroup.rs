//! How fetched chunks are put back in projection order.

use crate::error::ErrorCode;
use crate::meta::ColumnMeta;
use crate::part::PartView;
use crate::reader::plan::first_unknown;
use crate::reader::plan::lemma_known_leaves_have_metas;
use crate::reader::plan::lemma_planned_columns_have_no_fault;
use crate::reader::plan::lemma_planned_leaves_grow;
use crate::reader::plan::plan_fault;
use crate::reader::plan::planned_leaves;
use vstd::prelude::*;

verus! {

/// Mathematical model of the fetched chunk of one leaf.
pub struct LeafChunkView {
    pub leaf: usize,
    pub meta: ColumnMeta,
    pub data: Seq<u8>,
}

/// The fetched chunk of one leaf, with what is needed to decode it.
#[derive(Debug, PartialEq, Eq)]
pub struct LeafChunk {
    pub leaf: usize,
    pub meta: ColumnMeta,
    pub data: Vec<u8>,
}

impl View for LeafChunk {
    type V = LeafChunkView;

    open spec fn view(&self) -> LeafChunkView {
        LeafChunkView { leaf: self.leaf, meta: self.meta, data: self.data@ }
    }
}

/// Mathematical model of the fetched chunks of one logical column.
pub struct ColumnChunksView {
    pub column: usize,
    pub leaves: Seq<LeafChunkView>,
}

/// The fetched chunks of one projected logical column: one per leaf that
/// the column expands to, in the order of the expansion.
#[derive(Debug, PartialEq, Eq)]
pub struct ColumnChunks {
    pub column: usize,
    pub leaves: Vec<LeafChunk>,
}

/// Leaf chunks, each by its model.
pub open spec fn leaf_chunk_views(leaves: Seq<LeafChunk>) -> Seq<LeafChunkView> {
    leaves.map_values(|chunk: LeafChunk| chunk@)
}

impl View for ColumnChunks {
    type V = ColumnChunksView;

    open spec fn view(&self) -> ColumnChunksView {
        ColumnChunksView { column: self.column, leaves: leaf_chunk_views(self.leaves@) }
    }
}

/// Column groups, each by its model.
pub open spec fn column_chunk_views(groups: Seq<ColumnChunks>) -> Seq<ColumnChunksView> {
    groups.map_values(|group: ColumnChunks| group@)
}

/// Fetched chunks, each with its bytes as a sequence.
pub open spec fn fetched_views(chunks: Seq<(usize, Vec<u8>)>) -> Seq<(usize, Seq<u8>)> {
    chunks.map_values(|chunk: (usize, Vec<u8>)| (chunk.0, chunk.1@))
}

/// The bytes kept for each leaf among `chunks[..upto]`: where a leaf
/// occurs more than once, those that came last.
pub open spec fn chunk_index(chunks: Seq<(usize, Seq<u8>)>, upto: int) -> Map<usize, Seq<u8>>
    decreases upto,
{
    if upto <= 0 {
        Map::empty()
    } else {
        chunk_index(chunks, upto - 1).insert(chunks[upto - 1].0, chunks[upto - 1].1)
    }
}

/// Why `leaf` gets no chunk once the leaves in `taken` got theirs.
pub open spec fn leaf_group_fault(
    part: PartView,
    index: Map<usize, Seq<u8>>,
    taken: Seq<usize>,
    leaf: usize,
) -> Option<ErrorCode> {
    if !part.columns_meta.contains_key(leaf) {
        Some(ErrorCode::LeafMetaMissing { leaf })
    } else if !index.contains_key(leaf) || taken.contains(leaf) {
        Some(ErrorCode::LeafChunkMissing { leaf })
    } else {
        None
    }
}

/// The fault of the first of `leaves[..upto]` that has one, where each
/// leaf takes its chunk out of the index.
pub open spec fn leaves_group_fault(
    part: PartView,
    index: Map<usize, Seq<u8>>,
    taken: Seq<usize>,
    leaves: Seq<usize>,
    upto: int,
) -> Option<ErrorCode>
    decreases upto,
{
    if upto <= 0 {
        None
    } else {
        match leaves_group_fault(part, index, taken, leaves, upto - 1) {
            Some(e) => Some(e),
            None => leaf_group_fault(
                part,
                index,
                taken + leaves.subrange(0, upto - 1),
                leaves[upto - 1],
            ),
        }
    }
}

/// Why the chunks of `column` cannot be put together.
pub open spec fn column_group_fault(
    part: PartView,
    index: Map<usize, Seq<u8>>,
    taken: Seq<usize>,
    column: usize,
) -> Option<ErrorCode> {
    if !part.proj_map.contains_key(column) {
        Some(ErrorCode::ProjectionUnmapped { column })
    } else {
        let leaves = part.proj_map[column];
        leaves_group_fault(part, index, taken, leaves, leaves.len() as int)
    }
}

/// The fault of the first of `projection[..upto]` that has one.
pub open spec fn group_fault(
    part: PartView,
    index: Map<usize, Seq<u8>>,
    projection: Seq<usize>,
    upto: int,
) -> Option<ErrorCode>
    decreases upto,
{
    if upto <= 0 {
        None
    } else {
        match group_fault(part, index, projection, upto - 1) {
            Some(e) => Some(e),
            None => column_group_fault(
                part,
                index,
                planned_leaves(part.proj_map, projection, upto - 1),
                projection[upto - 1],
            ),
        }
    }
}

/// The chunk of `leaf`, as it is handed to the decoder.
pub open spec fn leaf_chunk_of(part: PartView, index: Map<usize, Seq<u8>>, leaf: usize)
    -> LeafChunkView {
    LeafChunkView { leaf, meta: part.columns_meta[leaf], data: index[leaf] }
}

/// The chunks of `column`, one per leaf of its expansion, in order.
pub open spec fn column_chunks_of(part: PartView, index: Map<usize, Seq<u8>>, column: usize)
    -> ColumnChunksView {
    ColumnChunksView {
        column,
        leaves: part.proj_map[column].map_values(|leaf: usize| leaf_chunk_of(part, index, leaf)),
    }
}

/// The fetched chunks regrouped by projected column, in projection order.
pub open spec fn grouped(part: PartView, index: Map<usize, Seq<u8>>, projection: Seq<usize>)
    -> Seq<ColumnChunksView> {
    projection.map_values(|column: usize| column_chunks_of(part, index, column))
}

pub(crate) proof fn lemma_leaves_group_fault_stays(
    part: PartView,
    index: Map<usize, Seq<u8>>,
    taken: Seq<usize>,
    leaves: Seq<usize>,
    at: int,
    upto: int,
)
    requires
        0 <= at <= upto,
        leaves_group_fault(part, index, taken, leaves, at) is Some,
    ensures
        leaves_group_fault(part, index, taken, leaves, upto) == leaves_group_fault(
            part,
            index,
            taken,
            leaves,
            at,
        ),
    decreases upto - at,
{
    if at < upto {
        lemma_leaves_group_fault_stays(part, index, taken, leaves, at, upto - 1);
    }
}

pub(crate) proof fn lemma_group_fault_stays(
    part: PartView,
    index: Map<usize, Seq<u8>>,
    projection: Seq<usize>,
    at: int,
    upto: int,
)
    requires
        0 <= at <= upto,
        group_fault(part, index, projection, at) is Some,
    ensures
        group_fault(part, index, projection, upto) == group_fault(part, index, projection, at),
    decreases upto - at,
{
    if at < upto {
        lemma_group_fault_stays(part, index, projection, at, upto - 1);
    }
}

/// The chunks that a fetch of `leaves` hands over when read number `i`
/// came back with `data[i]`.
pub open spec fn fetched_chunks(leaves: Seq<usize>, data: Seq<Seq<u8>>) -> Seq<(usize, Seq<u8>)> {
    Seq::new(leaves.len(), |i: int| (leaves[i], data[i]))
}

pub(crate) proof fn lemma_chunk_index_holds_fetched(leaves: Seq<usize>, data: Seq<Seq<u8>>, upto: int)
    requires
        0 <= upto <= leaves.len() == data.len(),
        leaves.no_duplicates(),
    ensures
        forall|leaf: usize|
            #[trigger] chunk_index(fetched_chunks(leaves, data), upto).contains_key(leaf)
                <==> leaves.subrange(0, upto).contains(leaf),
        forall|i: int|
            0 <= i < upto ==> chunk_index(fetched_chunks(leaves, data), upto)[#[trigger] leaves[i]]
                == data[i],
    decreases upto,
{
    let chunks = fetched_chunks(leaves, data);
    if upto > 0 {
        lemma_chunk_index_holds_fetched(leaves, data, upto - 1);
        let shorter = leaves.subrange(0, upto - 1);
        let longer = leaves.subrange(0, upto);
        assert forall|leaf: usize| #[trigger]
            chunk_index(chunks, upto).contains_key(leaf) <==> longer.contains(leaf) by {
            assert(chunk_index(chunks, upto).contains_key(leaf) <==> (leaf == leaves[upto - 1]
                || chunk_index(chunks, upto - 1).contains_key(leaf)));
            assert(longer[upto - 1] == leaves[upto - 1]);
        }
    }
}

/// A fetch that came back whole regroups without a fault, and each leaf
/// is handed the bytes that its own read came back with.
///
/// This holds where the reads of the projection can be planned and no
/// leaf is planned twice: the chunks are those of the planned leaves, one
/// per leaf, as a fetch hands them over.
pub proof fn lemma_whole_fetch_regroups(part: PartView, projection: Seq<usize>, data: Seq<Seq<u8>>)
    requires
        plan_fault(part, projection, projection.len() as int) is None,
        planned_leaves(part.proj_map, projection, projection.len() as int).no_duplicates(),
        data.len() == planned_leaves(part.proj_map, projection, projection.len() as int).len(),
    ensures
        ({
            let leaves = planned_leaves(part.proj_map, projection, projection.len() as int);
            let index = chunk_index(fetched_chunks(leaves, data), data.len() as int);
            &&& group_fault(part, index, projection, projection.len() as int) is None
            &&& forall|i: int|
                0 <= i < leaves.len() ==> leaf_chunk_of(part, index, #[trigger] leaves[i]).data
                    == data[i]
        }),
{
    let leaves = planned_leaves(part.proj_map, projection, projection.len() as int);
    lemma_whole_fetch_regroups_upto(part, projection, data, projection.len() as int);
    lemma_chunk_index_holds_fetched(leaves, data, leaves.len() as int);
}

pub(crate) proof fn lemma_whole_fetch_regroups_upto(
    part: PartView,
    projection: Seq<usize>,
    data: Seq<Seq<u8>>,
    upto: int,
)
    requires
        0 <= upto <= projection.len(),
        plan_fault(part, projection, projection.len() as int) is None,
        planned_leaves(part.proj_map, projection, projection.len() as int).no_duplicates(),
        data.len() == planned_leaves(part.proj_map, projection, projection.len() as int).len(),
    ensures
        group_fault(
            part,
            chunk_index(
                fetched_chunks(
                    planned_leaves(part.proj_map, projection, projection.len() as int),
                    data,
                ),
                data.len() as int,
            ),
            projection,
            upto,
        ) is None,
    decreases upto,
{
    let all = planned_leaves(part.proj_map, projection, projection.len() as int);
    let index = chunk_index(fetched_chunks(all, data), data.len() as int);
    if upto > 0 {
        lemma_whole_fetch_regroups_upto(part, projection, data, upto - 1);
        lemma_planned_columns_have_no_fault(part, projection, projection.len() as int, upto - 1);
        let taken = planned_leaves(part.proj_map, projection, upto - 1);
        let column = projection[upto - 1];
        let leaves = part.proj_map[column];
        lemma_planned_leaves_grow(part.proj_map, projection, upto, projection.len() as int);
        lemma_chunk_index_holds_fetched(all, data, all.len() as int);
        assert(all.subrange(0, all.len() as int) =~= all);
        lemma_column_regroups(part, index, all, taken, leaves, leaves.len() as int);
    }
}

pub(crate) proof fn lemma_column_regroups(
    part: PartView,
    index: Map<usize, Seq<u8>>,
    all: Seq<usize>,
    taken: Seq<usize>,
    leaves: Seq<usize>,
    upto: int,
)
    requires
        0 <= upto <= leaves.len(),
        all.no_duplicates(),
        taken.len() + leaves.len() <= all.len(),
        all.subrange(0, (taken.len() + leaves.len()) as int) == taken + leaves,
        first_unknown(part.columns_meta, leaves, leaves.len() as int) is None,
        forall|leaf: usize| all.contains(leaf) ==> #[trigger] index.contains_key(leaf),
    ensures
        leaves_group_fault(part, index, taken, leaves, upto) is None,
    decreases upto,
{
    if upto > 0 {
        lemma_column_regroups(part, index, all, taken, leaves, upto - 1);
        lemma_known_leaves_have_metas(
            part.columns_meta,
            leaves,
            leaves.len() as int,
            upto - 1,
        );
        let leaf = leaves[upto - 1];
        let earlier = taken + leaves.subrange(0, upto - 1);
        let here = taken.len() + upto - 1;
        assert(all.subrange(0, (taken.len() + leaves.len()) as int)[here] == all[here]);
        if earlier.contains(leaf) {
            let k = choose|k: int| 0 <= k < earlier.len() && earlier[k] == leaf;
            assert(all.subrange(0, (taken.len() + leaves.len()) as int)[k] == all[k]);
        }
    }
}

} // verus!
