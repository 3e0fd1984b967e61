//! What a read of one part fetches, and how the fetched bytes are put
//! back in projection order.

pub mod plan;
pub mod regroup;
pub mod state;

pub use plan::RangeRead;
pub use regroup::ColumnChunks;
pub use regroup::LeafChunk;
pub use state::BlockFormat;
pub use state::ReadEvent;
pub use state::ReadState;

use crate::error::ErrorCode;
use crate::fetch::FetchQueue;
use crate::fetch::FetchView;
use crate::meta::BlockMeta;
use crate::part::FusePartInfo;
use crate::reader::plan::block_read_of;
use crate::reader::plan::first_unknown;
use crate::reader::plan::first_unrecorded;
use crate::reader::plan::lemma_first_unknown_stays;
use crate::reader::plan::lemma_first_unrecorded_stays;
use crate::reader::plan::lemma_plan_fault_stays;
use crate::reader::plan::plan_fault;
use crate::reader::plan::planned_leaves;
use crate::reader::plan::planned_reads;
use crate::reader::plan::read_of;
use crate::reader::regroup::chunk_index;
use crate::reader::regroup::column_chunk_views;
use crate::reader::regroup::column_chunks_of;
use crate::reader::regroup::fetched_views;
use crate::reader::regroup::group_fault;
use crate::reader::regroup::grouped;
use crate::reader::regroup::leaf_chunk_of;
use crate::reader::regroup::leaf_chunk_views;
use crate::reader::regroup::leaves_group_fault;
use crate::reader::regroup::lemma_group_fault_stays;
use crate::reader::regroup::lemma_leaves_group_fault_stays;
use std::collections::HashMap;
use vstd::prelude::*;

verus! {

/// The number of range reads that a reader keeps in flight unless told
/// otherwise.
pub const DEFAULT_FAN_OUT: usize = 10;

/// Mathematical model of a reader.
pub struct ReaderView {
    pub projection: Seq<usize>,
    pub fan_out: usize,
}

/// Reads the projected columns of parts.
#[derive(Clone, Debug)]
pub struct BlockReader {
    projection: Vec<usize>,
    fan_out: usize,
}

impl View for BlockReader {
    type V = ReaderView;

    closed spec fn view(&self) -> ReaderView {
        ReaderView { projection: self.projection@, fan_out: self.fan_out }
    }
}

impl BlockReader {
    /// A reader of the logical columns `projection`, in that order, that
    /// keeps at most `DEFAULT_FAN_OUT` range reads in flight.
    pub fn create(projection: Vec<usize>) -> (reader: BlockReader)
        ensures
            reader@ == (ReaderView { projection: projection@, fan_out: DEFAULT_FAN_OUT }),
    {
        BlockReader { projection, fan_out: DEFAULT_FAN_OUT }
    }

    /// A reader that keeps at most `fan_out` range reads in flight, and at
    /// least one.
    pub fn with_fan_out(projection: Vec<usize>, fan_out: usize) -> (reader: BlockReader)
        ensures
            reader@ == (ReaderView {
                projection: projection@,
                fan_out: if fan_out == 0 {
                    1
                } else {
                    fan_out
                },
            }),
    {
        BlockReader { projection, fan_out: if fan_out == 0 { 1 } else { fan_out } }
    }

    /// The logical columns that this reader reads, in their order.
    pub fn projection(&self) -> (projection: &Vec<usize>)
        ensures
            projection@ == self@.projection,
    {
        &self.projection
    }

    /// The most range reads that this reader keeps in flight.
    pub fn fan_out(&self) -> (fan_out: usize)
        ensures
            fan_out == self@.fan_out,
    {
        self.fan_out
    }

    /// The range reads that fetch the projected columns of `part`: one per
    /// leaf that a projected column expands to, in projection order.
    pub fn read_plan(&self, part: &FusePartInfo) -> (res: Result<Vec<RangeRead>, ErrorCode>)
        ensures
            match res {
                Ok(reads) => {
                    &&& plan_fault(part@, self@.projection, self@.projection.len() as int) is None
                    &&& reads@ == planned_reads(part@, self@.projection)
                },
                Err(e) => plan_fault(part@, self@.projection, self@.projection.len() as int)
                    == Some(e),
            },
    {
        let ghost projection = self.projection@;
        let mut reads: Vec<RangeRead> = Vec::new();
        let mut i: usize = 0;
        while i < self.projection.len()
            invariant
                i <= self.projection.len(),
                projection == self.projection@,
                plan_fault(part@, projection, i as int) is None,
                reads@ == planned_leaves(part@.proj_map, projection, i as int).map_values(
                    |leaf: usize| read_of(part@.columns_meta, leaf),
                ),
            decreases self.projection.len() - i,
        {
            let column = self.projection[i];
            let leaves = match part.proj_map.get(&column) {
                Some(leaves) => leaves,
                None => {
                    proof {
                        lemma_plan_fault_stays(part@, projection, i + 1, projection.len() as int);
                    }
                    return Err(ErrorCode::ProjectionUnmapped { column });
                },
            };
            let ghost before = reads@;
            let mut j: usize = 0;
            while j < leaves.len()
                invariant
                    j <= leaves.len(),
                    i < projection.len(),
                    projection == self.projection@,
                    column == projection[i as int],
                    part@.proj_map.contains_key(column),
                    part@.proj_map[column] == leaves@,
                    plan_fault(part@, projection, i as int) is None,
                    first_unknown(part@.columns_meta, leaves@, j as int) is None,
                    reads@ == before + leaves@.subrange(0, j as int).map_values(
                        |leaf: usize| read_of(part@.columns_meta, leaf),
                    ),
                decreases leaves.len() - j,
            {
                let leaf = leaves[j];
                match part.columns_meta.get(&leaf) {
                    Some(meta) => {
                        reads.push(RangeRead { leaf, offset: meta.offset, length: meta.length });
                    },
                    None => {
                        proof {
                            lemma_first_unknown_stays(
                                part@.columns_meta,
                                leaves@,
                                j + 1,
                                leaves@.len() as int,
                            );
                            lemma_plan_fault_stays(
                                part@,
                                projection,
                                i + 1,
                                projection.len() as int,
                            );
                        }
                        return Err(ErrorCode::LeafMetaMissing { leaf });
                    },
                }
                j = j + 1;
            }
            i = i + 1;
        }
        Ok(reads)
    }
}

impl BlockReader {
    /// The range reads that fetch the projected columns straight from a
    /// block's chunk table, each projected index taken as a leaf.
    pub fn block_read_plan(&self, block: &BlockMeta) -> (res: Result<Vec<RangeRead>, ErrorCode>)
        ensures
            match res {
                Ok(reads) => {
                    &&& first_unrecorded(
                        block.col_metas@,
                        self@.projection,
                        self@.projection.len() as int,
                    ) is None
                    &&& reads@ == self@.projection.map_values(
                        |leaf: usize| block_read_of(block.col_metas@, leaf),
                    )
                },
                Err(e) => {
                    &&& first_unrecorded(
                        block.col_metas@,
                        self@.projection,
                        self@.projection.len() as int,
                    ) matches Some(leaf)
                    &&& e == ErrorCode::LeafMetaMissing { leaf }
                },
            },
    {
        let mut reads: Vec<RangeRead> = Vec::new();
        let mut i: usize = 0;
        while i < self.projection.len()
            invariant
                i <= self.projection.len(),
                first_unrecorded(block.col_metas@, self.projection@, i as int) is None,
                reads@ == self.projection@.subrange(0, i as int).map_values(
                    |leaf: usize| block_read_of(block.col_metas@, leaf),
                ),
            decreases self.projection.len() - i,
        {
            let leaf = self.projection[i];
            let found = if leaf > u32::MAX as usize {
                None
            } else {
                block.col_metas.get(&(leaf as u32))
            };
            match found {
                Some(meta) => {
                    reads.push(RangeRead { leaf, offset: meta.offset, length: meta.length });
                },
                None => {
                    proof {
                        lemma_first_unrecorded_stays(
                            block.col_metas@,
                            self.projection@,
                            i + 1,
                            self.projection@.len() as int,
                        );
                    }
                    return Err(ErrorCode::LeafMetaMissing { leaf });
                },
            }
            i = i + 1;
        }
        Ok(reads)
    }

    /// Plans the reads of `part` and queues them under this reader's
    /// fan-out.
    pub fn start_fetch(&self, part: &FusePartInfo) -> (res: Result<FetchQueue, ErrorCode>)
        ensures
            match res {
                Ok(queue) => {
                    &&& plan_fault(part@, self@.projection, self@.projection.len() as int) is None
                    &&& queue.wf()
                    &&& queue@ == FetchView::start(
                        planned_reads(part@, self@.projection),
                        self@.fan_out as nat,
                    )
                },
                Err(e) => plan_fault(part@, self@.projection, self@.projection.len() as int)
                    == Some(e),
            },
    {
        match self.read_plan(part) {
            Ok(reads) => Ok(FetchQueue::new(reads, self.fan_out)),
            Err(e) => Err(e),
        }
    }
}

impl BlockReader {
    /// Puts fetched chunks back in projection order: for each projected
    /// column the chunks of the leaves it expands to, each found by its
    /// leaf index, whatever the order in which the chunks came.
    ///
    /// Each chunk serves one leaf of the plan once. Where `chunks` holds
    /// several chunks for one leaf, the last one counts.
    pub fn group_chunks(&self, part: &FusePartInfo, chunks: Vec<(usize, Vec<u8>)>) -> (res: Result<
        Vec<ColumnChunks>,
        ErrorCode,
    >)
        ensures
            ({
                let index = chunk_index(fetched_views(chunks@), chunks@.len() as int);
                let projection = self@.projection;
                match res {
                    Ok(groups) => {
                        &&& group_fault(part@, index, projection, projection.len() as int) is None
                        &&& column_chunk_views(groups@) == grouped(part@, index, projection)
                    },
                    Err(e) => group_fault(part@, index, projection, projection.len() as int)
                        == Some(e),
                }
            }),
    {
        let ghost fetched = fetched_views(chunks@);
        let ghost index = chunk_index(fetched, fetched.len() as int);
        let ghost projection = self.projection@;
        let mut chunk_map: HashMap<usize, Vec<u8>> = HashMap::new();
        for chunk in it: chunks
            invariant
                fetched == fetched_views(it.seq()),
                forall|leaf: usize|
                    #[trigger] chunk_map@.contains_key(leaf) <==> chunk_index(
                        fetched,
                        it.index() as int,
                    ).contains_key(leaf),
                forall|leaf: usize|
                    chunk_map@.contains_key(leaf) ==> (#[trigger] chunk_map@[leaf])@
                        == chunk_index(fetched, it.index() as int)[leaf],
        {
            let (leaf, data) = chunk;
            chunk_map.insert(leaf, data);
        }
        let ghost taken: Seq<usize> = Seq::empty();
        let mut groups: Vec<ColumnChunks> = Vec::new();
        let mut i: usize = 0;
        while i < self.projection.len()
            invariant
                i <= self.projection.len(),
                projection == self.projection@,
                index == chunk_index(fetched_views(chunks@), chunks@.len() as int),
                group_fault(part@, index, projection, i as int) is None,
                taken == planned_leaves(part@.proj_map, projection, i as int),
                forall|leaf: usize|
                    #[trigger] chunk_map@.contains_key(leaf) <==> (index.contains_key(leaf)
                        && !taken.contains(leaf)),
                forall|leaf: usize|
                    chunk_map@.contains_key(leaf) ==> (#[trigger] chunk_map@[leaf])@ == index[leaf],
                groups@.len() == i,
                forall|k: int|
                    0 <= k < i ==> (#[trigger] groups@[k])@ == column_chunks_of(
                        part@,
                        index,
                        projection[k],
                    ),
            decreases self.projection.len() - i,
        {
            let column = self.projection[i];
            let indices = match part.proj_map.get(&column) {
                Some(indices) => indices,
                None => {
                    proof {
                        lemma_group_fault_stays(
                            part@,
                            index,
                            projection,
                            i + 1,
                            projection.len() as int,
                        );
                    }
                    return Err(ErrorCode::ProjectionUnmapped { column });
                },
            };
            let ghost before = taken;
            let mut leaves: Vec<LeafChunk> = Vec::new();
            let mut j: usize = 0;
            while j < indices.len()
                invariant
                    j <= indices.len(),
                    i < projection.len(),
                    projection == self.projection@,
                    index == chunk_index(fetched_views(chunks@), chunks@.len() as int),
                    column == projection[i as int],
                    part@.proj_map.contains_key(column),
                    part@.proj_map[column] == indices@,
                    group_fault(part@, index, projection, i as int) is None,
                    before == planned_leaves(part@.proj_map, projection, i as int),
                    taken == before + indices@.subrange(0, j as int),
                    leaves_group_fault(part@, index, before, indices@, j as int) is None,
                    forall|leaf: usize|
                        #[trigger] chunk_map@.contains_key(leaf) <==> (index.contains_key(leaf)
                            && !taken.contains(leaf)),
                    forall|leaf: usize|
                        chunk_map@.contains_key(leaf) ==> (#[trigger] chunk_map@[leaf])@
                            == index[leaf],
                    leaves@.len() == j,
                    forall|k: int|
                        0 <= k < j ==> (#[trigger] leaves@[k])@ == leaf_chunk_of(
                            part@,
                            index,
                            indices@[k],
                        ),
                decreases indices.len() - j,
            {
                let leaf = indices[j];
                let meta = match part.columns_meta.get(&leaf) {
                    Some(meta) => *meta,
                    None => {
                        proof {
                            lemma_leaves_group_fault_stays(
                                part@,
                                index,
                                before,
                                indices@,
                                j + 1,
                                indices@.len() as int,
                            );
                            lemma_group_fault_stays(
                                part@,
                                index,
                                projection,
                                i + 1,
                                projection.len() as int,
                            );
                        }
                        return Err(ErrorCode::LeafMetaMissing { leaf });
                    },
                };
                let data = match chunk_map.remove(&leaf) {
                    Some(data) => data,
                    None => {
                        proof {
                            lemma_leaves_group_fault_stays(
                                part@,
                                index,
                                before,
                                indices@,
                                j + 1,
                                indices@.len() as int,
                            );
                            lemma_group_fault_stays(
                                part@,
                                index,
                                projection,
                                i + 1,
                                projection.len() as int,
                            );
                        }
                        return Err(ErrorCode::LeafChunkMissing { leaf });
                    },
                };
                leaves.push(LeafChunk { leaf, meta, data });
                proof {
                    let earlier = taken;
                    taken = taken.push(leaf);
                    assert forall|other: usize| #[trigger]
                        chunk_map@.contains_key(other) <==> (index.contains_key(other)
                            && !taken.contains(other)) by {
                        if earlier.contains(other) {
                            let k = choose|k: int| 0 <= k < earlier.len() && earlier[k] == other;
                            assert(taken[k] == other);
                        }
                        assert(taken[taken.len() - 1] == leaf);
                    }
                }
                j = j + 1;
            }
            proof {
                assert(leaf_chunk_views(leaves@) =~= column_chunks_of(part@, index, column).leaves);
            }
            groups.push(ColumnChunks { column, leaves });
            i = i + 1;
        }
        Ok(groups)
    }
}

} // verus!
