//! Which byte ranges a read fetches.

use crate::error::ErrorCode;
use crate::meta::ColumnId;
use crate::meta::ColumnMeta;
use crate::part::PartView;
use vstd::prelude::*;

verus! {

/// One byte-range read: the chunk of leaf `leaf`, `length` bytes from
/// `offset` on.
#[derive(Clone, Copy, Debug, PartialEq, Eq, Structural)]
pub struct RangeRead {
    pub leaf: usize,
    pub offset: u64,
    pub length: u64,
}

impl RangeRead {
    /// The offset just behind the range, where it can be represented.
    pub fn end(&self) -> (end: Option<u64>)
        ensures
            match end {
                Some(e) => e == self.offset + self.length,
                None => self.offset + self.length > u64::MAX,
            },
    {
        self.offset.checked_add(self.length)
    }
}

/// The read that fetches the chunk of `leaf`.
pub open spec fn read_of(metas: Map<usize, ColumnMeta>, leaf: usize) -> RangeRead {
    RangeRead { leaf, offset: metas[leaf].offset, length: metas[leaf].length }
}

/// The leaves that `projection[..upto]` expands to under `proj_map`,
/// column after column, each column's leaves in their recorded order.
pub open spec fn planned_leaves(
    proj_map: Map<usize, Seq<usize>>,
    projection: Seq<usize>,
    upto: int,
) -> Seq<usize>
    decreases upto,
{
    if upto <= 0 {
        Seq::empty()
    } else {
        planned_leaves(proj_map, projection, upto - 1) + proj_map[projection[upto - 1]]
    }
}

/// The first of `leaves[..upto]` without an entry in `metas`.
pub open spec fn first_unknown(metas: Map<usize, ColumnMeta>, leaves: Seq<usize>, upto: int) -> Option<
    usize,
>
    decreases upto,
{
    if upto <= 0 {
        None
    } else {
        match first_unknown(metas, leaves, upto - 1) {
            Some(leaf) => Some(leaf),
            None => if metas.contains_key(leaves[upto - 1]) {
                None
            } else {
                Some(leaves[upto - 1])
            },
        }
    }
}

/// Why the reads of `column` cannot be planned from `part`.
pub open spec fn column_plan_fault(part: PartView, column: usize) -> Option<ErrorCode> {
    if !part.proj_map.contains_key(column) {
        Some(ErrorCode::ProjectionUnmapped { column })
    } else {
        let leaves = part.proj_map[column];
        match first_unknown(part.columns_meta, leaves, leaves.len() as int) {
            Some(leaf) => Some(ErrorCode::LeafMetaMissing { leaf }),
            None => None,
        }
    }
}

/// The fault of the first of `projection[..upto]` that has one.
pub open spec fn plan_fault(part: PartView, projection: Seq<usize>, upto: int) -> Option<ErrorCode>
    decreases upto,
{
    if upto <= 0 {
        None
    } else {
        match plan_fault(part, projection, upto - 1) {
            Some(e) => Some(e),
            None => column_plan_fault(part, projection[upto - 1]),
        }
    }
}

/// The reads that fetch `projection` from `part`, in projection order.
pub open spec fn planned_reads(part: PartView, projection: Seq<usize>) -> Seq<RangeRead> {
    planned_leaves(part.proj_map, projection, projection.len() as int).map_values(
        |leaf: usize| read_of(part.columns_meta, leaf),
    )
}

pub(crate) proof fn lemma_first_unknown_stays(
    metas: Map<usize, ColumnMeta>,
    leaves: Seq<usize>,
    at: int,
    upto: int,
)
    requires
        0 <= at <= upto,
        first_unknown(metas, leaves, at) is Some,
    ensures
        first_unknown(metas, leaves, upto) == first_unknown(metas, leaves, at),
    decreases upto - at,
{
    if at < upto {
        lemma_first_unknown_stays(metas, leaves, at, upto - 1);
    }
}

pub(crate) proof fn lemma_plan_fault_stays(part: PartView, projection: Seq<usize>, at: int, upto: int)
    requires
        0 <= at <= upto,
        plan_fault(part, projection, at) is Some,
    ensures
        plan_fault(part, projection, upto) == plan_fault(part, projection, at),
    decreases upto - at,
{
    if at < upto {
        lemma_plan_fault_stays(part, projection, at, upto - 1);
    }
}

/// The first of `projection[..upto]` without an entry in `metas`.
pub open spec fn first_unrecorded(
    metas: Map<ColumnId, ColumnMeta>,
    projection: Seq<usize>,
    upto: int,
) -> Option<usize>
    decreases upto,
{
    if upto <= 0 {
        None
    } else {
        match first_unrecorded(metas, projection, upto - 1) {
            Some(leaf) => Some(leaf),
            None => if crate::part::has_meta(metas, projection[upto - 1]) {
                None
            } else {
                Some(projection[upto - 1])
            },
        }
    }
}

/// The read that fetches the chunk that a block records under `leaf`.
pub open spec fn block_read_of(metas: Map<ColumnId, ColumnMeta>, leaf: usize) -> RangeRead {
    RangeRead {
        leaf,
        offset: metas[leaf as ColumnId].offset,
        length: metas[leaf as ColumnId].length,
    }
}

pub(crate) proof fn lemma_first_unrecorded_stays(
    metas: Map<ColumnId, ColumnMeta>,
    projection: Seq<usize>,
    at: int,
    upto: int,
)
    requires
        0 <= at <= upto,
        first_unrecorded(metas, projection, at) is Some,
    ensures
        first_unrecorded(metas, projection, upto) == first_unrecorded(metas, projection, at),
    decreases upto - at,
{
    if at < upto {
        lemma_first_unrecorded_stays(metas, projection, at, upto - 1);
    }
}

pub(crate) proof fn lemma_planned_leaves_cover(
    proj_map: Map<usize, Seq<usize>>,
    projection: Seq<usize>,
    upto: int,
    leaf: usize,
)
    requires
        0 <= upto <= projection.len(),
    ensures
        planned_leaves(proj_map, projection, upto).contains(leaf) <==> exists|k: int|
            0 <= k < upto && (#[trigger] proj_map[projection[k]]).contains(leaf),
    decreases upto,
{
    if upto > 0 {
        lemma_planned_leaves_cover(proj_map, projection, upto - 1, leaf);
        let before = planned_leaves(proj_map, projection, upto - 1);
        let last = proj_map[projection[upto - 1]];
        let all = planned_leaves(proj_map, projection, upto);
        if before.contains(leaf) {
            let at = choose|at: int| 0 <= at < before.len() && before[at] == leaf;
            assert(all[at] == leaf);
        }
        if last.contains(leaf) {
            let at = choose|at: int| 0 <= at < last.len() && last[at] == leaf;
            assert(all[before.len() + at] == leaf);
        }
    }
}

/// The reads planned for a projection fetch the leaves that the
/// projected columns expand to, and no others: a leaf is read if and
/// only if the expansion of some projected column holds it.
pub proof fn lemma_plan_reads_exactly_projected_leaves(
    part: PartView,
    projection: Seq<usize>,
    leaf: usize,
)
    requires
        plan_fault(part, projection, projection.len() as int) is None,
    ensures
        planned_reads(part, projection).len() == planned_leaves(
            part.proj_map,
            projection,
            projection.len() as int,
        ).len(),
        (exists|i: int|
            0 <= i < planned_reads(part, projection).len() && (#[trigger] planned_reads(
                part,
                projection,
            )[i]).leaf == leaf) <==> (exists|column: usize|
            projection.contains(column) && (#[trigger] part.proj_map[column]).contains(leaf)),
{
    let leaves = planned_leaves(part.proj_map, projection, projection.len() as int);
    let reads = planned_reads(part, projection);
    lemma_planned_leaves_cover(part.proj_map, projection, projection.len() as int, leaf);
    if exists|column: usize|
        projection.contains(column) && (#[trigger] part.proj_map[column]).contains(leaf) {
        let i = choose|i: int| 0 <= i < leaves.len() && leaves[i] == leaf;
        assert(reads[i].leaf == leaf);
    }
}

pub(crate) proof fn lemma_planned_leaves_grow(
    proj_map: Map<usize, Seq<usize>>,
    projection: Seq<usize>,
    at: int,
    upto: int,
)
    requires
        0 <= at <= upto,
    ensures
        planned_leaves(proj_map, projection, at).len() <= planned_leaves(
            proj_map,
            projection,
            upto,
        ).len(),
        planned_leaves(proj_map, projection, upto).subrange(
            0,
            planned_leaves(proj_map, projection, at).len() as int,
        ) == planned_leaves(proj_map, projection, at),
    decreases upto - at,
{
    if at < upto {
        lemma_planned_leaves_grow(proj_map, projection, at, upto - 1);
    } else {
        assert(planned_leaves(proj_map, projection, upto).subrange(
            0,
            planned_leaves(proj_map, projection, at).len() as int,
        ) =~= planned_leaves(proj_map, projection, at));
    }
}

pub(crate) proof fn lemma_known_leaves_have_metas(
    metas: Map<usize, ColumnMeta>,
    leaves: Seq<usize>,
    upto: int,
    at: int,
)
    requires
        0 <= at < upto,
        first_unknown(metas, leaves, upto) is None,
    ensures
        metas.contains_key(leaves[at]),
    decreases upto,
{
    if at < upto - 1 {
        lemma_known_leaves_have_metas(metas, leaves, upto - 1, at);
    }
}

pub(crate) proof fn lemma_planned_columns_have_no_fault(
    part: PartView,
    projection: Seq<usize>,
    upto: int,
    at: int,
)
    requires
        0 <= at < upto,
        plan_fault(part, projection, upto) is None,
    ensures
        column_plan_fault(part, projection[at]) is None,
    decreases upto,
{
    if at < upto - 1 {
        lemma_planned_columns_have_no_fault(part, projection, upto - 1, at);
    }
}

} // verus!
