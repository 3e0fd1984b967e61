//! The unit of scan work: one block seen through one projection.

use crate::error::ErrorCode;
use crate::meta::BlockMeta;
use crate::meta::ColumnId;
use crate::meta::ColumnMeta;
use crate::meta::Compression;
use crate::meta::SchemaTree;
use std::collections::HashMap;
use std::sync::Arc;
use vstd::prelude::*;
use vstd::std_specs::iter::IteratorSpec;

verus! {

/// A map of leaf lists, each list as a sequence.
pub open spec fn leaf_lists(lists: Map<usize, Vec<usize>>) -> Map<usize, Seq<usize>> {
    lists.map_values(|leaves: Vec<usize>| leaves@)
}

/// Mathematical model of a part of this engine.
pub struct PartView {
    pub location: Seq<char>,
    pub format_version: u64,
    pub nums_rows: usize,
    pub columns_meta: Map<usize, ColumnMeta>,
    pub proj_map: Map<usize, Seq<usize>>,
    pub compression: Compression,
}

/// One scan unit of this engine. It is built once for a read and only
/// read after that.
#[derive(Debug)]
pub struct FusePartInfo {
    pub location: String,
    /// The layout version of the block that `location` points to.
    pub format_version: u64,
    pub nums_rows: usize,
    /// Chunk metadata by physical leaf index.
    pub columns_meta: HashMap<usize, ColumnMeta>,
    /// The physical leaves that each projected logical column expands to.
    pub proj_map: HashMap<usize, Vec<usize>>,
    pub compression: Compression,
}

impl View for FusePartInfo {
    type V = PartView;

    open spec fn view(&self) -> PartView {
        PartView {
            location: self.location@,
            format_version: self.format_version,
            nums_rows: self.nums_rows,
            columns_meta: self.columns_meta@,
            proj_map: leaf_lists(self.proj_map@),
            compression: self.compression,
        }
    }
}

/// Mathematical model of a part of any engine.
pub enum PartInfoView {
    Fuse(PartView),
    Foreign { engine: Seq<char> },
}

/// A scan unit as the scheduling layer hands it over: a part of this
/// engine, or one addressed to another engine.
#[derive(Debug)]
pub enum PartInfo {
    Fuse(FusePartInfo),
    Foreign { engine: String },
}

impl View for PartInfo {
    type V = PartInfoView;

    open spec fn view(&self) -> PartInfoView {
        match self {
            PartInfo::Fuse(part) => PartInfoView::Fuse(part@),
            PartInfo::Foreign { engine } => PartInfoView::Foreign { engine: engine@ },
        }
    }
}

/// A part shared between the tasks of one read.
pub type PartInfoPtr = Arc<PartInfo>;

/// The leaves that the logical column `column` expands to: itself where
/// the block records no schema, else the leaves below the column's node
/// in declared order; `None` where the schema has no such column.
pub open spec fn expansion(schema: Option<SchemaTree>, column: usize) -> Option<Seq<usize>> {
    match schema {
        None => Some(seq![column]),
        Some(root) => if column < root.kids().len() {
            Some(root.kids()[column as int].leaves().map_values(|id: ColumnId| id as usize))
        } else {
            None
        },
    }
}

/// The schema tree that a block records, if any.
pub open spec fn schema_of(block: BlockMeta) -> Option<SchemaTree> {
    match block.col_schema {
        Some(root) => Some(root@),
        None => None,
    }
}

/// Whether the chunk table `metas` has an entry for `leaf`.
pub open spec fn has_meta(metas: Map<ColumnId, ColumnMeta>, leaf: usize) -> bool {
    leaf <= u32::MAX && metas.contains_key(leaf as ColumnId)
}

/// The first of `leaves[..upto]` without an entry in `metas`.
pub open spec fn first_missing(
    metas: Map<ColumnId, ColumnMeta>,
    leaves: Seq<usize>,
    upto: int,
) -> Option<usize>
    decreases upto,
{
    if upto <= 0 {
        None
    } else {
        match first_missing(metas, leaves, upto - 1) {
            Some(leaf) => Some(leaf),
            None => if has_meta(metas, leaves[upto - 1]) {
                None
            } else {
                Some(leaves[upto - 1])
            },
        }
    }
}

/// Why the logical column `column` cannot be projected from `block`.
pub open spec fn column_fault(block: BlockMeta, column: usize) -> Option<ErrorCode> {
    match expansion(schema_of(block), column) {
        None => Some(ErrorCode::ProjectionUnmapped { column }),
        Some(leaves) => match first_missing(block.col_metas@, leaves, leaves.len() as int) {
            Some(leaf) => Some(ErrorCode::LeafMetaMissing { leaf }),
            None => None,
        },
    }
}

/// The fault of the first of `projection[..upto]` that has one.
pub open spec fn projection_fault(block: BlockMeta, projection: Seq<usize>, upto: int) -> Option<
    ErrorCode,
>
    decreases upto,
{
    if upto <= 0 {
        None
    } else {
        match projection_fault(block, projection, upto - 1) {
            Some(e) => Some(e),
            None => column_fault(block, projection[upto - 1]),
        }
    }
}

/// The leaves that `projection[..upto]` expands to, column after column.
pub open spec fn needed_leaves(schema: Option<SchemaTree>, projection: Seq<usize>, upto: int) -> Seq<
    usize,
>
    decreases upto,
{
    if upto <= 0 {
        Seq::empty()
    } else {
        needed_leaves(schema, projection, upto - 1) + match expansion(
            schema,
            projection[upto - 1],
        ) {
            Some(leaves) => leaves,
            None => Seq::empty(),
        }
    }
}

/// The expansion of each projected column.
pub open spec fn projected_columns(schema: Option<SchemaTree>, projection: Seq<usize>) -> Map<
    usize,
    Seq<usize>,
> {
    Map::new(|c: usize| projection.contains(c), |c: usize| expansion(schema, c)->0)
}

/// The chunk metadata of exactly the leaves in `leaves`.
pub open spec fn leaf_metas(metas: Map<ColumnId, ColumnMeta>, leaves: Set<usize>) -> Map<
    usize,
    ColumnMeta,
> {
    Map::new(|l: usize| leaves.contains(l), |l: usize| metas[l as ColumnId])
}

impl FusePartInfo {
    /// A part of this engine, ready to be shared.
    pub fn create(
        location: String,
        format_version: u64,
        rows_count: u64,
        columns_meta: HashMap<usize, ColumnMeta>,
        proj_map: HashMap<usize, Vec<usize>>,
        compression: Compression,
    ) -> (part: PartInfoPtr)
        ensures
            *part == PartInfo::Fuse(
                FusePartInfo {
                    location,
                    format_version,
                    nums_rows: rows_count as usize,
                    columns_meta,
                    proj_map,
                    compression,
                },
            ),
    {
        Arc::new(
            PartInfo::Fuse(
                FusePartInfo {
                    location,
                    format_version,
                    columns_meta,
                    proj_map,
                    nums_rows: #[verifier::truncate]
                    (rows_count as usize),
                    compression,
                },
            ),
        )
    }

    /// The part of this engine behind `info`, if it is one.
    pub fn from_part(info: &PartInfoPtr) -> (res: Result<&FusePartInfo, ErrorCode>)
        ensures
            match **info {
                PartInfo::Fuse(part) => res == Ok::<&FusePartInfo, ErrorCode>(&part),
                PartInfo::Foreign { .. } => res == Err::<&FusePartInfo, ErrorCode>(
                    ErrorCode::ForeignPart,
                ),
            },
    {
        match &**info {
            PartInfo::Fuse(part) => Ok(part),
            PartInfo::Foreign { .. } => Err(ErrorCode::ForeignPart),
        }
    }
}

/// The part that `block` yields under `projection`.
pub open spec fn derived_part(block: BlockMeta, projection: Seq<usize>) -> PartView {
    PartView {
        location: block.location.0@,
        format_version: block.location.1,
        nums_rows: block.row_count as usize,
        columns_meta: leaf_metas(
            block.col_metas@,
            needed_leaves(schema_of(block), projection, projection.len() as int).to_set(),
        ),
        proj_map: projected_columns(schema_of(block), projection),
        compression: block.compression,
    }
}

proof fn lemma_projection_fault_stays(block: BlockMeta, projection: Seq<usize>, at: int, upto: int)
    requires
        0 <= at <= upto,
        projection_fault(block, projection, at) is Some,
    ensures
        projection_fault(block, projection, upto) == projection_fault(block, projection, at),
    decreases upto - at,
{
    if at < upto {
        lemma_projection_fault_stays(block, projection, at, upto - 1);
    }
}

proof fn lemma_first_missing_stays(
    metas: Map<ColumnId, ColumnMeta>,
    leaves: Seq<usize>,
    at: int,
    upto: int,
)
    requires
        0 <= at <= upto,
        first_missing(metas, leaves, at) is Some,
    ensures
        first_missing(metas, leaves, upto) == first_missing(metas, leaves, at),
    decreases upto - at,
{
    if at < upto {
        lemma_first_missing_stays(metas, leaves, at, upto - 1);
    }
}

/// The leaves that one logical column of `block` expands to.
pub fn expand_column(block: &BlockMeta, column: usize) -> (res: Option<Vec<usize>>)
    ensures
        match res {
            Some(leaves) => expansion(schema_of(*block), column) == Some(leaves@),
            None => expansion(schema_of(*block), column) is None,
        },
{
    match &block.col_schema {
        None => {
            let leaves = vec![column];
            Some(leaves)
        },
        Some(root) => match &root.children {
            None => None,
            Some(kids) => {
                if column >= kids.len() {
                    return None;
                }
                let ids = kids[column].leaves();
                let mut leaves: Vec<usize> = Vec::new();
                let mut i: usize = 0;
                while i < ids.len()
                    invariant
                        i <= ids.len(),
                        leaves@ == ids@.subrange(0, i as int).map_values(
                            |id: ColumnId| id as usize,
                        ),
                    decreases ids.len() - i,
                {
                    leaves.push(ids[i] as usize);
                    i = i + 1;
                }
                Some(leaves)
            },
        },
    }
}

impl FusePartInfo {
    /// Derives the part that reads `projection` from `block`.
    ///
    /// Each projected logical column is mapped to the leaves it expands
    /// to, and the chunk metadata of exactly those leaves is taken over
    /// from the block.
    pub fn projection_part(block: &BlockMeta, projection: &Vec<usize>) -> (res: Result<
        PartInfoPtr,
        ErrorCode,
    >)
        ensures
            match res {
                Ok(part) => {
                    &&& projection_fault(*block, projection@, projection@.len() as int) is None
                    &&& part@ == PartInfoView::Fuse(derived_part(*block, projection@))
                },
                Err(e) => projection_fault(*block, projection@, projection@.len() as int) == Some(
                    e,
                ),
            },
    {
        let ghost schema = schema_of(*block);
        let ghost seen: Seq<usize> = Seq::empty();
        let mut columns_meta: HashMap<usize, ColumnMeta> = HashMap::new();
        let mut proj_map: HashMap<usize, Vec<usize>> = HashMap::new();
        let mut i: usize = 0;
        while i < projection.len()
            invariant
                i <= projection.len(),
                schema == schema_of(*block),
                projection_fault(*block, projection@, i as int) is None,
                seen == needed_leaves(schema, projection@, i as int),
                columns_meta@ == leaf_metas(block.col_metas@, seen.to_set()),
                leaf_lists(proj_map@) == projected_columns(
                    schema,
                    projection@.subrange(0, i as int),
                ),
            decreases projection.len() - i,
        {
            let column = projection[i];
            let leaves = match expand_column(block, column) {
                Some(leaves) => leaves,
                None => {
                    proof {
                        lemma_projection_fault_stays(
                            *block,
                            projection@,
                            i + 1,
                            projection@.len() as int,
                        );
                    }
                    return Err(ErrorCode::ProjectionUnmapped { column });
                },
            };
            let mut j: usize = 0;
            while j < leaves.len()
                invariant
                    j <= leaves.len(),
                    i < projection.len(),
                    column == projection@[i as int],
                    schema == schema_of(*block),
                    expansion(schema, column) == Some(leaves@),
                    projection_fault(*block, projection@, i as int) is None,
                    first_missing(block.col_metas@, leaves@, j as int) is None,
                    seen == needed_leaves(schema, projection@, i as int) + leaves@.subrange(
                        0,
                        j as int,
                    ),
                    columns_meta@ == leaf_metas(block.col_metas@, seen.to_set()),
                decreases leaves.len() - j,
            {
                let leaf = leaves[j];
                let found = if leaf > u32::MAX as usize {
                    None
                } else {
                    block.col_metas.get(&(leaf as u32))
                };
                match found {
                    Some(meta) => {
                        columns_meta.insert(leaf, *meta);
                    },
                    None => {
                        proof {
                            lemma_first_missing_stays(
                                block.col_metas@,
                                leaves@,
                                j + 1,
                                leaves@.len() as int,
                            );
                            lemma_projection_fault_stays(
                                *block,
                                projection@,
                                i + 1,
                                projection@.len() as int,
                            );
                        }
                        return Err(ErrorCode::LeafMetaMissing { leaf });
                    },
                }
                proof {
                    let before = seen;
                    seen = seen.push(leaf);
                    before.lemma_push_to_set_commute(leaf);
                }
                j = j + 1;
            }
            proof {
                let before = leaf_lists(proj_map@);
                let after = leaf_lists(proj_map@.insert(column, leaves));
                let longer = projection@.subrange(0, i + 1);
                let wanted = projected_columns(schema, longer);
                assert forall|c: usize| after.contains_key(c) <==> wanted.contains_key(c) by {
                    assert(before.contains_key(c) <==> proj_map@.contains_key(c));
                    if c == column {
                        assert(longer[i as int] == c);
                    }
                }
                assert forall|c: usize| after.contains_key(c) implies after[c] == wanted[c] by {
                    if c != column {
                        assert(before[c] == proj_map@[c]@);
                    }
                }
            }
            proj_map.insert(column, leaves);
            i = i + 1;
        }
        proof {
            assert(projection@.subrange(0, i as int) =~= projection@);
        }
        let part = FusePartInfo {
            location: block.location.0.clone(),
            format_version: block.location.1,
            nums_rows: #[verifier::truncate]
            (block.row_count as usize),
            columns_meta,
            proj_map,
            compression: block.compression,
        };
        Ok(Arc::new(PartInfo::Fuse(part)))
    }
}

/// A block whose codec field is absent is the block whose codec field
/// names the legacy codec: the two yield the same part under every
/// projection, so they are fetched and decoded alike.
pub proof fn lemma_absent_codec_is_legacy(block: BlockMeta, projection: Seq<usize>)
    ensures
        Compression::spec_or_legacy(None) == Compression::spec_or_legacy(Some(Compression::Lz4)),
        Compression::spec_or_legacy(None) == Compression::spec_legacy(),
        derived_part(
            BlockMeta { compression: Compression::spec_or_legacy(None), ..block },
            projection,
        ) == derived_part(
            BlockMeta { compression: Compression::spec_or_legacy(Some(Compression::Lz4)), ..block },
            projection,
        ),
{
}

/// Whether two leaf lists hold the same leaves in the same order.
fn same_leaves(a: &Vec<usize>, b: &Vec<usize>) -> (same: bool)
    ensures
        same == (a@ == b@),
{
    if a.len() != b.len() {
        return false;
    }
    let mut i: usize = 0;
    while i < a.len()
        invariant
            i <= a.len(),
            a.len() == b.len(),
            forall|j: int| 0 <= j < i ==> a@[j] == b@[j],
        decreases a.len() - i,
    {
        if a[i] != b[i] {
            return false;
        }
        i = i + 1;
    }
    proof {
        assert(a@ =~= b@);
    }
    true
}

/// Whether two chunk tables hold the same entries.
fn same_metas(a: &HashMap<usize, ColumnMeta>, b: &HashMap<usize, ColumnMeta>) -> (same: bool)
    ensures
        same == (a@ == b@),
{
    if a.len() != b.len() {
        return false;
    }
    let ghost keys = a.keys().remaining();
    for key in it: a.keys()
        invariant
            it.seq() == keys,
            keys.unref().to_set() == a@.dom(),
            forall|j: int|
                0 <= j < it.index() ==> b@.contains_key(*#[trigger] it.seq()[j]) && b@[*it.seq()[j]]
                    == a@[*it.seq()[j]],
    {
        let ours = a.get(key);
        match b.get(key) {
            Some(theirs) => {
                if !(*theirs == *ours.unwrap()) {
                    return false;
                }
            },
            None => {
                return false;
            },
        }
    }
    proof {
        vstd::set_lib::lemma_subset_equality(a@.dom(), b@.dom());
        assert(a@ =~= b@);
    }
    true
}

/// Whether two projection maps expand the same columns to the same
/// leaves.
fn same_expansions(a: &HashMap<usize, Vec<usize>>, b: &HashMap<usize, Vec<usize>>) -> (same: bool)
    ensures
        same == (leaf_lists(a@) == leaf_lists(b@)),
{
    if a.len() != b.len() {
        proof {
            assert(leaf_lists(a@).dom() =~= a@.dom());
            assert(leaf_lists(b@).dom() =~= b@.dom());
        }
        return false;
    }
    let ghost keys = a.keys().remaining();
    for key in it: a.keys()
        invariant
            it.seq() == keys,
            keys.unref().to_set() == a@.dom(),
            forall|j: int|
                0 <= j < it.index() ==> b@.contains_key(*#[trigger] it.seq()[j]) && b@[*it.seq()[j]]@
                    == a@[*it.seq()[j]]@,
    {
        let ours = a.get(key);
        match b.get(key) {
            Some(theirs) => {
                if !same_leaves(theirs, ours.unwrap()) {
                    proof {
                        assert(leaf_lists(a@)[*key] != leaf_lists(b@)[*key]);
                    }
                    return false;
                }
            },
            None => {
                proof {
                    assert(!leaf_lists(b@).contains_key(*key));
                }
                return false;
            },
        }
    }
    proof {
        vstd::set_lib::lemma_subset_equality(a@.dom(), b@.dom());
        assert(leaf_lists(a@) =~= leaf_lists(b@));
    }
    true
}

impl FusePartInfo {
    /// Whether two parts of this engine are the same part.
    pub fn equals(&self, other: &FusePartInfo) -> (same: bool)
        ensures
            same == (self@ == other@),
    {
        self.location == other.location && self.format_version == other.format_version
            && self.nums_rows == other.nums_rows && self.compression == other.compression
            && same_metas(&self.columns_meta, &other.columns_meta) && same_expansions(
            &self.proj_map,
            &other.proj_map,
        )
    }
}

impl PartInfo {
    /// Whether two parts are the same part: parts of different engines
    /// never are.
    pub fn equals(&self, info: &PartInfo) -> (same: bool)
        ensures
            same == (self@ == info@),
    {
        match (self, info) {
            (PartInfo::Fuse(ours), PartInfo::Fuse(theirs)) => ours.equals(theirs),
            (PartInfo::Foreign { engine: ours }, PartInfo::Foreign { engine: theirs }) => *ours
                == *theirs,
            _ => false,
        }
    }
}

} // verus!
