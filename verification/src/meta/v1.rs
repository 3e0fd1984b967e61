//! The current persisted layout.

use crate::meta::common::ClusterStatistics;
use crate::meta::common::BLOCK_FORMAT_VERSION;
use crate::meta::common::ColumnId;
use crate::meta::common::ColumnMeta;
use crate::meta::common::ColumnStatistics;
use crate::meta::common::Compression;
use crate::meta::common::Location;
use crate::meta::common::Statistics;
use crate::meta::v0;
use std::collections::HashMap;
use vstd::prelude::*;
use vstd::string::StringExecFns;
use vstd::std_specs::convert::FromSpecImpl;

verus! {

/// The layout version of segments written in the current layout.
pub const VERSION: u64 = 1;

/// Mathematical model of a schema node.
pub struct SchemaTree {
    pub name: Seq<char>,
    pub column_id: Option<ColumnId>,
    pub children: Option<Seq<SchemaTree>>,
}

impl SchemaTree {
    /// The children in declared order; none for a node without any.
    pub open spec fn kids(self) -> Seq<SchemaTree> {
        match self.children {
            Some(c) => c,
            None => Seq::empty(),
        }
    }

    /// The column ids below and at this node, in declared order.
    pub open spec fn leaves(self) -> Seq<ColumnId>
        decreases self,
    {
        let own = match self.column_id {
            Some(id) => seq![id],
            None => Seq::empty(),
        };
        match self.children {
            Some(c) => own + Self::leaves_of(c, 0),
            None => own,
        }
    }

    /// The column ids of `forest[from..]`, tree after tree.
    pub open spec fn leaves_of(forest: Seq<SchemaTree>, from: int) -> Seq<ColumnId>
        decreases forest, forest.len() - from,
    {
        if 0 <= from < forest.len() {
            forest[from].leaves() + Self::leaves_of(forest, from + 1)
        } else {
            Seq::empty()
        }
    }
}

impl SchemaTree {
    /// The paths that lead from this node to the nodes without children
    /// at and below it, in declared order: the names on the way, with a
    /// colon between one name and the next.
    pub open spec fn paths(self) -> Seq<Seq<char>>
        decreases self,
    {
        match self.children {
            None => seq![self.name],
            Some(kids) => Self::paths_below(self.name, kids, 0),
        }
    }

    /// The paths of `forest[from..]`, tree after tree, each behind
    /// `prefix` and a colon.
    pub open spec fn paths_below(prefix: Seq<char>, forest: Seq<SchemaTree>, from: int) -> Seq<
        Seq<char>,
    >
        decreases forest, forest.len() - from,
    {
        if 0 <= from < forest.len() {
            Self::prefixed(prefix, forest[from].paths()) + Self::paths_below(
                prefix,
                forest,
                from + 1,
            )
        } else {
            Seq::empty()
        }
    }

    /// Each of `paths` behind `prefix` and a colon.
    pub open spec fn prefixed(prefix: Seq<char>, paths: Seq<Seq<char>>) -> Seq<Seq<char>> {
        paths.map_values(|path: Seq<char>| prefix + seq![':'] + path)
    }
}

/// Strings, each as the sequence of its characters.
pub open spec fn string_views(strings: Seq<String>) -> Seq<Seq<char>> {
    strings.map_values(|s: String| s@)
}

/// One node of a block's nested schema: a leaf carries the id of its
/// physical column, a group carries its children in declared order.
#[derive(Debug, PartialEq, Eq)]
pub struct ColumnSchema {
    pub name: String,
    pub column_id: Option<ColumnId>,
    pub children: Option<Vec<ColumnSchema>>,
}

impl View for ColumnSchema {
    type V = SchemaTree;

    open spec fn view(&self) -> SchemaTree {
        self.tree()
    }
}

impl ColumnSchema {
    /// The node with what is below it, as a mathematical tree.
    pub open spec fn tree(self) -> SchemaTree
        decreases self,
    {
        SchemaTree {
            name: self.name@,
            column_id: self.column_id,
            children: match self.children {
                Some(c) => Some(
                    Seq::new(
                        c@.len(),
                        |i: int|
                            if 0 <= i < c@.len() {
                                c@[i].tree()
                            } else {
                                arbitrary()
                            },
                    ),
                ),
                None => None,
            },
        }
    }

    /// A node without children.
    pub fn new(name: String, column_id: Option<ColumnId>) -> (node: ColumnSchema)
        ensures
            node@ == (SchemaTree { name: name@, column_id, children: None }),
    {
        ColumnSchema { name, column_id, children: None }
    }

    /// Appends `child` behind the children already there.
    pub fn add_child(&mut self, child: ColumnSchema)
        ensures
            final(self)@ == (SchemaTree {
                children: Some(old(self)@.kids().push(child@)),
                ..old(self)@
            }),
    {
        if let Some(ref mut children) = self.children {
            children.push(child);
        } else {
            self.children = Some(vec![child]);
        }
        proof {
            assert(self@.children->0 =~= old(self)@.kids().push(child@));
        }
    }

    /// The column ids at and below this node, in declared order.
    pub fn leaves(&self) -> (ids: Vec<ColumnId>)
        ensures
            ids@ == self@.leaves(),
    {
        let mut ids: Vec<ColumnId> = Vec::new();
        self.gather_leaves(&mut ids);
        ids
    }

    fn gather_leaves(&self, ids: &mut Vec<ColumnId>)
        ensures
            final(ids)@ == old(ids)@ + self@.leaves(),
        decreases self,
    {
        if let Some(id) = self.column_id {
            ids.push(id);
        }
        let ghost own = ids@;
        if let Some(children) = &self.children {
            let ghost kids = self@.children->0;
            let mut i: usize = 0;
            while i < children.len()
                invariant
                    i <= children.len(),
                    self.children == Some(*children),
                    kids == self@.children->0,
                    kids.len() == children@.len(),
                    ids@ + SchemaTree::leaves_of(kids, i as int) == own + SchemaTree::leaves_of(
                        kids,
                        0,
                    ),
                decreases children.len() - i,
            {
                proof {
                    assert(decreases_to!(*self => self.children));
                    assert(decreases_to!(self.children => self.children->0));
                    assert(decreases_to!(self.children->0 => children@[i as int]));
                }
                children[i].gather_leaves(ids);
                i = i + 1;
            }
        }
    }

    /// The paths from this node to the nodes without children at and
    /// below it.
    pub fn transverse_path(&self) -> (paths: Vec<String>)
        ensures
            string_views(paths@) == self@.paths(),
        decreases self,
    {
        let mut paths: Vec<String> = Vec::new();
        match &self.children {
            None => {
                paths.push(self.name.clone());
            },
            Some(children) => {
                let ghost kids = self@.children->0;
                let ghost prefix = self.name@;
                let mut i: usize = 0;
                while i < children.len()
                    invariant
                        i <= children.len(),
                        self.children == Some(*children),
                        kids == self@.children->0,
                        kids.len() == children@.len(),
                        prefix == self.name@,
                        string_views(paths@) + SchemaTree::paths_below(prefix, kids, i as int)
                            == SchemaTree::paths_below(prefix, kids, 0),
                    decreases children.len() - i,
                {
                    proof {
                        assert(decreases_to!(*self => self.children));
                        assert(decreases_to!(self.children => self.children->0));
                        assert(decreases_to!(self.children->0 => children@[i as int]));
                    }
                    let below = children[i].transverse_path();
                    let ghost before = string_views(paths@);
                    let ghost wanted = SchemaTree::prefixed(prefix, kids[i as int].paths());
                    let mut j: usize = 0;
                    while j < below.len()
                        invariant
                            j <= below.len(),
                            prefix == self.name@,
                            string_views(below@) == kids[i as int].paths(),
                            wanted == SchemaTree::prefixed(prefix, kids[i as int].paths()),
                            string_views(paths@) == before + wanted.subrange(0, j as int),
                        decreases below.len() - j,
                    {
                        let mut path = self.name.clone();
                        path.append(":");
                        path.append(below[j].as_str());
                        proof {
                            reveal_strlit(":");
                            assert(path@ == wanted[j as int]);
                        }
                        let ghost listed = string_views(paths@);
                        paths.push(path);
                        proof {
                            assert(string_views(paths@) =~= listed.push(wanted[j as int]));
                        }
                        j = j + 1;
                    }
                    i = i + 1;
                }
            },
        }
        paths
    }

    /// A deep copy of the subtree.
    pub fn duplicate(&self) -> (copy: ColumnSchema)
        ensures
            copy@ == self@,
        decreases self,
    {
        let children = match &self.children {
            None => None,
            Some(c) => {
                let mut v: Vec<ColumnSchema> = Vec::new();
                let mut i: usize = 0;
                while i < c.len()
                    invariant
                        i <= c.len(),
                        v.len() == i,
                        forall|j: int| 0 <= j < i ==> v@[j]@ == c@[j]@,
                        self.children == Some(*c),
                    decreases c.len() - i,
                {
                    proof {
                        assert(decreases_to!(*self => self.children));
                        assert(decreases_to!(self.children => self.children->0));
                        assert(decreases_to!(self.children->0 => c@[i as int]));
                    }
                    v.push(c[i].duplicate());
                    i = i + 1;
                }
                Some(v)
            },
        };
        let copy = ColumnSchema { name: self.name.clone(), column_id: self.column_id, children };
        proof {
            if self.children is Some {
                assert(copy@.children->0 =~= self@.children->0);
            }
        }
        copy
    }
}

impl Clone for ColumnSchema {
    fn clone(&self) -> (copy: ColumnSchema)
        ensures
            copy@ == self@,
    {
        self.duplicate()
    }
}

/// What the catalog records of one immutable data file.
#[derive(Debug)]
pub struct BlockMeta {
    pub row_count: u64,
    pub block_size: u64,
    pub file_size: u64,
    pub col_stats: HashMap<ColumnId, ColumnStatistics>,
    pub col_metas: HashMap<ColumnId, ColumnMeta>,
    pub col_schema: Option<ColumnSchema>,
    pub cluster_stats: Option<ClusterStatistics>,
    pub location: Location,
    /// Codec of the block's column chunks.
    pub compression: Compression,
}

impl BlockMeta {
    /// The metadata of a block written now: its codec is `Lz4Raw`.
    pub fn new(
        row_count: u64,
        block_size: u64,
        file_size: u64,
        col_stats: HashMap<ColumnId, ColumnStatistics>,
        col_metas: HashMap<ColumnId, ColumnMeta>,
        col_schema: Option<ColumnSchema>,
        cluster_stats: Option<ClusterStatistics>,
        location: Location,
    ) -> (meta: BlockMeta)
        ensures
            meta == (BlockMeta {
                row_count,
                block_size,
                file_size,
                col_stats,
                col_metas,
                col_schema,
                cluster_stats,
                location,
                compression: Compression::Lz4Raw,
            }),
    {
        BlockMeta {
            row_count,
            block_size,
            file_size,
            col_stats,
            col_metas,
            col_schema,
            cluster_stats,
            location,
            compression: Compression::Lz4Raw,
        }
    }

    /// The metadata of a block read back from the catalog, where the
    /// codec field may be absent: such a block decodes with the legacy
    /// codec.
    pub fn restore(
        row_count: u64,
        block_size: u64,
        file_size: u64,
        col_stats: HashMap<ColumnId, ColumnStatistics>,
        col_metas: HashMap<ColumnId, ColumnMeta>,
        col_schema: Option<ColumnSchema>,
        cluster_stats: Option<ClusterStatistics>,
        location: Location,
        compression: Option<Compression>,
    ) -> (meta: BlockMeta)
        ensures
            meta == (BlockMeta {
                row_count,
                block_size,
                file_size,
                col_stats,
                col_metas,
                col_schema,
                cluster_stats,
                location,
                compression: Compression::or_legacy(compression),
            }),
    {
        BlockMeta {
            row_count,
            block_size,
            file_size,
            col_stats,
            col_metas,
            col_schema,
            cluster_stats,
            location,
            compression: Compression::or_legacy(compression),
        }
    }

    /// What a block of the first layout becomes in the current one.
    pub open spec fn upgraded(s: v0::BlockMeta) -> BlockMeta {
        BlockMeta {
            row_count: s.row_count,
            block_size: s.block_size,
            file_size: s.file_size,
            col_stats: s.col_stats,
            col_metas: s.col_metas,
            col_schema: None,
            cluster_stats: None,
            location: (s.location.path, BLOCK_FORMAT_VERSION),
            compression: Compression::Lz4,
        }
    }

    /// The codec of the block's column chunks.
    pub fn compression(&self) -> (c: Compression)
        ensures
            c == self.compression,
    {
        self.compression
    }
}

impl Clone for BlockMeta {
    fn clone(&self) -> (copy: BlockMeta)
        ensures
            copy.row_count == self.row_count,
            copy.block_size == self.block_size,
            copy.file_size == self.file_size,
            copy.col_stats@ == self.col_stats@,
            copy.col_metas@ == self.col_metas@,
            copy.col_schema is Some == self.col_schema is Some,
            copy.col_schema is Some ==> copy.col_schema->0@ == self.col_schema->0@,
            copy.cluster_stats == self.cluster_stats,
            copy.location == self.location,
            copy.compression == self.compression,
    {
        let col_schema = match &self.col_schema {
            Some(root) => Some(root.duplicate()),
            None => None,
        };
        BlockMeta {
            row_count: self.row_count,
            block_size: self.block_size,
            file_size: self.file_size,
            col_stats: self.col_stats.clone(),
            col_metas: self.col_metas.clone(),
            col_schema,
            cluster_stats: self.cluster_stats,
            location: (self.location.0.clone(), self.location.1),
            compression: self.compression,
        }
    }
}

impl From<v0::BlockMeta> for BlockMeta {
    /// Upgrades a block of the first layout: what that layout did not
    /// record is absent, and the codec is the legacy one.
    fn from(s: v0::BlockMeta) -> (meta: BlockMeta) {
        BlockMeta {
            row_count: s.row_count,
            block_size: s.block_size,
            file_size: s.file_size,
            col_stats: s.col_stats,
            col_metas: s.col_metas,
            col_schema: None,
            cluster_stats: None,
            location: (s.location.path, BLOCK_FORMAT_VERSION),
            compression: Compression::Lz4,
        }
    }
}

impl FromSpecImpl<v0::BlockMeta> for BlockMeta {
    open spec fn obeys_from_spec() -> bool {
        true
    }

    open spec fn from_spec(s: v0::BlockMeta) -> BlockMeta {
        BlockMeta::upgraded(s)
    }
}

/// Mathematical model of a segment.
pub struct SegmentView {
    pub format_version: u64,
    pub blocks: Seq<BlockMeta>,
    pub summary: Statistics,
}

/// A catalog entry that groups blocks and sums them up.
#[derive(Debug)]
pub struct SegmentInfo {
    format_version: u64,
    pub blocks: Vec<BlockMeta>,
    pub summary: Statistics,
}

impl View for SegmentInfo {
    type V = SegmentView;

    closed spec fn view(&self) -> SegmentView {
        SegmentView {
            format_version: self.format_version,
            blocks: self.blocks@,
            summary: self.summary,
        }
    }
}

impl SegmentInfo {
    /// The layout version that the segment was written in.
    pub open spec fn spec_format_version(&self) -> u64 {
        self@.format_version
    }

    /// A segment of the current layout over `blocks`.
    pub fn new(blocks: Vec<BlockMeta>, summary: Statistics) -> (segment: SegmentInfo)
        ensures
            segment@ == (SegmentView { format_version: VERSION, blocks: blocks@, summary }),
    {
        SegmentInfo { format_version: VERSION, blocks, summary }
    }

    /// The layout version that the segment was written in.
    #[verifier::when_used_as_spec(spec_format_version)]
    pub fn format_version(&self) -> (v: u64)
        ensures
            v == self@.format_version,
    {
        self.format_version
    }

    /// The blocks of the segment, in their order.
    pub fn blocks(&self) -> (blocks: &Vec<BlockMeta>)
        ensures
            blocks@ == self@.blocks,
    {
        &self.blocks
    }

    /// The totals over the blocks of the segment.
    pub fn summary(&self) -> (summary: &Statistics)
        ensures
            *summary == self@.summary,
    {
        &self.summary
    }
}

impl From<v0::SegmentInfo> for SegmentInfo {
    /// Upgrades a segment of the first layout block by block, in order.
    fn from(s: v0::SegmentInfo) -> (segment: SegmentInfo)
        ensures
            segment@.format_version == VERSION,
            segment@.summary == s.summary,
            segment@.blocks.len() == s.blocks@.len(),
            forall|i: int|
                0 <= i < s.blocks@.len() ==> segment@.blocks[i] == BlockMeta::upgraded(
                    #[trigger] s.blocks@[i],
                ),
    {
        let ghost listed = s.blocks@;
        let mut blocks: Vec<BlockMeta> = Vec::new();
        for block in it: s.blocks
            invariant
                listed == it.seq(),
                blocks@.len() == it.index(),
                forall|i: int|
                    0 <= i < blocks@.len() ==> blocks@[i] == BlockMeta::upgraded(
                        #[trigger] listed[i],
                    ),
        {
            blocks.push(BlockMeta::from(block));
        }
        SegmentInfo { format_version: VERSION, blocks, summary: s.summary }
    }
}

impl FromSpecImpl<v0::SegmentInfo> for SegmentInfo {
    /// A segment holds vectors, whose equality the model does not decide:
    /// the contract of `from` speaks of views instead.
    open spec fn obeys_from_spec() -> bool {
        false
    }

    open spec fn from_spec(s: v0::SegmentInfo) -> SegmentInfo {
        arbitrary()
    }
}

} // verus!
