//! From a file footer to what the catalog keeps of a block: the table of
//! column chunks, and the nested schema rebuilt from its flat listing.

use crate::error::ErrorCode;
use crate::error::ErrorKind;
use crate::meta::ColumnId;
use crate::meta::ColumnMeta;
use crate::meta::ColumnSchema;
use crate::meta::SchemaTree;
use std::collections::HashMap;
use vstd::prelude::*;

verus! {

/// One entry of the footer's schema listing. The listing is in pre-order:
/// a group is followed by its children. A leaf declares no child count.
#[derive(Clone, Debug, PartialEq, Eq)]
pub struct SchemaElement {
    pub name: String,
    pub num_children: Option<i32>,
}

/// What the footer records of one physical column chunk.
#[derive(Clone, Copy, Debug, PartialEq, Eq, Structural)]
pub struct ColumnChunkMeta {
    pub dictionary_page_offset: Option<i64>,
    pub data_page_offset: i64,
    pub total_compressed_size: i64,
    pub num_values: i64,
}

/// One column chunk of a row group, with its metadata if the footer
/// holds it.
#[derive(Clone, Copy, Debug, PartialEq, Eq, Structural)]
pub struct ColumnChunk {
    pub meta_data: Option<ColumnChunkMeta>,
}

/// One row group: its column chunks by leaf column.
#[derive(Clone, Debug, PartialEq, Eq)]
pub struct RowGroup {
    pub columns: Vec<ColumnChunk>,
}

/// The part of a file footer that this engine reads.
#[derive(Clone, Debug, PartialEq, Eq)]
pub struct FileMetaData {
    pub schema: Vec<SchemaElement>,
    pub row_groups: Vec<RowGroup>,
}

/// How many children follow an element: its declared count where that is
/// positive, none otherwise.
pub open spec fn declared_children(e: SchemaElement) -> nat {
    match e.num_children {
        Some(n) => if n > 0 {
            n as nat
        } else {
            0
        },
        None => 0,
    }
}

/// The number of leaves among the first `i` elements.
pub open spec fn leaves_before(schema: Seq<SchemaElement>, i: int) -> nat
    decreases i,
{
    if i <= 0 {
        0
    } else if schema[i - 1].num_children is None {
        leaves_before(schema, i - 1) + 1
    } else {
        leaves_before(schema, i - 1)
    }
}

/// Element `i` as a node without children: a leaf takes the next column
/// id in listing order, a group takes none.
pub open spec fn bare_node(schema: Seq<SchemaElement>, i: int) -> SchemaTree {
    SchemaTree {
        name: schema[i].name@,
        column_id: if schema[i].num_children is None {
            Some(leaves_before(schema, i) as ColumnId)
        } else {
            None
        },
        children: None,
    }
}

/// `node` with `kids` below it, in that order.
pub open spec fn attach(node: SchemaTree, kids: Seq<SchemaTree>) -> SchemaTree {
    SchemaTree { children: if kids.len() > 0 { Some(kids) } else { None }, ..node }
}

/// The trees that the listing holds from element `from` on, in listing
/// order; `None` where a group declares more children than follow it.
pub open spec fn fold_forest(schema: Seq<SchemaElement>, from: int) -> Option<Seq<SchemaTree>>
    decreases schema.len() - from,
{
    if from >= schema.len() {
        Some(Seq::empty())
    } else {
        match fold_forest(schema, from + 1) {
            None => None,
            Some(rest) => {
                let n = declared_children(schema[from]);
                if n > rest.len() {
                    None
                } else {
                    Some(
                        seq![attach(bare_node(schema, from), rest.subrange(0, n as int))]
                            + rest.subrange(n as int, rest.len() as int),
                    )
                }
            },
        }
    }
}

/// The tree that the listing encodes, if it encodes exactly one.
pub open spec fn schema_tree(schema: Seq<SchemaElement>) -> Option<SchemaTree> {
    match fold_forest(schema, 0) {
        Some(forest) => if forest.len() == 1 {
            Some(forest[0])
        } else {
            None
        },
        None => None,
    }
}

/// Why a listing yields no schema tree, if it yields none.
pub open spec fn schema_fault(schema: Seq<SchemaElement>) -> Option<ErrorCode> {
    if schema.len() > u32::MAX {
        Some(ErrorCode::ColumnIdOverflow)
    } else if schema_tree(schema) is None {
        Some(ErrorCode::SchemaNotATree)
    } else {
        None
    }
}

proof fn lemma_leaves_before_bound(schema: Seq<SchemaElement>, i: int)
    requires
        0 <= i,
    ensures
        leaves_before(schema, i) <= i,
    decreases i,
{
    if i > 0 {
        lemma_leaves_before_bound(schema, i - 1);
    }
}

proof fn lemma_fold_none_spreads(schema: Seq<SchemaElement>, from: int, at: int)
    requires
        0 <= from <= at <= schema.len(),
        fold_forest(schema, at) is None,
    ensures
        fold_forest(schema, from) is None,
    decreases at - from,
{
    if from < at {
        lemma_fold_none_spreads(schema, from + 1, at);
    }
}

/// Rebuilds the nested schema from its flat pre-order listing.
///
/// The listing is folded from its tail: each element takes as many of the
/// trees built so far as it declares children, first declared first.
pub fn build_schema_tree(schema: &Vec<SchemaElement>) -> (res: Result<ColumnSchema, ErrorCode>)
    ensures
        match res {
            Ok(tree) => schema_fault(schema@) is None && Some(tree@) == schema_tree(schema@),
            Err(e) => schema_fault(schema@) == Some(e),
        },
{
    if schema.len() > u32::MAX as usize {
        return Err(ErrorCode::ColumnIdOverflow);
    }
    let mut column_id: ColumnId = 0;
    let mut nodes: Vec<ColumnSchema> = Vec::new();
    let mut counts: Vec<usize> = Vec::new();
    let mut i: usize = 0;
    while i < schema.len()
        invariant
            i <= schema.len() <= u32::MAX,
            column_id == leaves_before(schema@, i as int),
            nodes@.len() == i,
            counts@.len() == i,
            forall|j: int| 0 <= j < i ==> (#[trigger] nodes@[j])@ == bare_node(schema@, j),
            forall|j: int| 0 <= j < i ==> #[trigger] counts@[j] == declared_children(schema@[j]),
        decreases schema.len() - i,
    {
        let element = &schema[i];
        proof {
            lemma_leaves_before_bound(schema@, i as int);
        }
        let (id, count) = match element.num_children {
            Some(n) => (None, if n > 0 { n as usize } else { 0 }),
            None => (Some(column_id), 0),
        };
        if element.num_children.is_none() {
            column_id = column_id + 1;
        }
        nodes.push(ColumnSchema::new(element.name.clone(), id));
        counts.push(count);
        i = i + 1;
    }
    let mut built: Vec<ColumnSchema> = Vec::new();
    while i > 0
        invariant
            i <= schema.len() <= u32::MAX,
            nodes@.len() == i,
            counts@.len() == i,
            forall|j: int| 0 <= j < i ==> (#[trigger] nodes@[j])@ == bare_node(schema@, j),
            forall|j: int| 0 <= j < i ==> #[trigger] counts@[j] == declared_children(schema@[j]),
            fold_forest(schema@, i as int) is Some,
            built@.len() == fold_forest(schema@, i as int)->0.len(),
            forall|j: int|
                0 <= j < built@.len() ==> (#[trigger] built@[j])@ == fold_forest(
                    schema@,
                    i as int,
                )->0[built@.len() - 1 - j],
        decreases i,
    {
        let ghost rest = fold_forest(schema@, i as int)->0;
        let ghost stack = built@;
        let count = counts.pop().unwrap();
        let mut node = nodes.pop().unwrap();
        i = i - 1;
        if count > built.len() {
            proof {
                lemma_fold_none_spreads(schema@, 0, i as int);
            }
            return Err(ErrorCode::SchemaNotATree);
        }
        let ghost bare = node@;
        let mut k: usize = 0;
        while k < count
            invariant
                k <= count <= stack.len(),
                rest.len() == stack.len(),
                built@ == stack.subrange(0, stack.len() - k),
                forall|j: int|
                    0 <= j < stack.len() ==> (#[trigger] stack[j])@ == rest[stack.len() - 1 - j],
                node@ == attach(bare, rest.subrange(0, k as int)),
                bare.children is None,
            decreases count - k,
        {
            let child = built.pop().unwrap();
            node.add_child(child);
            proof {
                assert(attach(bare, rest.subrange(0, k as int)).kids().push(child@)
                    =~= rest.subrange(0, k + 1));
            }
            k = k + 1;
        }
        built.push(node);
    }
    if built.len() != 1 {
        return Err(ErrorCode::SchemaNotATree);
    }
    Ok(built.pop().unwrap())
}

/// Where a chunk starts: at its dictionary page where it has one, at its
/// first data page otherwise.
pub open spec fn chunk_start(m: ColumnChunkMeta) -> i64 {
    match m.dictionary_page_offset {
        Some(offset) => offset,
        None => m.data_page_offset,
    }
}

/// Why the chunk at `column` cannot be recorded, if it cannot.
pub open spec fn chunk_fault(c: ColumnChunk, column: int) -> Option<ErrorCode> {
    match c.meta_data {
        None => Some(ErrorCode::ChunkMetaMissing { column: column as usize }),
        Some(m) => if chunk_start(m) < 0 || m.total_compressed_size < 0 {
            Some(ErrorCode::NegativeChunkExtent { column: column as usize })
        } else {
            None
        },
    }
}

/// The fault of the first chunk among `columns[..upto]` that has one.
pub open spec fn first_chunk_fault(columns: Seq<ColumnChunk>, upto: int) -> Option<ErrorCode>
    decreases upto,
{
    if upto <= 0 {
        None
    } else {
        match first_chunk_fault(columns, upto - 1) {
            Some(e) => Some(e),
            None => chunk_fault(columns[upto - 1], upto - 1),
        }
    }
}

/// What the catalog records of a chunk that has no fault.
pub open spec fn recorded(c: ColumnChunk) -> ColumnMeta {
    let m = c.meta_data->0;
    ColumnMeta {
        offset: chunk_start(m) as u64,
        length: m.total_compressed_size as u64,
        num_values: m.num_values as u64,
    }
}

/// The chunk table of a row group: chunk `k` under column id `k`.
pub open spec fn chunk_table(columns: Seq<ColumnChunk>) -> Map<ColumnId, ColumnMeta> {
    Map::new(|k: ColumnId| k < columns.len(), |k: ColumnId| recorded(columns[k as int]))
}

/// Why a row group yields no chunk table, if it yields none.
pub open spec fn chunks_fault(columns: Seq<ColumnChunk>) -> Option<ErrorCode> {
    if columns.len() > u32::MAX {
        Some(ErrorCode::ColumnIdOverflow)
    } else {
        first_chunk_fault(columns, columns.len() as int)
    }
}

/// Why a footer is refused, if it is: the first of these that applies, in
/// this order.
pub open spec fn footer_fault(footer: FileMetaData) -> Option<ErrorCode> {
    if footer.row_groups@.len() != 1 {
        Some(ErrorCode::RowGroupCount { found: footer.row_groups@.len() as usize })
    } else if schema_fault(footer.schema@) is Some {
        schema_fault(footer.schema@)
    } else {
        chunks_fault(footer.row_groups@[0].columns@)
    }
}

proof fn lemma_first_chunk_fault_stays(columns: Seq<ColumnChunk>, at: int, upto: int)
    requires
        0 <= at <= upto,
        first_chunk_fault(columns, at) is Some,
    ensures
        first_chunk_fault(columns, upto) == first_chunk_fault(columns, at),
    decreases upto - at,
{
    if at < upto {
        lemma_first_chunk_fault_stays(columns, at, upto - 1);
    }
}

/// Records the location and value count of each chunk of a row group
/// under the chunk's position.
pub fn chunk_metas(columns: &Vec<ColumnChunk>) -> (res: Result<
    HashMap<ColumnId, ColumnMeta>,
    ErrorCode,
>)
    ensures
        match res {
            Ok(metas) => chunks_fault(columns@) is None && metas@ == chunk_table(columns@),
            Err(e) => chunks_fault(columns@) == Some(e),
        },
{
    if columns.len() > u32::MAX as usize {
        return Err(ErrorCode::ColumnIdOverflow);
    }
    let mut col_metas: HashMap<ColumnId, ColumnMeta> = HashMap::with_capacity(columns.len());
    let mut idx: usize = 0;
    while idx < columns.len()
        invariant
            idx <= columns.len() <= u32::MAX,
            first_chunk_fault(columns@, idx as int) is None,
            col_metas@ == chunk_table(columns@.subrange(0, idx as int)),
        decreases columns.len() - idx,
    {
        match &columns[idx].meta_data {
            Some(chunk_meta) => {
                let col_start = if let Some(dict_page_offset) = chunk_meta.dictionary_page_offset {
                    dict_page_offset
                } else {
                    chunk_meta.data_page_offset
                };
                let col_len = chunk_meta.total_compressed_size;
                if col_start < 0 || col_len < 0 {
                    proof {
                        lemma_first_chunk_fault_stays(
                            columns@,
                            idx + 1,
                            columns@.len() as int,
                        );
                    }
                    return Err(ErrorCode::NegativeChunkExtent { column: idx });
                }
                let num_values = #[verifier::truncate]
                (chunk_meta.num_values as u64);
                let res = ColumnMeta {
                    offset: col_start as u64,
                    length: col_len as u64,
                    num_values,
                };
                col_metas.insert(idx as u32, res);
            },
            None => {
                proof {
                    lemma_first_chunk_fault_stays(columns@, idx + 1, columns@.len() as int);
                }
                return Err(ErrorCode::ChunkMetaMissing { column: idx });
            },
        }
        idx = idx + 1;
    }
    Ok(col_metas)
}

/// Derives from a file footer what the catalog keeps of the block: the
/// chunk table keyed by leaf column id, and the nested schema.
///
/// The footer must hold exactly one row group.
pub fn column_metas(file_meta: &FileMetaData) -> (res: Result<
    (HashMap<ColumnId, ColumnMeta>, Option<ColumnSchema>),
    ErrorCode,
>)
    ensures
        match res {
            Ok((metas, schema)) => {
                &&& footer_fault(*file_meta) is None
                &&& metas@ == chunk_table(file_meta.row_groups@[0].columns@)
                &&& schema is Some
                &&& Some(schema->0@) == schema_tree(file_meta.schema@)
            },
            Err(e) => footer_fault(*file_meta) == Some(e),
        },
{
    let num_row_groups = file_meta.row_groups.len();
    if num_row_groups != 1 {
        return Err(ErrorCode::RowGroupCount { found: num_row_groups });
    }
    let col_schema = match build_schema_tree(&file_meta.schema) {
        Ok(tree) => tree,
        Err(e) => {
            return Err(e);
        },
    };
    let row_group = &file_meta.row_groups[0];
    match chunk_metas(&row_group.columns) {
        Ok(col_metas) => Ok((col_metas, Some(col_schema))),
        Err(e) => Err(e),
    }
}

proof fn lemma_no_first_fault_means_none(columns: Seq<ColumnChunk>, upto: int, k: int)
    requires
        0 <= k < upto,
        first_chunk_fault(columns, upto) is None,
    ensures
        chunk_fault(columns[k], k) is None,
    decreases upto,
{
    if k < upto - 1 {
        lemma_no_first_fault_means_none(columns, upto - 1, k);
    }
}

/// What the chunk table records of a chunk is what the footer holds of
/// it: the chunk's start as its offset, its compressed size as its
/// length, and its value count where that is not negative.
pub proof fn lemma_chunk_table_is_exact(columns: Seq<ColumnChunk>, column: ColumnId)
    requires
        chunks_fault(columns) is None,
        column < columns.len(),
    ensures
        chunk_table(columns).contains_key(column),
        columns[column as int].meta_data is Some,
        ({
            let held = columns[column as int].meta_data->0;
            let kept = chunk_table(columns)[column];
            &&& kept.offset as int == chunk_start(held) as int
            &&& kept.length as int == held.total_compressed_size as int
            &&& held.num_values >= 0 ==> kept.num_values as int == held.num_values as int
        }),
{
    lemma_no_first_fault_means_none(columns, columns.len() as int, column as int);
}

proof fn lemma_sound_chunks_have_no_fault(columns: Seq<ColumnChunk>, upto: int)
    requires
        0 <= upto <= columns.len(),
        forall|k: int| 0 <= k < columns.len() ==> chunk_fault(#[trigger] columns[k], k) is None,
    ensures
        first_chunk_fault(columns, upto) is None,
    decreases upto,
{
    if upto > 0 {
        lemma_sound_chunks_have_no_fault(columns, upto - 1);
    }
}

/// A sound footer is taken, and what is kept of each of its chunks is
/// what the footer holds of it.
///
/// A footer is sound where it holds one row group, its schema listing
/// encodes one tree, and each chunk has metadata with a start and a size
/// that are not negative. Column ids are 32 bits wide, so the footer must
/// list no more schema elements and no more chunks than there are ids.
pub proof fn lemma_sound_footer_round_trips(footer: FileMetaData, column: int)
    requires
        footer.row_groups@.len() == 1,
        schema_tree(footer.schema@) is Some,
        footer.schema@.len() <= u32::MAX,
        footer.row_groups@[0].columns@.len() <= u32::MAX,
        forall|k: int|
            0 <= k < footer.row_groups@[0].columns@.len() ==> {
                let chunk = #[trigger] footer.row_groups@[0].columns@[k];
                &&& chunk.meta_data matches Some(held)
                &&& chunk_start(held) >= 0
                &&& held.total_compressed_size >= 0
            },
        0 <= column < footer.row_groups@[0].columns@.len(),
    ensures
        footer_fault(footer) is None,
        ({
            let columns = footer.row_groups@[0].columns@;
            let held = columns[column].meta_data->0;
            let kept = chunk_table(columns)[column as ColumnId];
            &&& chunk_table(columns).contains_key(column as ColumnId)
            &&& kept.offset == chunk_start(held) as u64
            &&& kept.offset as int == chunk_start(held) as int
            &&& kept.length == held.total_compressed_size as u64
            &&& kept.length as int == held.total_compressed_size as int
            &&& kept.num_values == held.num_values as u64
        }),
{
    let columns = footer.row_groups@[0].columns@;
    assert forall|k: int| 0 <= k < columns.len() implies chunk_fault(
        #[trigger] columns[k],
        k,
    ) is None by {
        assert(columns[k].meta_data is Some);
    }
    lemma_sound_chunks_have_no_fault(columns, columns.len() as int);
}

/// A footer that does not hold exactly one row group is refused for that
/// alone, whatever else it holds, and the refusal is a format error.
pub proof fn lemma_row_group_count_decides_first(footer: FileMetaData)
    requires
        footer.row_groups@.len() != 1,
    ensures
        footer_fault(footer) == Some(
            ErrorCode::RowGroupCount { found: footer.row_groups@.len() as usize },
        ),
        footer_fault(footer)->0.spec_kind() == ErrorKind::Format,
{
}

/// One entry of a schema listing, as far as a tree can give it back: the
/// node without its children, and the number of its children.
pub struct Listed {
    pub node: SchemaTree,
    pub children: nat,
}

/// Entry `i` of the listing.
pub open spec fn listed(schema: Seq<SchemaElement>, i: int) -> Listed {
    Listed { node: bare_node(schema, i), children: declared_children(schema[i]) }
}

/// The nodes of `tree` in pre-order: the node, then its children's nodes,
/// child after child in the order in which the tree holds them.
pub open spec fn preorder(tree: SchemaTree) -> Seq<Listed>
    decreases tree,
{
    let own = Listed {
        node: SchemaTree { children: None, ..tree },
        children: tree.kids().len(),
    };
    match tree.children {
        Some(kids) => seq![own] + preorder_of(kids, 0),
        None => seq![own],
    }
}

/// The nodes of `forest[from..]` in pre-order, tree after tree.
pub open spec fn preorder_of(forest: Seq<SchemaTree>, from: int) -> Seq<Listed>
    decreases forest, forest.len() - from,
{
    if 0 <= from < forest.len() {
        preorder(forest[from]) + preorder_of(forest, from + 1)
    } else {
        Seq::empty()
    }
}

proof fn lemma_preorder_of_split(forest: Seq<SchemaTree>, from: int, cut: int)
    requires
        0 <= from <= cut <= forest.len(),
    ensures
        preorder_of(forest, from) == preorder_of(forest.subrange(0, cut), from) + preorder_of(
            forest.subrange(cut, forest.len() as int),
            0,
        ),
    decreases cut - from,
{
    if from < cut {
        lemma_preorder_of_split(forest, from + 1, cut);
    } else {
        lemma_preorder_of_shift(forest, cut, 0);
    }
}

proof fn lemma_preorder_of_shift(forest: Seq<SchemaTree>, cut: int, from: int)
    requires
        0 <= cut <= forest.len(),
        0 <= from <= forest.len() - cut,
    ensures
        preorder_of(forest, cut + from) == preorder_of(
            forest.subrange(cut, forest.len() as int),
            from,
        ),
    decreases forest.len() - cut - from,
{
    if from < forest.len() - cut {
        lemma_preorder_of_shift(forest, cut, from + 1);
    }
}

proof fn lemma_fold_lists_in_order(schema: Seq<SchemaElement>, from: int)
    requires
        0 <= from <= schema.len(),
        fold_forest(schema, from) is Some,
    ensures
        preorder_of(fold_forest(schema, from)->0, 0) == Seq::new(
            (schema.len() - from) as nat,
            |i: int| listed(schema, from + i),
        ),
    decreases schema.len() - from,
{
    let forest = fold_forest(schema, from)->0;
    if from >= schema.len() {
    } else {
        let rest = fold_forest(schema, from + 1)->0;
        let n = declared_children(schema[from]) as int;
        let kids = rest.subrange(0, n);
        let node = attach(bare_node(schema, from), kids);
        lemma_fold_lists_in_order(schema, from + 1);
        lemma_preorder_of_split(rest, 0, n);
        assert(forest.subrange(1, forest.len() as int) =~= rest.subrange(n, rest.len() as int));
        lemma_preorder_of_shift(forest, 1, 0);
        if n > 0 {
            assert(preorder(node) == seq![listed(schema, from)] + preorder_of(kids, 0));
        } else {
            assert(preorder(node) =~= seq![listed(schema, from)] + preorder_of(kids, 0));
        }
        assert(preorder_of(forest, 0) =~= seq![listed(schema, from)] + preorder_of(rest, 0));
    }
}

/// The tree rebuilt from a listing gives the listing back: read in
/// pre-order it holds the listed elements in their order, each with the
/// column id and the number of children that the listing gives it. So
/// children stand below their group in the order in which they were
/// declared.
pub proof fn lemma_schema_tree_keeps_declared_order(schema: Seq<SchemaElement>)
    requires
        schema_tree(schema) is Some,
    ensures
        preorder(schema_tree(schema)->0) == Seq::new(schema.len(), |i: int| listed(schema, i)),
{
    let forest = fold_forest(schema, 0)->0;
    lemma_fold_lists_in_order(schema, 0);
    assert(preorder_of(forest, 1) =~= Seq::<Listed>::empty());
}

/// The column ids that the first `upto` entries of a listing carry, in
/// their order.
pub open spec fn listed_ids(listing: Seq<Listed>, upto: int) -> Seq<ColumnId>
    decreases upto,
{
    if upto <= 0 {
        Seq::empty()
    } else {
        match listing[upto - 1].node.column_id {
            Some(id) => listed_ids(listing, upto - 1).push(id),
            None => listed_ids(listing, upto - 1),
        }
    }
}

proof fn lemma_listed_ids_concat(head: Seq<Listed>, tail: Seq<Listed>, upto: int)
    requires
        0 <= upto <= tail.len(),
    ensures
        listed_ids(head + tail, head.len() + upto) == listed_ids(head, head.len() as int)
            + listed_ids(tail, upto),
    decreases upto,
{
    let all = head + tail;
    if upto > 0 {
        lemma_listed_ids_concat(head, tail, upto - 1);
    } else {
        assert(all.subrange(0, head.len() as int) =~= head);
        lemma_listed_ids_prefix(all, head, head.len() as int);
    }
}

proof fn lemma_listed_ids_prefix(all: Seq<Listed>, head: Seq<Listed>, upto: int)
    requires
        0 <= upto <= head.len() <= all.len(),
        all.subrange(0, head.len() as int) == head,
    ensures
        listed_ids(all, upto) == listed_ids(head, upto),
    decreases upto,
{
    if upto > 0 {
        lemma_listed_ids_prefix(all, head, upto - 1);
    }
}

/// The leaves of a tree are the column ids of its nodes in pre-order.
proof fn lemma_leaves_follow_preorder(tree: SchemaTree)
    ensures
        tree.leaves() == listed_ids(preorder(tree), preorder(tree).len() as int),
    decreases tree, 0nat,
{
    let own = Listed { node: SchemaTree { children: None, ..tree }, children: tree.kids().len() };
    let first = seq![own];
    assert(listed_ids(first, 0) =~= Seq::<ColumnId>::empty());
    match tree.children {
        Some(kids) => {
            lemma_forest_leaves_follow_preorder(kids, 0);
            lemma_listed_ids_concat(first, preorder_of(kids, 0), preorder_of(kids, 0).len() as int);
        },
        None => {
        },
    }
}

proof fn lemma_forest_leaves_follow_preorder(forest: Seq<SchemaTree>, from: int)
    requires
        0 <= from <= forest.len(),
    ensures
        SchemaTree::leaves_of(forest, from) == listed_ids(
            preorder_of(forest, from),
            preorder_of(forest, from).len() as int,
        ),
    decreases forest, forest.len() - from,
{
    if from < forest.len() {
        lemma_leaves_follow_preorder(forest[from]);
        lemma_forest_leaves_follow_preorder(forest, from + 1);
        lemma_listed_ids_concat(
            preorder(forest[from]),
            preorder_of(forest, from + 1),
            preorder_of(forest, from + 1).len() as int,
        );
    }
}

proof fn lemma_listing_ids_count_up(schema: Seq<SchemaElement>, upto: int)
    requires
        0 <= upto <= schema.len() <= u32::MAX,
    ensures
        listed_ids(Seq::new(schema.len(), |i: int| listed(schema, i)), upto) == Seq::new(
            leaves_before(schema, upto),
            |k: int| k as ColumnId,
        ),
    decreases upto,
{
    if upto > 0 {
        lemma_listing_ids_count_up(schema, upto - 1);
    }
}

/// The leaves of the tree rebuilt from a listing carry the column ids
/// 0, 1, 2 and so on in the order in which the listing declares them, so
/// the leaf that is declared as number `k` lies in the chunk that the
/// chunk table keeps under `k`.
pub proof fn lemma_schema_tree_numbers_leaves_in_order(schema: Seq<SchemaElement>)
    requires
        schema_fault(schema) is None,
    ensures
        schema_tree(schema)->0.leaves() == Seq::new(
            leaves_before(schema, schema.len() as int),
            |k: int| k as ColumnId,
        ),
{
    let tree = schema_tree(schema)->0;
    lemma_schema_tree_keeps_declared_order(schema);
    lemma_leaves_follow_preorder(tree);
    lemma_listing_ids_count_up(schema, schema.len() as int);
}

} // verus!
