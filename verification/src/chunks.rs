//! Cutting a list into chunks of a given size.

use vstd::prelude::*;

verus! {

/// Chunks, each as the sequence of its items.
pub open spec fn chunk_views(chunks: Seq<Vec<String>>) -> Seq<Seq<String>> {
    chunks.map_values(|chunk: Vec<String>| chunk@)
}

/// Cuts `input` into chunks of `chunk_size` items, first to last. The last
/// chunk holds what is left, and no chunk is empty. With a chunk size of
/// zero nothing is cut: what there is forms one chunk.
pub fn split_values(input: Vec<String>, chunk_size: usize) -> (result: Vec<Vec<String>>)
    ensures
        chunk_views(result@).flatten() == input@,
        forall|k: int| 0 <= k < result@.len() ==> (#[trigger] result@[k])@.len() > 0,
        chunk_size > 0 ==> forall|k: int|
            0 <= k < result@.len() - 1 ==> (#[trigger] result@[k])@.len() == chunk_size,
        chunk_size > 0 && result@.len() > 0 ==> result@.last()@.len() <= chunk_size,
        chunk_size == 0 ==> result@.len() <= 1,
{
    let ghost all = input@;
    let mut result: Vec<Vec<String>> = Vec::new();
    let mut current_chunk: Vec<String> = Vec::new();
    for s in it: input
        invariant
            all == it.seq(),
            chunk_views(result@).flatten() + current_chunk@ == all.subrange(0, it.index() as int),
            forall|k: int| 0 <= k < result@.len() ==> (#[trigger] result@[k])@.len() > 0,
            forall|k: int| 0 <= k < result@.len() ==> (#[trigger] result@[k])@.len() == chunk_size,
            chunk_size > 0 ==> current_chunk@.len() < chunk_size,
            chunk_size == 0 ==> result@.len() == 0,
    {
        let ghost before = chunk_views(result@).flatten();
        let ghost held = current_chunk@;
        current_chunk.push(s);
        proof {
            assert(before + current_chunk@ =~= (before + held).push(s));
        }
        if current_chunk.len() == chunk_size {
            let ghost full = current_chunk@;
            let ghost kept = result@;
            result.push(current_chunk);
            current_chunk = Vec::new();
            proof {
                let views = chunk_views(result@);
                assert(views.drop_last() =~= chunk_views(kept));
                lemma_flatten_push(views.drop_last(), full);
                assert(views =~= views.drop_last().push(full));
            }
        }
    }
    if current_chunk.len() > 0 {
        let ghost rest = current_chunk@;
        let ghost kept = result@;
        result.push(current_chunk);
        proof {
            let views = chunk_views(result@);
            assert(views.drop_last() =~= chunk_views(kept));
            lemma_flatten_push(views.drop_last(), rest);
            assert(views =~= views.drop_last().push(rest));
        }
    }
    result
}

/// Flattening a list of chunks with one more chunk at its end appends
/// that chunk.
proof fn lemma_flatten_push<T>(chunks: Seq<Seq<T>>, last: Seq<T>)
    ensures
        chunks.push(last).flatten() == chunks.flatten() + last,
{
    vstd::seq_lib::lemma_flatten_concat(chunks, seq![last]);
    seq![last].lemma_flatten_one_element();
    assert(chunks.push(last) =~= chunks + seq![last]);
}

} // verus!
