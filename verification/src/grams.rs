//! How well approximate filters over the n-grams of a block of texts
//! tell whether the block holds a search key.
//!
//! A block's texts are cut into n-grams of characters, each n-gram is
//! hashed, and the hashes are put into a Bloom filter and an xor filter.
//! A search key is looked up by the hashes of its own n-grams: a filter
//! claims the key where it answers for all of them.

use crate::filters::bloom_accepts;
use crate::filters::bloom_bits;
use crate::filters::bloom_check;
use crate::filters::bloom_new;
use crate::filters::bloom_set;
use crate::filters::xor8_build;
use crate::filters::xor8_contains;
use crate::filters::xor8_new;
use crate::filters::xor8_populate;
use crate::filters::xor8_view;
use bloomfilter::Bloom;
use std::collections::hash_map::DefaultHasher;
use std::collections::HashSet;
use std::hash::Hasher;
use vstd::prelude::*;
use vstd::std_specs::hash::DefaultHasherAdditionalSpecFns;
use vstd::string::StringSliceAdditionalSpecFns;
use vstd::utf8::encode_utf8;
use xorfilter::BuildHasherDefault;
use xorfilter::Xor8;

verus! {

/// The hash of an n-gram: that of its bytes followed by the byte that
/// ends a string.
pub open spec fn gram_hash(gram: Seq<u8>) -> u64 {
    DefaultHasher::spec_finish(seq![gram, seq![0xffu8]])
}

/// Hashes one n-gram as the standard hasher hashes the string it spells.
pub fn hash_gram(gram: &[u8]) -> (hash: u64)
    ensures
        hash == gram_hash(gram@),
{
    let end: [u8; 1] = [0xff];
    let mut hasher = DefaultHasher::new();
    hasher.write(gram);
    hasher.write(end.as_slice());
    proof {
        assert(end@ =~= seq![0xffu8]);
        assert(hasher@ =~= seq![gram@, seq![0xffu8]]);
    }
    hasher.finish()
}

/// Whether `key` occurs in `text`, byte for byte.
pub open spec fn occurs_in(key: Seq<u8>, text: Seq<u8>) -> bool {
    exists|at: int| occurs_at(key, text, at)
}

/// Whether `key` occurs in `text` from byte `at` on.
pub open spec fn occurs_at(key: Seq<u8>, text: Seq<u8>, at: int) -> bool {
    0 <= at <= text.len() - key.len() && text.subrange(at, at + key.len()) == key
}

/// Looks for `key` in `text`.
pub fn contains_bytes(text: &[u8], key: &[u8]) -> (found: bool)
    ensures
        found == occurs_in(key@, text@),
{
    let text_len = text.len();
    let key_len = key.len();
    if key_len > text_len {
        return false;
    }
    let last = text_len - key_len;
    let mut at: usize = 0;
    loop
        invariant
            at <= last,
            text_len == text@.len(),
            key_len == key@.len(),
            last == text_len - key_len,
            forall|earlier: int| 0 <= earlier < at ==> !occurs_at(key@, text@, earlier),
        decreases last - at,
    {
        let mut i: usize = 0;
        while i < key_len && text[at + i] == key[i]
            invariant
                i <= key_len,
                text_len == text@.len(),
                key_len == key@.len(),
                at + key_len <= text_len,
                forall|j: int| 0 <= j < i ==> text@[at + j] == key@[j],
            decreases key_len - i,
        {
            i = i + 1;
        }
        if i == key_len {
            proof {
                assert(text@.subrange(at as int, at + key@.len()) =~= key@);
                assert(occurs_at(key@, text@, at as int));
            }
            return true;
        }
        if at == last {
            return false;
        }
        at = at + 1;
    }
}

/// The n-grams that a search key is looked up by: its windows of
/// `gram_size` bytes, first to last but one.
pub open spec fn key_windows(key: Seq<u8>, gram_size: nat) -> Seq<Seq<u8>> {
    Seq::new(
        if key.len() > gram_size {
            (key.len() - gram_size) as nat
        } else {
            0
        },
        |i: int| key.subrange(i, i + gram_size),
    )
}

/// The hashes of n-grams, each in the place of its n-gram.
pub open spec fn hashes_of(grams: Seq<Seq<u8>>) -> Seq<u64> {
    grams.map_values(|gram: Seq<u8>| gram_hash(gram))
}

/// The hashes that a search key is looked up by, one per n-gram.
pub fn key_gram_hashes(key: &str, gram_size: usize) -> (hashes: Vec<u64>)
    ensures
        hashes@ == hashes_of(key_windows(key.spec_bytes(), gram_size as nat)),
{
    let bytes = key.as_bytes();
    let len = bytes.len();
    let mut hashes: Vec<u64> = Vec::new();
    if len <= gram_size {
        return hashes;
    }
    let times = len - gram_size;
    let mut i: usize = 0;
    while i < times
        invariant
            i <= times,
            len == bytes@.len(),
            times == len - gram_size,
            hashes@ == hashes_of(key_windows(bytes@, gram_size as nat).subrange(0, i as int)),
        decreases times - i,
    {
        let gram = &bytes[i..i + gram_size];
        hashes.push(hash_gram(gram));
        i = i + 1;
    }
    hashes
}

/// Whether a byte begins a character.
pub open spec fn starts_char(byte: u8) -> bool {
    byte < 0x80 || byte >= 0xc0
}

/// The places among the first `upto` bytes where a character begins,
/// first to last.
pub open spec fn char_starts(bytes: Seq<u8>, upto: int) -> Seq<usize>
    decreases upto,
{
    if upto <= 0 {
        Seq::empty()
    } else if starts_char(bytes[upto - 1]) {
        char_starts(bytes, upto - 1).push((upto - 1) as usize)
    } else {
        char_starts(bytes, upto - 1)
    }
}

/// Character starts lie inside the bytes they were found in, in
/// ascending order.
pub proof fn lemma_char_starts_ascend(bytes: Seq<u8>, upto: int)
    requires
        0 <= upto <= bytes.len() <= usize::MAX,
    ensures
        char_starts(bytes, upto).len() <= upto,
        forall|i: int|
            0 <= i < char_starts(bytes, upto).len() ==> (#[trigger] char_starts(bytes, upto)[i])
                < upto,
        forall|i: int, j: int|
            0 <= i <= j < char_starts(bytes, upto).len() ==> char_starts(bytes, upto)[i]
                <= char_starts(bytes, upto)[j],
    decreases upto,
{
    if upto > 0 {
        lemma_char_starts_ascend(bytes, upto - 1);
    }
}

/// The n-grams of a text: its windows of `gram_size` characters, first to
/// last. A text of fewer characters has none, and there are no n-grams of
/// no characters.
pub open spec fn text_windows(bytes: Seq<u8>, gram_size: nat) -> Seq<Seq<u8>> {
    let starts = char_starts(bytes, bytes.len() as int);
    if gram_size == 0 || starts.len() < gram_size {
        Seq::empty()
    } else {
        Seq::new(
            (starts.len() - gram_size + 1) as nat,
            |j: int|
                bytes.subrange(
                    starts[j] as int,
                    if j + gram_size < starts.len() {
                        starts[j + gram_size] as int
                    } else {
                        bytes.len() as int
                    },
                ),
        )
    }
}

/// The hashes of the n-grams of a text.
pub open spec fn text_hashes(bytes: Seq<u8>, gram_size: nat) -> Set<u64> {
    hashes_of(text_windows(bytes, gram_size)).to_set()
}

/// `listed` with each of `hashes[..upto]` behind it that is not listed
/// when its turn comes.
pub open spec fn listed_with(listed: Seq<u64>, hashes: Seq<u64>, upto: int) -> Seq<u64>
    decreases upto,
{
    if upto <= 0 {
        listed
    } else {
        let before = listed_with(listed, hashes, upto - 1);
        if before.contains(hashes[upto - 1]) {
            before
        } else {
            before.push(hashes[upto - 1])
        }
    }
}

/// The places where the characters of `bytes` begin.
fn char_indices(bytes: &[u8]) -> (indices: Vec<usize>)
    ensures
        indices@ == char_starts(bytes@, bytes@.len() as int),
{
    let mut indices: Vec<usize> = Vec::new();
    let mut i: usize = 0;
    while i < bytes.len()
        invariant
            i <= bytes.len(),
            indices@ == char_starts(bytes@, i as int),
        decreases bytes.len() - i,
    {
        let byte = bytes[i];
        if byte < 0x80 || byte >= 0xc0 {
            indices.push(i);
        }
        i = i + 1;
    }
    indices
}

/// Adds the hashes of the n-grams of `text` to those seen, and lists each
/// hash not seen before behind those listed.
pub fn add_text_grams(text: &str, gram_size: usize, seen: &mut HashSet<u64>, keys: &mut Vec<u64>)
    requires
        old(keys)@.no_duplicates(),
        old(keys)@.to_set() == old(seen)@,
    ensures
        final(keys)@ == listed_with(
            old(keys)@,
            hashes_of(text_windows(text.spec_bytes(), gram_size as nat)),
            text_windows(text.spec_bytes(), gram_size as nat).len() as int,
        ),
        final(keys)@.no_duplicates(),
        final(keys)@.to_set() == final(seen)@,
        final(seen)@ == old(seen)@.union(text_hashes(text.spec_bytes(), gram_size as nat)),
        text.spec_bytes().len() <= usize::MAX,
{
    let bytes = text.as_bytes();
    let len = bytes.len();
    let indices = char_indices(bytes);
    let char_count = indices.len();
    let ghost windows = text_windows(bytes@, gram_size as nat);
    if gram_size == 0 || char_count < gram_size {
        return;
    }
    let last = char_count - gram_size;
    let mut j: usize = 0;
    loop
        invariant
            j <= last,
            last == char_count - gram_size,
            char_count == indices@.len(),
            indices@ == char_starts(bytes@, bytes@.len() as int),
            windows == text_windows(bytes@, gram_size as nat),
            windows.len() == last + 1,
            len == bytes@.len(),
            bytes@ == text.spec_bytes(),
            gram_size > 0,
            keys@.no_duplicates(),
            keys@.to_set() == seen@,
            keys@ == listed_with(old(keys)@, hashes_of(windows), j as int),
            seen@ == old(seen)@.union(hashes_of(windows.subrange(0, j as int)).to_set()),
        decreases last - j,
    {
        proof {
            lemma_char_starts_ascend(bytes@, bytes@.len() as int);
        }
        let start = indices[j];
        let end = if j + gram_size < char_count {
            indices[j + gram_size]
        } else {
            len
        };
        let gram = &bytes[start..end];
        let hash = hash_gram(gram);
        let ghost before = hashes_of(windows.subrange(0, j as int));
        let ghost listed = keys@;
        if seen.insert(hash) {
            keys.push(hash);
            proof {
                listed.lemma_push_to_set_commute(hash);
            }
        }
        proof {
            assert(hashes_of(windows.subrange(0, j + 1)) =~= before.push(hash));
            before.lemma_push_to_set_commute(hash);
        }
        if j == last {
            proof {
                assert(windows.subrange(0, j + 1) =~= windows);
            }
            return;
        }
        j = j + 1;
    }
}

/// The hashes of the n-grams of the first `upto` texts of a block.
pub open spec fn block_hashes(block: Seq<String>, gram_size: nat, upto: int) -> Set<u64>
    decreases upto,
{
    if upto <= 0 {
        Set::empty()
    } else {
        block_hashes(block, gram_size, upto - 1).union(
            text_hashes(encode_utf8(block[upto - 1]@), gram_size),
        )
    }
}

/// The distinct hashes of the n-grams of the first `upto` texts of a
/// block, each where it is first met.
pub open spec fn block_listing(block: Seq<String>, gram_size: nat, upto: int) -> Seq<u64>
    decreases upto,
{
    if upto <= 0 {
        Seq::empty()
    } else {
        let hashes = hashes_of(text_windows(encode_utf8(block[upto - 1]@), gram_size));
        listed_with(block_listing(block, gram_size, upto - 1), hashes, hashes.len() as int)
    }
}

/// The distinct hashes of the n-grams of the texts of a block, each where
/// it is first met.
pub fn block_gram_hashes(block: &Vec<String>, gram_size: usize) -> (keys: Vec<u64>)
    ensures
        keys@ == block_listing(block@, gram_size as nat, block@.len() as int),
        keys@.no_duplicates(),
        keys@.to_set() == block_hashes(block@, gram_size as nat, block@.len() as int),
        forall|t: int|
            0 <= t < block@.len() ==> encode_utf8(#[trigger] block@[t]@).len() <= usize::MAX,
{
    let mut seen: HashSet<u64> = HashSet::new();
    let mut keys: Vec<u64> = Vec::new();
    let mut i: usize = 0;
    while i < block.len()
        invariant
            i <= block.len(),
            keys@ == block_listing(block@, gram_size as nat, i as int),
            keys@.no_duplicates(),
            keys@.to_set() == seen@,
            seen@ == block_hashes(block@, gram_size as nat, i as int),
            forall|t: int| 0 <= t < i ==> encode_utf8(#[trigger] block@[t]@).len() <= usize::MAX,
        decreases block.len() - i,
    {
        add_text_grams(block[i].as_str(), gram_size, &mut seen, &mut keys);
        i = i + 1;
    }
    keys
}

/// Whether some of the first `upto` texts of a block holds `key`.
pub open spec fn block_holds(block: Seq<String>, key: Seq<char>, upto: int) -> bool
    decreases upto,
{
    if upto <= 0 {
        false
    } else {
        block_holds(block, key, upto - 1) || occurs_in(
            encode_utf8(key),
            encode_utf8(block[upto - 1]@),
        )
    }
}

/// Looks for `key` in the texts of a block.
pub fn block_contains(block: &Vec<String>, key: &str) -> (found: bool)
    ensures
        found == block_holds(block@, key@, block@.len() as int),
{
    let mut i: usize = 0;
    while i < block.len()
        invariant
            i <= block.len(),
            !block_holds(block@, key@, i as int),
        decreases block.len() - i,
    {
        if contains_bytes(block[i].as_str().as_bytes(), key.as_bytes()) {
            proof {
                lemma_block_holds_stays(block@, key@, i + 1, block@.len() as int);
            }
            return true;
        }
        i = i + 1;
    }
    false
}

proof fn lemma_block_holds_stays(block: Seq<String>, key: Seq<char>, at: int, upto: int)
    requires
        0 <= at <= upto,
        block_holds(block, key, at),
    ensures
        block_holds(block, key, upto),
    decreases upto - at,
{
    if at < upto {
        lemma_block_holds_stays(block, key, at, upto - 1);
    }
}

/// Whether every byte is a character of its own.
pub open spec fn all_ascii(bytes: Seq<u8>) -> bool {
    forall|i: int| 0 <= i < bytes.len() ==> #[trigger] bytes[i] < 0x80
}

proof fn lemma_char_starts_prefix(bytes: Seq<u8>, at: int, upto: int)
    requires
        0 <= at <= upto,
    ensures
        char_starts(bytes, at).len() <= char_starts(bytes, upto).len(),
        char_starts(bytes, upto).subrange(0, char_starts(bytes, at).len() as int) == char_starts(
            bytes,
            at,
        ),
    decreases upto - at,
{
    if at < upto {
        lemma_char_starts_prefix(bytes, at, upto - 1);
    }
}

/// A run of bytes that each begin a character holds as many character
/// starts as bytes, one behind the other.
proof fn lemma_char_starts_run(bytes: Seq<u8>, from: int, run: int)
    requires
        0 <= from,
        0 <= run,
        from + run <= bytes.len() <= usize::MAX,
        forall|q: int| from <= q < from + run ==> starts_char(#[trigger] bytes[q]),
    ensures
        char_starts(bytes, from + run).len() == char_starts(bytes, from).len() + run,
        forall|t: int|
            0 <= t < run ==> #[trigger] char_starts(bytes, from + run)[char_starts(
                bytes,
                from,
            ).len() + t] == from + t,
    decreases run,
{
    if run > 0 {
        lemma_char_starts_run(bytes, from, run - 1);
    }
}

/// A window of an ASCII key that occurs in a text is an n-gram of the
/// text, where a further byte of the key follows the window.
proof fn lemma_key_window_is_text_window(
    text: Seq<u8>,
    key: Seq<u8>,
    at: int,
    gram_size: nat,
    i: int,
)
    requires
        text.len() <= usize::MAX,
        all_ascii(key),
        occurs_at(key, text, at),
        gram_size > 0,
        0 <= i < key_windows(key, gram_size).len(),
    ensures
        text_windows(text, gram_size).contains(key_windows(key, gram_size)[i]),
{
    let from = at + i;
    let starts = char_starts(text, text.len() as int);
    let rank = char_starts(text, from).len() as int;
    assert forall|q: int| from <= q < from + gram_size + 1 implies starts_char(
        #[trigger] text[q],
    ) by {
        assert(key[q - at] < 0x80);
    }
    lemma_char_starts_run(text, from, (gram_size + 1) as int);
    lemma_char_starts_prefix(text, from + gram_size + 1, text.len() as int);
    let upto_run = char_starts(text, from + gram_size + 1);
    assert(starts.subrange(0, upto_run.len() as int)[rank + gram_size] == starts[rank
        + gram_size]);
    assert(upto_run[rank + 0] == from + 0);
    let windows = text_windows(text, gram_size);
    assert(windows[rank] =~= text.subrange(from, from + gram_size));
    let aligned = text.subrange(from, from + gram_size);
    assert(key_windows(key, gram_size)[i] =~= aligned);
}

proof fn lemma_text_hashes_in_block(block: Seq<String>, gram_size: nat, at: int, upto: int)
    requires
        0 <= at < upto,
    ensures
        text_hashes(encode_utf8(block[at]@), gram_size).subset_of(
            block_hashes(block, gram_size, upto),
        ),
    decreases upto,
{
    if at < upto - 1 {
        lemma_text_hashes_in_block(block, gram_size, at, upto - 1);
    }
}

/// The filters never miss an ASCII key that the block holds: each n-gram
/// that such a key is looked up by is an n-gram of the text that holds
/// the key.
pub proof fn lemma_held_ascii_key_is_covered(
    block: Seq<String>,
    key: Seq<char>,
    gram_size: nat,
    upto: int,
)
    requires
        0 <= upto <= block.len(),
        forall|t: int| 0 <= t < block.len() ==> encode_utf8(#[trigger] block[t]@).len() <= usize::MAX,
        gram_size > 0,
        all_ascii(encode_utf8(key)),
        block_holds(block, key, upto),
    ensures
        covered(block, key, gram_size),
    decreases upto,
{
    let key_bytes = encode_utf8(key);
    if upto > 0 {
        let text = encode_utf8(block[upto - 1]@);
        if occurs_in(key_bytes, text) {
            let at = choose|at: int| occurs_at(key_bytes, text, at);
            lemma_text_hashes_in_block(block, gram_size, upto - 1, block.len() as int);
            assert forall|i: int| 0 <= i < key_windows(key_bytes, gram_size).len() implies block_hashes(
                block,
                gram_size,
                block.len() as int,
            ).contains(#[trigger] hashes_of(key_windows(key_bytes, gram_size))[i]) by {
                lemma_key_window_is_text_window(text, key_bytes, at, gram_size, i);
                let window = key_windows(key_bytes, gram_size)[i];
                let windows = text_windows(text, gram_size);
                let j = choose|j: int| 0 <= j < windows.len() && windows[j] == window;
                assert(hashes_of(windows)[j] == gram_hash(window));
            }
        } else {
            lemma_held_ascii_key_is_covered(block, key, gram_size, upto - 1);
        }
    }
}

/// What is found out about one search key in one block.
#[derive(Clone, Copy, Debug, PartialEq, Eq, Structural)]
pub struct Verdict {
    /// Whether a text of the block holds the key.
    pub present: bool,
    /// Whether the Bloom filter claims the key.
    pub bloom: bool,
    /// Whether the xor filter claims the key.
    pub xor8: bool,
}

/// The sizes that a Bloom filter can be made with.
pub open spec fn bitmap_fits(bitmap_size: usize) -> bool {
    &&& 0 < bitmap_size
    &&& bitmap_size + 45 <= isize::MAX
    &&& bitmap_size * 8 <= u64::MAX
}

/// The numbers of keys that an xor filter can be built from.
pub open spec fn keys_fit(count: nat) -> bool {
    &&& 0 < count <= 0x7fff_ffff
    &&& count * 16 <= isize::MAX
}

/// Whether the hash of every n-gram of `key` is among the hashes of the
/// n-grams of the block.
pub open spec fn covered(block: Seq<String>, key: Seq<char>, gram_size: nat) -> bool {
    forall|i: int|
        0 <= i < key_windows(encode_utf8(key), gram_size).len() ==> block_hashes(
            block,
            gram_size,
            block.len() as int,
        ).contains(#[trigger] hashes_of(key_windows(encode_utf8(key), gram_size))[i])
}

/// A Bloom filter and an xor filter over the same hashes.
pub struct BlockFilters {
    bloom: Bloom<u64>,
    xor8: Xor8<BuildHasherDefault>,
}

impl BlockFilters {
    /// The hashes that the Bloom filter answers for with `true`.
    pub closed spec fn bloom_claims(&self) -> Set<u64> {
        bloom_accepts(self.bloom)
    }

    /// The hashes that the xor filter answers for with `true`.
    pub closed spec fn xor8_claims(&self) -> Set<u64> {
        xor8_view(self.xor8).accepts
    }

    /// Both filters can be asked: the Bloom filter has bits, and the
    /// tables of the xor filter are there.
    pub closed spec fn wf(&self) -> bool {
        bloom_bits(self.bloom) > 0 && xor8_view(self.xor8).built
    }

    /// Both filters over `keys`, the Bloom filter in a bitmap of
    /// `bitmap_size` bytes.
    ///
    /// There are no filters for a size that a filter cannot have, nor
    /// where the Bloom filter finds no seed or the xor filter fails to
    /// build. Filters that are made answer for each of `keys` with `true`.
    pub fn build(keys: &Vec<u64>, bitmap_size: usize) -> (res: Option<BlockFilters>)
        ensures
            !bitmap_fits(bitmap_size) ==> res is None,
            !keys_fit(keys@.len()) ==> res is None,
            res matches Some(filters) ==> {
                &&& filters.wf()
                &&& forall|i: int|
                    0 <= i < keys@.len() ==> filters.bloom_claims().contains(#[trigger] keys@[i])
                        && filters.xor8_claims().contains(keys@[i])
            },
    {
        if keys.len() == 0 || keys.len() > 0x7fff_ffff || keys.len() > (isize::MAX as usize) / 16 {
            return None;
        }
        if bitmap_size == 0 || bitmap_size > (isize::MAX as usize) - 45 || bitmap_size as u64
            > u64::MAX / 8 {
            return None;
        }
        let mut xor8 = xor8_new();
        xor8_populate(&mut xor8, keys);
        if !xor8_build(&mut xor8) {
            return None;
        }
        let mut bloom = match bloom_new(bitmap_size, keys.len()) {
            Some(bloom) => bloom,
            None => {
                return None;
            },
        };
        let mut i: usize = 0;
        while i < keys.len()
            invariant
                i <= keys.len(),
                bloom_bits(bloom) > 0,
                forall|j: int| 0 <= j < i ==> bloom_accepts(bloom).contains(#[trigger] keys@[j]),
            decreases keys.len() - i,
        {
            bloom_set(&mut bloom, keys[i]);
            i = i + 1;
        }
        Some(BlockFilters { bloom, xor8 })
    }

    /// Whether each filter claims a key that is looked up by `hashes`: a
    /// filter claims the key where it answers for every hash with `true`.
    pub fn claims(&self, hashes: &Vec<u64>) -> (claims: (bool, bool))
        requires
            self.wf(),
        ensures
            claims.0 == forall|n: int|
                0 <= n < hashes@.len() ==> self.bloom_claims().contains(#[trigger] hashes@[n]),
            claims.1 == forall|n: int|
                0 <= n < hashes@.len() ==> self.xor8_claims().contains(#[trigger] hashes@[n]),
    {
        let mut bloom_claims = true;
        let mut xor8_claims = true;
        let mut h: usize = 0;
        while h < hashes.len()
            invariant
                h <= hashes.len(),
                self.wf(),
                bloom_claims == forall|n: int|
                    0 <= n < h ==> self.bloom_claims().contains(#[trigger] hashes@[n]),
                xor8_claims == forall|n: int|
                    0 <= n < h ==> self.xor8_claims().contains(#[trigger] hashes@[n]),
            decreases hashes.len() - h,
        {
            if !bloom_check(&self.bloom, hashes[h]) {
                bloom_claims = false;
            }
            if !xor8_contains(&self.xor8, hashes[h]) {
                xor8_claims = false;
            }
            h = h + 1;
        }
        (bloom_claims, xor8_claims)
    }

    /// Whether the filters were made over the n-grams of `block`: they
    /// answer for the hash of each of its n-grams with `true`.
    pub open spec fn holds_block(&self, block: Seq<String>, gram_size: nat) -> bool {
        &&& self.wf()
        &&& forall|hash: u64| #[trigger]
            block_hashes(block, gram_size, block.len() as int).contains(hash)
                ==> self.bloom_claims().contains(hash) && self.xor8_claims().contains(hash)
    }

    /// What is found out about `key` in `block`: whether a text of the
    /// block holds it, and whether each filter answers for the hash of
    /// every n-gram that the key is looked up by.
    pub open spec fn verdict_of(&self, block: Seq<String>, key: Seq<char>, gram_size: nat)
        -> Verdict {
        let hashes = hashes_of(key_windows(encode_utf8(key), gram_size));
        Verdict {
            present: block_holds(block, key, block.len() as int),
            bloom: forall|n: int|
                0 <= n < hashes.len() ==> self.bloom_claims().contains(#[trigger] hashes[n]),
            xor8: forall|n: int|
                0 <= n < hashes.len() ==> self.xor8_claims().contains(#[trigger] hashes[n]),
        }
    }

    /// The verdicts about `keys` in `block`, key by key.
    pub open spec fn verdicts_of(&self, block: Seq<String>, keys: Seq<String>, gram_size: nat)
        -> Seq<Verdict> {
        Seq::new(keys.len(), |k: int| self.verdict_of(block, keys[k]@, gram_size))
    }

    /// Looks each search key up in the filters and in the texts of `block`.
    pub fn verdicts(&self, block: &Vec<String>, search_keys: &Vec<String>, gram_size: usize) -> (verdicts:
        Vec<Verdict>)
        requires
            self.wf(),
        ensures
            verdicts@ == self.verdicts_of(block@, search_keys@, gram_size as nat),
    {
        let mut verdicts: Vec<Verdict> = Vec::new();
        let mut k: usize = 0;
        while k < search_keys.len()
            invariant
                k <= search_keys.len(),
                self.wf(),
                verdicts@.len() == k,
                forall|n: int|
                    0 <= n < k ==> #[trigger] verdicts@[n] == self.verdict_of(
                        block@,
                        search_keys@[n]@,
                        gram_size as nat,
                    ),
            decreases search_keys.len() - k,
        {
            let key = search_keys[k].as_str();
            let present = block_contains(block, key);
            let key_hashes = key_gram_hashes(key, gram_size);
            let (bloom, xor8) = self.claims(&key_hashes);
            verdicts.push(Verdict { present, bloom, xor8 });
            k = k + 1;
        }
        proof {
            assert(verdicts@ =~= self.verdicts_of(block@, search_keys@, gram_size as nat));
        }
        verdicts
    }
}

/// A key whose n-grams are all among those of the block is claimed by
/// filters that were made over the block, and so is an ASCII key that a
/// text of the block holds.
pub proof fn lemma_filters_never_miss(
    filters: BlockFilters,
    block: Seq<String>,
    key: Seq<char>,
    gram_size: nat,
)
    requires
        filters.holds_block(block, gram_size),
        forall|t: int| 0 <= t < block.len() ==> encode_utf8(#[trigger] block[t]@).len() <= usize::MAX,
    ensures
        covered(block, key, gram_size) ==> filters.verdict_of(block, key, gram_size).bloom
            && filters.verdict_of(block, key, gram_size).xor8,
        filters.verdict_of(block, key, gram_size).present && gram_size > 0 && all_ascii(
            encode_utf8(key),
        ) ==> filters.verdict_of(block, key, gram_size).bloom && filters.verdict_of(
            block,
            key,
            gram_size,
        ).xor8,
{
    let hashes = hashes_of(key_windows(encode_utf8(key), gram_size));
    if block_holds(block, key, block.len() as int) && gram_size > 0 && all_ascii(encode_utf8(key)) {
        lemma_held_ascii_key_is_covered(block, key, gram_size, block.len() as int);
    }
    if covered(block, key, gram_size) {
        assert forall|n: int| 0 <= n < hashes.len() implies filters.bloom_claims().contains(
            #[trigger] hashes[n],
        ) && filters.xor8_claims().contains(hashes[n]) by {
            assert(block_hashes(block, gram_size, block.len() as int).contains(hashes[n]));
        }
    }
}

/// Builds both filters over the n-grams of `block` and looks each search
/// key up in them and in the texts themselves.
///
/// The verdicts are those of filters made over the n-grams of the block.
/// There is no verdict where the filters cannot be made: for a block
/// without n-grams, for a size that a filter cannot have, or where the
/// making of a filter fails. A filter never misses a key whose n-grams
/// are all among those of the block, so none misses an ASCII key that a
/// text of the block holds.
pub fn block_verdicts(
    block: &Vec<String>,
    search_keys: &Vec<String>,
    gram_size: usize,
    bitmap_size: usize,
) -> (res: Option<Vec<Verdict>>)
    ensures
        !bitmap_fits(bitmap_size) ==> res is None,
        !keys_fit(block_hashes(block@, gram_size as nat, block@.len() as int).len()) ==> res
            is None,
        res matches Some(verdicts) ==> {
            &&& exists|filters: BlockFilters|
                #![trigger filters.holds_block(block@, gram_size as nat)]
                filters.holds_block(block@, gram_size as nat) && verdicts@ == filters.verdicts_of(
                    block@,
                    search_keys@,
                    gram_size as nat,
                )
            &&& verdicts@.len() == search_keys@.len()
            &&& forall|k: int|
                0 <= k < search_keys@.len() ==> {
                    &&& (#[trigger] verdicts@[k]).present == block_holds(
                        block@,
                        search_keys@[k]@,
                        block@.len() as int,
                    )
                    &&& covered(block@, search_keys@[k]@, gram_size as nat) ==> verdicts@[k].bloom
                        && verdicts@[k].xor8
                    &&& verdicts@[k].present && gram_size > 0 && all_ascii(
                        encode_utf8(search_keys@[k]@),
                    ) ==> verdicts@[k].bloom && verdicts@[k].xor8
                }
        },
{
    let keys = block_gram_hashes(block, gram_size);
    let ghost hashes = block_hashes(block@, gram_size as nat, block@.len() as int);
    proof {
        keys@.unique_seq_to_set();
    }
    let filters = match BlockFilters::build(&keys, bitmap_size) {
        Some(filters) => filters,
        None => {
            return None;
        },
    };
    proof {
        assert forall|hash: u64| #[trigger] hashes.contains(hash) implies filters.bloom_claims().contains(
            hash,
        ) && filters.xor8_claims().contains(hash) by {
            let j = choose|j: int| 0 <= j < keys@.len() && keys@[j] == hash;
            assert(filters.bloom_claims().contains(keys@[j]));
        }
        assert(filters.holds_block(block@, gram_size as nat));
    }
    let verdicts = filters.verdicts(block, search_keys, gram_size);
    proof {
        assert forall|k: int| 0 <= k < search_keys@.len() implies {
            &&& (#[trigger] verdicts@[k]).present == block_holds(
                block@,
                search_keys@[k]@,
                block@.len() as int,
            )
            &&& covered(block@, search_keys@[k]@, gram_size as nat) ==> verdicts@[k].bloom
                && verdicts@[k].xor8
            &&& verdicts@[k].present && gram_size > 0 && all_ascii(encode_utf8(search_keys@[k]@))
                ==> verdicts@[k].bloom && verdicts@[k].xor8
        } by {
            lemma_filters_never_miss(filters, block@, search_keys@[k]@, gram_size as nat);
        }
    }
    Some(verdicts)
}

/// How often the filters were asked, and how often each was wrong.
#[derive(Clone, Copy, Debug, PartialEq, Eq, Structural)]
pub struct FilterTally {
    pub bloom_failed: usize,
    pub xor8_failed: usize,
    pub all_count: usize,
}

impl FilterTally {
    /// The tally with one more verdict counted: a filter has failed where
    /// its claim is not what the texts say.
    pub open spec fn with(self, verdict: Verdict) -> FilterTally {
        FilterTally {
            bloom_failed: if verdict.present != verdict.bloom {
                (self.bloom_failed + 1) as usize
            } else {
                self.bloom_failed
            },
            xor8_failed: if verdict.present != verdict.xor8 {
                (self.xor8_failed + 1) as usize
            } else {
                self.xor8_failed
            },
            all_count: (self.all_count + 1) as usize,
        }
    }

    /// The tally of `verdicts[..upto]`, counted on top of `self`.
    pub open spec fn with_all(self, verdicts: Seq<Verdict>, upto: int) -> FilterTally
        decreases upto,
    {
        if upto <= 0 {
            self
        } else {
            self.with_all(verdicts, upto - 1).with(verdicts[upto - 1])
        }
    }

    /// No filter has failed more often than it was asked.
    pub open spec fn wf(self) -> bool {
        self.bloom_failed <= self.all_count && self.xor8_failed <= self.all_count
    }

    /// The tally before anything is counted.
    pub fn new() -> (tally: FilterTally)
        ensures
            tally == (FilterTally { bloom_failed: 0, xor8_failed: 0, all_count: 0 }),
    {
        FilterTally { bloom_failed: 0, xor8_failed: 0, all_count: 0 }
    }

    /// Counts one verdict.
    pub fn record(&mut self, verdict: Verdict)
        requires
            old(self).wf(),
            old(self).all_count < usize::MAX,
        ensures
            final(self).wf(),
            *final(self) == old(self).with(verdict),
    {
        if verdict.present != verdict.bloom {
            self.bloom_failed = self.bloom_failed + 1;
        }
        if verdict.present != verdict.xor8 {
            self.xor8_failed = self.xor8_failed + 1;
        }
        self.all_count = self.all_count + 1;
    }

    /// Counts the verdicts about one block, first to last.
    pub fn record_all(&mut self, verdicts: &Vec<Verdict>)
        requires
            old(self).wf(),
            old(self).all_count + verdicts@.len() < usize::MAX,
        ensures
            final(self).wf(),
            *final(self) == old(self).with_all(verdicts@, verdicts@.len() as int),
            final(self).all_count == old(self).all_count + verdicts@.len(),
    {
        let mut k: usize = 0;
        while k < verdicts.len()
            invariant
                k <= verdicts@.len(),
                old(self).all_count + verdicts@.len() < usize::MAX,
                self.wf(),
                *self == old(self).with_all(verdicts@, k as int),
                self.all_count == old(self).all_count + k,
            decreases verdicts.len() - k,
        {
            self.record(verdicts[k]);
            k = k + 1;
        }
    }

    /// The tally of the verdicts that `filters[i]` gives about `keys` in
    /// block `i`, counted block after block over the first `upto` blocks.
    pub open spec fn over(
        filters: Seq<BlockFilters>,
        blocks: Seq<Vec<String>>,
        keys: Seq<String>,
        gram_size: nat,
        upto: int,
    ) -> FilterTally
        decreases upto,
    {
        if upto <= 0 {
            FilterTally { bloom_failed: 0, xor8_failed: 0, all_count: 0 }
        } else {
            Self::over(filters, blocks, keys, gram_size, upto - 1).with_all(
                filters[upto - 1].verdicts_of(blocks[upto - 1]@, keys, gram_size),
                keys.len() as int,
            )
        }
    }

    /// The tally over the first blocks looks at the filters of those
    /// blocks alone.
    proof fn lemma_over_prefix(
        filters: Seq<BlockFilters>,
        more: Seq<BlockFilters>,
        blocks: Seq<Vec<String>>,
        keys: Seq<String>,
        gram_size: nat,
        upto: int,
    )
        requires
            0 <= upto <= filters.len() <= more.len(),
            more.subrange(0, filters.len() as int) == filters,
        ensures
            Self::over(more, blocks, keys, gram_size, upto) == Self::over(
                filters,
                blocks,
                keys,
                gram_size,
                upto,
            ),
        decreases upto,
    {
        if upto > 0 {
            Self::lemma_over_prefix(filters, more, blocks, keys, gram_size, upto - 1);
            assert(more.subrange(0, filters.len() as int)[upto - 1] == more[upto - 1]);
        }
    }
}

/// Asks both filters, block by block, for each search key, and counts how
/// often each filter's claim is not what the texts say.
///
/// The tally is that of the verdicts of filters made block by block, each
/// over the n-grams of its block. There is no tally where the filters of
/// a block cannot be made, nor where the verdicts are too many to count.
pub fn tally_filters(
    gram_size: usize,
    bitmap_size: usize,
    values: &Vec<Vec<String>>,
    search_keys: &Vec<String>,
) -> (res: Option<FilterTally>)
    ensures
        values@.len() > 0 && !bitmap_fits(bitmap_size) ==> res is None,
        values@.len() * search_keys@.len() >= usize::MAX ==> res is None,
        (exists|i: int|
            0 <= i < values@.len() && !keys_fit(
                (#[trigger] block_hashes(values@[i]@, gram_size as nat, values@[i]@.len() as int)).len(),
            )) ==> res is None,
        res matches Some(tally) ==> {
            &&& exists|filters: Seq<BlockFilters>|
                {
                    &&& filters.len() == values@.len()
                    &&& forall|i: int|
                        0 <= i < values@.len() ==> (#[trigger] filters[i]).holds_block(
                            values@[i]@,
                            gram_size as nat,
                        )
                    &&& tally == #[trigger] FilterTally::over(
                        filters,
                        values@,
                        search_keys@,
                        gram_size as nat,
                        values@.len() as int,
                    )
                }
            &&& tally.all_count == values@.len() * search_keys@.len()
            &&& tally.wf()
        },
{
    let total = match values.len().checked_mul(search_keys.len()) {
        Some(total) => total,
        None => {
            return None;
        },
    };
    if total == usize::MAX {
        return None;
    }
    let ghost mut made: Seq<BlockFilters> = Seq::empty();
    let mut tally = FilterTally::new();
    let mut i: usize = 0;
    proof {
        assert(0 * search_keys@.len() == 0) by (nonlinear_arith);
    }
    while i < values.len()
        invariant
            i <= values.len(),
            total == values@.len() * search_keys@.len(),
            total < usize::MAX,
            i > 0 ==> bitmap_fits(bitmap_size),
            forall|t: int|
                0 <= t < i ==> keys_fit(
                    (#[trigger] block_hashes(
                        values@[t]@,
                        gram_size as nat,
                        values@[t]@.len() as int,
                    )).len(),
                ),
            made.len() == i,
            forall|t: int|
                0 <= t < i ==> (#[trigger] made[t]).holds_block(values@[t]@, gram_size as nat),
            tally == FilterTally::over(made, values@, search_keys@, gram_size as nat, i as int),
            tally.wf(),
            tally.all_count == i * search_keys@.len(),
        decreases values.len() - i,
    {
        let verdicts = match block_verdicts(&values[i], search_keys, gram_size, bitmap_size) {
            Some(verdicts) => verdicts,
            None => {
                return None;
            },
        };
        proof {
            assert((i + 1) * search_keys@.len() == i * search_keys@.len() + search_keys@.len())
                by (nonlinear_arith);
            assert((i + 1) * search_keys@.len() <= values@.len() * search_keys@.len())
                by (nonlinear_arith)
                requires
                    i + 1 <= values@.len(),
            ;
            let filters = choose|filters: BlockFilters|
                #![trigger filters.holds_block(values@[i as int]@, gram_size as nat)]
                filters.holds_block(values@[i as int]@, gram_size as nat) && verdicts@
                    == filters.verdicts_of(values@[i as int]@, search_keys@, gram_size as nat);
            let before = made;
            made = made.push(filters);
            assert(made.subrange(0, before.len() as int) =~= before);
            FilterTally::lemma_over_prefix(
                before,
                made,
                values@,
                search_keys@,
                gram_size as nat,
                i as int,
            );
        }
        tally.record_all(&verdicts);
        i = i + 1;
    }
    Some(tally)
}

} // verus!
