//! Approximate membership filters of outside crates, as far as the
//! library relies on them.

use bloomfilter::Bloom;
use std::hash::BuildHasher;
use vstd::prelude::*;
use xorfilter::BuildHasherDefault;
use xorfilter::Xor8;

verus! {

/// `bloomfilter::Bloom`, carried as it is.
#[verifier::external_type_specification]
#[verifier::external_body]
#[verifier::reject_recursive_types(T)]
pub struct ExBloom<T: ?Sized>(Bloom<T>);

/// `xorfilter::BuildHasherDefault`, carried as it is.
#[verifier::external_type_specification]
#[verifier::external_body]
pub struct ExBuildHasherDefault(BuildHasherDefault);

/// `xorfilter::Xor8`, carried as it is.
#[verifier::external_type_specification]
#[verifier::external_body]
#[verifier::reject_recursive_types(H)]
pub struct ExXor8<H: BuildHasher>(Xor8<H>);

/// The items that a Bloom filter answers for with `true`.
pub uninterp spec fn bloom_accepts(filter: Bloom<u64>) -> Set<u64>;

/// The number of bits that a Bloom filter spreads its items over.
pub uninterp spec fn bloom_bits(filter: Bloom<u64>) -> nat;

/// `Bloom::new`: a filter over `bitmap_size` bytes, laid out for about
/// `items_count` items and seeded at random; `None` where no seed can be
/// had. A filter that is made spreads its items over eight bits for each
/// byte; nothing is claimed of what it answers. The sizes left out are
/// those on which the crate asserts, or overflows while it sizes the
/// bitmap and its header.
#[verifier::external_body]
pub(crate) fn bloom_new(bitmap_size: usize, items_count: usize) -> (filter: Option<Bloom<u64>>)
    requires
        0 < bitmap_size,
        0 < items_count,
        bitmap_size + 45 <= isize::MAX,
        bitmap_size * 8 <= u64::MAX,
    ensures
        filter matches Some(made) ==> bloom_bits(made) == bitmap_size * 8,
{
    Bloom::new(bitmap_size, items_count).ok()
}

/// `Bloom::set`: the filter answers for `item` with `true` from now on,
/// and for every item that it answered for with `true` before; its bits
/// stay as many. The filter must have bits: the crate takes a remainder
/// by their number.
#[verifier::external_body]
pub(crate) fn bloom_set(filter: &mut Bloom<u64>, item: u64)
    requires
        bloom_bits(*old(filter)) > 0,
    ensures
        bloom_bits(*final(filter)) == bloom_bits(*old(filter)),
        bloom_accepts(*final(filter)).contains(item),
        bloom_accepts(*old(filter)).subset_of(bloom_accepts(*final(filter))),
{
    filter.set(&item)
}

/// `Bloom::check`: the filter's answer for `item`. The filter must have
/// bits: the crate takes a remainder by their number.
#[verifier::external_body]
pub(crate) fn bloom_check(filter: &Bloom<u64>, item: u64) -> (answer: bool)
    requires
        bloom_bits(*filter) > 0,
    ensures
        answer == bloom_accepts(*filter).contains(item),
{
    filter.check(&item)
}

/// What the library relies on of an xor filter.
pub struct Xor8View {
    /// Whether keys can still be added: the filter was not built yet.
    pub open: bool,
    /// Whether the tables are there: three blocks of fingerprints, each of
    /// the block length, which is not zero.
    pub built: bool,
    /// The number of distinct digests that the filter holds to build from.
    pub held: nat,
    /// The keys whose digests the filter holds to build from.
    pub covered: Set<u64>,
    /// The keys that the built filter answers for with `true`.
    pub accepts: Set<u64>,
}

/// What an xor filter holds, as far as the library relies on it.
pub uninterp spec fn xor8_view(filter: Xor8<BuildHasherDefault>) -> Xor8View;

/// `Xor8::new`: a filter that holds no digest and is open to keys.
#[verifier::external_body]
pub(crate) fn xor8_new() -> (filter: Xor8<BuildHasherDefault>)
    ensures
        xor8_view(filter).open,
        xor8_view(filter).held == 0,
{
    Xor8::new()
}

/// `Xor8::populate`: the digest of each key is added to those held. The
/// filter must be open: the crate panics on a filter that was built.
#[verifier::external_body]
pub(crate) fn xor8_populate(filter: &mut Xor8<BuildHasherDefault>, keys: &Vec<u64>)
    requires
        xor8_view(*old(filter)).open,
    ensures
        xor8_view(*final(filter)).open,
        xor8_view(*final(filter)).held <= xor8_view(*old(filter)).held + keys@.len(),
        xor8_view(*old(filter)).covered.subset_of(xor8_view(*final(filter)).covered),
        forall|i: int|
            0 <= i < keys@.len() ==> xor8_view(*final(filter)).covered.contains(#[trigger] keys@[i]),
{
    filter.populate(keys.as_slice())
}

/// `Xor8::build`: the filter is closed and its tables are there, and
/// where the build succeeds it answers with `true` for every key whose
/// digest it held. The counts
/// left out are those on which the crate overflows while it sizes its
/// tables. The crate builds by trial, with a new seed for each trial;
/// that a trial succeeds in the end is taken from it as given.
#[verifier::external_body]
pub(crate) fn xor8_build(filter: &mut Xor8<BuildHasherDefault>) -> (built: bool)
    requires
        xor8_view(*old(filter)).open,
        xor8_view(*old(filter)).held <= 0x7fff_ffff,
        xor8_view(*old(filter)).held * 16 <= isize::MAX,
    ensures
        !xor8_view(*final(filter)).open,
        xor8_view(*final(filter)).built,
        built ==> xor8_view(*old(filter)).covered.subset_of(xor8_view(*final(filter)).accepts),
{
    filter.build().is_ok()
}

/// `Xor8::contains`: the filter's answer for `key`. The tables must be
/// there: the crate reads one fingerprint from each block.
#[verifier::external_body]
pub(crate) fn xor8_contains(filter: &Xor8<BuildHasherDefault>, key: u64) -> (answer: bool)
    requires
        xor8_view(*filter).built,
    ensures
        answer == xor8_view(*filter).accepts.contains(key),
{
    filter.contains(&key)
}

} // verus!
