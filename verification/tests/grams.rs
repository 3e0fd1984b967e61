use fuse_engine::grams::add_text_grams;
use fuse_engine::grams::block_contains;
use fuse_engine::grams::block_gram_hashes;
use fuse_engine::grams::block_verdicts;
use fuse_engine::grams::contains_bytes;
use fuse_engine::grams::hash_gram;
use fuse_engine::grams::key_gram_hashes;
use fuse_engine::grams::tally_filters;
use fuse_engine::grams::BlockFilters;
use fuse_engine::grams::FilterTally;
use fuse_engine::grams::Verdict;
use std::collections::hash_map::DefaultHasher;
use std::collections::HashSet;
use std::hash::Hash;
use std::hash::Hasher;

fn std_hash(gram: &str) -> u64 {
    let mut hasher = DefaultHasher::new();
    gram.to_string().hash(&mut hasher);
    hasher.finish()
}

fn strings(items: &[&str]) -> Vec<String> {
    items.iter().map(|s| s.to_string()).collect()
}

#[test]
fn gram_hash_is_the_hash_of_the_string() {
    for gram in ["", "a", "abc", "is beautif", "héllo", "日本語"] {
        assert_eq!(hash_gram(gram.as_bytes()), std_hash(gram));
    }
    assert_ne!(hash_gram(b"abc"), hash_gram(b"abd"));
}

#[test]
fn key_grams_stop_one_short_of_the_last_window() {
    assert_eq!(key_gram_hashes("abcde", 3), vec![std_hash("abc"), std_hash("bcd")]);
    assert_eq!(key_gram_hashes("abc", 3), Vec::<u64>::new());
    assert_eq!(key_gram_hashes("ab", 3), Vec::<u64>::new());
    assert_eq!(key_gram_hashes("", 0), Vec::<u64>::new());
    assert_eq!(key_gram_hashes("ab", 0), vec![std_hash(""), std_hash("")]);
}

#[test]
fn text_grams_are_windows_of_characters() {
    let mut seen = HashSet::new();
    let mut keys = Vec::new();
    add_text_grams("añb日c", 2, &mut seen, &mut keys);
    assert_eq!(keys, vec![std_hash("añ"), std_hash("ñb"), std_hash("b日"), std_hash("日c")]);
    assert_eq!(seen, keys.iter().copied().collect::<HashSet<u64>>());
    add_text_grams("日c!", 2, &mut seen, &mut keys);
    assert_eq!(keys.len(), 5);
    assert_eq!(keys[4], std_hash("c!"));
    add_text_grams("x", 2, &mut seen, &mut keys);
    add_text_grams("anything", 0, &mut seen, &mut keys);
    assert_eq!(keys.len(), 5);
    let mut whole = (HashSet::new(), Vec::new());
    add_text_grams("añ", 2, &mut whole.0, &mut whole.1);
    assert_eq!(whole.1, vec![std_hash("añ")]);
}

#[test]
fn block_grams_are_listed_once() {
    let block = strings(&["abab", "bab", "", "a"]);
    assert_eq!(block_gram_hashes(&block, 2), vec![std_hash("ab"), std_hash("ba")]);
    assert_eq!(block_gram_hashes(&block, 5), Vec::<u64>::new());
    assert_eq!(block_gram_hashes(&vec![], 2), Vec::<u64>::new());
}

#[test]
fn bytes_are_found_where_they_occur() {
    assert!(contains_bytes(b"hello world", b"lo w"));
    assert!(contains_bytes(b"hello world", b"hello world"));
    assert!(contains_bytes(b"hello world", b"d"));
    assert!(contains_bytes(b"hello world", b""));
    assert!(contains_bytes(b"", b""));
    assert!(contains_bytes(b"aab", b"ab"));
    assert!(!contains_bytes(b"hello world", b"worlds"));
    assert!(!contains_bytes(b"hello", b"hello world"));
    assert!(!contains_bytes(b"", b"a"));
    assert!(!contains_bytes(b"abcabd", b"abe"));
    let block = strings(&["first text", "second text"]);
    assert!(block_contains(&block, "cond"));
    assert!(!block_contains(&block, "third"));
    assert!(!block_contains(&vec![], ""));
}

#[test]
fn filters_never_miss_a_key_that_the_block_holds() {
    let block = strings(&[
        "The first track with Chris Botti is beautiful",
        "I cook my oats in a crockpot overnight.",
        "short",
    ]);
    let keys = strings(&["is beautif", "crockpot", "oats in a", "Chris Botti"]);
    for gram_size in 3..8 {
        let verdicts = block_verdicts(&block, &keys, gram_size, 1024).unwrap();
        assert_eq!(verdicts, vec![Verdict { present: true, bloom: true, xor8: true }; 4]);
    }
}

#[test]
fn absent_key_is_told_apart_from_the_texts() {
    let block = strings(&["I cook my oats in a crockpot overnight."]);
    let keys = strings(&["aaaaaaaa bbbbbbbb not exist", "crockpot"]);
    let verdicts = block_verdicts(&block, &keys, 4, 100 * 1024).unwrap();
    assert_eq!(verdicts.len(), 2);
    assert!(!verdicts[0].present);
    assert_eq!(verdicts[1], Verdict { present: true, bloom: true, xor8: true });
}

#[test]
fn a_key_without_grams_is_claimed_by_both_filters() {
    let block = strings(&["abcdef"]);
    let verdicts = block_verdicts(&block, &strings(&["zz"]), 3, 64).unwrap();
    assert_eq!(verdicts, vec![Verdict { present: false, bloom: true, xor8: true }]);
}

#[test]
fn no_verdicts_without_filters() {
    let keys = strings(&["abc"]);
    assert_eq!(block_verdicts(&strings(&["abcdef"]), &keys, 3, 0), None);
    assert_eq!(block_verdicts(&strings(&["ab", ""]), &keys, 3, 64), None);
    assert_eq!(block_verdicts(&vec![], &keys, 3, 64), None);
    assert_eq!(block_verdicts(&strings(&["abcdef"]), &keys, 0, 64), None);
    assert_eq!(block_verdicts(&strings(&["abcdef"]), &vec![], 3, 64), Some(vec![]));
}

#[test]
fn tally_counts_every_block_and_key() {
    let values = vec![
        strings(&["the quick brown fox", "jumps over the lazy dog"]),
        strings(&["pack my box with five dozen liquor jugs"]),
        strings(&["sphinx of black quartz, judge my vow"]),
    ];
    let keys = strings(&["quick brown", "liquor jugs", "black quartz", "missing words here"]);
    let tally = tally_filters(4, 500 * 1024, &values, &keys).unwrap();
    assert_eq!(tally.all_count, 12);
    assert!(tally.bloom_failed <= 9);
    assert!(tally.xor8_failed <= 9);
    assert_eq!(tally_filters(4, 64, &vec![], &keys), Some(FilterTally::new()));
    assert_eq!(tally_filters(4, 0, &values, &keys), None);
    assert_eq!(tally_filters(40, 64, &values, &keys), None);
}

#[test]
fn tally_record_counts_disagreements() {
    let mut tally = FilterTally::new();
    assert_eq!(tally, FilterTally { bloom_failed: 0, xor8_failed: 0, all_count: 0 });
    tally.record(Verdict { present: true, bloom: true, xor8: true });
    tally.record(Verdict { present: false, bloom: true, xor8: false });
    tally.record(Verdict { present: false, bloom: false, xor8: true });
    tally.record(Verdict { present: true, bloom: false, xor8: false });
    assert_eq!(tally, FilterTally { bloom_failed: 2, xor8_failed: 2, all_count: 4 });
}

#[test]
fn filters_answer_for_every_key_they_were_built_from() {
    let keys: Vec<u64> = (0..500u64).map(|k| k * 7919 + 13).collect();
    let filters = BlockFilters::build(&keys, 4096).unwrap();
    assert_eq!(filters.claims(&keys), (true, true));
    assert_eq!(filters.claims(&vec![keys[3], keys[499]]), (true, true));
    assert_eq!(filters.claims(&vec![]), (true, true));
    let strangers: Vec<u64> = (0..500u64).map(|k| k * 7919 + 14).collect();
    assert_eq!(filters.claims(&strangers), (false, false));
}

#[test]
fn no_filters_for_sizes_that_do_not_fit() {
    assert!(BlockFilters::build(&vec![], 4096).is_none());
    assert!(BlockFilters::build(&vec![1, 2, 3], 0).is_none());
    assert!(BlockFilters::build(&vec![1, 2, 3], usize::MAX).is_none());
    assert!(BlockFilters::build(&vec![1, 2, 3], 1).is_some());
}

#[test]
fn verdicts_are_those_of_the_filters_handed_in() {
    let block = strings(&["I cook my oats in a crockpot overnight.", "second text"]);
    let filters = BlockFilters::build(&block_gram_hashes(&block, 4), 4096).unwrap();
    let keys = strings(&["crockpot", "cond te", "zzzzzzzzzz not there", "oat"]);
    let verdicts = filters.verdicts(&block, &keys, 4);
    assert_eq!(verdicts.len(), 4);
    for (key, verdict) in keys.iter().zip(&verdicts) {
        let (bloom, xor8) = filters.claims(&key_gram_hashes(key, 4));
        assert_eq!(*verdict, Verdict { present: block_contains(&block, key), bloom, xor8 });
    }
    assert_eq!(verdicts[0], Verdict { present: true, bloom: true, xor8: true });
    assert_eq!(verdicts[1], Verdict { present: true, bloom: true, xor8: true });
    assert!(!verdicts[2].present);
    assert_eq!(verdicts[3], Verdict { present: true, bloom: true, xor8: true });
    let other = strings(&["nothing alike"]);
    assert_eq!(
        filters.verdicts(&other, &strings(&["crockpot"]), 4),
        vec![Verdict { present: false, bloom: true, xor8: true }]
    );
    assert_eq!(filters.verdicts(&block, &vec![], 4), vec![]);
}

#[test]
fn tally_record_all_counts_verdicts_in_order() {
    let verdicts = vec![
        Verdict { present: true, bloom: true, xor8: true },
        Verdict { present: false, bloom: true, xor8: false },
        Verdict { present: true, bloom: false, xor8: false },
    ];
    let mut tally = FilterTally::new();
    tally.record_all(&verdicts);
    assert_eq!(tally, FilterTally { bloom_failed: 2, xor8_failed: 1, all_count: 3 });
    tally.record_all(&vec![]);
    assert_eq!(tally, FilterTally { bloom_failed: 2, xor8_failed: 1, all_count: 3 });
    tally.record_all(&verdicts[1..].to_vec());
    assert_eq!(tally, FilterTally { bloom_failed: 4, xor8_failed: 2, all_count: 5 });
}

#[test]
fn tally_of_held_ascii_keys_has_no_failure() {
    let values = vec![
        strings(&["the quick brown fox", "jumps over the lazy dog"]),
        strings(&["the lazy dog sleeps; quick, brown fox!"]),
    ];
    let keys = strings(&["lazy dog", "the ", "e l"]);
    for gram_size in 1..4 {
        let tally = tally_filters(gram_size, 2048, &values, &keys).unwrap();
        assert_eq!(tally, FilterTally { bloom_failed: 0, xor8_failed: 0, all_count: 6 });
    }
}
