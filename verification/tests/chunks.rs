use fuse_engine::chunks::split_values;

fn strings(items: &[&str]) -> Vec<String> {
    items.iter().map(|s| s.to_string()).collect()
}

#[test]
fn values_are_cut_into_chunks_of_the_given_size() {
    let chunks = split_values(strings(&["a", "b", "c", "d", "e"]), 2);
    assert_eq!(chunks, vec![strings(&["a", "b"]), strings(&["c", "d"]), strings(&["e"])]);
}

#[test]
fn exact_multiple_leaves_no_short_chunk() {
    let chunks = split_values(strings(&["a", "b", "c", "d"]), 2);
    assert_eq!(chunks, vec![strings(&["a", "b"]), strings(&["c", "d"])]);
    assert_eq!(split_values(strings(&["a"]), 1), vec![strings(&["a"])]);
}

#[test]
fn no_values_give_no_chunks() {
    assert_eq!(split_values(vec![], 3), Vec::<Vec<String>>::new());
    assert_eq!(split_values(vec![], 0), Vec::<Vec<String>>::new());
}

#[test]
fn chunk_size_beyond_the_input_gives_one_chunk() {
    assert_eq!(split_values(strings(&["a", "b"]), 10), vec![strings(&["a", "b"])]);
}

#[test]
fn chunk_size_zero_cuts_nothing() {
    assert_eq!(split_values(strings(&["a", "b", "c"]), 0), vec![strings(&["a", "b", "c"])]);
}
