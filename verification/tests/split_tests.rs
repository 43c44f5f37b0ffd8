use benford_crawl::util::num_to_letter_ascii;
use benford_crawl::util::split;

fn strings(v: &[&str]) -> Vec<String> {
    v.iter().map(|s| s.to_string()).collect()
}

#[test]
fn split_empty_input_gives_no_chunks() {
    for n in 1..6 {
        assert_eq!(split(Vec::new(), n).len(), 0);
    }
}

#[test]
fn split_partitions_exactly() {
    let source = strings(&["a", "b", "c", "d", "e"]);
    let chunks = split(source.clone(), 2);
    let rejoined: Vec<String> = chunks.iter().flatten().cloned().collect();
    assert_eq!(rejoined, source);
    // chunk size is floor(5 / 2) + 1 = 3
    assert_eq!(chunks[0].len(), 3);
    assert_eq!(chunks[1].len(), 2);
}

#[test]
fn split_exact_division_leaves_trailing_empty_chunk() {
    let source = strings(&["a", "b", "c", "d"]);
    let chunks = split(source.clone(), 4);
    // chunk size is floor(4 / 4) + 1 = 2
    assert_eq!(chunks.len(), 3);
    assert_eq!(chunks[0], strings(&["a", "b"]));
    assert_eq!(chunks[1], strings(&["c", "d"]));
    assert!(chunks[2].is_empty());
}

#[test]
fn split_single_chunk_holds_everything() {
    let source = strings(&["a", "b"]);
    let chunks = split(source.clone(), 8);
    let rejoined: Vec<String> = chunks.iter().flatten().cloned().collect();
    assert_eq!(rejoined, source);
}

#[test]
fn letters_cycle_through_the_alphabet() {
    assert_eq!(num_to_letter_ascii(0), "a");
    assert_eq!(num_to_letter_ascii(1), "b");
    assert_eq!(num_to_letter_ascii(25), "z");
    assert_eq!(num_to_letter_ascii(26), "a");
    assert_eq!(num_to_letter_ascii(27), "b");
}
