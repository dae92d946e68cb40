use lc::order::sort_records;
use lc::record::Filelines;

fn records(items: &[(&str, u64)]) -> Vec<Filelines> {
    items.iter().map(|(name, lines)| Filelines::new(name, *lines)).collect()
}

fn pairs(records: &[Filelines]) -> Vec<(String, u64)> {
    records.iter().map(|r| (r.name().to_string(), r.lines())).collect()
}

fn expected(items: &[(&str, u64)]) -> Vec<(String, u64)> {
    items.iter().map(|(name, lines)| (name.to_string(), *lines)).collect()
}

#[test]
fn record_keeps_the_final_segment_and_the_count() {
    let record = Filelines::new("/some/dir/notes.txt", 42);
    assert_eq!(record.name(), "notes.txt");
    assert_eq!(record.lines(), 42);
    let copy = record.clone();
    assert_eq!(copy.name(), "notes.txt");
    assert_eq!(copy.lines(), 42);
}

#[test]
fn ascending_order() {
    let out = sort_records(records(&[("c", 10), ("a", 3), ("b", 5)]), false);
    assert_eq!(pairs(&out), expected(&[("a", 3), ("b", 5), ("c", 10)]));
}

#[test]
fn descending_order() {
    let out = sort_records(records(&[("a", 3), ("c", 10), ("b", 5)]), true);
    assert_eq!(pairs(&out), expected(&[("c", 10), ("b", 5), ("a", 3)]));
}

#[test]
fn equal_counts_keep_their_order_ascending() {
    let out = sort_records(
        records(&[("x", 2), ("p", 1), ("y", 2), ("q", 1), ("z", 2), ("r", 0)]),
        false,
    );
    assert_eq!(
        pairs(&out),
        expected(&[("r", 0), ("p", 1), ("q", 1), ("x", 2), ("y", 2), ("z", 2)])
    );
}

#[test]
fn equal_counts_keep_their_order_descending() {
    let out = sort_records(
        records(&[("x", 2), ("p", 1), ("y", 2), ("q", 1), ("z", 2), ("r", 0)]),
        true,
    );
    assert_eq!(
        pairs(&out),
        expected(&[("x", 2), ("y", 2), ("z", 2), ("p", 1), ("q", 1), ("r", 0)])
    );
}

#[test]
fn nothing_and_one_record_stay_as_they_are() {
    assert!(sort_records(Vec::new(), false).is_empty());
    let out = sort_records(records(&[("only", 9)]), true);
    assert_eq!(pairs(&out), expected(&[("only", 9)]));
}

#[test]
fn sorting_agrees_with_the_standard_stable_sort() {
    let mut items: Vec<(String, u64)> = Vec::new();
    let mut seed: u64 = 12345;
    for i in 0..500 {
        seed = seed.wrapping_mul(6364136223846793005).wrapping_add(1442695040888963407);
        items.push((format!("f{}", i), (seed >> 33) % 40));
    }
    let given: Vec<Filelines> = items.iter().map(|(n, l)| Filelines::new(n, *l)).collect();

    let mut ascending = items.clone();
    ascending.sort_by_key(|item| item.1);
    assert_eq!(pairs(&sort_records(given.clone(), false)), ascending);

    let mut descending = items.clone();
    descending.sort_by_key(|item| u64::MAX - item.1);
    assert_eq!(pairs(&sort_records(given, true)), descending);
}

#[test]
fn neighbours_are_in_order() {
    let given = records(&[("a", 7), ("b", 0), ("c", 7), ("d", 3), ("e", 1), ("f", 3), ("g", 9)]);
    let up = sort_records(given.clone(), false);
    assert_eq!(up.len(), 7);
    for pair in up.windows(2) {
        assert!(pair[0].lines() <= pair[1].lines());
    }
    let down = sort_records(given, true);
    assert_eq!(down.len(), 7);
    for pair in down.windows(2) {
        assert!(pair[0].lines() >= pair[1].lines());
    }
}

#[test]
fn sorting_sorted_records_changes_nothing() {
    let once = sort_records(records(&[("b", 2), ("a", 1), ("c", 2), ("d", 0)]), false);
    let twice = sort_records(once.clone(), false);
    assert_eq!(pairs(&once), pairs(&twice));
}
