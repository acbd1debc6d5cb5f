use vaxtify::interval::Interval;

fn test_merge(input: &[(u32, u32)], output: &[(u32, u32)]) {
    let input = input.iter().map(|(a, b)| Interval::example(*a, *b)).collect();
    let output: Vec<_> = output.iter().map(|(a, b)| Interval::example(*a, *b)).collect();
    assert_eq!(Interval::merge(input), output);
}

#[test]
fn merge_empty() {
    test_merge(&[], &[]);
}

#[test]
fn merge_nonoverlapping() {
    test_merge(&[(0, 1)], &[(0, 1)]);
    test_merge(&[(0, 1), (2, 3)], &[(0, 1), (2, 3)]);
    test_merge(&[(2, 3), (0, 1)], &[(0, 1), (2, 3)]);
    test_merge(&[(0, 1), (2, 3), (4, 6)], &[(0, 1), (2, 3), (4, 6)]);
}

#[test]
fn merge_overlapping() {
    test_merge(&[(0, 1), (1, 2)], &[(0, 2)]);
    test_merge(&[(0, 4), (1, 6), (6, 7)], &[(0, 7)]);
}

#[test]
fn merge_contained_and_unsorted() {
    test_merge(&[(5, 9), (0, 10), (12, 13), (11, 11)], &[(0, 10), (11, 11), (12, 13)]);
}

#[test]
fn example_times() {
    assert_eq!(Interval::example(0, 2), Interval { since: 1_577_836_800_000, until: 1_577_836_802_000 });
}
