use spacedrep::intervals::compute_next_review_date;
use spacedrep::intervals::normalize_intervals;

const DAY: i64 = 86400;

#[test]
fn normalize_sorts_dedups_and_filters() {
    let out = normalize_intervals(&vec![7, 3, 3, -2, 0, 1]);
    assert_eq!(out, vec![1, 3, 7]);
}

#[test]
fn normalize_empty_input_defaults_to_one() {
    let out = normalize_intervals(&vec![]);
    assert_eq!(out, vec![1]);
}

#[test]
fn normalize_no_positive_values_defaults_to_one() {
    let out = normalize_intervals(&vec![0, -5, -1]);
    assert_eq!(out, vec![1]);
}

#[test]
fn normalize_keeps_single_value() {
    let out = normalize_intervals(&vec![14]);
    assert_eq!(out, vec![14]);
}

#[test]
fn next_review_uses_base_and_indexed_interval() {
    let ladder = vec![1, 3, 7];
    assert_eq!(compute_next_review_date(None, &ladder, 0, 1_000), 1_000 + DAY);
    assert_eq!(
        compute_next_review_date(Some(500), &ladder, 1, 1_000),
        500 + 3 * DAY
    );
}

#[test]
fn next_review_clamps_the_index() {
    let ladder = vec![2, 4];
    // Below the ladder: first entry; beyond it: last entry.
    assert_eq!(compute_next_review_date(None, &ladder, -3, 100), 100 + 2 * DAY);
    assert_eq!(compute_next_review_date(None, &ladder, 9, 100), 100 + 4 * DAY);
}
