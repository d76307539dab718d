use fluke_server::threshold_index::{LiquidationEntry, ThresholdIndex};

fn entry(cost_unwind: i128, size_unwind: i128, user_id: &str) -> LiquidationEntry {
    LiquidationEntry { cost_unwind, size_unwind, user_id: user_id.to_string() }
}

fn names(index: &ThresholdIndex, key: i128) -> Vec<String> {
    index.entries_at(key).unwrap().iter().map(|e| e.user_id.clone()).collect()
}

fn sample() -> ThresholdIndex {
    ThresholdIndex::new()
        .record(30, entry(1, 2, "c"))
        .record(-10, entry(3, 4, "a"))
        .record(20, entry(5, 6, "b"))
        .record(30, entry(7, 8, "d"))
        .record(i128::MAX, entry(9, 10, "top"))
        .record(i128::MIN, entry(11, 12, "bottom"))
        .record(20, entry(13, 14, "e"))
}

#[test]
fn new_index_has_no_thresholds() {
    let index = ThresholdIndex::new();
    assert!(index.keys().is_empty());
    assert_eq!(index.first_key_above(0), None);
    assert_eq!(index.last_key_below(0), None);
    assert!(index.entries_at(0).is_none());
}

#[test]
fn keys_come_in_increasing_order() {
    assert_eq!(sample().keys(), vec![i128::MIN, -10, 20, 30, i128::MAX]);
}

#[test]
fn entries_of_one_key_keep_the_order_of_recording() {
    let index = sample();
    assert_eq!(names(&index, 30), vec!["c", "d"]);
    assert_eq!(names(&index, 20), vec!["b", "e"]);
    assert_eq!(names(&index, -10), vec!["a"]);
    assert_eq!(index.entries_at(20).unwrap()[1].cost_unwind, 13);
    assert_eq!(index.entries_at(20).unwrap()[1].size_unwind, 14);
    assert!(index.entries_at(25).is_none());
}

#[test]
fn first_key_above_is_strictly_above() {
    let index = sample();
    assert_eq!(index.first_key_above(-11), Some(-10));
    assert_eq!(index.first_key_above(-10), Some(20));
    assert_eq!(index.first_key_above(19), Some(20));
    assert_eq!(index.first_key_above(20), Some(30));
    assert_eq!(index.first_key_above(30), Some(i128::MAX));
    assert_eq!(index.first_key_above(i128::MAX - 1), Some(i128::MAX));
    assert_eq!(index.first_key_above(i128::MAX), None);
    assert_eq!(index.first_key_above(i128::MIN), Some(-10));
}

#[test]
fn last_key_below_is_strictly_below() {
    let index = sample();
    assert_eq!(index.last_key_below(31), Some(30));
    assert_eq!(index.last_key_below(30), Some(20));
    assert_eq!(index.last_key_below(20), Some(-10));
    assert_eq!(index.last_key_below(-10), Some(i128::MIN));
    assert_eq!(index.last_key_below(i128::MIN + 1), Some(i128::MIN));
    assert_eq!(index.last_key_below(i128::MIN), None);
    assert_eq!(index.last_key_below(i128::MAX), Some(30));
}

#[test]
fn clone_holds_the_same_thresholds() {
    let index = sample();
    let copy = index.clone();
    assert_eq!(copy.keys(), index.keys());
    for key in index.keys() {
        assert_eq!(names(&copy, key), names(&index, key));
    }
    let grown = copy.record(0, entry(0, 0, "new"));
    assert_eq!(grown.keys().len(), 6);
    assert_eq!(index.keys().len(), 5);
}
