use std::collections::HashSet;

use user_embedding::model::{entry_ids_of, ImpressionRecord};
use user_embedding::sampling::{pick_by_indices, sample_entry_ids, SAMPLE_LIMIT};

fn ids(n: usize) -> Vec<String> {
    (0..n).map(|i| format!("entry-{}", i)).collect()
}

#[test]
fn sample_takes_every_candidate_when_fewer_than_limit() {
    let candidates = ids(5);
    let chosen = sample_entry_ids(&candidates);
    assert_eq!(chosen.len(), 5);
    let mut sorted = chosen.clone();
    sorted.sort();
    let mut expected = candidates.clone();
    expected.sort();
    assert_eq!(sorted, expected);
}

#[test]
fn sample_is_capped_at_limit_without_repeated_slots() {
    let candidates = ids(250);
    let chosen = sample_entry_ids(&candidates);
    assert_eq!(SAMPLE_LIMIT, 100);
    assert_eq!(chosen.len(), 100);
    let distinct: HashSet<&String> = chosen.iter().collect();
    assert_eq!(distinct.len(), 100);
    let pool: HashSet<&String> = candidates.iter().collect();
    assert!(chosen.iter().all(|c| pool.contains(c)));
}

#[test]
fn sample_of_exactly_limit_is_a_permutation() {
    let candidates = ids(100);
    let mut chosen = sample_entry_ids(&candidates);
    chosen.sort();
    let mut expected = candidates.clone();
    expected.sort();
    assert_eq!(chosen, expected);
}

#[test]
fn sample_of_nothing_is_empty() {
    assert!(sample_entry_ids(&Vec::new()).is_empty());
}

#[test]
fn sample_keeps_duplicate_ids_as_separate_slots() {
    let candidates = vec!["a".to_string(), "a".to_string(), "b".to_string()];
    let mut chosen = sample_entry_ids(&candidates);
    chosen.sort();
    assert_eq!(chosen, vec!["a".to_string(), "a".to_string(), "b".to_string()]);
}

#[test]
fn pick_by_indices_follows_pick_order() {
    let candidates = ids(4);
    let chosen = pick_by_indices(&candidates, &vec![3, 0, 2]);
    assert_eq!(chosen, vec!["entry-3".to_string(), "entry-0".to_string(), "entry-2".to_string()]);
}

#[test]
fn entry_ids_keep_order_and_duplicates() {
    let records = vec![
        ImpressionRecord { impression_id: "i1".to_string(), entry_id: "e1".to_string() },
        ImpressionRecord { impression_id: "i2".to_string(), entry_id: "e2".to_string() },
        ImpressionRecord { impression_id: "i3".to_string(), entry_id: "e1".to_string() },
    ];
    assert_eq!(
        entry_ids_of(&records),
        vec!["e1".to_string(), "e2".to_string(), "e1".to_string()]
    );
}
