use tig_benchmarker::accumulator::{SolutionAccumulator, SolutionRecord};

fn record(nonce: u64, byte: u8, signature: u32) -> SolutionRecord {
    SolutionRecord { nonce, output: vec![byte, byte], signature }
}

#[test]
fn starts_empty() {
    let accumulator = SolutionAccumulator::new();
    assert!(accumulator.is_empty());
    assert_eq!(accumulator.len(), 0);
    assert!(!accumulator.contains(0));
    assert!(accumulator.get(0).is_none());
}

#[test]
fn files_a_record_under_its_nonce() {
    let mut accumulator = SolutionAccumulator::new();
    assert!(accumulator.insert(record(42, 1, 900)));
    assert_eq!(accumulator.len(), 1);
    assert!(accumulator.contains(42));
    assert!(!accumulator.contains(43));
    assert_eq!(accumulator.get(42), Some(&record(42, 1, 900)));
}

#[test]
fn second_insert_for_a_nonce_changes_nothing() {
    let mut accumulator = SolutionAccumulator::new();
    assert!(accumulator.insert(record(42, 1, 900)));
    assert!(!accumulator.insert(record(42, 2, 5)));
    assert!(!accumulator.insert(record(42, 1, 900)));
    assert_eq!(accumulator.len(), 1);
    assert_eq!(accumulator.get(42), Some(&record(42, 1, 900)));
}

#[test]
fn records_of_other_nonces_stay() {
    let mut accumulator = SolutionAccumulator::new();
    for nonce in 0..50u64 {
        assert!(accumulator.insert(record(nonce, nonce as u8, nonce as u32)));
    }
    assert_eq!(accumulator.len(), 50);
    assert!(!accumulator.is_empty());
    for nonce in 0..50u64 {
        assert_eq!(accumulator.get(nonce), Some(&record(nonce, nonce as u8, nonce as u32)));
    }
}
