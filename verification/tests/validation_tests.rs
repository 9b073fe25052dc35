use amazon_rose_forest::darwin::language::validation_language;
use amazon_rose_forest::darwin::validation::{ValidationError, ValidationHistory, ValidationRecord, MAX_HISTORY};

fn record(id: u128, names: &[&str]) -> ValidationRecord<u32> {
    ValidationRecord {
        modification_id: id,
        metric_names: names.iter().map(|n| n.to_string()).collect(),
        metrics: id as u32,
        passed: true,
        was_correct: None,
    }
}

#[test]
fn feedback_marks_the_first_result() {
    let mut h: ValidationHistory<u32> = ValidationHistory::new();
    h.record_at(record(1, &["a"]), 10);
    h.record_at(record(2, &["a"]), 20);
    h.record_at(record(1, &["b"]), 30);
    assert!(!h.has_feedback());
    assert_eq!(h.feedback_on_validation(1, false), Ok(()));
    assert_eq!(h.record(0).was_correct, Some(false));
    assert_eq!(h.record(2).was_correct, None);
    assert!(h.has_feedback());
    assert_eq!(h.feedback_on_validation(9, true), Err(ValidationError::ResultNotFound(9)));
}

#[test]
fn rules_are_tallied_on_known_decisions() {
    let mut h: ValidationHistory<u32> = ValidationHistory::new();
    h.record_at(record(1, &["a", "b"]), 1);
    h.record_at(record(2, &["a"]), 2);
    h.record_at(record(3, &["b", "a", "c"]), 3);
    h.record_at(record(4, &["a", "b"]), 4);
    h.feedback_on_validation(1, true).unwrap();
    h.feedback_on_validation(2, true).unwrap();
    h.feedback_on_validation(3, false).unwrap();
    // record 4 has no feedback; record 2 lacks metric "b"
    let names = vec!["a".to_string(), "b".to_string()];
    assert_eq!(h.rule_tally(&names, &vec![true, true, true, true]), (1, 2));
    assert_eq!(h.rule_tally(&names, &vec![true, false, false, false]), (2, 2));
    assert_eq!(h.rule_tally(&vec![], &vec![false, false, false, false]), (1, 3));
}

#[test]
fn history_keeps_the_newest_oldest_first() {
    let mut h: ValidationHistory<u32> = ValidationHistory::new();
    for i in 0..MAX_HISTORY {
        h.record_at(record(i as u128, &[]), 10 + i as i64);
    }
    assert_eq!(h.len(), MAX_HISTORY);
    h.record_at(record(5000, &[]), 5);
    assert_eq!(h.len(), MAX_HISTORY);
    assert_eq!(h.record(0).modification_id, 0);
    assert_eq!(h.record(MAX_HISTORY - 1).modification_id, (MAX_HISTORY - 1) as u128);
    h.record_at(record(6000, &[]), 100_000);
    assert_eq!(h.record(0).modification_id, 1);
    assert_eq!(h.record(MAX_HISTORY - 1).modification_id, 6000);
}

#[test]
fn validation_language_by_extension() {
    assert_eq!(validation_language("src/main.rs"), "rust");
    assert_eq!(validation_language("a/b.c/x.cxx"), "cpp");
    assert_eq!(validation_language("lib.cc"), "cpp");
    assert_eq!(validation_language("app.ts"), "typescript");
    assert_eq!(validation_language("Program.cs"), "csharp");
    assert_eq!(validation_language("README.md"), "unknown");
    assert_eq!(validation_language("Makefile"), "unknown");
    assert_eq!(validation_language("rs"), "rust");
}
