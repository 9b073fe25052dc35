use amazon_rose_forest::holochain::arbitration::{
    already_voted, arbitration_result, cast_vote, evaluate_conflict, new_case, update_case_status, validate_case,
    ArbitrationCase, ArbitrationError, ArbitrationResult, ArbitrationState, ArbitrationStatus,
};
use amazon_rose_forest::holochain::hash::{default_hash_bytes, hash_content};

fn open_case() -> ArbitrationCase {
    new_case("case-1".to_string(), "hash".to_string(), "reporter".to_string(), 10)
}

#[test]
fn new_case_is_open_and_empty() {
    let c = open_case();
    assert_eq!(c.status, ArbitrationStatus::Open);
    assert!(c.votes.is_empty());
    assert!(c.resolution.is_none());
    assert_eq!(c.created_at, 10);
    assert!(validate_case(&c));
}

#[test]
fn majority_resolves_after_five_votes() {
    let mut c = open_case();
    for (i, v) in [
        ArbitrationState::Resolve,
        ArbitrationState::Resolve,
        ArbitrationState::Reject,
        ArbitrationState::Resolve,
    ]
    .iter()
    .enumerate()
    {
        cast_vote(&mut c, format!("agent{}", i), *v, None, "why".to_string(), 20 + i as u64).unwrap();
        assert_eq!(c.status, ArbitrationStatus::Open);
    }
    cast_vote(&mut c, "agent9".to_string(), ArbitrationState::Review, None, "hmm".to_string(), 99).unwrap();
    assert_eq!(c.status, ArbitrationStatus::Resolved);
    assert_eq!(c.resolution.as_deref(), Some("Community resolved this case positively"));
    assert_eq!(c.updated_at, 99);
    assert_eq!(c.votes.len(), 5);
    assert!(validate_case(&c));
    assert_eq!(
        cast_vote(&mut c, "late".to_string(), ArbitrationState::Reject, None, "".to_string(), 100),
        Err(ArbitrationError::ClosedCase)
    );
    assert_eq!(c.votes.len(), 5);
}

#[test]
fn majority_rejects() {
    let mut c = open_case();
    for i in 0..3 {
        cast_vote(&mut c, format!("r{}", i), ArbitrationState::Reject, None, String::new(), i).unwrap();
    }
    for i in 0..2 {
        cast_vote(&mut c, format!("v{}", i), ArbitrationState::Review, None, String::new(), 10 + i).unwrap();
    }
    assert_eq!(c.status, ArbitrationStatus::Rejected);
    assert_eq!(c.resolution.as_deref(), Some("Community rejected this case"));
}

#[test]
fn review_third_puts_case_under_review() {
    let mut c = open_case();
    let votes = [
        ArbitrationState::Resolve,
        ArbitrationState::Resolve,
        ArbitrationState::Reject,
        ArbitrationState::Review,
        ArbitrationState::Review,
    ];
    for (i, v) in votes.iter().enumerate() {
        cast_vote(&mut c, format!("a{}", i), *v, None, String::new(), i as u64).unwrap();
    }
    assert_eq!(c.status, ArbitrationStatus::UnderReview);
    assert!(c.resolution.is_none());
    assert!(!validate_case(&c));
    cast_vote(&mut c, "a9".to_string(), ArbitrationState::Resolve, None, String::new(), 9).unwrap();
    assert_eq!(c.votes.len(), 6);
}

#[test]
fn a_member_votes_once() {
    let mut c = open_case();
    cast_vote(&mut c, "alice".to_string(), ArbitrationState::Resolve, None, String::new(), 1).unwrap();
    assert!(already_voted(&c, "alice"));
    assert!(!already_voted(&c, "bob"));
    assert_eq!(
        cast_vote(&mut c, "alice".to_string(), ArbitrationState::Reject, None, String::new(), 2),
        Err(ArbitrationError::AlreadyVoted)
    );
    assert_eq!(c.votes.len(), 1);
    assert_eq!(c.updated_at, 1);
}

#[test]
fn status_update_without_votes_changes_nothing() {
    let mut c = open_case();
    update_case_status(&mut c);
    assert_eq!(c.status, ArbitrationStatus::Open);
}

#[test]
fn judgements_map_to_results() {
    assert_eq!(arbitration_result(ArbitrationState::Resolve), ArbitrationResult::Accept);
    assert_eq!(arbitration_result(ArbitrationState::Review), ArbitrationResult::Neutral);
    assert_eq!(arbitration_result(ArbitrationState::Reject), ArbitrationResult::Reject);
    assert_eq!(evaluate_conflict("harmful", true, true), ArbitrationState::Reject);
    assert_eq!(evaluate_conflict("harmful", false, true), ArbitrationState::Review);
    assert_eq!(evaluate_conflict("positive", false, true), ArbitrationState::Resolve);
    assert_eq!(evaluate_conflict("neutral", true, true), ArbitrationState::Review);
}

#[test]
fn content_hash_is_hex_of_bytes() {
    assert_eq!(hash_content(""), "");
    assert_eq!(hash_content("Hi!"), "486921");
    assert_eq!(hash_content("\u{e9}"), "c3a9");
    assert_eq!(hash_content("az\n"), "617a0a");
}

#[test]
fn default_hash_is_sha256() {
    let d = default_hash_bytes(b"abc");
    let hex: String = d.iter().map(|b| format!("{:02x}", b)).collect();
    assert_eq!(hex, "ba7816bf8f01cfea414140de5dae2223b00361a396177a9cb410ff61f20015ad");
    assert_eq!(default_hash_bytes(b"").len(), 32);
}

#[test]
fn vote_weight_defaults_to_one() {
    let mut c = new_case("case".to_string(), "hash".to_string(), "reporter".to_string(), 0);
    cast_vote(&mut c, "a".to_string(), ArbitrationState::Resolve, None, String::new(), 1).unwrap();
    cast_vote(&mut c, "b".to_string(), ArbitrationState::Resolve, Some(250), String::new(), 2).unwrap();
    assert_eq!(c.votes[0].weight_hundredths, 100);
    assert_eq!(c.votes[1].weight_hundredths, 250);
}

#[test]
fn vote_keeps_the_case_identity() {
    let mut c = new_case("case".to_string(), "hash".to_string(), "reporter".to_string(), 0);
    cast_vote(&mut c, "a".to_string(), ArbitrationState::Review, None, String::new(), 1).unwrap();
    assert_eq!(c.id, "case");
    assert_eq!(c.content_hash, "hash");
    assert_eq!(c.reporter, "reporter");
    assert_eq!(c.created_at, 0);
}
