use guesser::Challenge;
use guesser::ChallengeLedger;
use guesser::Creation;
use guesser::Event;
use guesser::LedgerError;
use guesser::Resolution;
use guesser::SubmissionOutcome;
use sha2::Digest;

const ALICE: u64 = 1;
const BOB: u64 = 2;
const CAROL: u64 = 3;

fn digest_of(answer: &str) -> Vec<u8> {
    sha2::Sha256::digest(answer.as_bytes()).to_vec()
}

#[test]
fn default_works() {
    let ledger = ChallengeLedger::new();
    assert_eq!(ledger.challenge_count(), 0);
    assert_eq!(ledger.owner_count(), 0);
    assert_eq!(ledger.submission_count(), 0);
    assert_eq!(ledger.event_count(), 0);
}

#[test]
fn it_works() {
    let mut ledger = ChallengeLedger::new();
    let commitment = digest_of("secret");
    let id = ledger
        .create_challenge(commitment, 500, ALICE)
        .expect("creation should succeed");
    let outcome = ledger.submit_answer(&id, String::from("secret"), BOB);
    assert_eq!(outcome, Ok(SubmissionOutcome::Accepted));
    let solved = ledger.get_challenge(&id).expect("challenge should exist");
    assert!(solved.solved);
    assert_eq!(solved.solver, Some(BOB));
}

#[test]
fn lib_default_works() {
    let ledger = ChallengeLedger::new();
    assert_eq!(false, false);
    assert_eq!(ledger.challenge_count(), 0);
}

#[test]
fn challenge_creation_works() {
    let mut ledger = ChallengeLedger::new();
    let commitment = vec![0x99u8; 32];
    let result = ledger.create_challenge(commitment.clone(), 100, ALICE);
    // Assert that challenge creation has been successful.
    assert_eq!(result, Ok(commitment.clone()));
    // Assert that an event gets emitted on challenge creation.
    assert_eq!(ledger.event_count(), 1);
    assert_eq!(
        ledger.event_at(0),
        Event::Creation(Creation { challenge: commitment, challenge_prize: 100 })
    );
}

#[test]
fn create_then_get_returns_fresh_record() {
    let mut ledger = ChallengeLedger::new();
    let commitment = digest_of("answer");
    let id = ledger
        .create_challenge(commitment.clone(), 42, ALICE)
        .expect("creation should succeed");
    assert_eq!(id, commitment);
    let challenge = ledger.get_challenge(&id).expect("challenge should exist");
    assert_eq!(
        challenge,
        Challenge {
            commitment: commitment.clone(),
            prize: 42,
            owner: ALICE,
            solved: false,
            solver: None,
        }
    );
}

#[test]
fn duplicate_commitment_is_rejected() {
    let mut ledger = ChallengeLedger::new();
    let commitment = digest_of("answer");
    let id = ledger
        .create_challenge(commitment.clone(), 42, ALICE)
        .expect("creation should succeed");
    let before = ledger.get_challenge(&id).expect("challenge should exist");
    let second = ledger.create_challenge(commitment, 1000, BOB);
    assert_eq!(second, Err(LedgerError::DuplicateChallenge));
    // The first challenge's state is untouched, and nothing else changed.
    let after = ledger.get_challenge(&id).expect("challenge should exist");
    assert_eq!(before, after);
    assert_eq!(ledger.challenge_count(), 1);
    assert_eq!(ledger.owner_count(), 1);
    assert_eq!(ledger.event_count(), 1);
}

#[test]
fn correct_answer_is_accepted() {
    let mut ledger = ChallengeLedger::new();
    let commitment = digest_of("42");
    let id = ledger
        .create_challenge(commitment, 900, ALICE)
        .expect("creation should succeed");
    let outcome = ledger.submit_answer(&id, String::from("42"), CAROL);
    assert_eq!(outcome, Ok(SubmissionOutcome::Accepted));
    let challenge = ledger.get_challenge(&id).expect("challenge should exist");
    assert!(challenge.solved);
    assert_eq!(challenge.solver, Some(CAROL));
    assert_eq!(challenge.prize, 900);
    // A resolution event was emitted once, after the creation event.
    assert_eq!(ledger.event_count(), 2);
    assert_eq!(
        ledger.event_at(1),
        Event::Resolution(Resolution { challenge: id, solver: CAROL })
    );
}

#[test]
fn solved_challenge_rejects_further_answers() {
    let mut ledger = ChallengeLedger::new();
    let id = ledger
        .create_challenge(digest_of("42"), 900, ALICE)
        .expect("creation should succeed");
    let first = ledger.submit_answer(&id, String::from("42"), CAROL);
    assert_eq!(first, Ok(SubmissionOutcome::Accepted));
    let second = ledger.submit_answer(&id, String::from("42"), BOB);
    assert_eq!(second, Err(LedgerError::AlreadySolved));
    // The solver did not change, and the late attempt was not recorded.
    let challenge = ledger.get_challenge(&id).expect("challenge should exist");
    assert_eq!(challenge.solver, Some(CAROL));
    assert_eq!(ledger.submission_count(), 1);
}

#[test]
fn wrong_answer_is_rejected_and_recorded() {
    let mut ledger = ChallengeLedger::new();
    let id = ledger
        .create_challenge(digest_of("42"), 900, ALICE)
        .expect("creation should succeed");
    let outcome = ledger.submit_answer(&id, String::from("wrong"), BOB);
    assert_eq!(outcome, Ok(SubmissionOutcome::Rejected));
    let challenge = ledger.get_challenge(&id).expect("challenge should exist");
    assert!(!challenge.solved);
    assert_eq!(challenge.solver, None);
    // The attempt is in the audit log; no resolution event was emitted.
    assert_eq!(ledger.submission_count(), 1);
    let attempt = ledger.submission_at(0);
    assert_eq!(attempt.challenge_id, id);
    assert_eq!(attempt.submitter, BOB);
    assert_eq!(attempt.answer, String::from("wrong"));
    assert!(!attempt.accepted);
    assert_eq!(ledger.event_count(), 1);
}

#[test]
fn unknown_challenge_is_rejected_for_every_caller() {
    let mut ledger = ChallengeLedger::new();
    ledger
        .create_challenge(digest_of("other"), 5, ALICE)
        .expect("creation should succeed");
    let missing = digest_of("nobody posted this");
    for caller in [ALICE, BOB, CAROL] {
        let outcome = ledger.submit_answer(&missing, String::from("guess"), caller);
        assert_eq!(outcome, Err(LedgerError::UnknownChallenge));
    }
    assert_eq!(ledger.submission_count(), 0);
}

#[test]
fn get_challenge_is_idempotent() {
    let mut ledger = ChallengeLedger::new();
    let id = ledger
        .create_challenge(digest_of("answer"), 7, ALICE)
        .expect("creation should succeed");
    let first = ledger.get_challenge(&id);
    let second = ledger.get_challenge(&id);
    assert_eq!(first, second);
    let absent = digest_of("absent");
    assert_eq!(ledger.get_challenge(&absent), None);
    assert_eq!(ledger.get_challenge(&absent), None);
}

#[test]
fn owners_are_counted_once_per_identity() {
    let mut ledger = ChallengeLedger::new();
    // Five creations by three distinct creators.
    for (answer, creator) in [
        ("a", ALICE),
        ("b", ALICE),
        ("c", BOB),
        ("d", CAROL),
        ("e", ALICE),
    ] {
        ledger
            .create_challenge(digest_of(answer), 10, creator)
            .expect("creation should succeed");
    }
    assert_eq!(ledger.challenge_count(), 5);
    assert_eq!(ledger.owner_count(), 3);
    assert_eq!(ledger.owners(), vec![ALICE, BOB, CAROL]);
}

#[test]
fn challenges_are_listed_by_owner_in_creation_order() {
    let mut ledger = ChallengeLedger::new();
    let first = digest_of("a");
    let second = digest_of("b");
    let third = digest_of("c");
    ledger
        .create_challenge(first.clone(), 1, ALICE)
        .expect("creation should succeed");
    ledger
        .create_challenge(second.clone(), 2, BOB)
        .expect("creation should succeed");
    ledger
        .create_challenge(third.clone(), 3, ALICE)
        .expect("creation should succeed");
    assert_eq!(ledger.list_challenges_by_owner(ALICE), vec![first, third]);
    assert_eq!(ledger.list_challenges_by_owner(BOB), vec![second]);
    assert_eq!(ledger.list_challenges_by_owner(CAROL), Vec::<Vec<u8>>::new());
}

#[test]
fn empty_ledger_has_no_challenges() {
    let ledger = ChallengeLedger::new();
    let id = digest_of("anything");
    assert_eq!(ledger.get_challenge(&id), None);
    assert_eq!(ledger.list_challenges_by_owner(ALICE), Vec::<Vec<u8>>::new());
}
