use crossword::Answer;
use crossword::AnswerDirection;
use crossword::CoordinatePair;
use crossword::Crossword;
use crossword::Error;
use crossword::PuzzleStatus;
use crossword::Token;

fn token(bytes: &[u8]) -> Token {
    Token::new(bytes.to_vec())
}

fn sample_answers() -> Vec<Answer> {
    vec![Answer {
        num: 1,
        start: CoordinatePair { x: 19, y: 31 },
        direction: AnswerDirection::Across,
        length: 8,
    }]
}

fn create(c: &mut Crossword, key: &[u8], reward: u128) -> Result<(), Error> {
    c.new_puzzle(
        token(key),
        reward,
        CoordinatePair { x: 19, y: 13 },
        sample_answers(),
        "creator.near".to_string(),
    )
}

#[test]
fn create_registers_unsolved_record() {
    let mut c = Crossword::default();
    assert!(create(&mut c, b"tokA", 100).is_ok());
    let p = c.debug_get_puzzle(&token(b"tokA")).expect("record must exist");
    assert!(matches!(p.status, PuzzleStatus::Unsolved));
    assert_eq!(p.reward, 100);
    assert_eq!(p.creator, "creator.near");
    assert_eq!(p.dimensions, CoordinatePair { x: 19, y: 13 });
    assert_eq!(p.answers, sample_answers());
}

#[test]
fn duplicate_create_fails_and_keeps_first_record() {
    let mut c = Crossword::default();
    assert!(create(&mut c, b"tokA", 100).is_ok());
    let second = c.new_puzzle(
        token(b"tokA"),
        999,
        CoordinatePair { x: 1, y: 1 },
        Vec::new(),
        "other.near".to_string(),
    );
    assert_eq!(second, Err(Error::DuplicateRecord));
    let p = c.debug_get_puzzle(&token(b"tokA")).expect("first record must stay");
    assert!(matches!(p.status, PuzzleStatus::Unsolved));
    assert_eq!(p.reward, 100);
    assert_eq!(p.creator, "creator.near");
}

#[test]
fn solve_succeeds_only_on_unsolved_and_stores_solver_token() {
    let mut c = Crossword::default();
    assert!(create(&mut c, b"tokA", 100).is_ok());
    assert!(c.submit_solution(token(b"tokA"), token(b"tokB")).is_ok());
    let p = c.debug_get_puzzle(&token(b"tokA")).expect("record must exist");
    match &p.status {
        PuzzleStatus::Solved { solver_token } => assert_eq!(solver_token.bytes, b"tokB".to_vec()),
        other => panic!("expected Solved, got {:?}", other),
    }
    // Replaying the captured solve call: the solve capability is spent.
    let replay = c.submit_solution(token(b"tokA"), token(b"tokB"));
    assert_eq!(replay, Err(Error::InvalidStateTransition));
    // A racing second solver with a different token fails the same way.
    let race = c.submit_solution(token(b"tokA"), token(b"tokC"));
    assert_eq!(race, Err(Error::InvalidStateTransition));
    let p = c.debug_get_puzzle(&token(b"tokA")).expect("record must exist");
    match &p.status {
        PuzzleStatus::Solved { solver_token } => assert_eq!(solver_token.bytes, b"tokB".to_vec()),
        other => panic!("expected Solved, got {:?}", other),
    }
}

#[test]
fn solve_with_unknown_credential_fails_and_changes_nothing() {
    let mut c = Crossword::default();
    assert!(create(&mut c, b"tokA", 100).is_ok());
    let r = c.submit_solution(token(b"nope"), token(b"tokB"));
    assert_eq!(r, Err(Error::RecordNotFound));
    let p = c.debug_get_puzzle(&token(b"tokA")).expect("record must exist");
    assert!(matches!(p.status, PuzzleStatus::Unsolved));
    assert!(c.debug_get_puzzle(&token(b"nope")).is_none());
}

#[test]
fn full_lifecycle_transfers_exact_reward() {
    let mut c = Crossword::default();
    assert!(create(&mut c, b"tokA", 100).is_ok());
    assert!(c.submit_solution(token(b"tokA"), token(b"tokB")).is_ok());
    let transfer = c
        .claim_reward(token(b"tokB"), "X".to_string(), "done".to_string())
        .expect("claim must succeed");
    assert_eq!(transfer.amount, 100);
    assert_eq!(transfer.receiver, "X");
    let p = c.debug_get_puzzle(&token(b"tokA")).expect("record must stay as audit trail");
    match &p.status {
        PuzzleStatus::Claimed { memo } => assert_eq!(memo, "done"),
        other => panic!("expected Claimed, got {:?}", other),
    }
    assert_eq!(p.reward, 100);
}

#[test]
fn replayed_claim_fails_and_transfers_nothing() {
    let mut c = Crossword::default();
    assert!(create(&mut c, b"tokA", 100).is_ok());
    assert!(c.submit_solution(token(b"tokA"), token(b"tokB")).is_ok());
    assert!(c.claim_reward(token(b"tokB"), "X".to_string(), "done".to_string()).is_ok());
    // The claim capability was revoked with the first claim.
    let replay = c.claim_reward(token(b"tokB"), "X".to_string(), "again".to_string());
    assert_eq!(replay, Err(Error::RecordNotFound));
    let p = c.debug_get_puzzle(&token(b"tokA")).expect("record must exist");
    match &p.status {
        PuzzleStatus::Claimed { memo } => assert_eq!(memo, "done"),
        other => panic!("expected Claimed, got {:?}", other),
    }
}

#[test]
fn claim_on_unsolved_record_fails_with_invalid_state() {
    let mut c = Crossword::default();
    assert!(create(&mut c, b"tokA", 100).is_ok());
    // tokA bears only a solve capability; its record is still Unsolved.
    let r = c.claim_reward(token(b"tokA"), "X".to_string(), "done".to_string());
    assert_eq!(r, Err(Error::InvalidStateTransition));
    let p = c.debug_get_puzzle(&token(b"tokA")).expect("record must exist");
    assert!(matches!(p.status, PuzzleStatus::Unsolved));
}

#[test]
fn claim_with_wrong_credential_on_solved_record_is_capability_mismatch() {
    let mut c = Crossword::default();
    assert!(create(&mut c, b"tokA", 100).is_ok());
    assert!(c.submit_solution(token(b"tokA"), token(b"tokB")).is_ok());
    // tokA keys a Solved record but no longer bears any capability.
    let r = c.claim_reward(token(b"tokA"), "X".to_string(), "done".to_string());
    assert_eq!(r, Err(Error::CapabilityMismatch));
    let p = c.debug_get_puzzle(&token(b"tokA")).expect("record must exist");
    assert!(matches!(p.status, PuzzleStatus::Solved { .. }));
}

#[test]
fn claim_on_terminal_record_via_its_key_fails_with_invalid_state() {
    let mut c = Crossword::default();
    assert!(create(&mut c, b"tokA", 100).is_ok());
    assert!(c.submit_solution(token(b"tokA"), token(b"tokB")).is_ok());
    assert!(c.claim_reward(token(b"tokB"), "X".to_string(), "done".to_string()).is_ok());
    let r = c.claim_reward(token(b"tokA"), "X".to_string(), "more".to_string());
    assert_eq!(r, Err(Error::InvalidStateTransition));
    let solve_again = c.submit_solution(token(b"tokA"), token(b"tokC"));
    assert_eq!(solve_again, Err(Error::InvalidStateTransition));
}

#[test]
fn claim_with_unknown_credential_fails_with_record_not_found() {
    let mut c = Crossword::default();
    assert!(create(&mut c, b"tokA", 100).is_ok());
    let r = c.claim_reward(token(b"ghost"), "X".to_string(), "done".to_string());
    assert_eq!(r, Err(Error::RecordNotFound));
}

#[test]
fn records_are_independent_and_tokens_compare_by_bytes() {
    let mut c = Crossword::default();
    // A token that is a strict prefix of another keys a different record.
    assert!(create(&mut c, b"tok", 1).is_ok());
    assert!(create(&mut c, b"tok\0", 2).is_ok());
    assert!(c.submit_solution(token(b"tok"), token(b"solverX")).is_ok());
    let p1 = c.debug_get_puzzle(&token(b"tok")).expect("record must exist");
    assert!(matches!(p1.status, PuzzleStatus::Solved { .. }));
    assert_eq!(p1.reward, 1);
    let p2 = c.debug_get_puzzle(&token(b"tok\0")).expect("record must exist");
    assert!(matches!(p2.status, PuzzleStatus::Unsolved));
    assert_eq!(p2.reward, 2);
}

#[test]
fn zero_reward_and_empty_metadata_round_trip() {
    let mut c = Crossword::default();
    let r = c.new_puzzle(
        token(b""),
        0,
        CoordinatePair { x: 0, y: 0 },
        Vec::new(),
        String::new(),
    );
    assert!(r.is_ok());
    assert!(c.submit_solution(token(b""), token(b"s")).is_ok());
    let transfer = c
        .claim_reward(token(b"s"), "recv".to_string(), String::new())
        .expect("claim must succeed");
    assert_eq!(transfer.amount, 0);
    assert_eq!(transfer.receiver, "recv");
}

#[test]
fn largest_reward_is_transferred_exactly() {
    let mut c = Crossword::default();
    assert!(create(&mut c, b"big", u128::MAX).is_ok());
    assert!(c.submit_solution(token(b"big"), token(b"winner")).is_ok());
    let transfer = c
        .claim_reward(token(b"winner"), "X".to_string(), "max".to_string())
        .expect("claim must succeed");
    assert_eq!(transfer.amount, u128::MAX);
}

#[test]
fn solver_may_rotate_onto_the_answer_token_itself() {
    let mut c = Crossword::default();
    assert!(create(&mut c, b"tokA", 7).is_ok());
    // The solver hands back the answer token as the claim token.
    assert!(c.submit_solution(token(b"tokA"), token(b"tokA")).is_ok());
    let transfer = c
        .claim_reward(token(b"tokA"), "X".to_string(), "self".to_string())
        .expect("claim must succeed");
    assert_eq!(transfer.amount, 7);
    let replay = c.claim_reward(token(b"tokA"), "X".to_string(), "self".to_string());
    assert_eq!(replay, Err(Error::InvalidStateTransition));
}

#[test]
fn debug_get_puzzle_is_read_only() {
    let mut c = Crossword::default();
    assert!(create(&mut c, b"tokA", 100).is_ok());
    assert!(c.debug_get_puzzle(&token(b"tokA")).is_some());
    assert!(c.debug_get_puzzle(&token(b"tokB")).is_none());
    // Looking a record up changes nothing: the solve still goes through.
    assert!(c.submit_solution(token(b"tokA"), token(b"tokB")).is_ok());
}
