//! Laws of the capability rotation protocol, proved once and for all states
//! and tokens: replay safety of every operation, and the audit-trail
//! invariants — no record is ever deleted, what creation set is immutable,
//! and a record's status only ever moves strictly forward, one lifecycle
//! step per transition.

use vstd::prelude::*;

use crate::claim_post;
use crate::create_post;
use crate::solve_post;
use crate::Answer;
use crate::CoordinatePair;
use crate::Crossword;
use crate::Error;
use crate::PuzzleView;
use crate::RewardTransfer;
use crate::StatusView;

verus! {

/// One record before and after a transition: everything set at creation is
/// kept, and the status either stays or takes exactly one forward lifecycle
/// step — it never reverses and never skips a state.
pub open spec fn lifecycle_advances(pre: PuzzleView, post: PuzzleView) -> bool {
    &&& post.reward == pre.reward
    &&& post.creator == pre.creator
    &&& post.dimensions == pre.dimensions
    &&& post.answers == pre.answers
    &&& {
        ||| post.status == pre.status
        ||| (pre.status is Unsolved && post.status matches StatusView::Solved { .. })
        ||| (pre.status matches StatusView::Solved { .. } && post.status
            matches StatusView::Claimed { .. })
    }
}

/// `new_puzzle` only adds: every record that existed before exists after,
/// byte for byte unchanged.
pub proof fn lemma_create_only_adds(
    s0: Crossword,
    s1: Crossword,
    t: Seq<u8>,
    reward: u128,
    creator: Seq<char>,
    dimensions: CoordinatePair,
    answers: Seq<Answer>,
    r: Result<(), Error>,
)
    requires
        create_post(s0, s1, t, reward, creator, dimensions, answers, r),
    ensures
        forall|k: Seq<u8>| #[trigger]
            s0.puzzles.contains_key(k) ==> s1.puzzles.contains_key(k) && s1.puzzles.spec_get(k)
                == s0.puzzles.spec_get(k),
{
    if !s0.puzzles.contains_key(t) {
        assert forall|k: Seq<u8>| #[trigger] s0.puzzles.contains_key(k) implies s1
            .puzzles.contains_key(k) && s1.puzzles.spec_get(k) == s0.puzzles.spec_get(k) by {
            assert(k != t);
        }
    }
}

/// `submit_solution` never deletes a record and never rewinds one: the
/// solved record takes exactly one forward step, every other record is
/// unchanged.
pub proof fn lemma_solve_strictly_forward(
    s0: Crossword,
    s1: Crossword,
    credential: Seq<u8>,
    solver: Seq<u8>,
    r: Result<(), Error>,
)
    requires
        solve_post(s0, s1, credential, solver, r),
    ensures
        forall|k: Seq<u8>| #[trigger]
            s0.puzzles.contains_key(k) ==> s1.puzzles.contains_key(k) && lifecycle_advances(
                s0.puzzles.spec_get(k),
                s1.puzzles.spec_get(k),
            ),
{
    if s0.puzzles.contains_key(credential) && s0.puzzles.spec_get(credential).status is Unsolved
        && r is Ok {
        assert forall|k: Seq<u8>| #[trigger] s0.puzzles.contains_key(k) implies s1
            .puzzles.contains_key(k) && lifecycle_advances(
            s0.puzzles.spec_get(k),
            s1.puzzles.spec_get(k),
        ) by {
            if k == credential {
                assert(s1.puzzles.spec_get(credential) == s0.puzzles.spec_get(
                    credential,
                ).with_status(StatusView::Solved { solver }));
            }
        }
    }
}

/// `claim_reward` never deletes a record and never rewinds one: the claimed
/// record takes exactly one forward step into the terminal state, every
/// other record is unchanged.
pub proof fn lemma_claim_strictly_forward(
    s0: Crossword,
    s1: Crossword,
    credential: Seq<u8>,
    receiver: Seq<char>,
    memo: Seq<char>,
    r: Result<RewardTransfer, Error>,
)
    requires
        s0.wf(),
        claim_post(s0, s1, credential, receiver, memo, r),
    ensures
        forall|k: Seq<u8>| #[trigger]
            s0.puzzles.contains_key(k) ==> s1.puzzles.contains_key(k) && lifecycle_advances(
                s0.puzzles.spec_get(k),
                s1.puzzles.spec_get(k),
            ),
{
    if s0.capabilities.has(credential) && s0.capabilities.op_of(credential)
        == crate::CapOp::Claim {
        let kc = s0.capabilities.record_of(credential);
        assert(s0.cap_consistent(credential));
        assert forall|k: Seq<u8>| #[trigger] s0.puzzles.contains_key(k) implies s1
            .puzzles.contains_key(k) && lifecycle_advances(
            s0.puzzles.spec_get(k),
            s1.puzzles.spec_get(k),
        ) by {
            if k == kc {
                assert(s0.puzzles.spec_get(kc).status == (StatusView::Solved {
                    solver: credential,
                }));
                assert(s1.puzzles.spec_get(kc) == s0.puzzles.spec_get(kc).with_status(
                    StatusView::Claimed { memo },
                ));
            }
        }
    }
}

/// Creating twice with the same token always fails the second time with
/// `DuplicateRecord`, and the first record is unchanged.
pub proof fn lemma_create_replay_fails(
    s0: Crossword,
    s1: Crossword,
    s2: Crossword,
    t: Seq<u8>,
    reward1: u128,
    creator1: Seq<char>,
    dimensions1: CoordinatePair,
    answers1: Seq<Answer>,
    reward2: u128,
    creator2: Seq<char>,
    dimensions2: CoordinatePair,
    answers2: Seq<Answer>,
    r2: Result<(), Error>,
)
    requires
        create_post(s0, s1, t, reward1, creator1, dimensions1, answers1, Ok(())),
        create_post(s1, s2, t, reward2, creator2, dimensions2, answers2, r2),
    ensures
        r2 == Err::<(), Error>(Error::DuplicateRecord),
        s2 == s1,
        s2.puzzles.spec_get(t) == s1.puzzles.spec_get(t),
{
}

/// A solve succeeds only on an `Unsolved` record; replaying it after it has
/// already succeeded fails with `InvalidStateTransition` (the capability is
/// revoked and the record is no longer `Unsolved`), and the stored solver
/// token is the one the winning call supplied.
pub proof fn lemma_solve_replay_fails(
    s0: Crossword,
    s1: Crossword,
    s2: Crossword,
    credential: Seq<u8>,
    solver1: Seq<u8>,
    solver2: Seq<u8>,
    r2: Result<(), Error>,
)
    requires
        solve_post(s0, s1, credential, solver1, Ok(())),
        solve_post(s1, s2, credential, solver2, r2),
    ensures
        s1.puzzles.spec_get(credential).status == (StatusView::Solved { solver: solver1 }),
        r2 == Err::<(), Error>(Error::InvalidStateTransition),
        s2 == s1,
{
    assert(s1.puzzles.contains_key(credential));
}

/// A claim succeeds only on a `Solved` record; replaying it after it has
/// already succeeded fails (the capability is revoked), and no second
/// transfer is issued.
pub proof fn lemma_claim_replay_fails(
    s0: Crossword,
    s1: Crossword,
    s2: Crossword,
    credential: Seq<u8>,
    receiver1: Seq<char>,
    memo1: Seq<char>,
    transfer1: RewardTransfer,
    receiver2: Seq<char>,
    memo2: Seq<char>,
    r2: Result<RewardTransfer, Error>,
)
    requires
        s0.wf(),
        claim_post(s0, s1, credential, receiver1, memo1, Ok(transfer1)),
        claim_post(s1, s2, credential, receiver2, memo2, r2),
    ensures
        r2 is Err,
        s2 == s1,
{
}

/// The full lifecycle: a created puzzle, once solved and claimed, ends
/// terminal with the claimer's memo, and the transfer issued on claim moves
/// exactly the reward escrowed at creation to the receiver the claim named.
pub proof fn lemma_lifecycle_reward_exact(
    s0: Crossword,
    s1: Crossword,
    s2: Crossword,
    s3: Crossword,
    answer_token: Seq<u8>,
    reward: u128,
    creator: Seq<char>,
    dimensions: CoordinatePair,
    answers: Seq<Answer>,
    solver_token: Seq<u8>,
    receiver: Seq<char>,
    memo: Seq<char>,
    transfer: RewardTransfer,
)
    requires
        s1.wf(),
        create_post(s0, s1, answer_token, reward, creator, dimensions, answers, Ok(())),
        solve_post(s1, s2, answer_token, solver_token, Ok(())),
        claim_post(s2, s3, solver_token, receiver, memo, Ok(transfer)),
    ensures
        transfer.amount == reward,
        transfer.receiver@ == receiver,
        s3.puzzles.spec_get(answer_token).status == (StatusView::Claimed { memo }),
        s3.puzzles.spec_get(answer_token).reward == reward,
        s3.puzzles.spec_get(answer_token).creator == creator,
{
    assert(s1.puzzles.contains_key(answer_token));
    assert(s1.puzzles.spec_get(answer_token).status is Unsolved);
    assert(s2.capabilities.has(solver_token));
    assert(s2.capabilities.op_of(solver_token) == crate::CapOp::Claim);
    assert(s2.capabilities.record_of(solver_token) == answer_token);
    assert(s2.puzzles.spec_get(answer_token).reward == reward);
}

} // verus!
