//! An escrowed-reward puzzle registry driven by a capability-token
//! authorization protocol.
//!
//! A puzzle creator escrows a reward that is released only to whoever proves
//! knowledge of a secret. Puzzles are keyed by single-use authorization
//! tokens that are minted, rotated, and revoked as a puzzle moves through its
//! lifecycle (`Unsolved` -> `Solved` -> `Claimed`), so that only the holder
//! of the secret can solve, a solved puzzle cannot be re-solved, and the
//! reward is redeemed exactly once by the party who solved it.
//!
//! The host runtime (ledger transfers, signature verification, durable
//! storage) is out of scope: callers hand this library the already-verified
//! calling credential and perform the value transfer it returns.

use vstd::prelude::*;

pub mod capability;
pub mod laws;
pub mod puzzle;
pub mod registry;
pub mod token;

pub use crate::capability::CapOp;
pub use crate::capability::Capability;
pub use crate::capability::CapabilityTable;
pub use crate::puzzle::Answer;
pub use crate::puzzle::AnswerDirection;
pub use crate::puzzle::CoordinatePair;
pub use crate::puzzle::Puzzle;
pub use crate::puzzle::PuzzleStatus;
pub use crate::puzzle::PuzzleView;
pub use crate::puzzle::StatusView;
pub use crate::registry::PuzzleRegistry;
pub use crate::registry::RegistryEntry;
pub use crate::token::Token;

verus! {

/// Why an operation was rejected. Every rejection aborts the whole call:
/// no partial state is kept.
#[derive(Clone, Copy, PartialEq, Eq, Structural, Debug)]
pub enum Error {
    /// `new_puzzle` with a token already present in the registry.
    DuplicateRecord,
    /// `submit_solution` or `claim_reward` with a credential matching no record.
    RecordNotFound,
    /// A record not in the source state the operation needs.
    InvalidStateTransition,
    /// A credential that does not bear the capability the operation needs.
    CapabilityMismatch,
}

/// The value transfer a successful claim instructs the host ledger to issue.
#[derive(PartialEq, Eq, Debug)]
pub struct RewardTransfer {
    /// Account the escrowed reward goes to.
    pub receiver: String,
    /// The exact amount escrowed when the puzzle was created.
    pub amount: u128,
}

/// The contract state: the puzzle registry and the capability table, moved
/// together through each transition as one atomic unit.
pub struct Crossword {
    pub puzzles: PuzzleRegistry,
    pub capabilities: CapabilityTable,
}

impl Crossword {
    /// The capability borne by `t` points at an existing record whose status
    /// matches the operation it authorizes: a solve capability is the
    /// record's own key and the record is still `Unsolved`; a claim
    /// capability is the solver token a `Solved` record carries.
    pub open spec fn cap_consistent(self, t: Seq<u8>) -> bool {
        let k = self.capabilities.record_of(t);
        &&& self.puzzles.contains_key(k)
        &&& (self.capabilities.op_of(t) == CapOp::Solve ==> t == k && self.puzzles.spec_get(
            k,
        ).status is Unsolved)
        &&& (self.capabilities.op_of(t) == CapOp::Claim ==> self.puzzles.spec_get(k).status
            == (StatusView::Solved { solver: t }))
    }

    /// The record keyed by `k` bears exactly the capability its status calls
    /// for: an `Unsolved` record has a live solve capability on its own key;
    /// a `Solved` record has a live claim capability on its solver token;
    /// a `Claimed` record is terminal and authorizes nothing.
    pub open spec fn record_consistent(self, k: Seq<u8>) -> bool {
        &&& (self.puzzles.spec_get(k).status is Unsolved ==> self.capabilities.has(k)
            && self.capabilities.op_of(k) == CapOp::Solve && self.capabilities.record_of(k) == k)
        &&& (self.puzzles.spec_get(k).status matches StatusView::Solved { solver }
            ==> self.capabilities.has(solver) && self.capabilities.op_of(solver) == CapOp::Claim
            && self.capabilities.record_of(solver) == k)
    }

    /// Well-formed state: unique registry keys, unique capability tokens,
    /// and the capability table in lockstep with the lifecycle of every
    /// record.
    pub open spec fn wf(self) -> bool {
        &&& self.puzzles.wf()
        &&& self.capabilities.wf()
        &&& forall|t: Seq<u8>| #[trigger] self.capabilities.has(t) ==> self.cap_consistent(t)
        &&& forall|k: Seq<u8>| #[trigger] self.puzzles.contains_key(k) ==> self.record_consistent(
            k,
        )
    }
}

/// What `new_puzzle` does: on a fresh token it stores an `Unsolved` record
/// escrowing `reward` and mints a solve capability on that token; on a token
/// already registered it fails with `DuplicateRecord` and changes nothing.
pub open spec fn create_post(
    pre: Crossword,
    post: Crossword,
    t: Seq<u8>,
    reward: u128,
    creator: Seq<char>,
    dimensions: CoordinatePair,
    answers: Seq<Answer>,
    r: Result<(), Error>,
) -> bool {
    if pre.puzzles.contains_key(t) {
        &&& r == Err::<(), Error>(Error::DuplicateRecord)
        &&& post == pre
    } else {
        &&& r == Ok::<(), Error>(())
        &&& post.puzzles.contains_key(t)
        &&& post.puzzles.spec_get(t) == (PuzzleView {
            status: StatusView::Unsolved,
            reward,
            creator,
            dimensions,
            answers,
        })
        &&& forall|k: Seq<u8>|
            k != t ==> (post.puzzles.contains_key(k) <==> pre.puzzles.contains_key(k))
        &&& forall|k: Seq<u8>|
            k != t && pre.puzzles.contains_key(k) ==> post.puzzles.spec_get(k)
                == pre.puzzles.spec_get(k)
        &&& post.capabilities.has(t)
        &&& post.capabilities.op_of(t) == CapOp::Solve
        &&& post.capabilities.record_of(t) == t
        &&& forall|x: Seq<u8>|
            x != t ==> (post.capabilities.has(x) <==> pre.capabilities.has(x))
        &&& forall|x: Seq<u8>|
            x != t && pre.capabilities.has(x) ==> post.capabilities.op_of(x)
                == pre.capabilities.op_of(x) && post.capabilities.record_of(x)
                == pre.capabilities.record_of(x)
    }
}

/// What `submit_solution` does: a credential matching no record fails with
/// `RecordNotFound`; a record no longer `Unsolved` fails with
/// `InvalidStateTransition`; otherwise, as one atomic unit, the record
/// becomes `Solved` carrying the winning solver token, the spent solve
/// capability is revoked, and a claim capability is minted on the solver
/// token. On every failure nothing changes.
pub open spec fn solve_post(
    pre: Crossword,
    post: Crossword,
    credential: Seq<u8>,
    solver: Seq<u8>,
    r: Result<(), Error>,
) -> bool {
    if !pre.puzzles.contains_key(credential) {
        &&& r == Err::<(), Error>(Error::RecordNotFound)
        &&& post == pre
    } else if !(pre.puzzles.spec_get(credential).status is Unsolved) {
        &&& r == Err::<(), Error>(Error::InvalidStateTransition)
        &&& post == pre
    } else {
        &&& r == Ok::<(), Error>(())
        &&& forall|k: Seq<u8>|
            post.puzzles.contains_key(k) <==> pre.puzzles.contains_key(k)
        &&& post.puzzles.spec_get(credential) == pre.puzzles.spec_get(credential).with_status(
            StatusView::Solved { solver },
        )
        &&& forall|k: Seq<u8>|
            k != credential && pre.puzzles.contains_key(k) ==> post.puzzles.spec_get(k)
                == pre.puzzles.spec_get(k)
        &&& post.capabilities.has(solver)
        &&& post.capabilities.op_of(solver) == CapOp::Claim
        &&& post.capabilities.record_of(solver) == credential
        &&& credential != solver ==> !post.capabilities.has(credential)
        &&& forall|x: Seq<u8>|
            x != credential && x != solver ==> (post.capabilities.has(x)
                <==> pre.capabilities.has(x))
        &&& forall|x: Seq<u8>|
            x != credential && x != solver && pre.capabilities.has(x) ==> post.capabilities.op_of(
                x,
            ) == pre.capabilities.op_of(x) && post.capabilities.record_of(x)
                == pre.capabilities.record_of(x)
    }
}

/// What `claim_reward` does: a credential bearing the claim capability of a
/// `Solved` record moves that record to `Claimed` carrying the memo, revokes
/// the spent capability, and returns the transfer of exactly the escrowed
/// reward to the receiver; a credential bearing a solve capability is an
/// attempt to claim an `Unsolved` record and fails with
/// `InvalidStateTransition`; a bare registry key fails with
/// `InvalidStateTransition` when its record is terminal and with
/// `CapabilityMismatch` when its record is `Solved` but the credential is
/// not the solver token; anything else fails with `RecordNotFound`. On every
/// failure nothing changes and no transfer is issued.
pub open spec fn claim_post(
    pre: Crossword,
    post: Crossword,
    credential: Seq<u8>,
    receiver: Seq<char>,
    memo: Seq<char>,
    r: Result<RewardTransfer, Error>,
) -> bool {
    if pre.capabilities.has(credential) {
        if pre.capabilities.op_of(credential) == CapOp::Claim {
            let k = pre.capabilities.record_of(credential);
            &&& r matches Ok(tr) && tr.amount == pre.puzzles.spec_get(k).reward && tr.receiver@
                == receiver
            &&& forall|k2: Seq<u8>|
                post.puzzles.contains_key(k2) <==> pre.puzzles.contains_key(k2)
            &&& post.puzzles.spec_get(k) == pre.puzzles.spec_get(k).with_status(
                StatusView::Claimed { memo },
            )
            &&& forall|k2: Seq<u8>|
                k2 != k && pre.puzzles.contains_key(k2) ==> post.puzzles.spec_get(k2)
                    == pre.puzzles.spec_get(k2)
            &&& !post.capabilities.has(credential)
            &&& forall|x: Seq<u8>|
                x != credential ==> (post.capabilities.has(x) <==> pre.capabilities.has(x))
            &&& forall|x: Seq<u8>|
                x != credential && pre.capabilities.has(x) ==> post.capabilities.op_of(x)
                    == pre.capabilities.op_of(x) && post.capabilities.record_of(x)
                    == pre.capabilities.record_of(x)
        } else {
            &&& r == Err::<RewardTransfer, Error>(Error::InvalidStateTransition)
            &&& post == pre
        }
    } else if pre.puzzles.contains_key(credential) {
        match pre.puzzles.spec_get(credential).status {
            StatusView::Unsolved => {
                &&& r == Err::<RewardTransfer, Error>(Error::InvalidStateTransition)
                &&& post == pre
            },
            StatusView::Solved { .. } => {
                &&& r == Err::<RewardTransfer, Error>(Error::CapabilityMismatch)
                &&& post == pre
            },
            StatusView::Claimed { .. } => {
                &&& r == Err::<RewardTransfer, Error>(Error::InvalidStateTransition)
                &&& post == pre
            },
        }
    } else {
        &&& r == Err::<RewardTransfer, Error>(Error::RecordNotFound)
        &&& post == pre
    }
}

impl Crossword {
    /// Creates a puzzle: escrows `reward`, stores an `Unsolved` record keyed
    /// by `answer_token`, and mints a capability on `answer_token` restricted
    /// to the solve operation. The secret that lets anyone solve is precisely
    /// knowledge of the private counterpart of `answer_token`.
    ///
    /// Tokens are globally unique, so a token that is not a registry key is
    /// never a live capability of some other record; the caller vouches for
    /// that.
    pub fn new_puzzle(
        &mut self,
        answer_token: Token,
        reward: u128,
        dimensions: CoordinatePair,
        answers: Vec<Answer>,
        creator: String,
    ) -> (r: Result<(), Error>)
        requires
            old(self).wf(),
            old(self).capabilities.has(answer_token@) ==> old(self).puzzles.contains_key(
                answer_token@,
            ),
        ensures
            final(self).wf(),
            create_post(
                *old(self),
                *final(self),
                answer_token@,
                reward,
                creator@,
                dimensions,
                answers@,
                r,
            ),
    {
        let ghost pre = *self;
        let ghost tv = answer_token@;
        let key = answer_token.clone();
        let puzzle = Puzzle { status: PuzzleStatus::Unsolved, reward, creator, dimensions, answers };
        let ghost pv = puzzle@;
        let inserted = self.puzzles.insert(key, puzzle);
        if !inserted {
            return Err(Error::DuplicateRecord);
        }
        self.capabilities.mint(
            Capability { token: answer_token.clone(), op: CapOp::Solve, record: answer_token },
        );
        proof {
            assert(self.puzzles.spec_get(tv) == pv);
            assert forall|t: Seq<u8>| #[trigger] self.capabilities.has(t) implies
                self.cap_consistent(t) by {
                if t == tv {
                    assert(self.capabilities.op_of(tv) == CapOp::Solve);
                    assert(self.capabilities.record_of(tv) == tv);
                    assert(self.puzzles.contains_key(tv));
                } else {
                    assert(pre.capabilities.has(t));
                    assert(pre.cap_consistent(t));
                    let k = pre.capabilities.record_of(t);
                    assert(pre.puzzles.contains_key(k));
                    assert(k != tv);
                    assert(self.puzzles.contains_key(k));
                    assert(self.puzzles.spec_get(k) == pre.puzzles.spec_get(k));
                }
            }
            assert forall|k: Seq<u8>| #[trigger] self.puzzles.contains_key(k) implies
                self.record_consistent(k) by {
                if k == tv {
                    assert(self.puzzles.spec_get(tv).status is Unsolved);
                } else {
                    assert(pre.puzzles.contains_key(k));
                    assert(pre.record_consistent(k));
                    assert(self.puzzles.spec_get(k) == pre.puzzles.spec_get(k));
                    if pre.puzzles.spec_get(k).status is Unsolved {
                        assert(pre.capabilities.has(k));
                        assert(self.capabilities.has(k));
                    }
                    match pre.puzzles.spec_get(k).status {
                        StatusView::Solved { solver } => {
                            assert(pre.capabilities.has(solver));
                            if solver == tv {
                                assert(pre.puzzles.contains_key(tv));
                                assert(false);
                            }
                            assert(self.capabilities.has(solver));
                        },
                        _ => {},
                    }
                }
            }
        }
        Ok(())
    }

    /// Solves a puzzle: accepted only when the already-verified calling
    /// credential is the solve capability of some record and that record is
    /// still `Unsolved`. As one atomic unit the record becomes `Solved`
    /// carrying `solver_token`, the spent solve capability is revoked — so a
    /// second party who also learns the answer can never race in after the
    /// fact — and a claim capability is minted on `solver_token`, which only
    /// the solver controls.
    ///
    /// Tokens are globally unique, so the freshly generated `solver_token`
    /// never collides with a live capability of another token; the caller
    /// vouches for that.
    pub fn submit_solution(&mut self, credential: Token, solver_token: Token) -> (r: Result<
        (),
        Error,
    >)
        requires
            old(self).wf(),
            solver_token@ == credential@ || !old(self).capabilities.has(solver_token@),
        ensures
            final(self).wf(),
            solve_post(*old(self), *final(self), credential@, solver_token@, r),
    {
        let ghost pre = *self;
        let ghost cv = credential@;
        let ghost sv = solver_token@;
        let (exists_rec, unsolved): (bool, bool) = match self.puzzles.get(&credential) {
            None => (false, false),
            Some(p) => (
                true,
                match &p.status {
                    PuzzleStatus::Unsolved => true,
                    _ => false,
                },
            ),
        };
        if !exists_rec {
            return Err(Error::RecordNotFound);
        }
        if !unsolved {
            return Err(Error::InvalidStateTransition);
        }
        proof {
            assert(pre.puzzles.contains_key(cv));
            assert(pre.record_consistent(cv));
            assert(pre.capabilities.has(cv));
        }
        self.puzzles.set_status(
            &credential,
            PuzzleStatus::Solved { solver_token: solver_token.clone() },
        );
        self.capabilities.revoke(&credential);
        proof {
            assert(!self.capabilities.has(sv));
        }
        self.capabilities.mint(
            Capability { token: solver_token, op: CapOp::Claim, record: credential },
        );
        proof {
            assert(self.puzzles.spec_get(cv) == pre.puzzles.spec_get(cv).with_status(
                StatusView::Solved { solver: sv },
            ));
            assert forall|t: Seq<u8>| #[trigger] self.capabilities.has(t) implies
                self.cap_consistent(t) by {
                if t == sv {
                    assert(self.capabilities.op_of(sv) == CapOp::Claim);
                    assert(self.capabilities.record_of(sv) == cv);
                    assert(self.puzzles.contains_key(cv));
                } else {
                    assert(t != cv || !self.capabilities.has(cv) || sv == cv);
                    assert(pre.capabilities.has(t));
                    assert(pre.cap_consistent(t));
                    let k = pre.capabilities.record_of(t);
                    assert(pre.puzzles.contains_key(k));
                    assert(self.puzzles.contains_key(k));
                    if pre.capabilities.op_of(t) == CapOp::Solve {
                        assert(t == k);
                        assert(k != cv);
                        assert(self.puzzles.spec_get(k) == pre.puzzles.spec_get(k));
                    } else {
                        assert(pre.puzzles.spec_get(k).status == (StatusView::Solved {
                            solver: t,
                        }));
                        assert(k != cv);
                        assert(self.puzzles.spec_get(k) == pre.puzzles.spec_get(k));
                    }
                }
            }
            assert forall|k: Seq<u8>| #[trigger] self.puzzles.contains_key(k) implies
                self.record_consistent(k) by {
                if k == cv {
                    assert(self.puzzles.spec_get(cv).status == (StatusView::Solved {
                        solver: sv,
                    }));
                    assert(self.capabilities.has(sv));
                } else {
                    assert(pre.puzzles.contains_key(k));
                    assert(pre.record_consistent(k));
                    assert(self.puzzles.spec_get(k) == pre.puzzles.spec_get(k));
                    if pre.puzzles.spec_get(k).status is Unsolved {
                        assert(pre.capabilities.has(k));
                        assert(pre.cap_consistent(k));
                        assert(k != cv && k != sv);
                        assert(self.capabilities.has(k));
                        assert(self.capabilities.op_of(k) == CapOp::Solve);
                        assert(self.capabilities.record_of(k) == k);
                    }
                    match pre.puzzles.spec_get(k).status {
                        StatusView::Solved { solver } => {
                            assert(pre.capabilities.has(solver));
                            assert(pre.cap_consistent(solver));
                            assert(pre.capabilities.record_of(solver) == k);
                            assert(solver != cv);
                            assert(solver != sv);
                            assert(self.capabilities.has(solver));
                            assert(self.capabilities.op_of(solver) == CapOp::Claim);
                            assert(self.capabilities.record_of(solver) == k);
                        },
                        _ => {},
                    }
                }
            }
        }
        Ok(())
    }

    /// Claims a reward: accepted only when the already-verified calling
    /// credential bears the claim capability a successful solve minted. The
    /// record becomes terminal (`Claimed`, carrying `memo`), the spent
    /// capability is revoked — a captured claim call can never be replayed —
    /// and the returned transfer instructs the host ledger to move exactly
    /// the escrowed reward to `receiver_acc_id`.
    pub fn claim_reward(
        &mut self,
        credential: Token,
        receiver_acc_id: String,
        memo: String,
    ) -> (r: Result<RewardTransfer, Error>)
        requires
            old(self).wf(),
        ensures
            final(self).wf(),
            claim_post(*old(self), *final(self), credential@, receiver_acc_id@, memo@, r),
    {
        let ghost pre = *self;
        let ghost cv = credential@;
        let found: Option<(CapOp, Token)> = match self.capabilities.lookup(&credential) {
            Some(c) => Some((c.op, c.record.clone())),
            None => None,
        };
        match found {
            Some((CapOp::Claim, record)) => {
                let ghost kv = record@;
                proof {
                    assert(pre.capabilities.has(cv));
                    assert(pre.cap_consistent(cv));
                    assert(pre.puzzles.contains_key(kv));
                    assert(pre.puzzles.spec_get(kv).status == (StatusView::Solved { solver: cv }));
                }
                let amount = match self.puzzles.get(&record) {
                    Some(p) => p.reward,
                    None => vstd::pervasive::unreached(),
                };
                self.puzzles.set_status(&record, PuzzleStatus::Claimed { memo });
                self.capabilities.revoke(&credential);
                proof {
                    assert(self.puzzles.spec_get(kv) == pre.puzzles.spec_get(kv).with_status(
                        StatusView::Claimed { memo: memo@ },
                    ));
                    assert forall|t: Seq<u8>| #[trigger] self.capabilities.has(t) implies
                        self.cap_consistent(t) by {
                        assert(t != cv);
                        assert(pre.capabilities.has(t));
                        assert(pre.cap_consistent(t));
                        let k = pre.capabilities.record_of(t);
                        assert(pre.puzzles.contains_key(k));
                        assert(self.puzzles.contains_key(k));
                        if pre.capabilities.op_of(t) == CapOp::Solve {
                            assert(pre.puzzles.spec_get(k).status is Unsolved);
                            assert(k != kv);
                            assert(self.puzzles.spec_get(k) == pre.puzzles.spec_get(k));
                        } else {
                            assert(pre.puzzles.spec_get(k).status == (StatusView::Solved {
                                solver: t,
                            }));
                            if k == kv {
                                assert(pre.puzzles.spec_get(kv).status == (StatusView::Solved {
                                    solver: cv,
                                }));
                                assert(t == cv);
                                assert(false);
                            }
                            assert(self.puzzles.spec_get(k) == pre.puzzles.spec_get(k));
                        }
                    }
                    assert forall|k: Seq<u8>| #[trigger] self.puzzles.contains_key(k) implies
                        self.record_consistent(k) by {
                        if k == kv {
                            assert(self.puzzles.spec_get(kv).status matches StatusView::Claimed {
                                ..
                            });
                        } else {
                            assert(pre.puzzles.contains_key(k));
                            assert(pre.record_consistent(k));
                            assert(self.puzzles.spec_get(k) == pre.puzzles.spec_get(k));
                            if pre.puzzles.spec_get(k).status is Unsolved {
                                assert(pre.capabilities.has(k));
                                assert(pre.cap_consistent(k));
                                assert(k != cv);
                                assert(self.capabilities.has(k));
                                assert(self.capabilities.op_of(k) == CapOp::Solve);
                                assert(self.capabilities.record_of(k) == k);
                            }
                            match pre.puzzles.spec_get(k).status {
                                StatusView::Solved { solver } => {
                                    assert(pre.capabilities.has(solver));
                                    assert(pre.cap_consistent(solver));
                                    assert(pre.capabilities.record_of(solver) == k);
                                    if solver == cv {
                                        assert(pre.capabilities.record_of(cv) == kv);
                                        assert(k == kv);
                                        assert(false);
                                    }
                                    assert(self.capabilities.has(solver));
                                    assert(self.capabilities.op_of(solver) == CapOp::Claim);
                                    assert(self.capabilities.record_of(solver) == k);
                                },
                                _ => {},
                            }
                        }
                    }
                }
                Ok(RewardTransfer { receiver: receiver_acc_id, amount })
            },
            Some((CapOp::Solve, _)) => Err(Error::InvalidStateTransition),
            None => {
                match self.puzzles.get(&credential) {
                    None => Err(Error::RecordNotFound),
                    Some(p) => match &p.status {
                        PuzzleStatus::Unsolved => {
                            proof {
                                assert(pre.puzzles.contains_key(cv));
                                assert(pre.record_consistent(cv));
                                assert(pre.capabilities.has(cv));
                                assert(false);
                            }
                            Err(Error::InvalidStateTransition)
                        },
                        PuzzleStatus::Solved { .. } => Err(Error::CapabilityMismatch),
                        PuzzleStatus::Claimed { .. } => Err(Error::InvalidStateTransition),
                    },
                }
            },
        }
    }

    /// Read-only diagnostic lookup of a record by its creation token. Never
    /// mutates state.
    pub fn debug_get_puzzle(&self, token: &Token) -> (r: Option<&Puzzle>)
        requires
            self.wf(),
        ensures
            match r {
                Some(p) => self.puzzles.contains_key(token@) && p@ == self.puzzles.spec_get(
                    token@,
                ),
                None => !self.puzzles.contains_key(token@),
            },
    {
        self.puzzles.get(token)
    }
}

impl Default for Crossword {
    /// The explicitly initialized empty state: no records, no capabilities.
    fn default() -> (r: Crossword)
        ensures
            r.wf(),
            forall|k: Seq<u8>| !r.puzzles.contains_key(k),
            forall|t: Seq<u8>| !r.capabilities.has(t),
    {
        Crossword { puzzles: PuzzleRegistry::new(), capabilities: CapabilityTable::new() }
    }
}

} // verus!
