//! The capability table: the explicit form of the capability rotation
//! protocol.
//!
//! A capability is a bearer token scoped to exactly one named operation on
//! one record. Capabilities are minted and revoked only from within the same
//! transition as the record mutation they authorize, so a captured call can
//! never be replayed: the capability it rode on is gone once the transition
//! commits.

use vstd::prelude::*;

use crate::token::Token;

verus! {

/// The one operation a capability may authorize.
#[derive(Clone, Copy, PartialEq, Eq, Structural, Debug)]
pub enum CapOp {
    Solve,
    Claim,
}

/// A bearer token scoped to exactly one operation on one record.
#[derive(Debug)]
pub struct Capability {
    /// The token whose holder may perform the operation.
    pub token: Token,
    /// The one operation this capability authorizes.
    pub op: CapOp,
    /// The registry key of the record the operation acts on.
    pub record: Token,
}

/// Mapping from token identity to the capability it currently bears, with
/// unique token keys.
pub struct CapabilityTable {
    pub caps: Vec<Capability>,
}

impl CapabilityTable {
    /// Well-formed: no two capabilities share a bearer token.
    pub open spec fn wf(self) -> bool {
        forall|i: int, j: int|
            0 <= i < j < self.caps@.len() ==> self.caps@[i].token@ != self.caps@[j].token@
    }

    /// Whether some capability is borne by token `t`.
    pub open spec fn has(self, t: Seq<u8>) -> bool {
        exists|i: int| 0 <= i < self.caps@.len() && self.caps@[i].token@ == t
    }

    /// The index of the capability borne by `t` (unique when well-formed).
    pub open spec fn index_of(self, t: Seq<u8>) -> int {
        choose|i: int| 0 <= i < self.caps@.len() && self.caps@[i].token@ == t
    }

    /// The operation that `t`'s capability authorizes.
    pub open spec fn op_of(self, t: Seq<u8>) -> CapOp {
        self.caps@[self.index_of(t)].op
    }

    /// The record key that `t`'s capability acts on.
    pub open spec fn record_of(self, t: Seq<u8>) -> Seq<u8> {
        self.caps@[self.index_of(t)].record@
    }

    /// Under well-formedness, any capability whose token is `t` stands at
    /// `index_of(t)`.
    pub proof fn lemma_index_of_unique(self, t: Seq<u8>, i: int)
        requires
            self.wf(),
            0 <= i < self.caps@.len(),
            self.caps@[i].token@ == t,
        ensures
            self.index_of(t) == i,
            self.has(t),
    {
        assert(self.has(t));
        let j = self.index_of(t);
        assert(0 <= j < self.caps@.len() && self.caps@[j].token@ == t);
        if i < j {
            assert(self.caps@[i].token@ != self.caps@[j].token@);
        } else if j < i {
            assert(self.caps@[j].token@ != self.caps@[i].token@);
        }
    }

    /// An empty table.
    pub fn new() -> (r: CapabilityTable)
        ensures
            r.wf(),
            forall|t: Seq<u8>| !r.has(t),
            r.caps@.len() == 0,
    {
        CapabilityTable { caps: Vec::new() }
    }

    /// The index of the capability borne by `token`, if any.
    fn find(&self, token: &Token) -> (r: Option<usize>)
        requires
            self.wf(),
        ensures
            match r {
                Some(i) => {
                    &&& 0 <= i < self.caps@.len()
                    &&& self.caps@[i as int].token@ == token@
                    &&& self.has(token@)
                    &&& self.index_of(token@) == i
                },
                None => !self.has(token@),
            },
    {
        let n = self.caps.len();
        let mut i: usize = 0;
        while i < n
            invariant
                self.wf(),
                n == self.caps@.len(),
                i <= n,
                forall|j: int| 0 <= j < i ==> self.caps@[j].token@ != token@,
            decreases n - i,
        {
            if self.caps[i].token.token_eq(token) {
                proof {
                    self.lemma_index_of_unique(token@, i as int);
                }
                return Some(i);
            }
            i += 1;
        }
        None
    }

    /// Read-only lookup of the capability borne by `token`.
    pub fn lookup(&self, token: &Token) -> (r: Option<&Capability>)
        requires
            self.wf(),
        ensures
            match r {
                Some(c) => {
                    &&& self.has(token@)
                    &&& c.token@ == token@
                    &&& c.op == self.op_of(token@)
                    &&& c.record@ == self.record_of(token@)
                },
                None => !self.has(token@),
            },
    {
        match self.find(token) {
            Some(i) => Some(&self.caps[i]),
            None => None,
        }
    }

    /// Grants a capability to a token that bears none yet. Every other
    /// capability is untouched.
    pub fn mint(&mut self, cap: Capability)
        requires
            old(self).wf(),
            !old(self).has(cap.token@),
        ensures
            final(self).wf(),
            final(self).has(cap.token@),
            final(self).op_of(cap.token@) == cap.op,
            final(self).record_of(cap.token@) == cap.record@,
            forall|t: Seq<u8>| t != cap.token@ ==> (final(self).has(t) <==> old(self).has(t)),
            forall|t: Seq<u8>|
                t != cap.token@ && old(self).has(t) ==> final(self).op_of(t) == old(self).op_of(t)
                    && final(self).record_of(t) == old(self).record_of(t),
    {
        let ghost pre = *self;
        let ghost tv = cap.token@;
        let ghost ov = cap.op;
        let ghost rv = cap.record@;
        self.caps.push(cap);
        proof {
            let n = pre.caps@.len() as int;
            assert(self.caps@.len() == n + 1);
            assert(self.caps@[n].token@ == tv);
            assert(self.caps@[n].op == ov);
            assert(self.caps@[n].record@ == rv);
            assert(forall|j: int| 0 <= j < n ==> self.caps@[j] == pre.caps@[j]);
            assert forall|i: int, j: int| 0 <= i < j < self.caps@.len() implies self.caps@[i].token@
                != self.caps@[j].token@ by {
                if j < n {
                    assert(pre.caps@[i].token@ != pre.caps@[j].token@);
                } else {
                    assert(j == n);
                    assert(pre.caps@[i].token@ != tv);
                }
            }
            self.lemma_index_of_unique(tv, n);
            assert forall|t: Seq<u8>| t != tv implies (self.has(t) <==> pre.has(t)) by {
                if self.has(t) {
                    let i = choose|i: int| 0 <= i < self.caps@.len() && self.caps@[i].token@ == t;
                    assert(i != n);
                    assert(pre.caps@[i].token@ == t);
                }
                if pre.has(t) {
                    let i = choose|i: int| 0 <= i < pre.caps@.len() && pre.caps@[i].token@ == t;
                    assert(self.caps@[i].token@ == t);
                }
            }
            assert forall|t: Seq<u8>| t != tv && pre.has(t) implies self.op_of(t) == pre.op_of(t)
                && self.record_of(t) == pre.record_of(t) by {
                let i = pre.index_of(t);
                assert(0 <= i < pre.caps@.len() && pre.caps@[i].token@ == t);
                assert(self.caps@[i].token@ == t);
                self.lemma_index_of_unique(t, i);
                pre.lemma_index_of_unique(t, i);
            }
        }
    }

    /// Revokes the capability borne by `token`, so it can never authorize
    /// again. Every other capability is untouched.
    pub fn revoke(&mut self, token: &Token)
        requires
            old(self).wf(),
            old(self).has(token@),
        ensures
            final(self).wf(),
            !final(self).has(token@),
            forall|t: Seq<u8>| t != token@ ==> (final(self).has(t) <==> old(self).has(t)),
            forall|t: Seq<u8>|
                t != token@ && old(self).has(t) ==> final(self).op_of(t) == old(self).op_of(t)
                    && final(self).record_of(t) == old(self).record_of(t),
    {
        let ghost pre = *self;
        let ghost tv = token@;
        match self.find(token) {
            Some(i) => {
                self.caps.remove(i);
                proof {
                    let n = pre.caps@.len() as int;
                    let iv = i as int;
                    assert(self.caps@ == pre.caps@.remove(iv));
                    assert(self.caps@.len() == n - 1);
                    assert(forall|j: int| 0 <= j < iv ==> self.caps@[j] == pre.caps@[j]);
                    assert(forall|j: int| iv <= j < n - 1 ==> self.caps@[j] == pre.caps@[j + 1]);
                    assert forall|a: int, b: int| 0 <= a < b < self.caps@.len() implies self
                        .caps@[a].token@ != self.caps@[b].token@ by {
                        let a0: int = if a < iv { a } else { a + 1 };
                        let b0: int = if b < iv { b } else { b + 1 };
                        assert(self.caps@[a] == pre.caps@[a0]);
                        assert(self.caps@[b] == pre.caps@[b0]);
                        assert(pre.caps@[a0].token@ != pre.caps@[b0].token@);
                    }
                    assert forall|j: int| 0 <= j < self.caps@.len() implies self.caps@[j].token@
                        != tv by {
                        let j0: int = if j < iv { j } else { j + 1 };
                        assert(self.caps@[j] == pre.caps@[j0]);
                        pre.lemma_index_of_unique(tv, iv);
                        if j0 != iv {
                            if j0 < iv {
                                assert(pre.caps@[j0].token@ != pre.caps@[iv].token@);
                            } else {
                                assert(pre.caps@[iv].token@ != pre.caps@[j0].token@);
                            }
                        }
                    }
                    assert(!self.has(tv));
                    assert forall|t: Seq<u8>| t != tv implies (self.has(t) <==> pre.has(t)) by {
                        if self.has(t) {
                            let j = choose|j: int|
                                0 <= j < self.caps@.len() && self.caps@[j].token@ == t;
                            let j0: int = if j < iv { j } else { j + 1 };
                            assert(pre.caps@[j0].token@ == t);
                        }
                        if pre.has(t) {
                            let j0 = choose|j0: int|
                                0 <= j0 < pre.caps@.len() && pre.caps@[j0].token@ == t;
                            assert(j0 != iv);
                            let j: int = if j0 < iv { j0 } else { j0 - 1 };
                            assert(self.caps@[j] == pre.caps@[j0]);
                            assert(self.caps@[j].token@ == t);
                        }
                    }
                    assert forall|t: Seq<u8>| t != tv && pre.has(t) implies self.op_of(t)
                        == pre.op_of(t) && self.record_of(t) == pre.record_of(t) by {
                        let j0 = pre.index_of(t);
                        assert(0 <= j0 < pre.caps@.len() && pre.caps@[j0].token@ == t);
                        assert(j0 != iv);
                        let j: int = if j0 < iv { j0 } else { j0 - 1 };
                        assert(self.caps@[j] == pre.caps@[j0]);
                        self.lemma_index_of_unique(t, j);
                        pre.lemma_index_of_unique(t, j0);
                    }
                }
            },
            None => {
                proof {
                    assert(false);
                }
            },
        }
    }
}

} // verus!
