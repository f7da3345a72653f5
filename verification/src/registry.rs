//! The puzzle registry: a mapping from authorization-token identity to
//! puzzle record.
//!
//! The registry enforces key uniqueness (`insert` refuses a token that is
//! already present) and offers lookup and an in-place status update. Records
//! are never deleted: a claimed record stays as an audit trail. No iteration
//! is exposed.

use vstd::prelude::*;

use crate::puzzle::Puzzle;
use crate::puzzle::PuzzleStatus;
use crate::puzzle::PuzzleView;
use crate::token::Token;

verus! {

/// One registry entry: the creation token and the record it keys.
pub struct RegistryEntry {
    pub token: Token,
    pub puzzle: Puzzle,
}

/// Mapping from token identity to puzzle record, with unique keys.
pub struct PuzzleRegistry {
    pub entries: Vec<RegistryEntry>,
}

impl PuzzleRegistry {
    /// Well-formed: no two entries share a token identity.
    pub open spec fn wf(self) -> bool {
        forall|i: int, j: int|
            0 <= i < j < self.entries@.len() ==> self.entries@[i].token@ != self.entries@[j].token@
    }

    /// Whether some record is keyed by `k`.
    pub open spec fn contains_key(self, k: Seq<u8>) -> bool {
        exists|i: int| 0 <= i < self.entries@.len() && self.entries@[i].token@ == k
    }

    /// The index of the entry keyed by `k` (unique when well-formed).
    pub open spec fn index_of(self, k: Seq<u8>) -> int {
        choose|i: int| 0 <= i < self.entries@.len() && self.entries@[i].token@ == k
    }

    /// The record keyed by `k`.
    pub open spec fn spec_get(self, k: Seq<u8>) -> PuzzleView {
        self.entries@[self.index_of(k)].puzzle@
    }

    /// Under well-formedness, any entry whose token is `k` stands at `index_of(k)`.
    pub proof fn lemma_index_of_unique(self, k: Seq<u8>, i: int)
        requires
            self.wf(),
            0 <= i < self.entries@.len(),
            self.entries@[i].token@ == k,
        ensures
            self.index_of(k) == i,
            self.contains_key(k),
    {
        assert(self.contains_key(k));
        let j = self.index_of(k);
        assert(0 <= j < self.entries@.len() && self.entries@[j].token@ == k);
        if i < j {
            assert(self.entries@[i].token@ != self.entries@[j].token@);
        } else if j < i {
            assert(self.entries@[j].token@ != self.entries@[i].token@);
        }
    }

    /// An empty registry.
    pub fn new() -> (r: PuzzleRegistry)
        ensures
            r.wf(),
            forall|k: Seq<u8>| !r.contains_key(k),
            r.entries@.len() == 0,
    {
        PuzzleRegistry { entries: Vec::new() }
    }

    /// The index of the entry keyed by `token`, if any.
    fn find(&self, token: &Token) -> (r: Option<usize>)
        requires
            self.wf(),
        ensures
            match r {
                Some(i) => {
                    &&& 0 <= i < self.entries@.len()
                    &&& self.entries@[i as int].token@ == token@
                    &&& self.contains_key(token@)
                    &&& self.index_of(token@) == i
                },
                None => !self.contains_key(token@),
            },
    {
        let n = self.entries.len();
        let mut i: usize = 0;
        while i < n
            invariant
                self.wf(),
                n == self.entries@.len(),
                i <= n,
                forall|j: int| 0 <= j < i ==> self.entries@[j].token@ != token@,
            decreases n - i,
        {
            if self.entries[i].token.token_eq(token) {
                proof {
                    self.lemma_index_of_unique(token@, i as int);
                }
                return Some(i);
            }
            i += 1;
        }
        None
    }

    /// Read-only lookup of the record keyed by `token`.
    pub fn get(&self, token: &Token) -> (r: Option<&Puzzle>)
        requires
            self.wf(),
        ensures
            match r {
                Some(p) => self.contains_key(token@) && p@ == self.spec_get(token@),
                None => !self.contains_key(token@),
            },
    {
        match self.find(token) {
            Some(i) => Some(&self.entries[i].puzzle),
            None => None,
        }
    }

    /// Inserts a record keyed by `token`. Refuses a token already present:
    /// the result says whether the record was inserted, and on refusal the
    /// registry is unchanged.
    pub fn insert(&mut self, token: Token, puzzle: Puzzle) -> (r: bool)
        requires
            old(self).wf(),
        ensures
            final(self).wf(),
            r <==> !old(self).contains_key(token@),
            !r ==> *final(self) == *old(self),
            r ==> {
                &&& final(self).contains_key(token@)
                &&& final(self).spec_get(token@) == puzzle@
                &&& forall|k: Seq<u8>|
                    k != token@ ==> (final(self).contains_key(k) <==> old(self).contains_key(k))
                &&& forall|k: Seq<u8>|
                    k != token@ && old(self).contains_key(k) ==> final(self).spec_get(k)
                        == old(self).spec_get(k)
            },
    {
        match self.find(&token) {
            Some(_) => false,
            None => {
                let ghost pre = *self;
                let ghost tv = token@;
                let ghost pv = puzzle@;
                self.entries.push(RegistryEntry { token, puzzle });
                proof {
                    let n = pre.entries@.len() as int;
                    assert(self.entries@.len() == n + 1);
                    assert(self.entries@[n].token@ == tv);
                    assert(self.entries@[n].puzzle@ == pv);
                    assert(forall|j: int| 0 <= j < n ==> self.entries@[j] == pre.entries@[j]);
                    assert forall|i: int, j: int|
                        0 <= i < j < self.entries@.len() implies self.entries@[i].token@
                        != self.entries@[j].token@ by {
                        if j < n {
                            assert(pre.entries@[i].token@ != pre.entries@[j].token@);
                        } else {
                            assert(j == n);
                            assert(!pre.contains_key(tv));
                            assert(pre.entries@[i].token@ != tv);
                        }
                    }
                    self.lemma_index_of_unique(tv, n);
                    assert(self.spec_get(tv) == pv);
                    assert forall|k: Seq<u8>| k != tv implies (self.contains_key(k)
                        <==> pre.contains_key(k)) by {
                        if self.contains_key(k) {
                            let i = choose|i: int|
                                0 <= i < self.entries@.len() && self.entries@[i].token@ == k;
                            assert(i != n);
                            assert(pre.entries@[i].token@ == k);
                            assert(pre.contains_key(k));
                        }
                        if pre.contains_key(k) {
                            let i = choose|i: int|
                                0 <= i < pre.entries@.len() && pre.entries@[i].token@ == k;
                            assert(self.entries@[i].token@ == k);
                            assert(self.contains_key(k));
                        }
                    }
                    assert forall|k: Seq<u8>| k != tv && pre.contains_key(k) implies self.spec_get(
                        k,
                    ) == pre.spec_get(k) by {
                        let i = pre.index_of(k);
                        assert(0 <= i < pre.entries@.len() && pre.entries@[i].token@ == k);
                        assert(self.entries@[i].token@ == k);
                        self.lemma_index_of_unique(k, i);
                        pre.lemma_index_of_unique(k, i);
                    }
                }
                true
            },
        }
    }

    /// Replaces the status of the record keyed by `token`, in place.
    /// Everything set at creation (reward, creator, metadata) is kept, and
    /// every other record is untouched.
    pub fn set_status(&mut self, token: &Token, status: PuzzleStatus)
        requires
            old(self).wf(),
            old(self).contains_key(token@),
        ensures
            final(self).wf(),
            forall|k: Seq<u8>| final(self).contains_key(k) <==> old(self).contains_key(k),
            final(self).spec_get(token@) == old(self).spec_get(token@).with_status(status@),
            forall|k: Seq<u8>|
                k != token@ && old(self).contains_key(k) ==> final(self).spec_get(k) == old(
                    self,
                ).spec_get(k),
    {
        let ghost pre = *self;
        let ghost tv = token@;
        let ghost sv = status@;
        match self.find(token) {
            Some(i) => {
                let entry = &mut self.entries[i];
                entry.puzzle.status = status;
                proof {
                    let n = pre.entries@.len() as int;
                    assert(self.entries@.len() == n);
                    assert(self.entries@[i as int].token@ == tv);
                    assert(self.entries@[i as int].puzzle@ == pre.entries@[i as int].puzzle@
                        .with_status(sv));
                    assert(forall|j: int|
                        0 <= j < n && j != i ==> self.entries@[j] == pre.entries@[j]);
                    assert forall|a: int, b: int| 0 <= a < b < n implies self.entries@[a].token@
                        != self.entries@[b].token@ by {
                        assert(self.entries@[a].token@ == pre.entries@[a].token@);
                        assert(self.entries@[b].token@ == pre.entries@[b].token@);
                        assert(pre.entries@[a].token@ != pre.entries@[b].token@);
                    }
                    assert forall|k: Seq<u8>| self.contains_key(k) <==> pre.contains_key(k) by {
                        if self.contains_key(k) {
                            let j = choose|j: int|
                                0 <= j < self.entries@.len() && self.entries@[j].token@ == k;
                            assert(pre.entries@[j].token@ == k);
                        }
                        if pre.contains_key(k) {
                            let j = choose|j: int|
                                0 <= j < pre.entries@.len() && pre.entries@[j].token@ == k;
                            assert(self.entries@[j].token@ == k);
                        }
                    }
                    self.lemma_index_of_unique(tv, i as int);
                    pre.lemma_index_of_unique(tv, i as int);
                    assert(self.spec_get(tv) == pre.spec_get(tv).with_status(sv));
                    assert forall|k: Seq<u8>| k != tv && pre.contains_key(k) implies self.spec_get(
                        k,
                    ) == pre.spec_get(k) by {
                        let j = pre.index_of(k);
                        assert(0 <= j < n && pre.entries@[j].token@ == k);
                        assert(self.entries@[j].token@ == k);
                        self.lemma_index_of_unique(k, j);
                        assert(j != i);
                        assert(self.entries@[j] == pre.entries@[j]);
                    }
                }
            },
            None => {
                proof {
                    assert(false);
                }
            },
        }
    }
}

} // verus!
