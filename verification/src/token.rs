//! Authorization tokens: opaque, globally unique identities.
//!
//! A token serves both as the registry's lookup key and as the credential
//! whose matching private half must sign a call for the call to be accepted.
//! The library never inspects a token's internal structure; it only compares
//! tokens for equality. A token's mathematical model is its byte sequence.

use vstd::prelude::*;

verus! {

/// An opaque authorization token, modelled as its byte sequence.
#[derive(Debug)]
pub struct Token {
    pub bytes: Vec<u8>,
}

impl View for Token {
    type V = Seq<u8>;

    open spec fn view(&self) -> Seq<u8> {
        self.bytes@
    }
}

impl Token {
    /// Wraps raw bytes as a token.
    pub fn new(bytes: Vec<u8>) -> (t: Token)
        ensures
            t@ == bytes@,
    {
        Token { bytes }
    }

    /// Byte-for-byte equality of two tokens.
    pub fn token_eq(&self, other: &Token) -> (r: bool)
        ensures
            r <==> self@ == other@,
    {
        if self.bytes.len() != other.bytes.len() {
            return false;
        }
        let n = self.bytes.len();
        let mut i: usize = 0;
        while i < n
            invariant
                n == self.bytes.len(),
                n == other.bytes.len(),
                i <= n,
                forall|j: int| 0 <= j < i ==> self.bytes@[j] == other.bytes@[j],
            decreases n - i,
        {
            if self.bytes[i] != other.bytes[i] {
                return false;
            }
            i += 1;
        }
        proof {
            assert(self@ =~= other@);
        }
        true
    }
}

impl Clone for Token {
    /// A cloned token denotes the same identity: the byte sequences agree.
    fn clone(&self) -> (t: Token)
        ensures
            t@ == self@,
    {
        let mut bytes: Vec<u8> = Vec::new();
        let n = self.bytes.len();
        let mut i: usize = 0;
        while i < n
            invariant
                n == self.bytes.len(),
                i <= n,
                bytes@ =~= self.bytes@.subrange(0, i as int),
            decreases n - i,
        {
            bytes.push(self.bytes[i]);
            i += 1;
        }
        proof {
            assert(bytes@ =~= self.bytes@);
        }
        Token { bytes }
    }
}

} // verus!
