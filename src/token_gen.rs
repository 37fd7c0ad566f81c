use vstd::prelude::*;

verus! {

/// Issues unique identifiers, each greater than every one issued before.
pub struct TokenGen {
    next: usize,
}

impl TokenGen {
    /// The identifier that the next call of `next_token` hands out.
    pub closed spec fn upcoming(&self) -> nat {
        self.next as nat
    }

    pub fn new() -> (r: TokenGen)
        ensures
            r.upcoming() == 0,
    {
        TokenGen { next: 0 }
    }

    /// Hands out a fresh identifier. Identifiers are never reused.
    pub fn next_token(&mut self) -> (r: usize)
        requires
            old(self).upcoming() < usize::MAX,
        ensures
            r == old(self).upcoming(),
            final(self).upcoming() == old(self).upcoming() + 1,
    {
        let r = self.next;
        self.next = self.next + 1;
        r
    }

    /// Whether another identifier can still be issued.
    pub fn can_issue(&self) -> (r: bool)
        ensures
            r == (self.upcoming() < usize::MAX),
    {
        self.next < usize::MAX
    }
}

} // verus!
