use vstd::prelude::*;

use crate::game_match::clock::now_millis;
use crate::user::reset_token::ResetToken;

verus! {

/// The reset tokens handed out and not yet used or dropped.
pub struct ResetTokenRepository {
    tokens: Vec<ResetToken>,
}

/// The tokens of `tokens` still valid at `now`, in order.
pub open spec fn valid_tokens(tokens: Seq<ResetToken>, now: u64) -> Seq<ResetToken> {
    tokens.filter(|t: ResetToken| now < t.expires_at)
}

/// Position `i` holds the first token with the value `token`.
pub open spec fn first_token_at(tokens: Seq<ResetToken>, token: u128, i: int) -> bool {
    &&& 0 <= i < tokens.len()
    &&& tokens[i].token == token
    &&& forall|j: int| 0 <= j < i ==> #[trigger] tokens[j].token != token
}

impl ResetTokenRepository {
    pub closed spec fn tokens_spec(&self) -> Seq<ResetToken> {
        self.tokens@
    }

    pub fn new() -> (r: Self)
        ensures
            r.tokens_spec() == Seq::<ResetToken>::empty(),
    {
        ResetTokenRepository { tokens: Vec::new() }
    }

    pub fn add_token(&mut self, token: ResetToken)
        ensures
            final(self).tokens_spec() == old(self).tokens_spec().push(token),
    {
        self.tokens.push(token);
    }

    /// The first token with the value `token`, if any.
    pub fn find_token(&self, token: u128) -> (r: Option<&ResetToken>)
        ensures
            match r {
                Some(t) => exists|i: int|
                    #[trigger] first_token_at(self.tokens_spec(), token, i) && self.tokens_spec()[i] == *t,
                None => forall|j: int|
                    0 <= j < self.tokens_spec().len() ==> #[trigger] self.tokens_spec()[j].token != token,
            },
    {
        let mut i: usize = 0;
        while i < self.tokens.len()
            invariant
                i <= self.tokens@.len(),
                forall|j: int| 0 <= j < i ==> #[trigger] self.tokens@[j].token != token,
            decreases self.tokens@.len() - i,
        {
            if self.tokens[i].token == token {
                proof {
                    assert(first_token_at(self.tokens_spec(), token, i as int));
                }
                return Some(&self.tokens[i]);
            }
            i = i + 1;
        }
        None
    }

    /// Drops every token with the value `token`, keeping the others in
    /// order.
    pub fn remove_token(&mut self, token: u128)
        ensures
            final(self).tokens_spec() == old(self).tokens_spec().filter(|t: ResetToken| t.token != token),
    {
        let mut kept: Vec<ResetToken> = Vec::new();
        let mut i: usize = 0;
        while i < self.tokens.len()
            invariant
                i <= self.tokens@.len(),
                self.tokens@ == old(self).tokens@,
                kept@ == self.tokens@.subrange(0, i as int).filter(|t: ResetToken| t.token != token),
            decreases self.tokens@.len() - i,
        {
            let t = self.tokens[i];
            proof {
                reveal_with_fuel(Seq::filter, 1);
                assert(self.tokens@.subrange(0, i + 1).drop_last() =~= self.tokens@.subrange(0, i as int));
            }
            if t.token != token {
                kept.push(t);
            }
            i = i + 1;
        }
        proof {
            assert(self.tokens@.subrange(0, self.tokens@.len() as int) =~= self.tokens@);
        }
        self.tokens = kept;
    }

    /// Drops every token that is no longer valid at `now`, keeping the
    /// others in order.
    pub fn clean_expired_at(&mut self, now: u64)
        ensures
            final(self).tokens_spec() == valid_tokens(old(self).tokens_spec(), now),
    {
        let mut kept: Vec<ResetToken> = Vec::new();
        let mut i: usize = 0;
        while i < self.tokens.len()
            invariant
                i <= self.tokens@.len(),
                self.tokens@ == old(self).tokens@,
                kept@ == self.tokens@.subrange(0, i as int).filter(|t: ResetToken| now < t.expires_at),
            decreases self.tokens@.len() - i,
        {
            let t = self.tokens[i];
            proof {
                reveal_with_fuel(Seq::filter, 1);
                assert(self.tokens@.subrange(0, i + 1).drop_last() =~= self.tokens@.subrange(0, i as int));
            }
            if t.is_valid_at(now) {
                kept.push(t);
            }
            i = i + 1;
        }
        proof {
            assert(self.tokens@.subrange(0, self.tokens@.len() as int) =~= self.tokens@);
        }
        self.tokens = kept;
    }

    /// Drops every token that is no longer valid now.
    pub fn clean_expired(&mut self)
        ensures
            exists|now: u64| final(self).tokens_spec() == #[trigger] valid_tokens(old(self).tokens_spec(), now),
    {
        let now = now_millis();
        self.clean_expired_at(now);
    }
}

} // verus!
