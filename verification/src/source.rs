//! Where the walker gets its tokens from.

use vstd::prelude::*;
use crate::error::LexError;
use crate::token::{Token, TokenModel};

verus! {

/// The model of what one call of a token source returned.
pub open spec fn outcome(r: Result<Token, LexError>) -> Result<TokenModel, LexError> {
    match r {
        Ok(token) => Ok(token@),
        Err(e) => Err(e),
    }
}

/// A lazy sequence of tokens: each call of `next` hands out one, and a
/// token handed out is gone.
pub trait TokenSource {
    /// What the calls of `next` to come will return, in order.
    spec fn pending(&self) -> Seq<Result<TokenModel, LexError>>;

    /// Hands out the next token; `None` once nothing is pending, and then
    /// nothing changes.
    fn next(&mut self) -> (token: Option<Result<Token, LexError>>)
        ensures
            match token {
                None => old(self).pending().len() == 0 && final(self).pending() == old(self).pending(),
                Some(r) => old(self).pending().len() > 0 && outcome(r) == old(self).pending()[0]
                    && final(self).pending() == old(self).pending().skip(1),
            },
    ;
}

/// The tokens of `tokens`, each as a result that a source hands out.
pub open spec fn all_ok(tokens: Seq<TokenModel>) -> Seq<Result<TokenModel, LexError>> {
    Seq::new(tokens.len(), |i: int| Ok(tokens[i]))
}

/// A token source over tokens that are already there.
pub struct TokenBuffer {
    /// The tokens still to hand out, the next one last.
    stack: Vec<Token>,
}

impl TokenBuffer {
    /// The tokens still to hand out, the next one first.
    pub closed spec fn tokens(&self) -> Seq<TokenModel> {
        Seq::new(self.stack@.len(), |i: int| self.stack@[self.stack@.len() - 1 - i]@)
    }

    /// A source that hands out `tokens` in order.
    pub fn new(tokens: Vec<Token>) -> (buffer: TokenBuffer)
        ensures
            buffer.tokens() == crate::token::models(tokens@),
    {
        let mut tokens = tokens;
        let ghost all = tokens@;
        let mut stack: Vec<Token> = Vec::new();
        loop
            invariant
                tokens@.len() + stack@.len() == all.len(),
                tokens@ == all.take(tokens@.len() as int),
                forall|i: int|
                    0 <= i < stack@.len() ==> #[trigger] stack@[i] == all[all.len() - 1 - i],
            ensures
                stack@.len() == all.len(),
                forall|i: int|
                    0 <= i < stack@.len() ==> #[trigger] stack@[i] == all[all.len() - 1 - i],
            decreases tokens@.len(),
        {
            match tokens.pop() {
                Some(token) => {
                    stack.push(token);
                },
                None => {
                    break ;
                },
            }
        }
        let buffer = TokenBuffer { stack };
        assert(buffer.tokens() =~= crate::token::models(all));
        buffer
    }
}

impl TokenSource for TokenBuffer {
    open spec fn pending(&self) -> Seq<Result<TokenModel, LexError>> {
        all_ok(self.tokens())
    }

    fn next(&mut self) -> (token: Option<Result<Token, LexError>>) {
        match self.stack.pop() {
            Some(token) => {
                assert(all_ok(self.tokens()) =~= all_ok(old(self).tokens()).skip(1));
                Some(Ok(token))
            },
            None => None,
        }
    }
}

} // verus!
