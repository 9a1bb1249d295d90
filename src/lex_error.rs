use vstd::prelude::*;

use crate::lexer::views;
use crate::token::{Token, TokenView};

verus! {

/// The invalid lexemes found in one source text, in source order.
#[derive(Debug)]
pub struct LexError {
    invalid_tokens: Vec<Token>,
}

impl LexError {
    pub fn new(invalid_tokens: Vec<Token>) -> (r: LexError)
        ensures
            r.tokens() == views(invalid_tokens@),
    {
        LexError { invalid_tokens }
    }

    pub closed spec fn tokens(&self) -> Seq<TokenView> {
        views(self.invalid_tokens@)
    }

    pub fn invalid_tokens(&self) -> (r: &Vec<Token>)
        ensures
            views(r@) == self.tokens(),
    {
        &self.invalid_tokens
    }
}

/// The invalid lexemes found in one source text, in source order.
#[derive(Debug)]
pub struct LexerError {
    invalid_tokens: Vec<Token>,
}

impl LexerError {
    pub fn new(invalid_tokens: Vec<Token>) -> (r: LexerError)
        ensures
            r.tokens() == views(invalid_tokens@),
    {
        LexerError { invalid_tokens }
    }

    pub closed spec fn tokens(&self) -> Seq<TokenView> {
        views(self.invalid_tokens@)
    }

    pub fn invalid_tokens(&self) -> (r: &Vec<Token>)
        ensures
            views(r@) == self.tokens(),
    {
        &self.invalid_tokens
    }
}

} // verus!
