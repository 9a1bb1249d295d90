use vstd::prelude::*;

use crate::invalid_syntax::{diag_at, DiagKind, DiagView, ExpectedActuallyTokenPair, InvalidSyntax, InvalidSyntaxType};
use crate::lexer::views;
use crate::reserved_word::ReservedWord;
use crate::token::{option_view, Token, TokenBase, TokenBaseModel, TokenView};

verus! {

/// A forward-only cursor over a fixed token sequence, with lookahead.
pub struct TokenStack<'a> {
    tokens: &'a [Token],
    consumed: usize,
    current: Option<Token>,
}

/// The token `k` places ahead of a cursor that has consumed `pos` tokens (`k == 1` is the next
/// one, `k == 0` the current one), if there is one.
pub open spec fn ahead(toks: Seq<TokenView>, pos: int, k: int) -> Option<TokenView> {
    let i = pos + k - 1;
    if 0 <= i < toks.len() {
        Some(toks[i])
    } else {
        None
    }
}

/// The payload of a token that may be missing; an invalid lexeme has none.
pub open spec fn payload(t: Option<TokenView>) -> Option<TokenBaseModel> {
    match t {
        Some(tv) => tv.token,
        None => None,
    }
}

/// The diagnostic for expecting `expected` at the token after the cursor.
pub open spec fn expect_diag(
    toks: Seq<TokenView>,
    pos: int,
    expected: Seq<TokenBaseModel>,
) -> DiagView {
    match ahead(toks, pos, 1) {
        Some(t) => diag_at(DiagKind::Expected(expected, t), t),
        None => eof_diag(toks, pos),
    }
}

/// The diagnostic for an input that ends after the cursor's current token.
pub open spec fn eof_diag(toks: Seq<TokenView>, pos: int) -> DiagView {
    match ahead(toks, pos, 0) {
        Some(t) => diag_at(DiagKind::Eof, t),
        None => DiagView { kind: DiagKind::Eof, ln: 0, col: 0, path: Seq::empty() },
    }
}

impl<'a> TokenStack<'a> {
    /// The whole token sequence.
    pub closed spec fn toks(&self) -> Seq<TokenView> {
        views(self.tokens@)
    }

    /// How many tokens have been consumed.
    pub closed spec fn pos(&self) -> int {
        self.consumed as int
    }

    /// The cursor stands within the sequence, and the current token is the last one consumed.
    pub open spec fn wf(&self) -> bool {
        &&& 0 <= self.pos() <= self.toks().len()
        &&& self.toks().len() < usize::MAX
        &&& self.current_wf()
    }

    pub closed spec fn current_wf(&self) -> bool {
        &&& self.consumed <= self.tokens@.len()
        &&& option_view_tok(self.current) == ahead(self.toks(), self.pos(), 0)
    }

    /// Tokens not yet consumed.
    pub open spec fn remaining(&self) -> int {
        self.toks().len() - self.pos()
    }

    pub fn new(tokens: &'a [Token]) -> (r: TokenStack<'a>)
        requires
            tokens@.len() < usize::MAX,
        ensures
            r.wf(),
            r.pos() == 0,
            r.toks() == views(tokens@),
    {
        TokenStack { tokens, consumed: 0, current: None }
    }

    pub fn has_next(&self) -> (r: bool)
        requires
            self.wf(),
        ensures
            r == (self.pos() < self.toks().len()),
    {
        self.consumed < self.tokens.len()
    }

    /// Moves to the next token and returns its payload (none past the end, or for an
    /// invalid lexeme).
    pub fn next(&mut self) -> (r: Option<TokenBase>)
        requires
            old(self).wf(),
        ensures
            final(self).wf(),
            final(self).toks() == old(self).toks(),
            final(self).pos() == if old(self).pos() < old(self).toks().len() {
                old(self).pos() + 1
            } else {
                old(self).pos()
            },
            option_view(r) == payload(ahead(old(self).toks(), old(self).pos(), 1)),
    {
        match self.next_token() {
            Some(t) => t.base(),
            None => None,
        }
    }

    /// Moves to the next token and returns it (none past the end).
    pub fn next_token(&mut self) -> (r: Option<Token>)
        requires
            old(self).wf(),
        ensures
            final(self).wf(),
            final(self).toks() == old(self).toks(),
            final(self).pos() == if old(self).pos() < old(self).toks().len() {
                old(self).pos() + 1
            } else {
                old(self).pos()
            },
            option_view_tok(r) == ahead(old(self).toks(), old(self).pos(), 1),
    {
        if self.consumed < self.tokens.len() {
            let t = self.tokens[self.consumed].clone();
            self.consumed = self.consumed + 1;
            self.current = Some(t.clone());
            Some(t)
        } else {
            None
        }
    }

    /// The payload of the token `range` places ahead (1 is the next token).
    pub fn look_ahead(&self, range: usize) -> (r: Option<TokenBase>)
        requires
            self.wf(),
        ensures
            option_view(r) == payload(ahead(self.toks(), self.pos(), range as int)),
    {
        match self.nth(range) {
            Some(t) => t.base(),
            None => None,
        }
    }

    /// The token `range` places ahead (1 is the next token).
    pub fn nth(&self, range: usize) -> (r: Option<Token>)
        requires
            self.wf(),
        ensures
            option_view_tok(r) == ahead(self.toks(), self.pos(), range as int),
    {
        if range == 0 {
            if self.consumed > 0 {
                Some(self.tokens[self.consumed - 1].clone())
            } else {
                None
            }
        } else if range - 1 < self.tokens.len() - self.consumed {
            Some(self.tokens[self.consumed + (range - 1)].clone())
        } else {
            None
        }
    }

    /// The index of the current token (-1 before the first).
    pub fn ind(&self) -> (r: i32)
        requires
            self.wf(),
            self.pos() <= i32::MAX,
        ensures
            r == self.pos() - 1,
    {
        self.consumed as i32 - 1
    }

    /// The payload of the current token.
    pub fn peek(&self) -> (r: Option<TokenBase>)
        requires
            self.wf(),
        ensures
            option_view(r) == payload(ahead(self.toks(), self.pos(), 0)),
    {
        match &self.current {
            Some(t) => t.base(),
            None => None,
        }
    }

    /// The current token.
    pub fn peek_token(&self) -> (r: Option<Token>)
        requires
            self.wf(),
        ensures
            option_view_tok(r) == ahead(self.toks(), self.pos(), 0),
    {
        match &self.current {
            Some(t) => Some(t.clone()),
            None => None,
        }
    }

    /// Checks, without moving, that the next token is `reserved`.
    pub fn scan_reserved(&self, reserved: ReservedWord) -> (r: Result<(), InvalidSyntax>)
        requires
            self.wf(),
        ensures
            r is Ok <==> payload(ahead(self.toks(), self.pos(), 1)) == Some(
                TokenBaseModel::Res(reserved),
            ),
            r matches Err(e) ==> e@ == expect_diag(
                self.toks(),
                self.pos(),
                seq![TokenBaseModel::Res(reserved)],
            ),
    {
        match self.nth(1) {
            Some(next) => {
                let ok = match next.get_token() {
                    Some(TokenBase::Reserved(r)) => *r == reserved,
                    _ => false,
                };
                if ok {
                    Ok(())
                } else {
                    let expected = vec![TokenBase::Reserved(reserved)];
                    proof {
                        assert(crate::invalid_syntax::base_views(expected@) =~= seq![
                            TokenBaseModel::Res(reserved),
                        ]);
                    }
                    let e = InvalidSyntax::at_token(
                        &next,
                        InvalidSyntaxType::ExpectedNext(
                            ExpectedActuallyTokenPair(expected, next.clone()),
                        ),
                    );
                    Err(e)
                }
            },
            None => Err(self.eof_error()),
        }
    }

    /// The diagnostic for an input that ends after the current token.
    pub fn eof_error(&self) -> (r: InvalidSyntax)
        requires
            self.wf(),
        ensures
            r@ == eof_diag(self.toks(), self.pos()),
    {
        match &self.current {
            Some(t) => InvalidSyntax::at_token(t, InvalidSyntaxType::UnexpectedEof),
            None => InvalidSyntax::at_start(InvalidSyntaxType::UnexpectedEof),
        }
    }

    /// Moves past the next token if it is `reserved`; otherwise reports it and still moves past
    /// it, so that the caller always makes progress.
    pub fn consume_reserved(&mut self, reserved: ReservedWord) -> (r: Result<(), InvalidSyntax>)
        requires
            old(self).wf(),
        ensures
            final(self).wf(),
            final(self).toks() == old(self).toks(),
            r is Ok <==> payload(ahead(old(self).toks(), old(self).pos(), 1)) == Some(
                TokenBaseModel::Res(reserved),
            ),
            final(self).pos() == if old(self).pos() < old(self).toks().len() {
                old(self).pos() + 1
            } else {
                old(self).pos()
            },
            r matches Err(e) ==> e@ == expect_diag(
                old(self).toks(),
                old(self).pos(),
                seq![TokenBaseModel::Res(reserved)],
            ),
    {
        let scanned = self.scan_reserved(reserved);
        self.next();
        scanned
    }

    /// Moves forward until the next token is `reserved` (not consuming it); reports an
    /// unexpected end of input if there is none.
    pub fn skip_reserved_until(&mut self, reserved: ReservedWord) -> (r: Result<(), InvalidSyntax>)
        requires
            old(self).wf(),
        ensures
            final(self).wf(),
            final(self).toks() == old(self).toks(),
            old(self).pos() <= final(self).pos(),
            forall|k: int|
                old(self).pos() <= k < final(self).pos() ==> (#[trigger] old(self).toks()[k]).token
                    != Some(TokenBaseModel::Res(reserved)),
            r is Ok <==> payload(ahead(final(self).toks(), final(self).pos(), 1)) == Some(
                TokenBaseModel::Res(reserved),
            ),
            r is Err ==> final(self).pos() == final(self).toks().len(),
            r matches Err(e) ==> e@ == eof_diag(final(self).toks(), final(self).pos()),
    {
        let ghost start = self.pos();
        loop
            invariant
                self.wf(),
                self.toks() == old(self).toks(),
                start == old(self).pos(),
                start <= self.pos() <= self.toks().len(),
                forall|k: int|
                    start <= k < self.pos() ==> (#[trigger] self.toks()[k]).token != Some(
                        TokenBaseModel::Res(reserved),
                    ),
            decreases self.remaining(),
        {
            if !self.has_next() {
                return Err(self.eof_error());
            }
            let found = match self.look_ahead(1) {
                Some(TokenBase::Reserved(r)) => r == reserved,
                _ => false,
            };
            if found {
                return Ok(());
            }
            self.next();
        }
    }
}

pub open spec fn option_view_tok(t: Option<Token>) -> Option<TokenView> {
    match t {
        Some(tk) => Some(tk@),
        None => None,
    }
}

} // verus!
