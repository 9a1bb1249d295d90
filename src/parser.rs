use vstd::prelude::*;

use crate::ast::{lemma_models_concat, lemma_models_elems, lemma_models_one, lemma_models_push, lemma_models_two, model, models_of, Ast, AstModel, AstType};
use crate::grammar::{g_missing_semicolon, g_unary_exponent, g_attributes, g_decls, g_unit, unit_of, g_attribute, g_exportable, g_arglist, g_items, tree_of, end_of, g_base, g_postfix, g_args, g_compound, g_body, g_const_decl, g_expr2, g_expression, g_function, g_let_decl, g_paren, g_primary, g_unary, leaf_at, res_at, tok_at, g_exponential, g_level, g_operand, g_tail, list_end, list_of, moves};
use crate::invalid_syntax::{
    base_views, DiagKind, DiagView, InvalidSyntax, InvalidSyntaxType, ParseError, ParseError2,
};
use crate::non_terminal::NonTerminal;
use crate::reserved_word::ReservedWord;
use crate::token::{TokenBase, TokenBaseModel, TokenView};
use crate::token_stack::{ahead, eof_diag, expect_diag, payload, TokenStack};

verus! {

/// Builds the syntax tree of one file from its tokens, collecting diagnostics instead of
/// stopping at the first one.
pub struct Parser<'a> {
    pub tokens: TokenStack<'a>,
    pub ast: Ast,
    pub parse_error: ParseError2,
}

/// Where the grammar accepts the input with tree `t` ending at position `e`, the production
/// returned that tree, stopped at `e` and recorded no diagnostic.
pub open spec fn clean(
    before: &Parser,
    after: &Parser,
    r: Result<Ast, ParseError>,
    g: Option<(AstModel, int)>,
) -> bool {
    match g {
        Some((t, e)) => (r matches Ok(a) && model(a) == t) && after.tokens.pos() == e
            && after.errs() == before.errs(),
        None => true,
    }
}

/// The position of a missing `;` (0 if none).
pub open spec fn miss_at(m: Option<int>) -> int {
    match m {
        Some(k) => k,
        None => 0,
    }
}

/// `b` holds the diagnostics of `a` first, in the same order.
pub open spec fn grows(a: Seq<DiagView>, b: Seq<DiagView>) -> bool {
    a.len() <= b.len() && forall|i: int| 0 <= i < a.len() ==> b[i] == a[i]
}

/// What every production guarantees: the cursor stays on the same tokens and never moves
/// back, it moves forward whenever a token was left, diagnostics are only added, and the
/// tree under construction is left alone.
pub open spec fn advanced(before: &Parser, after: &Parser) -> bool {
    &&& after.tokens.wf()
    &&& after.tokens.toks() == before.tokens.toks()
    &&& before.tokens.pos() <= after.tokens.pos()
    &&& (before.tokens.pos() < before.tokens.toks().len() ==> before.tokens.pos()
        < after.tokens.pos())
    &&& grows(before.errs(), after.errs())
    &&& after.ast == before.ast
}

/// The payload of the token after the cursor.
pub open spec fn next_payload(p: &Parser) -> Option<TokenBaseModel> {
    payload(ahead(p.tokens.toks(), p.tokens.pos(), 1))
}

/// A token that can start a top-level item.
pub open spec fn starts_item(t: TokenView) -> bool {
    t.token == Some(TokenBaseModel::Res(ReservedWord::Import)) || t.token == Some(
        TokenBaseModel::Res(ReservedWord::LeftSquareBracket),
    ) || t.token == Some(TokenBaseModel::Res(ReservedWord::Const)) || t.token == Some(
        TokenBaseModel::Res(ReservedWord::Export),
    )
}

/// A top-level item of a translation unit: an import, an attribute or a declaration.
pub open spec fn is_top_level(a: Ast) -> bool {
    a.is_node(NonTerminal::ImportDeclaration) || a.is_node(NonTerminal::Attribute) || a.is_node(
        NonTerminal::ExportableConstDeclaration,
    )
}

/// `a` is a leaf holding an identifier.
pub open spec fn is_ident_leaf(a: Ast) -> bool {
    a.ast_type == AstType::Terminal && a.token is Some && a.leaf_token().token matches Some(
        TokenBaseModel::Ident(_),
    )
}

/// `a` is a leaf holding a string literal.
pub open spec fn is_string_leaf(a: Ast) -> bool {
    a.ast_type == AstType::Terminal && a.token is Some && a.leaf_token().token matches Some(
        TokenBaseModel::Str(_),
    )
}

/// `a` is a leaf holding the reserved word `w`.
pub open spec fn is_word_leaf(a: Ast, w: ReservedWord) -> bool {
    a.ast_type == AstType::Terminal && a.token is Some && a.leaf_token().token == Some(
        TokenBaseModel::Res(w),
    )
}

/// An item of a compound block: a statement, a declaration, the block's value, or a leaf for a
/// token that could not start any of these.
pub open spec fn is_block_item(a: Ast) -> bool {
    a.is_node(NonTerminal::ExpressionStatement) || a.is_node(NonTerminal::Expression) || a.is_node(
        NonTerminal::ConstDeclaration,
    ) || a.is_node(NonTerminal::LetDeclaration) || (a.ast_type == AstType::Terminal
        && a.invalid_ast)
}

/// A literal or identifier payload, which stands alone as a primary expression.
pub open spec fn is_atom(m: Option<TokenBaseModel>) -> bool {
    m matches Some(TokenBaseModel::Str(_)) || m matches Some(TokenBaseModel::Num(_))
        || m matches Some(TokenBaseModel::Ident(_))
}

/// A prefix operator: `!`, `~`, `+` or `-`.
pub open spec fn is_unary_op(m: Option<TokenBaseModel>) -> bool {
    m == Some(TokenBaseModel::Res(ReservedWord::LogicalNot)) || m == Some(
        TokenBaseModel::Res(ReservedWord::Not),
    ) || m == Some(TokenBaseModel::Res(ReservedWord::Add)) || m == Some(
        TokenBaseModel::Res(ReservedWord::Sub),
    )
}

/// How parentheses nest from token `i` on, starting at `depth`: once the group that starts
/// there is closed, whether `=>` follows it; none if the input (or a valid token) runs out
/// first.
pub open spec fn group_scan(toks: Seq<TokenView>, i: int, depth: int) -> Option<bool>
    decreases toks.len() - i,
{
    if i < 0 || i >= toks.len() || toks[i].token is None {
        None
    } else {
        let d = if toks[i].token == Some(TokenBaseModel::Res(ReservedWord::LeftParenthesis)) {
            depth + 1
        } else if toks[i].token == Some(TokenBaseModel::Res(ReservedWord::RightParenthesis)) {
            depth - 1
        } else {
            depth
        };
        if d == 0 {
            Some(
                i + 1 < toks.len() && toks[i + 1].token == Some(
                    TokenBaseModel::Res(ReservedWord::Arrow),
                ),
            )
        } else {
            group_scan(toks, i + 1, d)
        }
    }
}

/// The precedence rank of a binary production, from 1 (`*`, `/`, `%`) to 10 (`||`); 0 for
/// every other production.
pub open spec fn binary_rank(k: NonTerminal) -> int {
    match k {
        NonTerminal::LogicalOrExpression => 10,
        NonTerminal::LogicalAndExpression => 9,
        NonTerminal::BitwiseOrExpression => 8,
        NonTerminal::BitwiseXorExpression => 7,
        NonTerminal::BitwiseAndExpression => 6,
        NonTerminal::EqualityExpression => 5,
        NonTerminal::RelationalExpression => 4,
        NonTerminal::ShiftExpression => 3,
        NonTerminal::AdditiveExpression => 2,
        NonTerminal::MultiplicativeExpression => 1,
        _ => 0,
    }
}

/// The precedence rank of a tree: that of its root production, 0 for a leaf.
pub open spec fn rank_of(a: Ast) -> int {
    match a.ast_type {
        AstType::NonTerminal(k) => binary_rank(k),
        AstType::Terminal => 0,
    }
}

/// `r` is an operator of the binary level of rank `rank`.
pub open spec fn level_op(rank: int, r: ReservedWord) -> bool {
    if rank == 10 {
        r == ReservedWord::LogicalOr
    }
    else if rank == 9 {
        r == ReservedWord::LogicalAnd
    }
    else if rank == 8 {
        r == ReservedWord::Or
    }
    else if rank == 7 {
        r == ReservedWord::Xor
    }
    else if rank == 6 {
        r == ReservedWord::And
    }
    else if rank == 5 {
        r == ReservedWord::Equal || r == ReservedWord::NotEqual
    }
    else if rank == 4 {
        r == ReservedWord::Greater || r == ReservedWord::Less || r == ReservedWord::LessOrEq || r == ReservedWord::GreaterOrEq
    }
    else if rank == 3 {
        r == ReservedWord::LeftShift || r == ReservedWord::RightShift || r == ReservedWord::UnsignedRightShift
    }
    else if rank == 2 {
        r == ReservedWord::Sub || r == ReservedWord::Add
    }
    else if rank == 1 {
        r == ReservedWord::Mult || r == ReservedWord::Div || r == ReservedWord::Mod
    } else {
        false
    }
}

/// `a` is a leaf holding an operator of the level of rank `rank`.
pub open spec fn is_level_op_leaf(a: Ast, rank: int) -> bool {
    a.ast_type == AstType::Terminal && a.token is Some && match a.leaf_token().token {
        Some(TokenBaseModel::Res(r)) => level_op(rank, r),
        _ => false,
    }
}

/// The children `cs` alternate operands of lower rank (even positions) and operators of the
/// level of rank `rank` (odd positions), starting at position `offset`.
pub open spec fn alternates(cs: Seq<Ast>, rank: int, offset: int) -> bool {
    forall|i: int|
        0 <= i < cs.len() ==> if (i + offset) % 2 == 1 {
            is_level_op_leaf(#[trigger] cs[i], rank)
        } else {
            rank_of(cs[i]) < rank
        }
}

/// A node of the binary level of rank `rank`: operands of tighter levels joined by operators of
/// this level, at least one of them.
pub open spec fn binary_shape(a: Ast, rank: int) -> bool {
    &&& a.well_shaped()
    &&& a.kids().len() >= 3
    &&& a.kids().len() % 2 == 1
    &&& alternates(a.kids(), rank, 0)
}

/// What a production of the level of rank `rank` returns: a tree of at most that rank, and if of
/// exactly that rank, a node of that level's shape.
pub open spec fn precedence_ok(r: Result<Ast, ParseError>, rank: int) -> bool {
    r matches Ok(a) ==> rank_of(a) <= rank && (rank_of(a) == rank && rank > 0 ==> binary_shape(
        a,
        rank,
    ))
}

pub(crate) fn is_reserved(t: &Option<TokenBase>, r: ReservedWord) -> (b: bool)
    ensures
        b == (crate::token::option_view(*t) == Some(TokenBaseModel::Res(r))),
{
    match t {
        Some(TokenBase::Reserved(x)) => *x == r,
        _ => false,
    }
}

impl<'a> Parser<'a> {
    /// The diagnostics so far.
    pub open spec fn errs(&self) -> Seq<DiagView> {
        self.parse_error@
    }

    pub fn new(tokens: TokenStack<'a>) -> (r: Parser<'a>)
        requires
            tokens.wf(),
        ensures
            r.tokens == tokens,
            r.errs().len() == 0,
            r.ast.is_node(NonTerminal::TranslationUnit),
            r.ast.kids().len() == 0,
            !r.ast.invalid_ast,
    {
        let r = Parser {
            tokens,
            ast: Ast::new_node_with_leaves(NonTerminal::TranslationUnit, Vec::new()),
            parse_error: ParseError2::new(),
        };
        assert(r.ast.kids() =~= Seq::<Ast>::empty());
        r
    }

    /// The diagnostics, in the order they were found.
    pub fn errors(&self) -> (r: &ParseError2)
        ensures
            r@ == self.errs(),
    {
        &self.parse_error
    }

    /// Parses the whole token sequence into `self.ast`. Every token is consumed; the result
    /// is an error exactly when a diagnostic was recorded. Where no token can start a
    /// top-level item, each one gets exactly one diagnostic.
    pub fn parse(&mut self) -> (r: Result<(), ParseError>)
        requires
            old(self).tokens.wf(),
            old(self).ast.children is Some,
        ensures
            final(self).tokens.wf(),
            final(self).tokens.toks() == old(self).tokens.toks(),
            final(self).tokens.pos() == final(self).tokens.toks().len(),
            grows(old(self).errs(), final(self).errs()),
            r is Ok <==> final(self).errs().len() == old(self).errs().len(),
            g_unit(old(self).tokens.toks(), old(self).tokens.pos()) is Some ==> r is Ok && models_of(
                final(self).ast.kids(),
            ) == models_of(old(self).ast.kids()) + unit_of(
                g_unit(old(self).tokens.toks(), old(self).tokens.pos()),
            ),
            final(self).ast.ast_type == old(self).ast.ast_type,
            final(self).ast.children is Some,
            final(self).ast.kids().len() >= old(self).ast.kids().len(),
            forall|i: int|
                old(self).ast.kids().len() <= i < final(self).ast.kids().len() ==> is_top_level(
                    #[trigger] final(self).ast.kids()[i],
                ),
            (forall|k: int|
                old(self).tokens.pos() <= k < old(self).tokens.toks().len() ==> !starts_item(
                    #[trigger] old(self).tokens.toks()[k],
                )) ==> final(self).errs().len() == old(self).errs().len() + (
            old(self).tokens.toks().len() - old(self).tokens.pos()),
    {
        let before = self.parse_error.errors().len();
        self.parse_translation_unit();
        if self.parse_error.errors().len() == before {
            Ok(())
        } else {
            Err(ParseError::new("invalid syntax"))
        }
    }

    /// Records that one of `expected` was wanted at the next token, and moves past that token;
    /// at the end of input, records an unexpected end instead.
    pub(crate) fn handle_expected_actually_error(&mut self, expected_tokens: Vec<TokenBase>)
        requires
            old(self).tokens.wf(),
        ensures
            advanced(old(self), final(self)),
            final(self).tokens.pos() == if old(self).tokens.pos() < old(
                self,
            ).tokens.toks().len() {
                old(self).tokens.pos() + 1
            } else {
                old(self).tokens.pos()
            },
            final(self).errs() == old(self).errs().push(
                expect_diag(old(self).tokens.toks(), old(self).tokens.pos(), base_views(expected_tokens@)),
            ),
    {
        match self.tokens.nth(1) {
            Some(tk) => {
                let e = InvalidSyntax::at_token(
                    &tk,
                    InvalidSyntaxType::ExpectedNext(
                        crate::invalid_syntax::ExpectedActuallyTokenPair(expected_tokens, tk.clone()),
                    ),
                );
                self.parse_error.add_error(e);
                self.tokens.next();
            },
            None => {
                self.handle_unexpected_eof_error();
            },
        }
    }

    /// Records an unexpected end of input after the current token.
    pub(crate) fn handle_unexpected_eof_error(&mut self)
        requires
            old(self).tokens.wf(),
        ensures
            final(self).tokens == old(self).tokens,
            final(self).ast == old(self).ast,
            final(self).errs() == old(self).errs().push(
                eof_diag(old(self).tokens.toks(), old(self).tokens.pos()),
            ),
    {
        let e = self.tokens.eof_error();
        self.parse_error.add_error(e);
    }

    /// Moves past the next token if it is `reserved`; otherwise records the diagnostic and
    /// moves past whatever token is there, so that parsing goes on.
    pub(crate) fn consume_or_skip(&mut self, reserved: ReservedWord)
        requires
            old(self).tokens.wf(),
        ensures
            advanced(old(self), final(self)),
            final(self).tokens.pos() == if old(self).tokens.pos() < old(self).tokens.toks().len() {
                old(self).tokens.pos() + 1
            } else {
                old(self).tokens.pos()
            },
            next_payload(old(self)) == Some(TokenBaseModel::Res(reserved)) ==> final(self).errs()
                == old(self).errs(),
    {
        match self.tokens.consume_reserved(reserved) {
            Ok(()) => {},
            Err(e) => {
                self.parse_error.add_error(e);
            },
        }
    }

    /// Records the diagnostic if the next token is not `reserved`; does not move.
    fn scan_or_report(&mut self, reserved: ReservedWord)
        requires
            old(self).tokens.wf(),
        ensures
            final(self).tokens == old(self).tokens,
            final(self).ast == old(self).ast,
            grows(old(self).errs(), final(self).errs()),
            next_payload(old(self)) == Some(TokenBaseModel::Res(reserved)) ==> final(self).errs()
                == old(self).errs(),
    {
        match self.tokens.scan_reserved(reserved) {
            Ok(()) => {},
            Err(e) => {
                self.parse_error.add_error(e);
            },
        }
    }

    // TranslationUnit = { ImportDeclaration } , { { Attribute } , ExportableConstDeclaration } ;
    #[verifier::rlimit(50)]
    fn parse_translation_unit(&mut self)
        requires
            old(self).tokens.wf(),
            old(self).ast.children is Some,
        ensures
            final(self).tokens.wf(),
            final(self).tokens.toks() == old(self).tokens.toks(),
            final(self).tokens.pos() == final(self).tokens.toks().len(),
            grows(old(self).errs(), final(self).errs()),
            final(self).ast.ast_type == old(self).ast.ast_type,
            final(self).ast.children is Some,
            final(self).ast.kids().len() >= old(self).ast.kids().len(),
            forall|i: int|
                old(self).ast.kids().len() <= i < final(self).ast.kids().len() ==> is_top_level(
                    #[trigger] final(self).ast.kids()[i],
                ),
            g_unit(old(self).tokens.toks(), old(self).tokens.pos()) is Some ==> models_of(
                final(self).ast.kids(),
            ) == models_of(old(self).ast.kids()) + unit_of(
                g_unit(old(self).tokens.toks(), old(self).tokens.pos()),
            ) && final(self).errs() == old(self).errs(),
            (forall|k: int|
                old(self).tokens.pos() <= k < old(self).tokens.toks().len() ==> !starts_item(
                    #[trigger] old(self).tokens.toks()[k],
                )) ==> final(self).errs().len() == old(self).errs().len() + (
            old(self).tokens.toks().len() - old(self).tokens.pos()),
    {
        let ghost toks = self.tokens.toks();
        let ghost start = self.tokens.pos();
        let ghost start_errs = self.errs();
        let ghost all_bad = forall|k: int|
            start <= k < toks.len() ==> !starts_item(#[trigger] toks[k]);
        let ghost acc = g_unit(toks, start) is Some;
        let ghost total = unit_of(g_unit(toks, start));
        let ghost kids0 = models_of(old(self).ast.kids());
        while is_reserved(&self.tokens.look_ahead(1), ReservedWord::Import)
            invariant
                self.tokens.wf(),
                self.tokens.toks() == toks,
                start <= self.tokens.pos(),
                self.ast.children is Some,
                self.ast.ast_type == old(self).ast.ast_type,
                self.ast.kids().len() >= old(self).ast.kids().len(),
                forall|i: int|
                    old(self).ast.kids().len() <= i < self.ast.kids().len() ==> is_top_level(
                        #[trigger] self.ast.kids()[i],
                    ),
                grows(start_errs, self.errs()),
                all_bad ==> self.tokens.pos() == start,
                all_bad ==> self.errs() == start_errs,
                acc == (g_unit(toks, start) is Some),
                total == unit_of(g_unit(toks, start)),
                kids0 == models_of(old(self).ast.kids()),
                start_errs == old(self).errs(),
                acc ==> g_unit(toks, self.tokens.pos()) is Some && models_of(self.ast.kids()) + unit_of(
                    g_unit(toks, self.tokens.pos()),
                ) == kids0 + total && self.errs() == start_errs,
                all_bad == forall|k: int|
                    start <= k < toks.len() ==> !starts_item(#[trigger] toks[k]),
            decreases self.tokens.remaining(),
        {
            proof {
                if all_bad {
                    assert(!starts_item(toks[start]));
                }
            }
            let ghost p = self.tokens.pos();
            let ghost before = self.ast.kids();
            let r = self.parse_import_declaration();
            if let Ok(import) = r {
                self.ast.add_child(import);
                proof {
                    lemma_models_push(before, import);
                    if acc {
                        assert(models_of(self.ast.kids()) + unit_of(g_unit(toks, self.tokens.pos()))
                            =~= models_of(before) + unit_of(g_unit(toks, p)));
                    }
                }
            }
        }
        proof {
            if acc {
                assert(g_unit(toks, self.tokens.pos()) == g_decls(toks, self.tokens.pos()));
            }
        }
        while self.tokens.has_next()
            invariant
                self.tokens.wf(),
                self.tokens.toks() == toks,
                start <= self.tokens.pos(),
                self.ast.children is Some,
                self.ast.ast_type == old(self).ast.ast_type,
                self.ast.kids().len() >= old(self).ast.kids().len(),
                forall|i: int|
                    old(self).ast.kids().len() <= i < self.ast.kids().len() ==> is_top_level(
                        #[trigger] self.ast.kids()[i],
                    ),
                grows(start_errs, self.errs()),
                all_bad ==> self.errs().len() == start_errs.len() + (self.tokens.pos() - start),
                all_bad == forall|k: int|
                    start <= k < toks.len() ==> !starts_item(#[trigger] toks[k]),
                acc == (g_unit(toks, start) is Some),
                total == unit_of(g_unit(toks, start)),
                kids0 == models_of(old(self).ast.kids()),
                start_errs == old(self).errs(),
                acc ==> g_decls(toks, self.tokens.pos()) is Some && models_of(self.ast.kids())
                    + unit_of(g_decls(toks, self.tokens.pos())) == kids0 + total && self.errs()
                    == start_errs,
            decreases self.tokens.remaining(),
        {
            let next = self.tokens.look_ahead(1);
            let ghost pos = self.tokens.pos();
            let ghost kids_at = models_of(self.ast.kids());
            proof {
                if all_bad {
                    assert(!starts_item(toks[pos]));
                }
            }
            if is_reserved(&next, ReservedWord::LeftSquareBracket) {
                let ghost attrs = g_attributes(toks, pos);
                while is_reserved(&self.tokens.look_ahead(1), ReservedWord::LeftSquareBracket)
                    invariant
                        self.tokens.wf(),
                        self.tokens.toks() == toks,
                        pos <= self.tokens.pos(),
                        start <= pos,
                        self.ast.children is Some,
                        self.ast.ast_type == old(self).ast.ast_type,
                        self.ast.kids().len() >= old(self).ast.kids().len(),
                        forall|i: int|
                            old(self).ast.kids().len() <= i < self.ast.kids().len() ==> is_top_level(
                                #[trigger] self.ast.kids()[i],
                            ),
                        grows(start_errs, self.errs()),
                        acc == (g_unit(toks, start) is Some),
                        attrs == g_attributes(toks, pos),
                        acc ==> attrs is Some && g_attributes(toks, self.tokens.pos()) is Some
                            && models_of(self.ast.kids()) + list_of(
                            g_attributes(toks, self.tokens.pos()),
                        ) == kids_at + list_of(attrs) && list_end(
                            g_attributes(toks, self.tokens.pos()),
                        ) == list_end(attrs) && self.errs() == start_errs,
                    decreases self.tokens.remaining(),
                {
                    let ghost q = self.tokens.pos();
                    let ghost before = self.ast.kids();
                    match self.parse_attribute() {
                        Ok(attr) => {
                            self.ast.add_child(attr);
                            proof {
                                lemma_models_push(before, attr);
                                if acc {
                                    assert(models_of(self.ast.kids()) + list_of(
                                        g_attributes(toks, self.tokens.pos()),
                                    ) =~= models_of(before) + list_of(g_attributes(toks, q)));
                                }
                            }
                        },
                        Err(_) => {},
                    }
                }
                proof {
                    if acc {
                        assert(list_of(g_attributes(toks, self.tokens.pos())).len() == 0);
                        assert(list_end(g_attributes(toks, self.tokens.pos())) == self.tokens.pos());
                    }
                }
                if is_reserved(&self.tokens.look_ahead(1), ReservedWord::Const)
                    || is_reserved(&self.tokens.look_ahead(1), ReservedWord::Export) {
                    let ghost before = self.ast.kids();
                    match self.parse_exportable_const_declaration() {
                        Ok(decl) => {
                            self.ast.add_child(decl);
                            proof {
                                lemma_models_push(before, decl);
                                if acc {
                                    assert(models_of(self.ast.kids()) + unit_of(
                                        g_decls(toks, self.tokens.pos()),
                                    ) =~= kids_at + unit_of(g_decls(toks, pos)));
                                }
                            }
                        },
                        Err(_) => {},
                    }
                } else if self.tokens.has_next() {
                    self.handle_expected_actually_error(
                        vec![
                            TokenBase::Reserved(ReservedWord::Const),
                            TokenBase::Reserved(ReservedWord::Export),
                        ],
                    );
                }
            } else if is_reserved(&next, ReservedWord::Const) || is_reserved(
                &next,
                ReservedWord::Export,
            ) {
                let ghost before = self.ast.kids();
                match self.parse_exportable_const_declaration() {
                    Ok(decl) => {
                        self.ast.add_child(decl);
                        proof {
                            lemma_models_push(before, decl);
                            if acc {
                                assert(models_of(self.ast.kids()) + unit_of(
                                    g_decls(toks, self.tokens.pos()),
                                ) =~= kids_at + unit_of(g_decls(toks, pos)));
                            }
                        }
                    },
                    Err(_) => {},
                }
            } else {
                self.handle_expected_actually_error(
                    vec![
                        TokenBase::Reserved(ReservedWord::LeftSquareBracket),
                        TokenBase::Reserved(ReservedWord::Const),
                        TokenBase::Reserved(ReservedWord::Export),
                    ],
                );
            }
        }
        proof {
            if acc {
                assert(models_of(self.ast.kids()) =~= kids0 + total);
            }
        }
    }

    // Attribute = "[" , Identifier , "]" ;
    #[verifier::rlimit(50)]
    fn parse_attribute(&mut self) -> (r: Result<Ast, ParseError>)
        requires
            old(self).tokens.wf(),
        ensures
            advanced(old(self), final(self)),
            r is Err ==> old(self).errs().len() < final(self).errs().len(),
            r matches Ok(a) ==> a.is_node(NonTerminal::Attribute) && a.kids().len() == 1
                && is_ident_leaf(a.kids()[0]),
            clean(old(self), final(self), r, g_attribute(old(self).tokens.toks(), old(self).tokens.pos())),
    {
        self.tokens.next();
        match self.tokens.look_ahead(1) {
            Some(TokenBase::Identifier(_)) => {
                let attr_token = self.tokens.next_token().unwrap();
                self.consume_or_skip(ReservedWord::RightSquareBracket);
                let l = Ast::new_leaf(attr_token);
                let children = vec![l];
                proof {
                    assert(children@ =~= seq![l]);
                    lemma_models_one(l);
                }
                Ok(Ast::new_node_with_leaves(NonTerminal::Attribute, children))
            },
            _ => {
                self.handle_expected_actually_error(vec![TokenBase::default_identifier()]);
                Err(ParseError::new("unexpected token or eof"))
            },
        }
    }

    // ExportableConstDeclaration = [ "export" , [ "default" ] ] , ConstDeclaration ;
    #[verifier::rlimit(50)]
    fn parse_exportable_const_declaration(&mut self) -> (r: Result<Ast, ParseError>)
        requires
            old(self).tokens.wf(),
        ensures
            advanced(old(self), final(self)),
            r is Err ==> old(self).errs().len() < final(self).errs().len(),
            r matches Ok(a) ==> a.is_node(NonTerminal::ExportableConstDeclaration) && 1
                <= a.kids().len() <= 3 && a.kids()[a.kids().len() - 1].is_node(
                NonTerminal::ConstDeclaration,
            ) && a.kids()[a.kids().len() - 1].kids()[0].is_node(NonTerminal::DeclarationBody) && (
            a.kids().len() >= 2 ==> is_word_leaf(a.kids()[0], ReservedWord::Export)) && (
            a.kids().len() == 3 ==> is_word_leaf(a.kids()[1], ReservedWord::Default)),
            clean(old(self), final(self), r, g_exportable(old(self).tokens.toks(), old(self).tokens.pos())),
    {
        let ghost start = self.tokens.pos();
        let ghost toks = self.tokens.toks();
        let mut children: Vec<Ast> = Vec::new();
        let next = self.tokens.look_ahead(1);
        if is_reserved(&next, ReservedWord::Export) {
            let export = Ast::new_leaf(self.tokens.next_token().unwrap());
            children.push(export);
            let after = self.tokens.look_ahead(1);
            if is_reserved(&after, ReservedWord::Default) {
                let default = Ast::new_leaf(self.tokens.next_token().unwrap());
                children.push(default);
                self.scan_or_report(ReservedWord::Const);
                let decl = self.parse_const_declaration()?;
                children.push(decl);
                proof {
                    assert(children@ =~= seq![export, default, decl]);
                    lemma_models_elems(children@);
                    assert(models_of(children@) =~= seq![model(export), model(default), model(decl)]);
                }
            } else if is_reserved(&after, ReservedWord::Const) {
                let decl = self.parse_const_declaration()?;
                children.push(decl);
                proof {
                    assert(children@ =~= seq![export, decl]);
                    lemma_models_two(export, decl);
                }
            } else {
                self.handle_expected_actually_error(
                    vec![
                        TokenBase::Reserved(ReservedWord::Default),
                        TokenBase::Reserved(ReservedWord::Const),
                    ],
                );
                return Err(ParseError::new("unexpected token"));
            }
        } else if is_reserved(&next, ReservedWord::Const) {
            let decl = self.parse_const_declaration()?;
            children.push(decl);
            proof {
                assert(children@ =~= seq![decl]);
                lemma_models_one(decl);
            }
        } else {
            self.handle_expected_actually_error(
                vec![
                    TokenBase::Reserved(ReservedWord::Const),
                    TokenBase::Reserved(ReservedWord::Export),
                ],
            );
            return Err(ParseError::new("unexpected eof or token"));
        }
        Ok(Ast::new_node_with_leaves(NonTerminal::ExportableConstDeclaration, children))
    }

    // ConstDeclaration = "const" , DeclarationBody ;
    pub fn parse_const_declaration(&mut self) -> (r: Result<Ast, ParseError>)
        requires
            old(self).tokens.wf(),
        ensures
            advanced(old(self), final(self)),
            r is Err ==> old(self).errs().len() < final(self).errs().len(),
            r matches Ok(a) ==> a.is_node(NonTerminal::ConstDeclaration) && a.kids().len() == 1
                && a.kids()[0].is_node(NonTerminal::DeclarationBody),
            clean(old(self), final(self), r, g_const_decl(old(self).tokens.toks(), old(self).tokens.pos())),
        decreases old(self).tokens.remaining(), 4int,
    {
        self.tokens.next();
        let body = self.parse_declaration_body()?;
        let children = vec![body];
        proof {
            assert(children@ =~= seq![body]);
            lemma_models_one(body);
        }
        let r = Ast::new_node_with_leaves(NonTerminal::ConstDeclaration, children);
        Ok(r)
    }

    // LetDeclaration = "let" , DeclarationBody ;
    pub fn parse_let_declaration(&mut self) -> (r: Result<Ast, ParseError>)
        requires
            old(self).tokens.wf(),
        ensures
            advanced(old(self), final(self)),
            r is Err ==> old(self).errs().len() < final(self).errs().len(),
            r matches Ok(a) ==> a.is_node(NonTerminal::LetDeclaration) && a.kids().len() == 1
                && a.kids()[0].is_node(NonTerminal::DeclarationBody),
            clean(old(self), final(self), r, g_let_decl(old(self).tokens.toks(), old(self).tokens.pos())),
        decreases old(self).tokens.remaining(), 4int,
    {
        self.tokens.next();
        let body = self.parse_declaration_body()?;
        let children = vec![body];
        proof {
            assert(children@ =~= seq![body]);
            lemma_models_one(body);
        }
        let r = Ast::new_node_with_leaves(NonTerminal::LetDeclaration, children);
        Ok(r)
    }

    // DeclarationBody = Identifier , "=" , Expression , ";" ;
    #[verifier::rlimit(50)]
    pub fn parse_declaration_body(&mut self) -> (r: Result<Ast, ParseError>)
        requires
            old(self).tokens.wf(),
        ensures
            advanced(old(self), final(self)),
            r is Err ==> old(self).errs().len() < final(self).errs().len(),
            r matches Ok(a) ==> a.is_node(NonTerminal::DeclarationBody) && a.kids().len() == 2
                && is_ident_leaf(a.kids()[0]) && a.kids()[1].is_node(NonTerminal::Expression),
            clean(old(self), final(self), r, g_body(old(self).tokens.toks(), old(self).tokens.pos())),
        decreases old(self).tokens.remaining(), 3int,
    {
        let ident = match self.tokens.look_ahead(1) {
            Some(TokenBase::Identifier(_)) => {
                let t = self.tokens.next_token().unwrap();
                Ast::new_leaf(t)
            },
            _ => {
                self.handle_expected_actually_error(vec![TokenBase::default_identifier()]);
                return Err(ParseError::new("unexpected token or eof"));
            },
        };
        self.consume_or_skip(ReservedWord::Assign);
        let expr = self.parse_expression()?;
        if is_reserved(&self.tokens.look_ahead(1), ReservedWord::SemiColon) {
            self.tokens.next();
            let children = vec![ident, expr];
            proof {
                assert(children@ =~= seq![ident, expr]);
                lemma_models_two(ident, expr);
            }
            let r = Ast::new_node_with_leaves(NonTerminal::DeclarationBody, children);
            Ok(r)
        } else {
            self.handle_expected_actually_error(
                vec![TokenBase::Reserved(ReservedWord::SemiColon)],
            );
            Err(ParseError::new("unexpected token or eof"))
        }
    }

    // Expression = LogicalOrExpression, under an `Expression` node.
    pub fn parse_expression(&mut self) -> (r: Result<Ast, ParseError>)
        requires
            old(self).tokens.wf(),
        ensures
            advanced(old(self), final(self)),
            r is Err ==> old(self).errs().len() < final(self).errs().len(),
            r matches Ok(a) ==> a.is_node(NonTerminal::Expression) && a.kids().len() == 1,
            clean(old(self), final(self), r, g_expression(old(self).tokens.toks(), old(self).tokens.pos())),
        decreases old(self).tokens.remaining(), 21int,
    {
        let inner = self.parse_expression2()?;
        let children = vec![inner];
        proof {
            assert(children@ =~= seq![inner]);
            lemma_models_one(inner);
        }
        let r = Ast::new_node_with_leaves(NonTerminal::Expression, children);
        Ok(r)
    }

    /// An expression, by precedence climbing from the loosest operator (`||`) down.
    pub fn parse_expression2(&mut self) -> (r: Result<Ast, ParseError>)
        requires
            old(self).tokens.wf(),
        ensures
            advanced(old(self), final(self)),
            r is Err ==> old(self).errs().len() < final(self).errs().len(),
            precedence_ok(r, 10),
            clean(old(self), final(self), r, g_expr2(old(self).tokens.toks(), old(self).tokens.pos())),
        decreases old(self).tokens.remaining(), 20int,
    {
        self.parse_logical_or_expression()
    }

    /// Whether the next token is an operator of the binary level of rank `rank`.
    fn next_is_level_op(&self, rank: usize) -> (b: bool)
        requires
            self.tokens.wf(),
        ensures
            b == (tok_at(self.tokens.toks(), self.tokens.pos()) matches Some(TokenBaseModel::Res(r))
                && level_op(rank as int, r)),
    {
        let next = self.tokens.look_ahead(1);
        if rank == 10 {
            is_reserved(&next, ReservedWord::LogicalOr)
        } else if rank == 9 {
            is_reserved(&next, ReservedWord::LogicalAnd)
        } else if rank == 8 {
            is_reserved(&next, ReservedWord::Or)
        } else if rank == 7 {
            is_reserved(&next, ReservedWord::Xor)
        } else if rank == 6 {
            is_reserved(&next, ReservedWord::And)
        } else if rank == 5 {
            is_reserved(&next, ReservedWord::Equal) || is_reserved(&next, ReservedWord::NotEqual)
        } else if rank == 4 {
            is_reserved(&next, ReservedWord::Greater) || is_reserved(&next, ReservedWord::Less) || is_reserved(&next, ReservedWord::LessOrEq) || is_reserved(&next, ReservedWord::GreaterOrEq)
        } else if rank == 3 {
            is_reserved(&next, ReservedWord::LeftShift) || is_reserved(&next, ReservedWord::RightShift) || is_reserved(&next, ReservedWord::UnsignedRightShift)
        } else if rank == 2 {
            is_reserved(&next, ReservedWord::Sub) || is_reserved(&next, ReservedWord::Add)
        } else if rank == 1 {
            is_reserved(&next, ReservedWord::Mult) || is_reserved(&next, ReservedWord::Div) || is_reserved(&next, ReservedWord::Mod)
        } else {
            false
        }
    }

    /// `LogicalOrExpression`: operands of the next tighter level joined by `||`, left-associative; a lone
    /// operand stands for itself.
    fn parse_logical_or_expression(&mut self) -> (r: Result<Ast, ParseError>)
        requires
            old(self).tokens.wf(),
        ensures
            advanced(old(self), final(self)),
            r is Err ==> old(self).errs().len() < final(self).errs().len(),
            precedence_ok(r, 10),
            clean(old(self), final(self), r, g_level(old(self).tokens.toks(), old(self).tokens.pos(), 10)),
        decreases old(self).tokens.remaining(), 19int,
    {
        let ghost start = self.tokens.pos();
        let ghost toks = self.tokens.toks();
        let ghost acc = g_level(toks, start, 10) is Some;
        let first = self.parse_logical_and_expression()?;
        let ghost e1 = self.tokens.pos();
        let ghost whole = g_tail(toks, e1, 10);
        let mut rest: Vec<Ast> = Vec::new();
        proof {
            assert(models_of(rest@) =~= Seq::<AstModel>::empty());
            if acc {
                assert(g_operand(toks, start, 10) is Some);
            }
        }
        while self.next_is_level_op(10)
            invariant
                self.tokens.wf(),
                self.tokens.toks() == old(self).tokens.toks(),
                toks == old(self).tokens.toks(),
                start == old(self).tokens.pos(),
                start <= self.tokens.pos(),
                start < self.tokens.toks().len() ==> start < self.tokens.pos(),
                grows(old(self).errs(), self.errs()),
                self.ast == old(self).ast,
                rest@.len() % 2 == 0,
                alternates(rest@, 10, 1),
                acc == (g_level(toks, start, 10) is Some),
                whole == g_tail(toks, e1, 10),
                acc ==> g_operand(toks, start, 10) == Some((model(first), e1)) && moves(toks, start, e1)
                    && whole is Some && g_tail(toks, self.tokens.pos(), 10) is Some && models_of(rest@)
                    + list_of(g_tail(toks, self.tokens.pos(), 10)) == list_of(whole) && list_end(g_tail(toks, self.tokens.pos(), 10)) == list_end(whole) && self.errs() == old(self).errs(),
            decreases self.tokens.remaining(),
        {
            let ghost p = self.tokens.pos();
            let ghost before = rest@;
            let op = self.tokens.next_token().unwrap();
            let op_leaf = Ast::new_leaf(op);
            rest.push(op_leaf);
            let operand = self.parse_logical_and_expression()?;
            proof {
                lemma_models_push(before, op_leaf);
            }
            let ghost middle = rest@;
            rest.push(operand);
            proof {
                lemma_models_push(middle, operand);
                if acc {
                    assert(g_operand(toks, p + 1, 10) is Some);
                    assert(models_of(rest@) + list_of(g_tail(toks, self.tokens.pos(), 10)) =~= models_of(before)
                        + list_of(g_tail(toks, p, 10)));
                }
            }
        }
        proof {
            if acc {
                assert(list_of(g_tail(toks, self.tokens.pos(), 10)).len() == 0);
                assert(models_of(rest@) =~= list_of(whole));
            }
        }
        if rest.len() == 0 {
            proof {
                if acc {
                    assert(list_end(whole) == e1);
                }
            }
            return Ok(first);
        }
        let ghost rest_v = rest@;
        let mut children = vec![first];
        children.append(&mut rest);
        proof {
            assert forall|i: int| 0 < i < children@.len() implies children@[i] == rest_v[i - 1] by {}
            assert(alternates(children@, 10, 0));
            assert(children@ =~= seq![first] + rest_v);
            lemma_models_concat(seq![first], rest_v);
            lemma_models_elems(seq![first]);
            assert(models_of(seq![first]) =~= seq![model(first)]);
        }
        Ok(Ast::new_node_with_leaves(NonTerminal::LogicalOrExpression, children))
    }

    /// `LogicalAndExpression`: operands of the next tighter level joined by `&&`, left-associative; a lone
    /// operand stands for itself.
    fn parse_logical_and_expression(&mut self) -> (r: Result<Ast, ParseError>)
        requires
            old(self).tokens.wf(),
        ensures
            advanced(old(self), final(self)),
            r is Err ==> old(self).errs().len() < final(self).errs().len(),
            precedence_ok(r, 9),
            clean(old(self), final(self), r, g_level(old(self).tokens.toks(), old(self).tokens.pos(), 9)),
        decreases old(self).tokens.remaining(), 18int,
    {
        let ghost start = self.tokens.pos();
        let ghost toks = self.tokens.toks();
        let ghost acc = g_level(toks, start, 9) is Some;
        let first = self.parse_bitwise_or_expression()?;
        let ghost e1 = self.tokens.pos();
        let ghost whole = g_tail(toks, e1, 9);
        let mut rest: Vec<Ast> = Vec::new();
        proof {
            assert(models_of(rest@) =~= Seq::<AstModel>::empty());
            if acc {
                assert(g_operand(toks, start, 9) is Some);
            }
        }
        while self.next_is_level_op(9)
            invariant
                self.tokens.wf(),
                self.tokens.toks() == old(self).tokens.toks(),
                toks == old(self).tokens.toks(),
                start == old(self).tokens.pos(),
                start <= self.tokens.pos(),
                start < self.tokens.toks().len() ==> start < self.tokens.pos(),
                grows(old(self).errs(), self.errs()),
                self.ast == old(self).ast,
                rest@.len() % 2 == 0,
                alternates(rest@, 9, 1),
                acc == (g_level(toks, start, 9) is Some),
                whole == g_tail(toks, e1, 9),
                acc ==> g_operand(toks, start, 9) == Some((model(first), e1)) && moves(toks, start, e1)
                    && whole is Some && g_tail(toks, self.tokens.pos(), 9) is Some && models_of(rest@)
                    + list_of(g_tail(toks, self.tokens.pos(), 9)) == list_of(whole) && list_end(g_tail(toks, self.tokens.pos(), 9)) == list_end(whole) && self.errs() == old(self).errs(),
            decreases self.tokens.remaining(),
        {
            let ghost p = self.tokens.pos();
            let ghost before = rest@;
            let op = self.tokens.next_token().unwrap();
            let op_leaf = Ast::new_leaf(op);
            rest.push(op_leaf);
            let operand = self.parse_bitwise_or_expression()?;
            proof {
                lemma_models_push(before, op_leaf);
            }
            let ghost middle = rest@;
            rest.push(operand);
            proof {
                lemma_models_push(middle, operand);
                if acc {
                    assert(g_operand(toks, p + 1, 9) is Some);
                    assert(models_of(rest@) + list_of(g_tail(toks, self.tokens.pos(), 9)) =~= models_of(before)
                        + list_of(g_tail(toks, p, 9)));
                }
            }
        }
        proof {
            if acc {
                assert(list_of(g_tail(toks, self.tokens.pos(), 9)).len() == 0);
                assert(models_of(rest@) =~= list_of(whole));
            }
        }
        if rest.len() == 0 {
            proof {
                if acc {
                    assert(list_end(whole) == e1);
                }
            }
            return Ok(first);
        }
        let ghost rest_v = rest@;
        let mut children = vec![first];
        children.append(&mut rest);
        proof {
            assert forall|i: int| 0 < i < children@.len() implies children@[i] == rest_v[i - 1] by {}
            assert(alternates(children@, 9, 0));
            assert(children@ =~= seq![first] + rest_v);
            lemma_models_concat(seq![first], rest_v);
            lemma_models_elems(seq![first]);
            assert(models_of(seq![first]) =~= seq![model(first)]);
        }
        Ok(Ast::new_node_with_leaves(NonTerminal::LogicalAndExpression, children))
    }

    /// `BitwiseOrExpression`: operands of the next tighter level joined by `|`, left-associative; a lone
    /// operand stands for itself.
    fn parse_bitwise_or_expression(&mut self) -> (r: Result<Ast, ParseError>)
        requires
            old(self).tokens.wf(),
        ensures
            advanced(old(self), final(self)),
            r is Err ==> old(self).errs().len() < final(self).errs().len(),
            precedence_ok(r, 8),
            clean(old(self), final(self), r, g_level(old(self).tokens.toks(), old(self).tokens.pos(), 8)),
        decreases old(self).tokens.remaining(), 17int,
    {
        let ghost start = self.tokens.pos();
        let ghost toks = self.tokens.toks();
        let ghost acc = g_level(toks, start, 8) is Some;
        let first = self.parse_bitwise_xor_expression()?;
        let ghost e1 = self.tokens.pos();
        let ghost whole = g_tail(toks, e1, 8);
        let mut rest: Vec<Ast> = Vec::new();
        proof {
            assert(models_of(rest@) =~= Seq::<AstModel>::empty());
            if acc {
                assert(g_operand(toks, start, 8) is Some);
            }
        }
        while self.next_is_level_op(8)
            invariant
                self.tokens.wf(),
                self.tokens.toks() == old(self).tokens.toks(),
                toks == old(self).tokens.toks(),
                start == old(self).tokens.pos(),
                start <= self.tokens.pos(),
                start < self.tokens.toks().len() ==> start < self.tokens.pos(),
                grows(old(self).errs(), self.errs()),
                self.ast == old(self).ast,
                rest@.len() % 2 == 0,
                alternates(rest@, 8, 1),
                acc == (g_level(toks, start, 8) is Some),
                whole == g_tail(toks, e1, 8),
                acc ==> g_operand(toks, start, 8) == Some((model(first), e1)) && moves(toks, start, e1)
                    && whole is Some && g_tail(toks, self.tokens.pos(), 8) is Some && models_of(rest@)
                    + list_of(g_tail(toks, self.tokens.pos(), 8)) == list_of(whole) && list_end(g_tail(toks, self.tokens.pos(), 8)) == list_end(whole) && self.errs() == old(self).errs(),
            decreases self.tokens.remaining(),
        {
            let ghost p = self.tokens.pos();
            let ghost before = rest@;
            let op = self.tokens.next_token().unwrap();
            let op_leaf = Ast::new_leaf(op);
            rest.push(op_leaf);
            let operand = self.parse_bitwise_xor_expression()?;
            proof {
                lemma_models_push(before, op_leaf);
            }
            let ghost middle = rest@;
            rest.push(operand);
            proof {
                lemma_models_push(middle, operand);
                if acc {
                    assert(g_operand(toks, p + 1, 8) is Some);
                    assert(models_of(rest@) + list_of(g_tail(toks, self.tokens.pos(), 8)) =~= models_of(before)
                        + list_of(g_tail(toks, p, 8)));
                }
            }
        }
        proof {
            if acc {
                assert(list_of(g_tail(toks, self.tokens.pos(), 8)).len() == 0);
                assert(models_of(rest@) =~= list_of(whole));
            }
        }
        if rest.len() == 0 {
            proof {
                if acc {
                    assert(list_end(whole) == e1);
                }
            }
            return Ok(first);
        }
        let ghost rest_v = rest@;
        let mut children = vec![first];
        children.append(&mut rest);
        proof {
            assert forall|i: int| 0 < i < children@.len() implies children@[i] == rest_v[i - 1] by {}
            assert(alternates(children@, 8, 0));
            assert(children@ =~= seq![first] + rest_v);
            lemma_models_concat(seq![first], rest_v);
            lemma_models_elems(seq![first]);
            assert(models_of(seq![first]) =~= seq![model(first)]);
        }
        Ok(Ast::new_node_with_leaves(NonTerminal::BitwiseOrExpression, children))
    }

    /// `BitwiseXorExpression`: operands of the next tighter level joined by `^`, left-associative; a lone
    /// operand stands for itself.
    fn parse_bitwise_xor_expression(&mut self) -> (r: Result<Ast, ParseError>)
        requires
            old(self).tokens.wf(),
        ensures
            advanced(old(self), final(self)),
            r is Err ==> old(self).errs().len() < final(self).errs().len(),
            precedence_ok(r, 7),
            clean(old(self), final(self), r, g_level(old(self).tokens.toks(), old(self).tokens.pos(), 7)),
        decreases old(self).tokens.remaining(), 16int,
    {
        let ghost start = self.tokens.pos();
        let ghost toks = self.tokens.toks();
        let ghost acc = g_level(toks, start, 7) is Some;
        let first = self.parse_bitwise_and_expression()?;
        let ghost e1 = self.tokens.pos();
        let ghost whole = g_tail(toks, e1, 7);
        let mut rest: Vec<Ast> = Vec::new();
        proof {
            assert(models_of(rest@) =~= Seq::<AstModel>::empty());
            if acc {
                assert(g_operand(toks, start, 7) is Some);
            }
        }
        while self.next_is_level_op(7)
            invariant
                self.tokens.wf(),
                self.tokens.toks() == old(self).tokens.toks(),
                toks == old(self).tokens.toks(),
                start == old(self).tokens.pos(),
                start <= self.tokens.pos(),
                start < self.tokens.toks().len() ==> start < self.tokens.pos(),
                grows(old(self).errs(), self.errs()),
                self.ast == old(self).ast,
                rest@.len() % 2 == 0,
                alternates(rest@, 7, 1),
                acc == (g_level(toks, start, 7) is Some),
                whole == g_tail(toks, e1, 7),
                acc ==> g_operand(toks, start, 7) == Some((model(first), e1)) && moves(toks, start, e1)
                    && whole is Some && g_tail(toks, self.tokens.pos(), 7) is Some && models_of(rest@)
                    + list_of(g_tail(toks, self.tokens.pos(), 7)) == list_of(whole) && list_end(g_tail(toks, self.tokens.pos(), 7)) == list_end(whole) && self.errs() == old(self).errs(),
            decreases self.tokens.remaining(),
        {
            let ghost p = self.tokens.pos();
            let ghost before = rest@;
            let op = self.tokens.next_token().unwrap();
            let op_leaf = Ast::new_leaf(op);
            rest.push(op_leaf);
            let operand = self.parse_bitwise_and_expression()?;
            proof {
                lemma_models_push(before, op_leaf);
            }
            let ghost middle = rest@;
            rest.push(operand);
            proof {
                lemma_models_push(middle, operand);
                if acc {
                    assert(g_operand(toks, p + 1, 7) is Some);
                    assert(models_of(rest@) + list_of(g_tail(toks, self.tokens.pos(), 7)) =~= models_of(before)
                        + list_of(g_tail(toks, p, 7)));
                }
            }
        }
        proof {
            if acc {
                assert(list_of(g_tail(toks, self.tokens.pos(), 7)).len() == 0);
                assert(models_of(rest@) =~= list_of(whole));
            }
        }
        if rest.len() == 0 {
            proof {
                if acc {
                    assert(list_end(whole) == e1);
                }
            }
            return Ok(first);
        }
        let ghost rest_v = rest@;
        let mut children = vec![first];
        children.append(&mut rest);
        proof {
            assert forall|i: int| 0 < i < children@.len() implies children@[i] == rest_v[i - 1] by {}
            assert(alternates(children@, 7, 0));
            assert(children@ =~= seq![first] + rest_v);
            lemma_models_concat(seq![first], rest_v);
            lemma_models_elems(seq![first]);
            assert(models_of(seq![first]) =~= seq![model(first)]);
        }
        Ok(Ast::new_node_with_leaves(NonTerminal::BitwiseXorExpression, children))
    }

    /// `BitwiseAndExpression`: operands of the next tighter level joined by `&`, left-associative; a lone
    /// operand stands for itself.
    fn parse_bitwise_and_expression(&mut self) -> (r: Result<Ast, ParseError>)
        requires
            old(self).tokens.wf(),
        ensures
            advanced(old(self), final(self)),
            r is Err ==> old(self).errs().len() < final(self).errs().len(),
            precedence_ok(r, 6),
            clean(old(self), final(self), r, g_level(old(self).tokens.toks(), old(self).tokens.pos(), 6)),
        decreases old(self).tokens.remaining(), 15int,
    {
        let ghost start = self.tokens.pos();
        let ghost toks = self.tokens.toks();
        let ghost acc = g_level(toks, start, 6) is Some;
        let first = self.parse_equality_expression()?;
        let ghost e1 = self.tokens.pos();
        let ghost whole = g_tail(toks, e1, 6);
        let mut rest: Vec<Ast> = Vec::new();
        proof {
            assert(models_of(rest@) =~= Seq::<AstModel>::empty());
            if acc {
                assert(g_operand(toks, start, 6) is Some);
            }
        }
        while self.next_is_level_op(6)
            invariant
                self.tokens.wf(),
                self.tokens.toks() == old(self).tokens.toks(),
                toks == old(self).tokens.toks(),
                start == old(self).tokens.pos(),
                start <= self.tokens.pos(),
                start < self.tokens.toks().len() ==> start < self.tokens.pos(),
                grows(old(self).errs(), self.errs()),
                self.ast == old(self).ast,
                rest@.len() % 2 == 0,
                alternates(rest@, 6, 1),
                acc == (g_level(toks, start, 6) is Some),
                whole == g_tail(toks, e1, 6),
                acc ==> g_operand(toks, start, 6) == Some((model(first), e1)) && moves(toks, start, e1)
                    && whole is Some && g_tail(toks, self.tokens.pos(), 6) is Some && models_of(rest@)
                    + list_of(g_tail(toks, self.tokens.pos(), 6)) == list_of(whole) && list_end(g_tail(toks, self.tokens.pos(), 6)) == list_end(whole) && self.errs() == old(self).errs(),
            decreases self.tokens.remaining(),
        {
            let ghost p = self.tokens.pos();
            let ghost before = rest@;
            let op = self.tokens.next_token().unwrap();
            let op_leaf = Ast::new_leaf(op);
            rest.push(op_leaf);
            let operand = self.parse_equality_expression()?;
            proof {
                lemma_models_push(before, op_leaf);
            }
            let ghost middle = rest@;
            rest.push(operand);
            proof {
                lemma_models_push(middle, operand);
                if acc {
                    assert(g_operand(toks, p + 1, 6) is Some);
                    assert(models_of(rest@) + list_of(g_tail(toks, self.tokens.pos(), 6)) =~= models_of(before)
                        + list_of(g_tail(toks, p, 6)));
                }
            }
        }
        proof {
            if acc {
                assert(list_of(g_tail(toks, self.tokens.pos(), 6)).len() == 0);
                assert(models_of(rest@) =~= list_of(whole));
            }
        }
        if rest.len() == 0 {
            proof {
                if acc {
                    assert(list_end(whole) == e1);
                }
            }
            return Ok(first);
        }
        let ghost rest_v = rest@;
        let mut children = vec![first];
        children.append(&mut rest);
        proof {
            assert forall|i: int| 0 < i < children@.len() implies children@[i] == rest_v[i - 1] by {}
            assert(alternates(children@, 6, 0));
            assert(children@ =~= seq![first] + rest_v);
            lemma_models_concat(seq![first], rest_v);
            lemma_models_elems(seq![first]);
            assert(models_of(seq![first]) =~= seq![model(first)]);
        }
        Ok(Ast::new_node_with_leaves(NonTerminal::BitwiseAndExpression, children))
    }

    /// `EqualityExpression`: operands of the next tighter level joined by `==` or `!=`, left-associative; a lone
    /// operand stands for itself.
    fn parse_equality_expression(&mut self) -> (r: Result<Ast, ParseError>)
        requires
            old(self).tokens.wf(),
        ensures
            advanced(old(self), final(self)),
            r is Err ==> old(self).errs().len() < final(self).errs().len(),
            precedence_ok(r, 5),
            clean(old(self), final(self), r, g_level(old(self).tokens.toks(), old(self).tokens.pos(), 5)),
        decreases old(self).tokens.remaining(), 14int,
    {
        let ghost start = self.tokens.pos();
        let ghost toks = self.tokens.toks();
        let ghost acc = g_level(toks, start, 5) is Some;
        let first = self.parse_relational_expression()?;
        let ghost e1 = self.tokens.pos();
        let ghost whole = g_tail(toks, e1, 5);
        let mut rest: Vec<Ast> = Vec::new();
        proof {
            assert(models_of(rest@) =~= Seq::<AstModel>::empty());
            if acc {
                assert(g_operand(toks, start, 5) is Some);
            }
        }
        while self.next_is_level_op(5)
            invariant
                self.tokens.wf(),
                self.tokens.toks() == old(self).tokens.toks(),
                toks == old(self).tokens.toks(),
                start == old(self).tokens.pos(),
                start <= self.tokens.pos(),
                start < self.tokens.toks().len() ==> start < self.tokens.pos(),
                grows(old(self).errs(), self.errs()),
                self.ast == old(self).ast,
                rest@.len() % 2 == 0,
                alternates(rest@, 5, 1),
                acc == (g_level(toks, start, 5) is Some),
                whole == g_tail(toks, e1, 5),
                acc ==> g_operand(toks, start, 5) == Some((model(first), e1)) && moves(toks, start, e1)
                    && whole is Some && g_tail(toks, self.tokens.pos(), 5) is Some && models_of(rest@)
                    + list_of(g_tail(toks, self.tokens.pos(), 5)) == list_of(whole) && list_end(g_tail(toks, self.tokens.pos(), 5)) == list_end(whole) && self.errs() == old(self).errs(),
            decreases self.tokens.remaining(),
        {
            let ghost p = self.tokens.pos();
            let ghost before = rest@;
            let op = self.tokens.next_token().unwrap();
            let op_leaf = Ast::new_leaf(op);
            rest.push(op_leaf);
            let operand = self.parse_relational_expression()?;
            proof {
                lemma_models_push(before, op_leaf);
            }
            let ghost middle = rest@;
            rest.push(operand);
            proof {
                lemma_models_push(middle, operand);
                if acc {
                    assert(g_operand(toks, p + 1, 5) is Some);
                    assert(models_of(rest@) + list_of(g_tail(toks, self.tokens.pos(), 5)) =~= models_of(before)
                        + list_of(g_tail(toks, p, 5)));
                }
            }
        }
        proof {
            if acc {
                assert(list_of(g_tail(toks, self.tokens.pos(), 5)).len() == 0);
                assert(models_of(rest@) =~= list_of(whole));
            }
        }
        if rest.len() == 0 {
            proof {
                if acc {
                    assert(list_end(whole) == e1);
                }
            }
            return Ok(first);
        }
        let ghost rest_v = rest@;
        let mut children = vec![first];
        children.append(&mut rest);
        proof {
            assert forall|i: int| 0 < i < children@.len() implies children@[i] == rest_v[i - 1] by {}
            assert(alternates(children@, 5, 0));
            assert(children@ =~= seq![first] + rest_v);
            lemma_models_concat(seq![first], rest_v);
            lemma_models_elems(seq![first]);
            assert(models_of(seq![first]) =~= seq![model(first)]);
        }
        Ok(Ast::new_node_with_leaves(NonTerminal::EqualityExpression, children))
    }

    /// `RelationalExpression`: operands of the next tighter level joined by `>` or `<` or `<=` or `>=`, left-associative; a lone
    /// operand stands for itself.
    fn parse_relational_expression(&mut self) -> (r: Result<Ast, ParseError>)
        requires
            old(self).tokens.wf(),
        ensures
            advanced(old(self), final(self)),
            r is Err ==> old(self).errs().len() < final(self).errs().len(),
            precedence_ok(r, 4),
            clean(old(self), final(self), r, g_level(old(self).tokens.toks(), old(self).tokens.pos(), 4)),
        decreases old(self).tokens.remaining(), 13int,
    {
        let ghost start = self.tokens.pos();
        let ghost toks = self.tokens.toks();
        let ghost acc = g_level(toks, start, 4) is Some;
        let first = self.parse_shift_expression()?;
        let ghost e1 = self.tokens.pos();
        let ghost whole = g_tail(toks, e1, 4);
        let mut rest: Vec<Ast> = Vec::new();
        proof {
            assert(models_of(rest@) =~= Seq::<AstModel>::empty());
            if acc {
                assert(g_operand(toks, start, 4) is Some);
            }
        }
        while self.next_is_level_op(4)
            invariant
                self.tokens.wf(),
                self.tokens.toks() == old(self).tokens.toks(),
                toks == old(self).tokens.toks(),
                start == old(self).tokens.pos(),
                start <= self.tokens.pos(),
                start < self.tokens.toks().len() ==> start < self.tokens.pos(),
                grows(old(self).errs(), self.errs()),
                self.ast == old(self).ast,
                rest@.len() % 2 == 0,
                alternates(rest@, 4, 1),
                acc == (g_level(toks, start, 4) is Some),
                whole == g_tail(toks, e1, 4),
                acc ==> g_operand(toks, start, 4) == Some((model(first), e1)) && moves(toks, start, e1)
                    && whole is Some && g_tail(toks, self.tokens.pos(), 4) is Some && models_of(rest@)
                    + list_of(g_tail(toks, self.tokens.pos(), 4)) == list_of(whole) && list_end(g_tail(toks, self.tokens.pos(), 4)) == list_end(whole) && self.errs() == old(self).errs(),
            decreases self.tokens.remaining(),
        {
            let ghost p = self.tokens.pos();
            let ghost before = rest@;
            let op = self.tokens.next_token().unwrap();
            let op_leaf = Ast::new_leaf(op);
            rest.push(op_leaf);
            let operand = self.parse_shift_expression()?;
            proof {
                lemma_models_push(before, op_leaf);
            }
            let ghost middle = rest@;
            rest.push(operand);
            proof {
                lemma_models_push(middle, operand);
                if acc {
                    assert(g_operand(toks, p + 1, 4) is Some);
                    assert(models_of(rest@) + list_of(g_tail(toks, self.tokens.pos(), 4)) =~= models_of(before)
                        + list_of(g_tail(toks, p, 4)));
                }
            }
        }
        proof {
            if acc {
                assert(list_of(g_tail(toks, self.tokens.pos(), 4)).len() == 0);
                assert(models_of(rest@) =~= list_of(whole));
            }
        }
        if rest.len() == 0 {
            proof {
                if acc {
                    assert(list_end(whole) == e1);
                }
            }
            return Ok(first);
        }
        let ghost rest_v = rest@;
        let mut children = vec![first];
        children.append(&mut rest);
        proof {
            assert forall|i: int| 0 < i < children@.len() implies children@[i] == rest_v[i - 1] by {}
            assert(alternates(children@, 4, 0));
            assert(children@ =~= seq![first] + rest_v);
            lemma_models_concat(seq![first], rest_v);
            lemma_models_elems(seq![first]);
            assert(models_of(seq![first]) =~= seq![model(first)]);
        }
        Ok(Ast::new_node_with_leaves(NonTerminal::RelationalExpression, children))
    }

    /// `ShiftExpression`: operands of the next tighter level joined by `<<` or `>>` or `>>>`, left-associative; a lone
    /// operand stands for itself.
    fn parse_shift_expression(&mut self) -> (r: Result<Ast, ParseError>)
        requires
            old(self).tokens.wf(),
        ensures
            advanced(old(self), final(self)),
            r is Err ==> old(self).errs().len() < final(self).errs().len(),
            precedence_ok(r, 3),
            clean(old(self), final(self), r, g_level(old(self).tokens.toks(), old(self).tokens.pos(), 3)),
        decreases old(self).tokens.remaining(), 12int,
    {
        let ghost start = self.tokens.pos();
        let ghost toks = self.tokens.toks();
        let ghost acc = g_level(toks, start, 3) is Some;
        let first = self.parse_additive_expression()?;
        let ghost e1 = self.tokens.pos();
        let ghost whole = g_tail(toks, e1, 3);
        let mut rest: Vec<Ast> = Vec::new();
        proof {
            assert(models_of(rest@) =~= Seq::<AstModel>::empty());
            if acc {
                assert(g_operand(toks, start, 3) is Some);
            }
        }
        while self.next_is_level_op(3)
            invariant
                self.tokens.wf(),
                self.tokens.toks() == old(self).tokens.toks(),
                toks == old(self).tokens.toks(),
                start == old(self).tokens.pos(),
                start <= self.tokens.pos(),
                start < self.tokens.toks().len() ==> start < self.tokens.pos(),
                grows(old(self).errs(), self.errs()),
                self.ast == old(self).ast,
                rest@.len() % 2 == 0,
                alternates(rest@, 3, 1),
                acc == (g_level(toks, start, 3) is Some),
                whole == g_tail(toks, e1, 3),
                acc ==> g_operand(toks, start, 3) == Some((model(first), e1)) && moves(toks, start, e1)
                    && whole is Some && g_tail(toks, self.tokens.pos(), 3) is Some && models_of(rest@)
                    + list_of(g_tail(toks, self.tokens.pos(), 3)) == list_of(whole) && list_end(g_tail(toks, self.tokens.pos(), 3)) == list_end(whole) && self.errs() == old(self).errs(),
            decreases self.tokens.remaining(),
        {
            let ghost p = self.tokens.pos();
            let ghost before = rest@;
            let op = self.tokens.next_token().unwrap();
            let op_leaf = Ast::new_leaf(op);
            rest.push(op_leaf);
            let operand = self.parse_additive_expression()?;
            proof {
                lemma_models_push(before, op_leaf);
            }
            let ghost middle = rest@;
            rest.push(operand);
            proof {
                lemma_models_push(middle, operand);
                if acc {
                    assert(g_operand(toks, p + 1, 3) is Some);
                    assert(models_of(rest@) + list_of(g_tail(toks, self.tokens.pos(), 3)) =~= models_of(before)
                        + list_of(g_tail(toks, p, 3)));
                }
            }
        }
        proof {
            if acc {
                assert(list_of(g_tail(toks, self.tokens.pos(), 3)).len() == 0);
                assert(models_of(rest@) =~= list_of(whole));
            }
        }
        if rest.len() == 0 {
            proof {
                if acc {
                    assert(list_end(whole) == e1);
                }
            }
            return Ok(first);
        }
        let ghost rest_v = rest@;
        let mut children = vec![first];
        children.append(&mut rest);
        proof {
            assert forall|i: int| 0 < i < children@.len() implies children@[i] == rest_v[i - 1] by {}
            assert(alternates(children@, 3, 0));
            assert(children@ =~= seq![first] + rest_v);
            lemma_models_concat(seq![first], rest_v);
            lemma_models_elems(seq![first]);
            assert(models_of(seq![first]) =~= seq![model(first)]);
        }
        Ok(Ast::new_node_with_leaves(NonTerminal::ShiftExpression, children))
    }

    /// `AdditiveExpression`: operands of the next tighter level joined by `-` or `+`, left-associative; a lone
    /// operand stands for itself.
    fn parse_additive_expression(&mut self) -> (r: Result<Ast, ParseError>)
        requires
            old(self).tokens.wf(),
        ensures
            advanced(old(self), final(self)),
            r is Err ==> old(self).errs().len() < final(self).errs().len(),
            precedence_ok(r, 2),
            clean(old(self), final(self), r, g_level(old(self).tokens.toks(), old(self).tokens.pos(), 2)),
        decreases old(self).tokens.remaining(), 11int,
    {
        let ghost start = self.tokens.pos();
        let ghost toks = self.tokens.toks();
        let ghost acc = g_level(toks, start, 2) is Some;
        let first = self.parse_multiplicative_expression()?;
        let ghost e1 = self.tokens.pos();
        let ghost whole = g_tail(toks, e1, 2);
        let mut rest: Vec<Ast> = Vec::new();
        proof {
            assert(models_of(rest@) =~= Seq::<AstModel>::empty());
            if acc {
                assert(g_operand(toks, start, 2) is Some);
            }
        }
        while self.next_is_level_op(2)
            invariant
                self.tokens.wf(),
                self.tokens.toks() == old(self).tokens.toks(),
                toks == old(self).tokens.toks(),
                start == old(self).tokens.pos(),
                start <= self.tokens.pos(),
                start < self.tokens.toks().len() ==> start < self.tokens.pos(),
                grows(old(self).errs(), self.errs()),
                self.ast == old(self).ast,
                rest@.len() % 2 == 0,
                alternates(rest@, 2, 1),
                acc == (g_level(toks, start, 2) is Some),
                whole == g_tail(toks, e1, 2),
                acc ==> g_operand(toks, start, 2) == Some((model(first), e1)) && moves(toks, start, e1)
                    && whole is Some && g_tail(toks, self.tokens.pos(), 2) is Some && models_of(rest@)
                    + list_of(g_tail(toks, self.tokens.pos(), 2)) == list_of(whole) && list_end(g_tail(toks, self.tokens.pos(), 2)) == list_end(whole) && self.errs() == old(self).errs(),
            decreases self.tokens.remaining(),
        {
            let ghost p = self.tokens.pos();
            let ghost before = rest@;
            let op = self.tokens.next_token().unwrap();
            let op_leaf = Ast::new_leaf(op);
            rest.push(op_leaf);
            let operand = self.parse_multiplicative_expression()?;
            proof {
                lemma_models_push(before, op_leaf);
            }
            let ghost middle = rest@;
            rest.push(operand);
            proof {
                lemma_models_push(middle, operand);
                if acc {
                    assert(g_operand(toks, p + 1, 2) is Some);
                    assert(models_of(rest@) + list_of(g_tail(toks, self.tokens.pos(), 2)) =~= models_of(before)
                        + list_of(g_tail(toks, p, 2)));
                }
            }
        }
        proof {
            if acc {
                assert(list_of(g_tail(toks, self.tokens.pos(), 2)).len() == 0);
                assert(models_of(rest@) =~= list_of(whole));
            }
        }
        if rest.len() == 0 {
            proof {
                if acc {
                    assert(list_end(whole) == e1);
                }
            }
            return Ok(first);
        }
        let ghost rest_v = rest@;
        let mut children = vec![first];
        children.append(&mut rest);
        proof {
            assert forall|i: int| 0 < i < children@.len() implies children@[i] == rest_v[i - 1] by {}
            assert(alternates(children@, 2, 0));
            assert(children@ =~= seq![first] + rest_v);
            lemma_models_concat(seq![first], rest_v);
            lemma_models_elems(seq![first]);
            assert(models_of(seq![first]) =~= seq![model(first)]);
        }
        Ok(Ast::new_node_with_leaves(NonTerminal::AdditiveExpression, children))
    }

    /// `MultiplicativeExpression`: operands of the next tighter level joined by `*` or `/` or `%`, left-associative; a lone
    /// operand stands for itself.
    fn parse_multiplicative_expression(&mut self) -> (r: Result<Ast, ParseError>)
        requires
            old(self).tokens.wf(),
        ensures
            advanced(old(self), final(self)),
            r is Err ==> old(self).errs().len() < final(self).errs().len(),
            precedence_ok(r, 1),
            clean(old(self), final(self), r, g_level(old(self).tokens.toks(), old(self).tokens.pos(), 1)),
        decreases old(self).tokens.remaining(), 10int,
    {
        let ghost start = self.tokens.pos();
        let ghost toks = self.tokens.toks();
        let ghost acc = g_level(toks, start, 1) is Some;
        let first = self.parse_exponential_expression()?;
        let ghost e1 = self.tokens.pos();
        let ghost whole = g_tail(toks, e1, 1);
        let mut rest: Vec<Ast> = Vec::new();
        proof {
            assert(models_of(rest@) =~= Seq::<AstModel>::empty());
            if acc {
                assert(g_operand(toks, start, 1) is Some);
            }
        }
        while self.next_is_level_op(1)
            invariant
                self.tokens.wf(),
                self.tokens.toks() == old(self).tokens.toks(),
                toks == old(self).tokens.toks(),
                start == old(self).tokens.pos(),
                start <= self.tokens.pos(),
                start < self.tokens.toks().len() ==> start < self.tokens.pos(),
                grows(old(self).errs(), self.errs()),
                self.ast == old(self).ast,
                rest@.len() % 2 == 0,
                alternates(rest@, 1, 1),
                acc == (g_level(toks, start, 1) is Some),
                whole == g_tail(toks, e1, 1),
                acc ==> g_operand(toks, start, 1) == Some((model(first), e1)) && moves(toks, start, e1)
                    && whole is Some && g_tail(toks, self.tokens.pos(), 1) is Some && models_of(rest@)
                    + list_of(g_tail(toks, self.tokens.pos(), 1)) == list_of(whole) && list_end(g_tail(toks, self.tokens.pos(), 1)) == list_end(whole) && self.errs() == old(self).errs(),
            decreases self.tokens.remaining(),
        {
            let ghost p = self.tokens.pos();
            let ghost before = rest@;
            let op = self.tokens.next_token().unwrap();
            let op_leaf = Ast::new_leaf(op);
            rest.push(op_leaf);
            let operand = self.parse_exponential_expression()?;
            proof {
                lemma_models_push(before, op_leaf);
            }
            let ghost middle = rest@;
            rest.push(operand);
            proof {
                lemma_models_push(middle, operand);
                if acc {
                    assert(g_operand(toks, p + 1, 1) is Some);
                    assert(models_of(rest@) + list_of(g_tail(toks, self.tokens.pos(), 1)) =~= models_of(before)
                        + list_of(g_tail(toks, p, 1)));
                }
            }
        }
        proof {
            if acc {
                assert(list_of(g_tail(toks, self.tokens.pos(), 1)).len() == 0);
                assert(models_of(rest@) =~= list_of(whole));
            }
        }
        if rest.len() == 0 {
            proof {
                if acc {
                    assert(list_end(whole) == e1);
                }
            }
            return Ok(first);
        }
        let ghost rest_v = rest@;
        let mut children = vec![first];
        children.append(&mut rest);
        proof {
            assert forall|i: int| 0 < i < children@.len() implies children@[i] == rest_v[i - 1] by {}
            assert(alternates(children@, 1, 0));
            assert(children@ =~= seq![first] + rest_v);
            lemma_models_concat(seq![first], rest_v);
            lemma_models_elems(seq![first]);
            assert(models_of(seq![first]) =~= seq![model(first)]);
        }
        Ok(Ast::new_node_with_leaves(NonTerminal::MultiplicativeExpression, children))
    }

    /// `**` is right-associative. After a unary-prefixed operand it is reported (the operand
    /// must be parenthesized) and parsing goes on as if it were allowed.
    #[verifier::rlimit(50)]
    pub fn parse_exponential_expression(&mut self) -> (r: Result<Ast, ParseError>)
        requires
            old(self).tokens.wf(),
        ensures
            advanced(old(self), final(self)),
            r is Err ==> old(self).errs().len() < final(self).errs().len(),
            r matches Ok(a) ==> rank_of(a) == 0,
            clean(old(self), final(self), r, g_exponential(old(self).tokens.toks(), old(self).tokens.pos())),
            r matches Ok(a) ==> (a.is_node(NonTerminal::ExponentiationExpression) ==> a.kids().len()
                == 2),
            match g_unary_exponent(old(self).tokens.toks(), old(self).tokens.pos()) {
                Some((t, e2, star)) => (r matches Ok(a) && model(a) == t) && final(self).tokens.pos()
                    == e2 && final(self).errs() == old(self).errs().push(
                    crate::invalid_syntax::diag_at(
                        DiagKind::Exponential,
                        old(self).tokens.toks()[star],
                    ),
                ),
                None => true,
            },
            r matches Ok(a) ==> (a.is_node(NonTerminal::ExponentiationExpression) && is_unary_op(
                next_payload(old(self)),
            ) ==> exists|i: int|
                old(self).errs().len() <= i < final(self).errs().len() && (
                #[trigger] final(self).errs()[i]).kind is Exponential),
        decreases old(self).tokens.remaining(), 9int,
    {
        let next = self.tokens.look_ahead(1);
        let unary = is_reserved(&next, ReservedWord::LogicalNot) || is_reserved(
            &next,
            ReservedWord::Not,
        ) || is_reserved(&next, ReservedWord::Add) || is_reserved(&next, ReservedWord::Sub);
        let base = if unary {
            self.parse_unary_expression()?
        } else {
            self.parse_primary_expression()?
        };
        if !is_reserved(&self.tokens.look_ahead(1), ReservedWord::Exponential) {
            return Ok(base);
        }
        let ghost at = self.errs().len();
        if unary {
            self.handle_exponential_error();
        }
        let ghost marked = self.errs();
        self.tokens.next();
        let exponent = self.parse_exponential_expression()?;
        proof {
            if unary {
                assert(marked[at as int].kind is Exponential);
                assert(self.errs()[at as int] == marked[at as int]);
            }
        }
        let children = vec![base, exponent];
        proof {
            assert(children@ =~= seq![base, exponent]);
            lemma_models_two(base, exponent);
        }
        Ok(Ast::new_node_with_leaves(NonTerminal::ExponentiationExpression, children))
    }

    /// Records that `**` follows a unary-prefixed operand, pointing at the `**`.
    fn handle_exponential_error(&mut self)
        requires
            old(self).tokens.wf(),
            ahead(old(self).tokens.toks(), old(self).tokens.pos(), 1) is Some,
        ensures
            final(self).tokens == old(self).tokens,
            final(self).ast == old(self).ast,
            final(self).errs() == old(self).errs().push(
                crate::invalid_syntax::diag_at(
                    DiagKind::Exponential,
                    ahead(old(self).tokens.toks(), old(self).tokens.pos(), 1)->0,
                ),
            ),
    {
        let tk = self.tokens.nth(1).unwrap();
        let e = InvalidSyntax::at_token(&tk, InvalidSyntaxType::ExponentialError());
        self.parse_error.add_error(e);
    }

    /// A prefix `!`, `~`, `+` or `-` applied to a unary expression, or a primary expression.
    pub fn parse_unary_expression(&mut self) -> (r: Result<Ast, ParseError>)
        requires
            old(self).tokens.wf(),
        ensures
            advanced(old(self), final(self)),
            r is Err ==> old(self).errs().len() < final(self).errs().len(),
            r matches Ok(a) ==> rank_of(a) == 0,
            r matches Ok(a) ==> a.ast_type != AstType::NonTerminal(
                NonTerminal::ExponentiationExpression,
            ),
            is_unary_op(next_payload(old(self))) ==> (r matches Ok(a) ==> a.is_node(
                NonTerminal::UnaryExpression,
            ) && a.kids().len() == 2),
            clean(old(self), final(self), r, g_unary(old(self).tokens.toks(), old(self).tokens.pos())),
        decreases old(self).tokens.remaining(), 8int,
    {
        let next = self.tokens.look_ahead(1);
        if is_reserved(&next, ReservedWord::LogicalNot) || is_reserved(&next, ReservedWord::Not)
            || is_reserved(&next, ReservedWord::Add) || is_reserved(&next, ReservedWord::Sub) {
            let op = Ast::new_leaf(self.tokens.next_token().unwrap());
            let operand = self.parse_unary_expression()?;
            let children = vec![op, operand];
            proof {
                assert(children@ =~= seq![op, operand]);
                lemma_models_two(op, operand);
            }
            Ok(Ast::new_node_with_leaves(NonTerminal::UnaryExpression, children))
        } else {
            self.parse_primary_expression()
        }
    }

    /// A literal, an identifier, a parenthesized expression, a function expression or a
    /// compound expression, followed by any chain of `.identifier` and argument lists. A lone
    /// base stands for itself; with a chain, all parts go under a `PrimaryExpression` node.
    #[verifier::rlimit(50)]
    pub fn parse_primary_expression(&mut self) -> (r: Result<Ast, ParseError>)
        requires
            old(self).tokens.wf(),
        ensures
            advanced(old(self), final(self)),
            r is Err ==> old(self).errs().len() < final(self).errs().len(),
            r matches Ok(a) ==> rank_of(a) == 0,
            r matches Ok(a) ==> a.ast_type != AstType::NonTerminal(
                NonTerminal::ExponentiationExpression,
            ),
            clean(old(self), final(self), r, g_primary(old(self).tokens.toks(), old(self).tokens.pos())),
        decreases old(self).tokens.remaining(), 7int,
    {
        let ghost start = self.tokens.pos();
        let ghost toks = self.tokens.toks();
        let ghost acc = g_primary(toks, start) is Some;
        let ghost b = tree_of(g_base(toks, start));
        let ghost e = end_of(g_base(toks, start));
        let mut asts: Vec<Ast> = Vec::new();
        let base = self.parse_primary_base()?;
        asts.push(base);
        proof {
            if acc {
                lemma_models_one(asts@[0]);
                assert(asts@ =~= seq![asts@[0]]);
            }
        }
        let ghost before = asts@;
        self.parse_postfix(&mut asts)?;
        proof {
            if acc {
                assert(models_of(asts@) =~= seq![b] + list_of(g_postfix(toks, e)));
                lemma_models_elems(asts@);
            }
        }
        if asts.len() == 1 {
            proof {
                if acc {
                    assert(list_of(g_postfix(toks, e)).len() == 0);
                    assert(list_end(g_postfix(toks, e)) == e);
                    assert(models_of(asts@)[0] == b);
                    assert(model(asts@[0]) == b);
                    assert(g_primary(toks, start) == Some((b, e)));
                }
            }
            let only = asts.remove(0);
            return Ok(only);
        }
        let empty = asts.len() == 0;
        let mut node = Ast::new_node_with_leaves(NonTerminal::PrimaryExpression, asts);
        if empty {
            node.set_invalid();
        }
        Ok(node)
    }

    /// The base of a primary expression; on an unexpected token, the diagnostic.
    fn parse_primary_base(&mut self) -> (r: Result<Ast, ParseError>)
        requires
            old(self).tokens.wf(),
        ensures
            advanced(old(self), final(self)),
            r is Err ==> old(self).errs().len() < final(self).errs().len(),
            r matches Ok(a) ==> rank_of(a) == 0 && a.ast_type != AstType::NonTerminal(
                NonTerminal::ExponentiationExpression,
            ),
            clean(old(self), final(self), r, g_base(old(self).tokens.toks(), old(self).tokens.pos())),
        decreases old(self).tokens.remaining(), 6int,
    {
        match self.tokens.look_ahead(1) {
            Some(TokenBase::String(_)) | Some(TokenBase::Number(_)) | Some(
                TokenBase::Identifier(_),
            ) => Ok(Ast::new_leaf(self.tokens.next_token().unwrap())),
            Some(TokenBase::Reserved(ReservedWord::LeftParenthesis)) => {
                match self.should_continue_as_function_expr() {
                    Ok(true) => self.parse_function_expression(),
                    Ok(false) => self.parse_parenthesized_expression(),
                    Err(e) => {
                        self.handle_unexpected_eof_error();
                        self.tokens.next();
                        Err(e)
                    },
                }
            },
            Some(TokenBase::Reserved(ReservedWord::LeftCurly)) => self.parse_compound_expression(),
            _ => {
                self.handle_expected_actually_error(
                    vec![
                        TokenBase::default_string(),
                        TokenBase::default_number(),
                        TokenBase::default_identifier(),
                        TokenBase::Reserved(ReservedWord::LeftParenthesis),
                        TokenBase::Reserved(ReservedWord::LeftCurly),
                    ],
                );
                Err(ParseError::new("unexpected token"))
            },
        }
    }

    /// Appends the chain of `.identifier` and argument lists that follows a primary base.
    #[verifier::rlimit(50)]
    fn parse_postfix(&mut self, asts: &mut Vec<Ast>) -> (r: Result<(), ParseError>)
        requires
            old(self).tokens.wf(),
            forall|j: int|
                0 <= j < old(asts)@.len() ==> rank_of(#[trigger] old(asts)@[j]) == 0
                    && old(asts)@[j].ast_type != AstType::NonTerminal(
                    NonTerminal::ExponentiationExpression,
                ),
        ensures
            final(self).tokens.wf(),
            final(self).tokens.toks() == old(self).tokens.toks(),
            old(self).tokens.pos() <= final(self).tokens.pos(),
            grows(old(self).errs(), final(self).errs()),
            final(self).ast == old(self).ast,
            r is Err ==> old(self).errs().len() < final(self).errs().len(),
            forall|j: int|
                0 <= j < final(asts)@.len() ==> rank_of(#[trigger] final(asts)@[j]) == 0
                    && final(asts)@[j].ast_type != AstType::NonTerminal(
                    NonTerminal::ExponentiationExpression,
                ),
            final(asts)@.len() >= old(asts)@.len(),
            g_postfix(old(self).tokens.toks(), old(self).tokens.pos()) is Some ==> r is Ok
                && models_of(final(asts)@) == models_of(old(asts)@) + list_of(
                g_postfix(old(self).tokens.toks(), old(self).tokens.pos()),
            ) && final(self).tokens.pos() == list_end(
                g_postfix(old(self).tokens.toks(), old(self).tokens.pos()),
            ) && final(self).errs() == old(self).errs(),
        decreases old(self).tokens.remaining(), 6int,
    {
        let ghost start = self.tokens.pos();
        let ghost toks = self.tokens.toks();
        let ghost acc = g_postfix(toks, start) is Some;
        let ghost first = asts@;
        while self.next_is_postfix()
            invariant
                self.tokens.wf(),
                self.tokens.toks() == old(self).tokens.toks(),
                toks == old(self).tokens.toks(),
                start == old(self).tokens.pos(),
                start <= self.tokens.pos(),
                grows(old(self).errs(), self.errs()),
                self.ast == old(self).ast,
                first == old(asts)@,
                asts@.len() >= first.len(),
                forall|j: int|
                    0 <= j < asts@.len() ==> rank_of(#[trigger] asts@[j]) == 0 && asts@[j].ast_type
                        != AstType::NonTerminal(NonTerminal::ExponentiationExpression),
                acc == (g_postfix(toks, start) is Some),
                acc ==> g_postfix(toks, self.tokens.pos()) is Some && models_of(asts@) + list_of(
                    g_postfix(toks, self.tokens.pos()),
                ) == models_of(first) + list_of(g_postfix(toks, start)) && list_end(
                    g_postfix(toks, self.tokens.pos()),
                ) == list_end(g_postfix(toks, start)) && self.errs() == old(self).errs(),
            decreases self.tokens.remaining(),
        {
            let ghost p = self.tokens.pos();
            let ghost before = asts@;
            let next = self.tokens.look_ahead(1);
            if is_reserved(&next, ReservedWord::Dot) {
                let dot = Ast::new_leaf(self.tokens.next_token().unwrap());
                asts.push(dot);
                proof {
                    lemma_models_push(before, dot);
                }
                match self.tokens.look_ahead(1) {
                    Some(TokenBase::Identifier(_)) => {
                        let ghost mid = asts@;
                        let id = Ast::new_leaf(self.tokens.next_token().unwrap());
                        asts.push(id);
                        proof {
                            lemma_models_push(mid, id);
                            if acc {
                                assert(models_of(asts@) + list_of(g_postfix(toks, self.tokens.pos()))
                                    =~= models_of(before) + list_of(g_postfix(toks, p)));
                            }
                        }
                    },
                    _ => {
                        self.handle_expected_actually_error(vec![TokenBase::default_identifier()]);
                    },
                }
            } else {
                let args = self.parse_args()?;
                asts.push(args);
                proof {
                    lemma_models_push(before, args);
                    if acc {
                        assert(models_of(asts@) + list_of(g_postfix(toks, self.tokens.pos()))
                            =~= models_of(before) + list_of(g_postfix(toks, p)));
                    }
                }
            }
        }
        proof {
            if acc {
                assert(list_of(g_postfix(toks, self.tokens.pos())).len() == 0);
                assert(models_of(asts@) =~= models_of(first) + list_of(g_postfix(toks, start)));
            }
        }
        Ok(())
    }

    /// Whether the next token continues a primary expression: `.` or `(`.
    fn next_is_postfix(&self) -> (b: bool)
        requires
            self.tokens.wf(),
        ensures
            b == (res_at(self.tokens.toks(), self.tokens.pos(), ReservedWord::Dot) || res_at(
                self.tokens.toks(),
                self.tokens.pos(),
                ReservedWord::LeftParenthesis,
            )),
    {
        let next = self.tokens.look_ahead(1);
        is_reserved(&next, ReservedWord::Dot) || is_reserved(&next, ReservedWord::LeftParenthesis)
    }

    /// `(` , [ Expression , { "," , Expression } ] , `)`
    #[verifier::rlimit(50)]
    pub fn parse_args(&mut self) -> (r: Result<Ast, ParseError>)
        requires
            old(self).tokens.wf(),
        ensures
            advanced(old(self), final(self)),
            r is Err ==> old(self).errs().len() < final(self).errs().len(),
            r matches Ok(a) ==> a.is_node(NonTerminal::Args) && forall|i: int|
                0 <= i < a.kids().len() ==> (#[trigger] a.kids()[i]).is_node(NonTerminal::Expression),
            clean(old(self), final(self), r, g_args(old(self).tokens.toks(), old(self).tokens.pos())),
        decreases old(self).tokens.remaining(), 4int,
    {
        let ghost start = self.tokens.pos();
        let ghost toks = self.tokens.toks();
        let ghost acc = g_args(toks, start) is Some;
        let ghost total = g_arglist(toks, start + 1);
        self.consume_or_skip(ReservedWord::LeftParenthesis);
        let mut callers: Vec<Ast> = Vec::new();
        if is_reserved(&self.tokens.look_ahead(1), ReservedWord::RightParenthesis) {
            self.tokens.next();
            let r = Ast::new_node_with_leaves(NonTerminal::Args, callers);
            assert(r.kids().len() == 0);
            assert(models_of(callers@) =~= Seq::<AstModel>::empty());
            return Ok(r);
        }
        proof {
            assert(models_of(callers@) =~= Seq::<AstModel>::empty());
        }
        loop
            invariant_except_break
                acc ==> g_arglist(toks, self.tokens.pos()) is Some && models_of(callers@) + list_of(
                    g_arglist(toks, self.tokens.pos()),
                ) == list_of(total) && list_end(g_arglist(toks, self.tokens.pos())) == list_end(
                    total,
                ) && self.errs() == old(self).errs(),
            invariant
                self.tokens.wf(),
                self.tokens.toks() == old(self).tokens.toks(),
                toks == old(self).tokens.toks(),
                start == old(self).tokens.pos(),
                start <= self.tokens.pos(),
                start < self.tokens.toks().len() ==> start < self.tokens.pos(),
                grows(old(self).errs(), self.errs()),
                self.ast == old(self).ast,
                acc == (g_args(toks, start) is Some),
                total == g_arglist(toks, start + 1),
                forall|i: int|
                    0 <= i < callers@.len() ==> (#[trigger] callers@[i]).is_node(
                        NonTerminal::Expression,
                    ),
            ensures
                self.tokens.wf(),
                self.tokens.toks() == old(self).tokens.toks(),
                toks == old(self).tokens.toks(),
                start == old(self).tokens.pos(),
                start <= self.tokens.pos(),
                start < self.tokens.toks().len() ==> start < self.tokens.pos(),
                grows(old(self).errs(), self.errs()),
                self.ast == old(self).ast,
                forall|i: int|
                    0 <= i < callers@.len() ==> (#[trigger] callers@[i]).is_node(
                        NonTerminal::Expression,
                    ),
                acc ==> models_of(callers@) == list_of(total) && self.tokens.pos() == list_end(total)
                    && self.errs() == old(self).errs(),
            decreases self.tokens.remaining(),
        {
            let ghost p = self.tokens.pos();
            let ghost before = callers@;
            match self.tokens.look_ahead(1) {
                Some(TokenBase::String(_)) | Some(TokenBase::Number(_)) | Some(
                    TokenBase::Identifier(_),
                ) | Some(TokenBase::Reserved(ReservedWord::LeftParenthesis)) => {
                    let e = self.parse_expression()?;
                    callers.push(e);
                    proof {
                        lemma_models_push(before, e);
                    }
                },
                _ => {
                    self.handle_expected_actually_error(
                        vec![
                            TokenBase::default_string(),
                            TokenBase::default_number(),
                            TokenBase::default_identifier(),
                            TokenBase::Reserved(ReservedWord::LeftParenthesis),
                        ],
                    );
                    return Err(ParseError::new("unexpected token"));
                },
            }
            let next = self.tokens.look_ahead(1);
            if is_reserved(&next, ReservedWord::Comma) {
                self.tokens.next();
                proof {
                    if acc {
                        assert(models_of(callers@) + list_of(g_arglist(toks, self.tokens.pos()))
                            =~= models_of(before) + list_of(g_arglist(toks, p)));
                    }
                }
            } else if is_reserved(&next, ReservedWord::RightParenthesis) {
                self.tokens.next();
                proof {
                    if acc {
                        assert(models_of(callers@) =~= models_of(before) + list_of(g_arglist(toks, p)));
                    }
                }
                break;
            } else if self.tokens.has_next() {
                self.handle_expected_actually_error(
                    vec![
                        TokenBase::Reserved(ReservedWord::Comma),
                        TokenBase::Reserved(ReservedWord::RightParenthesis),
                    ],
                );
                return Err(ParseError::new("unexpected token"));
            } else {
                self.handle_unexpected_eof_error();
                return Err(ParseError::new("unexpected eof"));
            }
        }
        Ok(Ast::new_node_with_leaves(NonTerminal::Args, callers))
    }

    /// `(` `)` `=>` CompoundExpression
    pub fn parse_function_expression(&mut self) -> (r: Result<Ast, ParseError>)
        requires
            old(self).tokens.wf(),
        ensures
            advanced(old(self), final(self)),
            r is Err ==> old(self).errs().len() < final(self).errs().len(),
            r matches Ok(a) ==> a.is_node(NonTerminal::FunctionExpression) && a.kids().len() == 1,
            clean(old(self), final(self), r, g_function(old(self).tokens.toks(), old(self).tokens.pos())),
        decreases old(self).tokens.remaining(), 5int,
    {
        self.consume_or_skip(ReservedWord::LeftParenthesis);
        self.consume_or_skip(ReservedWord::RightParenthesis);
        self.consume_or_skip(ReservedWord::Arrow);
        let body = self.parse_compound_expression()?;
        let children = vec![body];
        proof {
            assert(children@ =~= seq![body]);
            lemma_models_one(body);
        }
        Ok(Ast::new_node_with_leaves(NonTerminal::FunctionExpression, children))
    }

    /// `{` { Statement } [ Expression ] `}`: declarations, expressions followed by `;`
    /// (statements), and a last expression without `;` (the block's value). The block ends
    /// at the first `}`.
    #[verifier::rlimit(100)]
    pub fn parse_compound_expression(&mut self) -> (r: Result<Ast, ParseError>)
        requires
            old(self).tokens.wf(),
        ensures
            advanced(old(self), final(self)),
            r is Err ==> old(self).errs().len() < final(self).errs().len(),
            r matches Ok(a) ==> a.is_node(NonTerminal::CompoundExpression) && forall|i: int|
                0 <= i < a.kids().len() ==> is_block_item(#[trigger] a.kids()[i]),
            clean(old(self), final(self), r, g_compound(old(self).tokens.toks(), old(self).tokens.pos())),
            res_at(old(self).tokens.toks(), old(self).tokens.pos(), ReservedWord::LeftCurly) ==> (
            g_missing_semicolon(old(self).tokens.toks(), old(self).tokens.pos() + 1) matches Some(k)
                ==> exists|i: int|
                old(self).errs().len() <= i < final(self).errs().len() && #[trigger] final(self).errs()[i]
                    == expect_diag(
                    old(self).tokens.toks(),
                    k,
                    seq![TokenBaseModel::Res(ReservedWord::SemiColon)],
                )),
        decreases old(self).tokens.remaining(), 4int,
    {
        let ghost start = self.tokens.pos();
        let ghost toks = self.tokens.toks();
        let ghost acc = g_compound(toks, start) is Some;
        let ghost total = g_items(toks, start + 1);
        let ghost opened = res_at(toks, start, ReservedWord::LeftCurly);
        let ghost miss = g_missing_semicolon(toks, start + 1);
        let ghost mut recorded = false;
        let ghost mut idx: int = 0;
        let ghost mut snap: Seq<DiagView> = Seq::empty();
        self.consume_or_skip(ReservedWord::LeftCurly);
        let mut expressions: Vec<Ast> = Vec::new();
        proof {
            assert(models_of(expressions@) =~= Seq::<AstModel>::empty());
        }
        loop
            invariant_except_break
                acc ==> g_items(toks, self.tokens.pos()) is Some && models_of(expressions@) + list_of(
                    g_items(toks, self.tokens.pos()),
                ) == list_of(total) && list_end(g_items(toks, self.tokens.pos())) == list_end(total)
                    && self.errs() == old(self).errs(),
            invariant
                self.tokens.wf(),
                self.tokens.toks() == old(self).tokens.toks(),
                toks == old(self).tokens.toks(),
                start == old(self).tokens.pos(),
                start <= self.tokens.pos(),
                start < self.tokens.toks().len() ==> start < self.tokens.pos(),
                grows(old(self).errs(), self.errs()),
                self.ast == old(self).ast,
                opened == res_at(toks, start, ReservedWord::LeftCurly),
                miss == g_missing_semicolon(toks, start + 1),
                recorded ==> grows(snap, self.errs()) && old(self).errs().len() <= idx < snap.len()
                    && snap[idx] == expect_diag(toks, miss_at(miss), seq![TokenBaseModel::Res(ReservedWord::SemiColon)]),
                opened && miss is Some && !recorded ==> g_missing_semicolon(toks, self.tokens.pos())
                    == miss && self.errs() == old(self).errs(),
                acc == (g_compound(toks, start) is Some),
                total == g_items(toks, start + 1),
                forall|i: int|
                    0 <= i < expressions@.len() ==> is_block_item(#[trigger] expressions@[i]),
            ensures
                opened && miss is Some && !recorded ==> g_missing_semicolon(toks, self.tokens.pos()) is None,
                opened == res_at(toks, start, ReservedWord::LeftCurly),
                miss == g_missing_semicolon(toks, start + 1),
                recorded ==> grows(snap, self.errs()) && old(self).errs().len() <= idx < snap.len()
                    && snap[idx] == expect_diag(toks, miss_at(miss), seq![TokenBaseModel::Res(ReservedWord::SemiColon)]),
                opened && miss is Some && !recorded ==> g_missing_semicolon(toks, self.tokens.pos())
                    == miss && self.errs() == old(self).errs(),
                self.tokens.wf(),
                self.tokens.toks() == old(self).tokens.toks(),
                toks == old(self).tokens.toks(),
                start == old(self).tokens.pos(),
                start <= self.tokens.pos(),
                start < self.tokens.toks().len() ==> start < self.tokens.pos(),
                grows(old(self).errs(), self.errs()),
                self.ast == old(self).ast,
                forall|i: int|
                    0 <= i < expressions@.len() ==> is_block_item(#[trigger] expressions@[i]),
                acc ==> models_of(expressions@) == list_of(total) && res_at(
                    toks,
                    self.tokens.pos(),
                    ReservedWord::RightCurly,
                ) && self.tokens.pos() + 1 == list_end(total) && self.errs() == old(self).errs(),
            decreases self.tokens.remaining(),
        {
            let ghost p = self.tokens.pos();
            let ghost before = expressions@;
            let next = self.tokens.look_ahead(1);
            if next.is_none() || is_reserved(&next, ReservedWord::RightCurly) {
                proof {
                    if acc {
                        assert(models_of(expressions@) =~= list_of(total));
                    }
                }
                break;
            }
            match next {
                Some(TokenBase::String(_)) | Some(TokenBase::Number(_)) | Some(
                    TokenBase::Identifier(_),
                ) | Some(TokenBase::Reserved(ReservedWord::LeftParenthesis)) => {
                    let exp = self.parse_expression()?;
                    let has_semicolon = is_reserved(
                        &self.tokens.look_ahead(1),
                        ReservedWord::SemiColon,
                    );
                    if has_semicolon {
                        self.tokens.next();
                        let children = vec![exp];
                        proof {
                            assert(children@ =~= seq![exp]);
                            lemma_models_one(exp);
                        }
                        let stmt = Ast::new_node_with_leaves(NonTerminal::ExpressionStatement, children);
                        expressions.push(stmt);
                        proof {
                            lemma_models_push(before, stmt);
                        }
                    } else {
                        expressions.push(exp);
                        proof {
                            lemma_models_push(before, exp);
                        }
                    }
                    let closes = is_reserved(&self.tokens.look_ahead(1), ReservedWord::RightCurly);
                    proof {
                        if acc {
                            if has_semicolon {
                                assert(models_of(expressions@) + list_of(g_items(toks, self.tokens.pos()))
                                    =~= models_of(before) + list_of(g_items(toks, p)));
                            } else {
                                assert(models_of(expressions@) =~= models_of(before) + list_of(
                                    g_items(toks, p),
                                ));
                            }
                        }
                    }
                    if closes {
                        proof {
                            if acc && has_semicolon {
                                assert(models_of(expressions@) + list_of(g_items(toks, self.tokens.pos()))
                                    =~= models_of(expressions@));
                            }
                        }
                        break;
                    } else if !has_semicolon {
                        let expected = vec![TokenBase::Reserved(ReservedWord::SemiColon)];
                        proof {
                            assert(crate::invalid_syntax::base_views(expected@) =~= seq![
                                TokenBaseModel::Res(ReservedWord::SemiColon),
                            ]);
                        }
                        let ghost q = self.tokens.pos();
                        let ghost len0 = self.errs().len();
                        self.handle_expected_actually_error(expected);
                        proof {
                            if opened && miss is Some && !recorded {
                                assert(miss == Some(q));
                                recorded = true;
                                idx = len0 as int;
                                snap = self.errs();
                            }
                        }
                    }
                },
                Some(TokenBase::Reserved(ReservedWord::Const)) => {
                    let d = self.parse_const_declaration()?;
                    expressions.push(d);
                    proof {
                        lemma_models_push(before, d);
                        if acc {
                            assert(models_of(expressions@) + list_of(g_items(toks, self.tokens.pos()))
                                =~= models_of(before) + list_of(g_items(toks, p)));
                        }
                    }
                },
                Some(TokenBase::Reserved(ReservedWord::Let)) => {
                    let d = self.parse_let_declaration()?;
                    expressions.push(d);
                    proof {
                        lemma_models_push(before, d);
                        if acc {
                            assert(models_of(expressions@) + list_of(g_items(toks, self.tokens.pos()))
                                =~= models_of(before) + list_of(g_items(toks, p)));
                        }
                    }
                },
                _ => {
                    let target = self.tokens.nth(1).unwrap();
                    self.handle_expected_actually_error(
                        vec![
                            TokenBase::default_string(),
                            TokenBase::default_number(),
                            TokenBase::default_identifier(),
                            TokenBase::Reserved(ReservedWord::LeftParenthesis),
                        ],
                    );
                    let mut leaf = Ast::new_leaf(target);
                    leaf.set_invalid();
                    expressions.push(leaf);
                },
            }
        }
        self.consume_or_skip(ReservedWord::RightCurly);
        proof {
            if opened && miss is Some {
                assert(recorded);
                assert(self.errs()[idx] == snap[idx]);
            }
        }
        Ok(Ast::new_node_with_leaves(NonTerminal::CompoundExpression, expressions))
    }

    /// `(` Expression `)`
    pub fn parse_parenthesized_expression(&mut self) -> (r: Result<Ast, ParseError>)
        requires
            old(self).tokens.wf(),
            next_payload(old(self)) == Some(TokenBaseModel::Res(ReservedWord::LeftParenthesis)),
        ensures
            advanced(old(self), final(self)),
            r is Err ==> old(self).errs().len() < final(self).errs().len(),
            r matches Ok(a) ==> a.is_node(NonTerminal::ParenthesizedExpression) && a.kids().len()
                == 1,
            clean(old(self), final(self), r, g_paren(old(self).tokens.toks(), old(self).tokens.pos())),
        decreases old(self).tokens.remaining(), 5int,
    {
        self.tokens.next();
        let inner = self.parse_expression2()?;
        self.consume_or_skip(ReservedWord::RightParenthesis);
        let children = vec![inner];
        proof {
            assert(children@ =~= seq![inner]);
            lemma_models_one(inner);
        }
        Ok(Ast::new_node_with_leaves(NonTerminal::ParenthesizedExpression, children))
    }

    /// Looks past the balanced parenthesis group that starts at the next token: whether `=>`
    /// follows it. An error if the input (or a valid token) runs out inside the group.
    pub fn should_continue_as_function_expr(&self) -> (r: Result<bool, ParseError>)
        requires
            self.tokens.wf(),
            next_payload(self) == Some(TokenBaseModel::Res(ReservedWord::LeftParenthesis)),
        ensures
            r is Err <==> group_scan(self.tokens.toks(), self.tokens.pos(), 0) is None,
            r matches Ok(b) ==> group_scan(self.tokens.toks(), self.tokens.pos(), 0) == Some(b),
    {
        let ghost toks = self.tokens.toks();
        let ghost pos = self.tokens.pos();
        let mut count: usize = 1;
        let mut depth: usize = 0;
        loop
            invariant
                self.tokens.wf(),
                toks == self.tokens.toks(),
                pos == self.tokens.pos(),
                next_payload(self) == Some(TokenBaseModel::Res(ReservedWord::LeftParenthesis)),
                1 <= count,
                pos + count - 1 <= toks.len(),
                depth < count,
                count == 1 ==> depth == 0,
                count > 1 ==> depth > 0,
                group_scan(toks, pos, 0) == group_scan(toks, pos + count - 1, depth as int),
            decreases toks.len() - (pos + count - 1),
        {
            let t = self.tokens.look_ahead(count);
            if is_reserved(&t, ReservedWord::LeftParenthesis) {
                depth = depth + 1;
            } else if is_reserved(&t, ReservedWord::RightParenthesis) {
                if depth == 0 {
                    return Err(ParseError::new("unexpected token"));
                }
                depth = depth - 1;
            } else if t.is_none() {
                return Err(ParseError::new("unexpected eof"));
            }
            count = count + 1;
            if depth == 0 {
                return Ok(is_reserved(&self.tokens.look_ahead(count), ReservedWord::Arrow));
            }
        }
    }
}

} // verus!
