use vstd::prelude::*;

use crate::ast::AstModel;
use crate::non_terminal::NonTerminal;
use crate::parser::{group_scan, is_atom, is_unary_op, level_op};
use crate::reserved_word::ReservedWord;
use crate::token::{TokenBaseModel, TokenView};
use crate::token_stack::{ahead, payload};

verus! {

// The grammar of the language, on token sequences without syntax errors. Each production gives
// the tree it builds at position `i` (the number of tokens before it) and the position after
// it; none where the input is not a clean instance of the production.

/// The payload of token `i`.
pub open spec fn tok_at(toks: Seq<TokenView>, i: int) -> Option<TokenBaseModel> {
    payload(ahead(toks, i, 1))
}

/// Token `i` is the reserved word `w`.
pub open spec fn res_at(toks: Seq<TokenView>, i: int, w: ReservedWord) -> bool {
    tok_at(toks, i) == Some(TokenBaseModel::Res(w))
}

/// Token `i` is an identifier.
pub open spec fn ident_at(toks: Seq<TokenView>, i: int) -> bool {
    tok_at(toks, i) matches Some(TokenBaseModel::Ident(_))
}

/// Token `i` is a string literal.
pub open spec fn string_at(toks: Seq<TokenView>, i: int) -> bool {
    tok_at(toks, i) matches Some(TokenBaseModel::Str(_))
}

/// A leaf for token `i`.
pub open spec fn leaf_at(toks: Seq<TokenView>, i: int) -> AstModel {
    AstModel::Leaf(toks[i])
}

/// A payload that can start an expression in a block or an argument list.
pub open spec fn starts_expr(m: Option<TokenBaseModel>) -> bool {
    is_atom(m) || m == Some(TokenBaseModel::Res(ReservedWord::LeftParenthesis))
}

/// The production of the binary level of rank `rank`.
pub open spec fn level_kind(rank: int) -> NonTerminal {
    if rank == 1 {
        NonTerminal::MultiplicativeExpression
    } else if rank == 2 {
        NonTerminal::AdditiveExpression
    } else if rank == 3 {
        NonTerminal::ShiftExpression
    } else if rank == 4 {
        NonTerminal::RelationalExpression
    } else if rank == 5 {
        NonTerminal::EqualityExpression
    } else if rank == 6 {
        NonTerminal::BitwiseAndExpression
    } else if rank == 7 {
        NonTerminal::BitwiseXorExpression
    } else if rank == 8 {
        NonTerminal::BitwiseOrExpression
    } else if rank == 9 {
        NonTerminal::LogicalAndExpression
    } else {
        NonTerminal::LogicalOrExpression
    }
}

/// The tree of a result.
pub open spec fn tree_of(g: Option<(AstModel, int)>) -> AstModel {
    match g {
        Some((t, _)) => t,
        None => AstModel::Node(NonTerminal::Expression, Seq::empty()),
    }
}

/// The end position of a result.
pub open spec fn end_of(g: Option<(AstModel, int)>) -> int {
    match g {
        Some((_, e)) => e,
        None => 0,
    }
}

/// The trees of a unit result (empty if there is none).
pub open spec fn unit_of(g: Option<Seq<AstModel>>) -> Seq<AstModel> {
    match g {
        Some(xs) => xs,
        None => Seq::empty(),
    }
}

/// The trees of a list result (empty if there is none).
pub open spec fn list_of(g: Option<(Seq<AstModel>, int)>) -> Seq<AstModel> {
    match g {
        Some((xs, _)) => xs,
        None => Seq::empty(),
    }
}

/// The end position of a list result.
pub open spec fn list_end(g: Option<(Seq<AstModel>, int)>) -> int {
    match g {
        Some((_, e)) => e,
        None => 0,
    }
}

/// A result that ends after `i`, within the tokens.
pub open spec fn moves(toks: Seq<TokenView>, i: int, e: int) -> bool {
    i < e <= toks.len()
}

/// `Expression = LogicalOrExpression`, under an `Expression` node.
pub open spec fn g_expression(toks: Seq<TokenView>, i: int) -> Option<(AstModel, int)>
    decreases toks.len() - i, 32int,
{
    if i < 0 || i > toks.len() {
        None
    } else {
        match g_expr2(toks, i) {
            Some((t, e)) => Some((AstModel::Node(NonTerminal::Expression, seq![t]), e)),
            None => None,
        }
    }
}

/// An expression, from the loosest level down.
pub open spec fn g_expr2(toks: Seq<TokenView>, i: int) -> Option<(AstModel, int)>
    decreases toks.len() - i, 31int,
{
    if i < 0 || i > toks.len() {
        None
    } else {
        g_level(toks, i, 10)
    }
}

/// The operand of the level of rank `rank`: the next tighter level.
pub open spec fn g_operand(toks: Seq<TokenView>, i: int, rank: int) -> Option<(AstModel, int)>
    decreases toks.len() - i, 2 * rank + 9,
{
    if i < 0 || i > toks.len() || rank < 1 || rank > 10 {
        None
    } else if rank == 1 {
        g_exponential(toks, i)
    } else {
        g_level(toks, i, rank - 1)
    }
}

/// The binary level of rank `rank` (1 to 10): operands joined by the level's operators, left to
/// right under one node; a lone operand stands for itself.
pub open spec fn g_level(toks: Seq<TokenView>, i: int, rank: int) -> Option<(AstModel, int)>
    decreases toks.len() - i, 2 * rank + 10,
{
    if i < 0 || i > toks.len() || rank < 1 || rank > 10 {
        None
    } else {
        match g_operand(toks, i, rank) {
            None => None,
            Some((f, e1)) => if !moves(toks, i, e1) {
                None
            } else {
                match g_tail(toks, e1, rank) {
                    None => None,
                    Some((rest, e2)) => if rest.len() == 0 {
                        Some((f, e1))
                    } else {
                        Some((AstModel::Node(level_kind(rank), seq![f] + rest), e2))
                    },
                }
            },
        }
    }
}

/// The operators and operands that follow the first operand of the level of rank `rank`.
pub open spec fn g_tail(toks: Seq<TokenView>, j: int, rank: int) -> Option<(Seq<AstModel>, int)>
    decreases toks.len() - j, 0int,
{
    if j < 0 || j > toks.len() || rank < 1 || rank > 10 {
        None
    } else if tok_at(toks, j) matches Some(TokenBaseModel::Res(r)) && level_op(rank, r) {
        match g_operand(toks, j + 1, rank) {
            None => None,
            Some((o, e)) => if !moves(toks, j + 1, e) {
                None
            } else {
                match g_tail(toks, e, rank) {
                    None => None,
                    Some((rest, e2)) => Some((seq![leaf_at(toks, j), o] + rest, e2)),
                }
            },
        }
    } else {
        Some((Seq::empty(), j))
    }
}

/// `**`, right-associative; not allowed after a unary-prefixed operand.
pub open spec fn g_exponential(toks: Seq<TokenView>, i: int) -> Option<(AstModel, int)>
    decreases toks.len() - i, 10int,
{
    if i < 0 || i > toks.len() {
        None
    } else if is_unary_op(tok_at(toks, i)) {
        match g_unary(toks, i) {
            Some((u, e)) => if res_at(toks, e, ReservedWord::Exponential) {
                None
            } else {
                Some((u, e))
            },
            None => None,
        }
    } else {
        match g_primary(toks, i) {
            None => None,
            Some((p, e)) => if !res_at(toks, e, ReservedWord::Exponential) {
                Some((p, e))
            } else if !moves(toks, i, e) {
                None
            } else {
                match g_exponential(toks, e + 1) {
                    Some((x, e2)) => Some(
                        (AstModel::Node(NonTerminal::ExponentiationExpression, seq![p, x]), e2),
                    ),
                    None => None,
                }
            },
        }
    }
}

/// The one case where the exponent rule reports an error and still builds a tree: a
/// unary-prefixed operand, `**`, and an exponent that parses cleanly. The tree, its end, and the
/// position of the `**`.
pub open spec fn g_unary_exponent(toks: Seq<TokenView>, i: int) -> Option<(AstModel, int, int)> {
    if 0 <= i <= toks.len() && is_unary_op(tok_at(toks, i)) {
        match g_unary(toks, i) {
            Some((u, e)) => if res_at(toks, e, ReservedWord::Exponential) && moves(toks, i, e) {
                match g_exponential(toks, e + 1) {
                    Some((x, e2)) => Some(
                        (AstModel::Node(NonTerminal::ExponentiationExpression, seq![u, x]), e2, e),
                    ),
                    None => None,
                }
            } else {
                None
            },
            None => None,
        }
    } else {
        None
    }
}

/// Prefix `!`, `~`, `+`, `-` over a unary expression, or a primary expression.
pub open spec fn g_unary(toks: Seq<TokenView>, i: int) -> Option<(AstModel, int)>
    decreases toks.len() - i, 9int,
{
    if i < 0 || i > toks.len() {
        None
    } else if is_unary_op(tok_at(toks, i)) {
        match g_unary(toks, i + 1) {
            Some((o, e)) => Some(
                (AstModel::Node(NonTerminal::UnaryExpression, seq![leaf_at(toks, i), o]), e),
            ),
            None => None,
        }
    } else {
        g_primary(toks, i)
    }
}

/// The base of a primary expression: a literal or identifier, a function or parenthesized
/// expression (told apart by whether `=>` follows the parenthesis group), or a compound
/// expression.
pub open spec fn g_base(toks: Seq<TokenView>, i: int) -> Option<(AstModel, int)>
    decreases toks.len() - i, 7int,
{
    if i < 0 || i > toks.len() {
        None
    } else if is_atom(tok_at(toks, i)) {
        Some((leaf_at(toks, i), i + 1))
    } else if res_at(toks, i, ReservedWord::LeftParenthesis) {
        match group_scan(toks, i, 0) {
            Some(true) => g_function(toks, i),
            Some(false) => g_paren(toks, i),
            None => None,
        }
    } else if res_at(toks, i, ReservedWord::LeftCurly) {
        g_compound(toks, i)
    } else {
        None
    }
}

/// A base followed by any chain of `.identifier` and argument lists; a lone base stands for
/// itself.
pub open spec fn g_primary(toks: Seq<TokenView>, i: int) -> Option<(AstModel, int)>
    decreases toks.len() - i, 8int,
{
    if i < 0 || i > toks.len() {
        None
    } else {
        match g_base(toks, i) {
            None => None,
            Some((b, e)) => if !moves(toks, i, e) {
                None
            } else {
                match g_postfix(toks, e) {
                    None => None,
                    Some((ps, e2)) => if ps.len() == 0 {
                        Some((b, e))
                    } else {
                        Some((AstModel::Node(NonTerminal::PrimaryExpression, seq![b] + ps), e2))
                    },
                }
            },
        }
    }
}

/// The chain of `.identifier` and argument lists after a primary base.
pub open spec fn g_postfix(toks: Seq<TokenView>, j: int) -> Option<(Seq<AstModel>, int)>
    decreases toks.len() - j, 6int,
{
    if j < 0 || j > toks.len() {
        None
    } else if res_at(toks, j, ReservedWord::Dot) {
        if ident_at(toks, j + 1) {
            match g_postfix(toks, j + 2) {
                Some((ps, e)) => Some((seq![leaf_at(toks, j), leaf_at(toks, j + 1)] + ps, e)),
                None => None,
            }
        } else {
            None
        }
    } else if res_at(toks, j, ReservedWord::LeftParenthesis) {
        match g_args(toks, j) {
            None => None,
            Some((a, e)) => if !moves(toks, j, e) {
                None
            } else {
                match g_postfix(toks, e) {
                    Some((ps, e2)) => Some((seq![a] + ps, e2)),
                    None => None,
                }
            },
        }
    } else {
        Some((Seq::empty(), j))
    }
}

/// `(` `)` `=>` CompoundExpression
pub open spec fn g_function(toks: Seq<TokenView>, i: int) -> Option<(AstModel, int)>
    decreases toks.len() - i, 6int,
{
    if i < 0 || i > toks.len() {
        None
    } else if res_at(toks, i, ReservedWord::LeftParenthesis) && res_at(
        toks,
        i + 1,
        ReservedWord::RightParenthesis,
    ) && res_at(toks, i + 2, ReservedWord::Arrow) {
        match g_compound(toks, i + 3) {
            Some((c, e)) => Some((AstModel::Node(NonTerminal::FunctionExpression, seq![c]), e)),
            None => None,
        }
    } else {
        None
    }
}

/// `(` Expression `)`
pub open spec fn g_paren(toks: Seq<TokenView>, i: int) -> Option<(AstModel, int)>
    decreases toks.len() - i, 6int,
{
    if i < 0 || i > toks.len() || !res_at(toks, i, ReservedWord::LeftParenthesis) {
        None
    } else {
        match g_expr2(toks, i + 1) {
            Some((t, e)) => if res_at(toks, e, ReservedWord::RightParenthesis) {
                Some((AstModel::Node(NonTerminal::ParenthesizedExpression, seq![t]), e + 1))
            } else {
                None
            },
            None => None,
        }
    }
}

/// `{` items `}`
pub open spec fn g_compound(toks: Seq<TokenView>, i: int) -> Option<(AstModel, int)>
    decreases toks.len() - i, 5int,
{
    if i < 0 || i > toks.len() || !res_at(toks, i, ReservedWord::LeftCurly) {
        None
    } else {
        match g_items(toks, i + 1) {
            Some((its, e)) => Some((AstModel::Node(NonTerminal::CompoundExpression, its), e)),
            None => None,
        }
    }
}

/// The items of a block up to and including its `}`: declarations, expressions followed by `;`
/// (statements), and a last expression followed directly by `}` (the block's value). An
/// expression followed by anything else is a syntax error (a `;` is expected).
pub open spec fn g_items(toks: Seq<TokenView>, j: int) -> Option<(Seq<AstModel>, int)>
    decreases toks.len() - j, 33int,
{
    if j < 0 || j > toks.len() {
        None
    } else if res_at(toks, j, ReservedWord::RightCurly) {
        Some((Seq::empty(), j + 1))
    } else if starts_expr(tok_at(toks, j)) {
        match g_expression(toks, j) {
            None => None,
            Some((x, e)) => if !moves(toks, j, e) {
                None
            } else if res_at(toks, e, ReservedWord::SemiColon) {
                match g_items(toks, e + 1) {
                    Some((rest, e2)) => Some(
                        (seq![AstModel::Node(NonTerminal::ExpressionStatement, seq![x])] + rest, e2),
                    ),
                    None => None,
                }
            } else if res_at(toks, e, ReservedWord::RightCurly) {
                Some((seq![x], e + 1))
            } else {
                None
            },
        }
    } else if res_at(toks, j, ReservedWord::Const) || res_at(toks, j, ReservedWord::Let) {
        let d = if res_at(toks, j, ReservedWord::Const) {
            g_const_decl(toks, j)
        } else {
            g_let_decl(toks, j)
        };
        match d {
            None => None,
            Some((t, e)) => if !moves(toks, j, e) {
                None
            } else {
                match g_items(toks, e) {
                    Some((rest, e2)) => Some((seq![t] + rest, e2)),
                    None => None,
                }
            },
        }
    } else {
        None
    }
}

/// Where a block from `j` first lacks a `;`: the token after an expression that is neither `;`
/// nor `}`, all items before it being clean.
pub open spec fn g_missing_semicolon(toks: Seq<TokenView>, j: int) -> Option<int>
    decreases toks.len() - j,
{
    if j < 0 || j > toks.len() || res_at(toks, j, ReservedWord::RightCurly) {
        None
    } else if starts_expr(tok_at(toks, j)) {
        match g_expression(toks, j) {
            None => None,
            Some((x, e)) => if !moves(toks, j, e) {
                None
            } else if res_at(toks, e, ReservedWord::SemiColon) {
                g_missing_semicolon(toks, e + 1)
            } else if res_at(toks, e, ReservedWord::RightCurly) || e >= toks.len() {
                None
            } else {
                Some(e)
            },
        }
    } else if res_at(toks, j, ReservedWord::Const) || res_at(toks, j, ReservedWord::Let) {
        let d = if res_at(toks, j, ReservedWord::Const) {
            g_const_decl(toks, j)
        } else {
            g_let_decl(toks, j)
        };
        match d {
            Some((t, e)) => if !moves(toks, j, e) {
                None
            } else {
                g_missing_semicolon(toks, e)
            },
            None => None,
        }
    } else {
        None
    }
}

/// `(` [ Expression { `,` Expression } ] `)`
pub open spec fn g_args(toks: Seq<TokenView>, i: int) -> Option<(AstModel, int)>
    decreases toks.len() - i, 5int,
{
    if i < 0 || i > toks.len() || !res_at(toks, i, ReservedWord::LeftParenthesis) {
        None
    } else if res_at(toks, i + 1, ReservedWord::RightParenthesis) {
        Some((AstModel::Node(NonTerminal::Args, Seq::empty()), i + 2))
    } else {
        match g_arglist(toks, i + 1) {
            Some((xs, e)) => Some((AstModel::Node(NonTerminal::Args, xs), e)),
            None => None,
        }
    }
}

/// The arguments of a non-empty list, up to and including its `)`.
pub open spec fn g_arglist(toks: Seq<TokenView>, j: int) -> Option<(Seq<AstModel>, int)>
    decreases toks.len() - j, 33int,
{
    if j < 0 || j > toks.len() || !starts_expr(tok_at(toks, j)) {
        None
    } else {
        match g_expression(toks, j) {
            None => None,
            Some((x, e)) => if !moves(toks, j, e) {
                None
            } else if res_at(toks, e, ReservedWord::Comma) {
                match g_arglist(toks, e + 1) {
                    Some((xs, e2)) => Some((seq![x] + xs, e2)),
                    None => None,
                }
            } else if res_at(toks, e, ReservedWord::RightParenthesis) {
                Some((seq![x], e + 1))
            } else {
                None
            },
        }
    }
}

/// `const` DeclarationBody
pub open spec fn g_const_decl(toks: Seq<TokenView>, i: int) -> Option<(AstModel, int)>
    decreases toks.len() - i, 4int,
{
    if i < 0 || i > toks.len() || !res_at(toks, i, ReservedWord::Const) {
        None
    } else {
        match g_body(toks, i + 1) {
            Some((b, e)) => Some((AstModel::Node(NonTerminal::ConstDeclaration, seq![b]), e)),
            None => None,
        }
    }
}

/// `let` DeclarationBody
pub open spec fn g_let_decl(toks: Seq<TokenView>, i: int) -> Option<(AstModel, int)>
    decreases toks.len() - i, 4int,
{
    if i < 0 || i > toks.len() || !res_at(toks, i, ReservedWord::Let) {
        None
    } else {
        match g_body(toks, i + 1) {
            Some((b, e)) => Some((AstModel::Node(NonTerminal::LetDeclaration, seq![b]), e)),
            None => None,
        }
    }
}

/// Identifier `=` Expression `;`
pub open spec fn g_body(toks: Seq<TokenView>, j: int) -> Option<(AstModel, int)>
    decreases toks.len() - j, 3int,
{
    if j < 0 || j > toks.len() || !ident_at(toks, j) || !res_at(toks, j + 1, ReservedWord::Assign) {
        None
    } else {
        match g_expression(toks, j + 2) {
            Some((x, e)) => if res_at(toks, e, ReservedWord::SemiColon) {
                Some(
                    (AstModel::Node(NonTerminal::DeclarationBody, seq![leaf_at(toks, j), x]), e + 1),
                )
            } else {
                None
            },
            None => None,
        }
    }
}

/// [ `export` [ `default` ] ] ConstDeclaration
pub open spec fn g_exportable(toks: Seq<TokenView>, i: int) -> Option<(AstModel, int)> {
    if res_at(toks, i, ReservedWord::Export) && res_at(toks, i + 1, ReservedWord::Default) {
        match g_const_decl(toks, i + 2) {
            Some((c, e)) => Some(
                (
                    AstModel::Node(
                        NonTerminal::ExportableConstDeclaration,
                        seq![leaf_at(toks, i), leaf_at(toks, i + 1), c],
                    ),
                    e,
                ),
            ),
            None => None,
        }
    } else if res_at(toks, i, ReservedWord::Export) {
        match g_const_decl(toks, i + 1) {
            Some((c, e)) => Some(
                (
                    AstModel::Node(
                        NonTerminal::ExportableConstDeclaration,
                        seq![leaf_at(toks, i), c],
                    ),
                    e,
                ),
            ),
            None => None,
        }
    } else {
        match g_const_decl(toks, i) {
            Some((c, e)) => Some(
                (AstModel::Node(NonTerminal::ExportableConstDeclaration, seq![c]), e),
            ),
            None => None,
        }
    }
}

/// `[` Identifier `]`
pub open spec fn g_attribute(toks: Seq<TokenView>, i: int) -> Option<(AstModel, int)> {
    if res_at(toks, i, ReservedWord::LeftSquareBracket) && ident_at(toks, i + 1) && res_at(
        toks,
        i + 2,
        ReservedWord::RightSquareBracket,
    ) {
        Some((AstModel::Node(NonTerminal::Attribute, seq![leaf_at(toks, i + 1)]), i + 3))
    } else {
        None
    }
}

/// `import` Identifier `from` String
pub open spec fn g_default_import(toks: Seq<TokenView>, i: int) -> Option<(AstModel, int)> {
    if res_at(toks, i, ReservedWord::Import) && ident_at(toks, i + 1) && res_at(
        toks,
        i + 2,
        ReservedWord::From,
    ) && string_at(toks, i + 3) {
        Some(
            (
                AstModel::Node(
                    NonTerminal::DefaultImportDeclaration,
                    seq![leaf_at(toks, i + 1), leaf_at(toks, i + 3)],
                ),
                i + 4,
            ),
        )
    } else {
        None
    }
}

/// Identifier { `,` Identifier } `}`
pub open spec fn g_names(toks: Seq<TokenView>, j: int) -> Option<(Seq<AstModel>, int)>
    decreases toks.len() - j,
{
    if j < 0 || j >= toks.len() || !ident_at(toks, j) {
        None
    } else if res_at(toks, j + 1, ReservedWord::Comma) {
        match g_names(toks, j + 2) {
            Some((ns, e)) => Some((seq![leaf_at(toks, j)] + ns, e)),
            None => None,
        }
    } else if res_at(toks, j + 1, ReservedWord::RightCurly) {
        Some((seq![leaf_at(toks, j)], j + 2))
    } else {
        None
    }
}

/// `import` `{` Identifier { `,` Identifier } `}` `from` String
pub open spec fn g_named_import(toks: Seq<TokenView>, i: int) -> Option<(AstModel, int)> {
    if res_at(toks, i, ReservedWord::Import) && res_at(toks, i + 1, ReservedWord::LeftCurly) {
        match g_names(toks, i + 2) {
            Some((ns, e)) => if res_at(toks, e, ReservedWord::From) && string_at(toks, e + 1) {
                Some(
                    (
                        AstModel::Node(
                            NonTerminal::NamedImportDeclaration,
                            ns + seq![leaf_at(toks, e + 1)],
                        ),
                        e + 2,
                    ),
                )
            } else {
                None
            },
            None => None,
        }
    } else {
        None
    }
}

/// ( NamedImportDeclaration | DefaultImportDeclaration ) `;`
pub open spec fn g_import(toks: Seq<TokenView>, i: int) -> Option<(AstModel, int)> {
    let inner = if res_at(toks, i + 1, ReservedWord::LeftCurly) {
        g_named_import(toks, i)
    } else if ident_at(toks, i + 1) {
        g_default_import(toks, i)
    } else {
        None
    };
    match inner {
        Some((x, e)) => if res_at(toks, e, ReservedWord::SemiColon) {
            Some((AstModel::Node(NonTerminal::ImportDeclaration, seq![x]), e + 1))
        } else {
            None
        },
        None => None,
    }
}

/// The attributes from `j` on.
pub open spec fn g_attributes(toks: Seq<TokenView>, j: int) -> Option<(Seq<AstModel>, int)>
    decreases toks.len() - j,
{
    if j < 0 || j >= toks.len() {
        Some((Seq::empty(), j))
    } else if res_at(toks, j, ReservedWord::LeftSquareBracket) {
        match g_attribute(toks, j) {
            Some((a, e)) => match g_attributes(toks, e) {
                Some((rest, e2)) => Some((seq![a] + rest, e2)),
                None => None,
            },
            None => None,
        }
    } else {
        Some((Seq::empty(), j))
    }
}

/// The declarations (each after its attributes) from `i` to the end of the input.
pub open spec fn g_decls(toks: Seq<TokenView>, i: int) -> Option<Seq<AstModel>>
    decreases toks.len() - i,
{
    if i < 0 || i >= toks.len() {
        Some(Seq::empty())
    } else if res_at(toks, i, ReservedWord::LeftSquareBracket) {
        match g_attributes(toks, i) {
            Some((attrs, e)) => if !moves(toks, i, e) {
                None
            } else if e >= toks.len() {
                Some(attrs)
            } else if res_at(toks, e, ReservedWord::Const) || res_at(toks, e, ReservedWord::Export) {
                match g_exportable(toks, e) {
                    Some((d, e2)) => if !moves(toks, e, e2) {
                        None
                    } else {
                        match g_decls(toks, e2) {
                            Some(rest) => Some(attrs + seq![d] + rest),
                            None => None,
                        }
                    },
                    None => None,
                }
            } else {
                None
            },
            None => None,
        }
    } else if res_at(toks, i, ReservedWord::Const) || res_at(toks, i, ReservedWord::Export) {
        match g_exportable(toks, i) {
            Some((d, e)) => if !moves(toks, i, e) {
                None
            } else {
                match g_decls(toks, e) {
                    Some(rest) => Some(seq![d] + rest),
                    None => None,
                }
            },
            None => None,
        }
    } else {
        None
    }
}

/// A translation unit from `i`: imports first, then declarations; the trees of its items.
pub open spec fn g_unit(toks: Seq<TokenView>, i: int) -> Option<Seq<AstModel>>
    decreases toks.len() - i,
{
    if i < 0 || i > toks.len() {
        None
    } else if res_at(toks, i, ReservedWord::Import) {
        match g_import(toks, i) {
            Some((x, e)) => if !moves(toks, i, e) {
                None
            } else {
                match g_unit(toks, e) {
                    Some(rest) => Some(seq![x] + rest),
                    None => None,
                }
            },
            None => None,
        }
    } else {
        g_decls(toks, i)
    }
}

} // verus!
