use vstd::prelude::*;

use vstd::std_specs::iter::IteratorSpec;

use crate::lex_error::LexError;
use crate::reserved_word::ReservedWord;
use crate::token::{display_text, token_of, Token, TokenBase, TokenBaseModel, TokenView};

verus! {

/// The longest source text, in characters, that the lexer takes: positions, lines and
/// columns then fit the integer types that tokens record them in.
pub const MAX_SOURCE_LEN: usize = 0x7fff_ffff;

// ---------------------------------------------------------------------------
// Character classes and runs
// ---------------------------------------------------------------------------

pub open spec fn is_digit(c: char) -> bool {
    '0' <= c && c <= '9'
}

pub open spec fn is_ident_start(c: char) -> bool {
    c == '_' || ('a' <= c && c <= 'z') || ('A' <= c && c <= 'Z')
}

pub open spec fn is_ident_char(c: char) -> bool {
    is_ident_start(c) || is_digit(c)
}

/// Characters that are skipped between tokens and that end an invalid lexeme.
pub open spec fn is_space(c: char) -> bool {
    c == ' ' || c == '\t' || c == '\n' || c == '\r' || c == '\0'
}

/// Characters that end a line comment.
pub open spec fn is_line_end(c: char) -> bool {
    c == '\n' || c == '\r' || c == '\0'
}

/// `s[i] == c`, with `i` in range.
pub open spec fn at(s: Seq<char>, i: int, c: char) -> bool {
    0 <= i < s.len() && s[i] == c
}

pub open spec fn digit_run(s: Seq<char>, i: int) -> int
    decreases s.len() - i,
{
    if 0 <= i < s.len() && is_digit(s[i]) {
        1 + digit_run(s, i + 1)
    } else {
        0
    }
}

pub open spec fn ident_run(s: Seq<char>, i: int) -> int
    decreases s.len() - i,
{
    if 0 <= i < s.len() && is_ident_char(s[i]) {
        1 + ident_run(s, i + 1)
    } else {
        0
    }
}

/// The body of a line comment: everything up to the end of the line.
pub open spec fn comment_run(s: Seq<char>, i: int) -> int
    decreases s.len() - i,
{
    if 0 <= i < s.len() && !is_line_end(s[i]) {
        1 + comment_run(s, i + 1)
    } else {
        0
    }
}

/// An invalid lexeme: everything up to the next space.
pub open spec fn invalid_run(s: Seq<char>, i: int) -> int
    decreases s.len() - i,
{
    if 0 <= i < s.len() && !is_space(s[i]) {
        1 + invalid_run(s, i + 1)
    } else {
        0
    }
}

/// The body of a string literal closed by `q`: neither `q` nor a line break.
pub open spec fn quote_run(s: Seq<char>, i: int, q: char) -> int
    decreases s.len() - i,
{
    if 0 <= i < s.len() && s[i] != q && s[i] != '\n' {
        1 + quote_run(s, i + 1, q)
    } else {
        0
    }
}

/// The length of the number literal at `i` (0 if there is none): `.d+`, `[1-9]d*.d+`,
/// `[1-9]d*`, `0.d+` or `0`, the first of these that matches.
pub open spec fn number_len(s: Seq<char>, i: int) -> int {
    if at(s, i, '.') && i + 1 < s.len() && is_digit(s[i + 1]) {
        1 + digit_run(s, i + 1)
    } else if 0 <= i < s.len() && '1' <= s[i] && s[i] <= '9' {
        let d = digit_run(s, i);
        if at(s, i + d, '.') && i + d + 1 < s.len() && is_digit(s[i + d + 1]) {
            d + 1 + digit_run(s, i + d + 1)
        } else {
            d
        }
    } else if at(s, i, '0') {
        if at(s, i + 1, '.') && i + 2 < s.len() && is_digit(s[i + 2]) {
            2 + digit_run(s, i + 2)
        } else {
            1
        }
    } else {
        0
    }
}

/// `w` stands in `s` at `i`.
pub open spec fn starts_with_at(s: Seq<char>, i: int, w: Seq<char>) -> bool {
    0 <= i && i + w.len() <= s.len() && s.subrange(i, i + w.len()) == w
}

/// The reserved word at `i`, if any. Operators take the longest form that stands there
/// (`>>>=` before `>>>`, `>>` and `>`); keywords are tried after punctuation.
pub open spec fn reserved_at(s: Seq<char>, i: int) -> Option<ReservedWord> {
    if !(0 <= i < s.len()) {
        None
    } else {
        let c = s[i];
        if c == '=' {
            if at(s, i + 1, '=') {
                Some(ReservedWord::Equal)
            } else if at(s, i + 1, '>') {
                Some(ReservedWord::Arrow)
            } else {
                Some(ReservedWord::Assign)
            }
        } else if c == '(' {
            Some(ReservedWord::LeftParenthesis)
        } else if c == ')' {
            Some(ReservedWord::RightParenthesis)
        } else if c == '{' {
            Some(ReservedWord::LeftCurly)
        } else if c == '}' {
            Some(ReservedWord::RightCurly)
        } else if c == '[' {
            Some(ReservedWord::LeftSquareBracket)
        } else if c == ']' {
            Some(ReservedWord::RightSquareBracket)
        } else if c == '.' {
            Some(ReservedWord::Dot)
        } else if c == ',' {
            Some(ReservedWord::Comma)
        } else if c == ':' {
            Some(ReservedWord::Colon)
        } else if c == ';' {
            Some(ReservedWord::SemiColon)
        } else if c == '~' {
            Some(ReservedWord::Not)
        } else if c == '+' {
            if at(s, i + 1, '=') {
                Some(ReservedWord::AdditiveAssign)
            } else {
                Some(ReservedWord::Add)
            }
        } else if c == '-' {
            if at(s, i + 1, '=') {
                Some(ReservedWord::SubtractiveAssign)
            } else {
                Some(ReservedWord::Sub)
            }
        } else if c == '/' {
            if at(s, i + 1, '=') {
                Some(ReservedWord::DivisiveAssign)
            } else {
                Some(ReservedWord::Div)
            }
        } else if c == '%' {
            if at(s, i + 1, '=') {
                Some(ReservedWord::ModuloAssign)
            } else {
                Some(ReservedWord::Mod)
            }
        } else if c == '^' {
            if at(s, i + 1, '=') {
                Some(ReservedWord::XorAssign)
            } else {
                Some(ReservedWord::Xor)
            }
        } else if c == '!' {
            if at(s, i + 1, '=') {
                Some(ReservedWord::NotEqual)
            } else {
                Some(ReservedWord::LogicalNot)
            }
        } else if c == '*' {
            if at(s, i + 1, '*') {
                if at(s, i + 2, '=') {
                    Some(ReservedWord::ExponentialAssign)
                } else {
                    Some(ReservedWord::Exponential)
                }
            } else if at(s, i + 1, '=') {
                Some(ReservedWord::MultiplicativeAssign)
            } else {
                Some(ReservedWord::Mult)
            }
        } else if c == '<' {
            if at(s, i + 1, '<') {
                if at(s, i + 2, '=') {
                    Some(ReservedWord::LeftShiftAssign)
                } else {
                    Some(ReservedWord::LeftShift)
                }
            } else if at(s, i + 1, '=') {
                Some(ReservedWord::LessOrEq)
            } else {
                Some(ReservedWord::Less)
            }
        } else if c == '>' {
            if at(s, i + 1, '>') {
                if at(s, i + 2, '>') {
                    if at(s, i + 3, '=') {
                        Some(ReservedWord::UnsignedRightShiftAssign)
                    } else {
                        Some(ReservedWord::UnsignedRightShift)
                    }
                } else if at(s, i + 2, '=') {
                    Some(ReservedWord::RightShiftAssign)
                } else {
                    Some(ReservedWord::RightShift)
                }
            } else if at(s, i + 1, '=') {
                Some(ReservedWord::GreaterOrEq)
            } else {
                Some(ReservedWord::Greater)
            }
        } else if c == '&' {
            if at(s, i + 1, '&') {
                Some(ReservedWord::LogicalAnd)
            } else if at(s, i + 1, '=') {
                Some(ReservedWord::AndAssign)
            } else {
                Some(ReservedWord::And)
            }
        } else if c == '|' {
            if at(s, i + 1, '|') {
                Some(ReservedWord::LogicalOr)
            } else if at(s, i + 1, '=') {
                Some(ReservedWord::OrAssign)
            } else {
                Some(ReservedWord::Or)
            }
        } else if starts_with_at(s, i, ReservedWord::Const.text()) {
            Some(ReservedWord::Const)
        } else if starts_with_at(s, i, ReservedWord::Let.text()) {
            Some(ReservedWord::Let)
        } else if starts_with_at(s, i, ReservedWord::Import.text()) {
            Some(ReservedWord::Import)
        } else if starts_with_at(s, i, ReservedWord::Export.text()) {
            Some(ReservedWord::Export)
        } else if starts_with_at(s, i, ReservedWord::From.text()) {
            Some(ReservedWord::From)
        } else if starts_with_at(s, i, ReservedWord::Default.text()) {
            Some(ReservedWord::Default)
        } else if starts_with_at(s, i, ReservedWord::True.text()) {
            Some(ReservedWord::True)
        } else if starts_with_at(s, i, ReservedWord::False.text()) {
            Some(ReservedWord::False)
        } else {
            None
        }
    }
}

// ---------------------------------------------------------------------------
// The lexical grammar: one step at a time
// ---------------------------------------------------------------------------

pub enum StepKind {
    /// Space or a comment: nothing is emitted.
    Skip,
    /// A token with this payload.
    Tok(TokenBaseModel),
    /// An invalid lexeme.
    Bad,
}

/// What stands at `i` and how many characters it takes. The classes are tried in this
/// order: space, line comment, number, reserved word, identifier, double-quoted string,
/// single-quoted string; what matches none of them runs to the next space as an invalid
/// lexeme.
pub open spec fn step_at(s: Seq<char>, i: int) -> (StepKind, int) {
    let c = s[i];
    if is_space(c) {
        (StepKind::Skip, 1)
    } else if c == '/' && at(s, i + 1, '/') {
        (StepKind::Skip, 2 + comment_run(s, i + 2))
    } else if number_len(s, i) > 0 {
        let n = number_len(s, i);
        (StepKind::Tok(TokenBaseModel::Num(s.subrange(i, i + n))), n)
    } else if reserved_at(s, i) is Some {
        let r = reserved_at(s, i)->0;
        (StepKind::Tok(TokenBaseModel::Res(r)), r.text().len() as int)
    } else if is_ident_start(c) {
        let n = ident_run(s, i);
        (StepKind::Tok(TokenBaseModel::Ident(s.subrange(i, i + n))), n)
    } else if c == '"' && at(s, i + 1 + quote_run(s, i + 1, '"'), '"') {
        let q = quote_run(s, i + 1, '"');
        (StepKind::Tok(TokenBaseModel::Str(s.subrange(i + 1, i + 1 + q))), q + 2)
    } else if c == '\'' && at(s, i + 1 + quote_run(s, i + 1, '\''), '\'') {
        let q = quote_run(s, i + 1, '\'');
        (StepKind::Tok(TokenBaseModel::Str(s.subrange(i + 1, i + 1 + q))), q + 2)
    } else {
        (StepKind::Bad, invalid_run(s, i))
    }
}

/// The line of position `i`: one more than the line breaks before it.
pub open spec fn line_of(s: Seq<char>, i: int) -> int
    decreases i,
{
    if i <= 0 {
        1
    } else if s[i - 1] == '\n' {
        line_of(s, i - 1) + 1
    } else {
        line_of(s, i - 1)
    }
}

/// The column of position `i`: one more than the characters since the last line break.
pub open spec fn col_of(s: Seq<char>, i: int) -> int
    decreases i,
{
    if i <= 0 {
        1
    } else if s[i - 1] == '\n' {
        1
    } else {
        col_of(s, i - 1) + 1
    }
}

/// The token (or invalid lexeme) that the step at `i` records, when it records one.
pub open spec fn token_at(s: Seq<char>, i: int, path: Seq<char>) -> TokenView {
    let (kind, n) = step_at(s, i);
    match kind {
        StepKind::Tok(m) => token_of(Ok(m), line_of(s, i), col_of(s, i), i, path),
        _ => token_of(Err(s.subrange(i, i + n)), line_of(s, i), col_of(s, i), i, path),
    }
}

/// The tokens of `s` from position `i` on, valid and invalid, in source order.
pub open spec fn lex_from(s: Seq<char>, i: int, path: Seq<char>) -> Seq<TokenView>
    decreases s.len() - i,
{
    if i < 0 || i >= s.len() {
        Seq::empty()
    } else {
        let n = step_at(s, i).1;
        if n <= 0 || i + n > s.len() {
            Seq::empty()
        } else if step_at(s, i).0 is Skip {
            lex_from(s, i + n, path)
        } else {
            seq![token_at(s, i, path)] + lex_from(s, i + n, path)
        }
    }
}

/// The tokens of a whole source text.
pub open spec fn lex_tokens(s: Seq<char>, path: Seq<char>) -> Seq<TokenView> {
    lex_from(s, 0, path)
}

pub open spec fn is_invalid_token(t: TokenView) -> bool {
    t.token is None
}

/// The invalid lexemes among `v`, in order.
pub open spec fn invalid_of(v: Seq<TokenView>) -> Seq<TokenView> {
    v.filter(|t: TokenView| is_invalid_token(t))
}

/// The invalid lexemes among the tokens of `s`, in source order.
pub open spec fn invalid_tokens(s: Seq<char>, path: Seq<char>) -> Seq<TokenView> {
    invalid_of(lex_tokens(s, path))
}

pub open spec fn views(v: Seq<Token>) -> Seq<TokenView> {
    v.map_values(|t: Token| t@)
}

// ---------------------------------------------------------------------------
// Lemmas
// ---------------------------------------------------------------------------

proof fn lemma_runs(s: Seq<char>, i: int)
    requires
        0 <= i < s.len(),
    ensures
        0 <= digit_run(s, i + 1),
        0 <= ident_run(s, i + 1),
        0 <= invalid_run(s, i + 1),
        i + 1 + digit_run(s, i + 1) <= s.len(),
        i + digit_run(s, i) <= s.len(),
        i + 2 <= s.len() ==> i + 2 + digit_run(s, i + 2) <= s.len(),
        i + 2 <= s.len() ==> i + 2 + comment_run(s, i + 2) <= s.len(),
        i + digit_run(s, i) + 1 <= s.len() ==> i + digit_run(s, i) + 1 + digit_run(
            s,
            i + digit_run(s, i) + 1,
        ) <= s.len(),
        i + ident_run(s, i) <= s.len(),
        i + invalid_run(s, i) <= s.len(),
        i + 1 + quote_run(s, i + 1, '"') <= s.len(),
        i + 1 + quote_run(s, i + 1, '\'') <= s.len(),
        0 <= digit_run(s, i),
        0 <= quote_run(s, i + 1, '"'),
        0 <= quote_run(s, i + 1, '\''),
        0 <= comment_run(s, i + 2),
        0 <= digit_run(s, i + 2),
{
    lemma_digit_run_bound(s, i + 1);
    lemma_digit_run_bound(s, i);
    lemma_digit_run_bound(s, i + 2);
    lemma_digit_run_bound(s, i + digit_run(s, i) + 1);
    lemma_ident_run_bound(s, i);
    lemma_ident_run_bound(s, i + 1);
    lemma_comment_run_bound(s, i + 2);
    lemma_invalid_run_bound(s, i);
    lemma_invalid_run_bound(s, i + 1);
    lemma_quote_run_bound(s, i + 1, '"');
    lemma_quote_run_bound(s, i + 1, '\'');
}

proof fn lemma_step_positive(s: Seq<char>, i: int)
    requires
        0 <= i < s.len(),
    ensures
        step_at(s, i).1 >= 1,
        i + step_at(s, i).1 <= s.len(),
{
    lemma_runs(s, i);
    if reserved_at(s, i) is Some {
        lemma_reserved_fits(s, i);
    }
}

proof fn lemma_reserved_fits(s: Seq<char>, i: int)
    requires
        reserved_at(s, i) is Some,
    ensures
        i + reserved_at(s, i)->0.text().len() <= s.len(),
        reserved_at(s, i)->0.text().len() >= 1,
{
}

proof fn lemma_digit_run_bound(s: Seq<char>, i: int)
    ensures
        0 <= digit_run(s, i),
        0 <= i <= s.len() ==> i + digit_run(s, i) <= s.len(),
        forall|j: int| i <= j < i + digit_run(s, i) ==> is_digit(#[trigger] s[j]),
    decreases s.len() - i,
{
    if 0 <= i < s.len() && is_digit(s[i]) {
        lemma_digit_run_bound(s, i + 1);
    }
}

proof fn lemma_ident_run_bound(s: Seq<char>, i: int)
    ensures
        0 <= ident_run(s, i),
        0 <= i <= s.len() ==> i + ident_run(s, i) <= s.len(),
        forall|j: int| i <= j < i + ident_run(s, i) ==> is_ident_char(#[trigger] s[j]),
    decreases s.len() - i,
{
    if 0 <= i < s.len() && is_ident_char(s[i]) {
        lemma_ident_run_bound(s, i + 1);
    }
}

proof fn lemma_comment_run_bound(s: Seq<char>, i: int)
    ensures
        0 <= comment_run(s, i),
        0 <= i <= s.len() ==> i + comment_run(s, i) <= s.len(),
        forall|j: int| i <= j < i + comment_run(s, i) ==> !is_line_end(#[trigger] s[j]),
    decreases s.len() - i,
{
    if 0 <= i < s.len() && !is_line_end(s[i]) {
        lemma_comment_run_bound(s, i + 1);
    }
}

proof fn lemma_invalid_run_bound(s: Seq<char>, i: int)
    ensures
        0 <= invalid_run(s, i),
        0 <= i <= s.len() ==> i + invalid_run(s, i) <= s.len(),
        forall|j: int| i <= j < i + invalid_run(s, i) ==> !is_space(#[trigger] s[j]),
    decreases s.len() - i,
{
    if 0 <= i < s.len() && !is_space(s[i]) {
        lemma_invalid_run_bound(s, i + 1);
    }
}

proof fn lemma_quote_run_bound(s: Seq<char>, i: int, q: char)
    ensures
        0 <= quote_run(s, i, q),
        0 <= i <= s.len() ==> i + quote_run(s, i, q) <= s.len(),
        forall|j: int|
            i <= j < i + quote_run(s, i, q) ==> #[trigger] s[j] != q && s[j] != '\n',
    decreases s.len() - i,
{
    if 0 <= i < s.len() && s[i] != q && s[i] != '\n' {
        lemma_quote_run_bound(s, i + 1, q);
    }
}

/// Moving over `n` characters without a line break keeps the line and adds `n` to the column.
proof fn lemma_advance_in_line(s: Seq<char>, i: int, n: int)
    requires
        0 <= i,
        0 <= n,
        i + n <= s.len(),
        forall|j: int| i <= j < i + n ==> #[trigger] s[j] != '\n',
    ensures
        line_of(s, i + n) == line_of(s, i),
        col_of(s, i + n) == col_of(s, i) + n,
    decreases n,
{
    if n > 0 {
        lemma_advance_in_line(s, i, n - 1);
    }
}

proof fn lemma_line_col_bound(s: Seq<char>, i: int)
    requires
        0 <= i,
    ensures
        1 <= line_of(s, i) <= i + 1,
        1 <= col_of(s, i) <= i + 1,
    decreases i,
{
    if i > 0 {
        lemma_line_col_bound(s, i - 1);
    }
}

/// A step that emits a token or an invalid lexeme never crosses a line break.
proof fn lemma_step_in_line(s: Seq<char>, i: int)
    requires
        0 <= i < s.len(),
        !(step_at(s, i).0 is Skip),
    ensures
        forall|j: int| i <= j < i + step_at(s, i).1 ==> #[trigger] s[j] != '\n',
{
    lemma_step_positive(s, i);
    lemma_digit_run_bound(s, i + 1);
    lemma_digit_run_bound(s, i);
    lemma_digit_run_bound(s, i + 2);
    lemma_digit_run_bound(s, i + digit_run(s, i) + 1);
    lemma_ident_run_bound(s, i);
    lemma_invalid_run_bound(s, i);
    lemma_quote_run_bound(s, i + 1, '"');
    lemma_quote_run_bound(s, i + 1, '\'');
    if reserved_at(s, i) is Some {
        lemma_reserved_in_line(s, i);
    }
}

proof fn lemma_reserved_in_line(s: Seq<char>, i: int)
    requires
        reserved_at(s, i) is Some,
    ensures
        forall|j: int|
            i <= j < i + reserved_at(s, i)->0.text().len() ==> #[trigger] s[j] != '\n',
{
    let r = reserved_at(s, i)->0;
    assert forall|j: int| i <= j < i + r.text().len() implies #[trigger] s[j] != '\n' by {
        if starts_with_at(s, i, r.text()) {
            assert(s[j] == s.subrange(i, i + r.text().len())[j - i]);
        }
    }
}

/// Every token that the lexer records stands inside the source, and its recorded line and
/// column are those found by counting line breaks and characters up to its offset.
pub proof fn lemma_position_fidelity(s: Seq<char>, path: Seq<char>, k: int)
    requires
        0 <= k < lex_tokens(s, path).len(),
    ensures
        lex_tokens(s, path)[k].ln == line_of(s, lex_tokens(s, path)[k].ind),
        lex_tokens(s, path)[k].col == col_of(s, lex_tokens(s, path)[k].ind),
        0 <= lex_tokens(s, path)[k].ind,
        lex_tokens(s, path)[k].ind + lex_tokens(s, path)[k].len <= s.len(),
{
    lemma_positions_from(s, 0, path, k);
}

proof fn lemma_positions_from(s: Seq<char>, i: int, path: Seq<char>, k: int)
    requires
        0 <= k < lex_from(s, i, path).len(),
    ensures
        lex_from(s, i, path)[k].ln == line_of(s, lex_from(s, i, path)[k].ind),
        lex_from(s, i, path)[k].col == col_of(s, lex_from(s, i, path)[k].ind),
        i <= lex_from(s, i, path)[k].ind,
        lex_from(s, i, path)[k].ind + lex_from(s, i, path)[k].len <= s.len(),
    decreases s.len() - i,
{
    if 0 <= i < s.len() {
        let n = step_at(s, i).1;
        lemma_step_positive(s, i);
        if step_at(s, i).0 is Skip {
            lemma_positions_from(s, i + n, path, k);
        } else if k > 0 {
            lemma_positions_from(s, i + n, path, k - 1);
        } else if step_at(s, i).0 is Tok {
            lemma_tok_len(s, i);
        }
    }
}

/// One step of `lex_from`.
proof fn lemma_lex_from_unfold(s: Seq<char>, i: int, path: Seq<char>)
    requires
        0 <= i < s.len(),
    ensures
        step_at(s, i).0 is Skip ==> lex_from(s, i, path) == lex_from(s, i + step_at(s, i).1, path),
        !(step_at(s, i).0 is Skip) ==> lex_from(s, i, path) == seq![token_at(s, i, path)]
            + lex_from(s, i + step_at(s, i).1, path),
{
    lemma_step_positive(s, i);
}

proof fn lemma_invalid_of_push(v: Seq<TokenView>, t: TokenView)
    ensures
        invalid_of(v.push(t)) == if is_invalid_token(t) {
            invalid_of(v).push(t)
        } else {
            invalid_of(v)
        },
{
    assert(v.push(t).drop_last() =~= v);
    reveal_with_fuel(Seq::filter, 1);
}

/// Operators are matched greedily: wherever `>>>=` starts a lexeme, it is one
/// `UnsignedRightShiftAssign` token of four characters, never `>>>` then `=` or `>>` then `>=`.
pub proof fn lemma_greedy_shift_assign(s: Seq<char>, i: int)
    requires
        0 <= i,
        i + 4 <= s.len(),
        s[i] == '>',
        s[i + 1] == '>',
        s[i + 2] == '>',
        s[i + 3] == '=',
    ensures
        step_at(s, i) == (
        StepKind::Tok(TokenBaseModel::Res(ReservedWord::UnsignedRightShiftAssign)),
        4int,
    ),
{
}

/// The text recorded for a token is as long as the lexeme it came from.
proof fn lemma_tok_len(s: Seq<char>, i: int)
    requires
        0 <= i < s.len(),
        step_at(s, i).0 is Tok,
    ensures
        display_text(step_at(s, i).0->Tok_0).len() == step_at(s, i).1,
{
    lemma_step_positive(s, i);
    lemma_runs(s, i);
}

// ---------------------------------------------------------------------------
// Executable recognisers
// ---------------------------------------------------------------------------

/// Relies on `String::push`: the character is appended at the end of the string.
#[verifier::external_body]
fn push_char(s: &mut String, c: char)
    ensures
        final(s)@ == old(s)@.push(c),
{
    s.push(c)
}

/// The characters `from..to` of `s` as a string.
fn string_of(s: &Vec<char>, from: usize, to: usize) -> (r: String)
    requires
        s@.len() <= MAX_SOURCE_LEN,
        from <= to <= s@.len(),
    ensures
        r@ == s@.subrange(from as int, to as int),
{
    let mut out = String::new();
    let mut k = from;
    while k < to
        invariant
            from <= k <= to <= s@.len(),
            out@ == s@.subrange(from as int, k as int),
        decreases to - k,
    {
        push_char(&mut out, s[k]);
        k += 1;
        assert(out@ =~= s@.subrange(from as int, k as int));
    }
    out
}

fn digit_run_exec(s: &Vec<char>, i: usize) -> (n: usize)
    requires
        s@.len() <= MAX_SOURCE_LEN,
        i <= s@.len(),
    ensures
        n as int == digit_run(s@, i as int),
{
    let mut k = i;
    while k < s.len() && '0' <= s[k] && s[k] <= '9'
        invariant
            i <= k <= s@.len(),
            digit_run(s@, i as int) == (k - i) + digit_run(s@, k as int),
        decreases s@.len() - k,
    {
        k += 1;
    }
    k - i
}

fn ident_run_exec(s: &Vec<char>, i: usize) -> (n: usize)
    requires
        s@.len() <= MAX_SOURCE_LEN,
        i <= s@.len(),
    ensures
        n as int == ident_run(s@, i as int),
{
    let mut k = i;
    while k < s.len() && (s[k] == '_' || ('a' <= s[k] && s[k] <= 'z') || ('A' <= s[k] && s[k]
        <= 'Z') || ('0' <= s[k] && s[k] <= '9'))
        invariant
            i <= k <= s@.len(),
            ident_run(s@, i as int) == (k - i) + ident_run(s@, k as int),
        decreases s@.len() - k,
    {
        k += 1;
    }
    k - i
}

fn comment_run_exec(s: &Vec<char>, i: usize) -> (n: usize)
    requires
        s@.len() <= MAX_SOURCE_LEN,
        i <= s@.len(),
    ensures
        n as int == comment_run(s@, i as int),
{
    let mut k = i;
    while k < s.len() && !(s[k] == '\n' || s[k] == '\r' || s[k] == '\0')
        invariant
            i <= k <= s@.len(),
            comment_run(s@, i as int) == (k - i) + comment_run(s@, k as int),
        decreases s@.len() - k,
    {
        k += 1;
    }
    k - i
}

fn invalid_run_exec(s: &Vec<char>, i: usize) -> (n: usize)
    requires
        s@.len() <= MAX_SOURCE_LEN,
        i <= s@.len(),
    ensures
        n as int == invalid_run(s@, i as int),
{
    let mut k = i;
    while k < s.len() && !(s[k] == ' ' || s[k] == '\t' || s[k] == '\n' || s[k] == '\r' || s[k]
        == '\0')
        invariant
            i <= k <= s@.len(),
            invalid_run(s@, i as int) == (k - i) + invalid_run(s@, k as int),
        decreases s@.len() - k,
    {
        k += 1;
    }
    k - i
}

fn quote_run_exec(s: &Vec<char>, i: usize, q: char) -> (n: usize)
    requires
        s@.len() <= MAX_SOURCE_LEN,
        i <= s@.len(),
    ensures
        n as int == quote_run(s@, i as int, q),
{
    let mut k = i;
    while k < s.len() && s[k] != q && s[k] != '\n'
        invariant
            i <= k <= s@.len(),
            quote_run(s@, i as int, q) == (k - i) + quote_run(s@, k as int, q),
        decreases s@.len() - k,
    {
        k += 1;
    }
    k - i
}

fn char_at(s: &Vec<char>, i: usize, c: char) -> (r: bool)
    requires
        s@.len() <= MAX_SOURCE_LEN,
    ensures
        r == at(s@, i as int, c),
{
    i < s.len() && s[i] == c
}

fn number_len_exec(s: &Vec<char>, i: usize) -> (n: usize)
    requires
        s@.len() <= MAX_SOURCE_LEN,
        i < s@.len(),
    ensures
        n as int == number_len(s@, i as int),
{
    proof {
        lemma_digit_run_bound(s@, i as int);
        lemma_digit_run_bound(s@, i + 1);
    }
    if s[i] == '.' && i + 1 < s.len() && '0' <= s[i + 1] && s[i + 1] <= '9' {
        1 + digit_run_exec(s, i + 1)
    } else if '1' <= s[i] && s[i] <= '9' {
        let d = digit_run_exec(s, i);
        if char_at(s, i + d, '.') && i + d + 1 < s.len() && '0' <= s[i + d + 1] && s[i + d + 1]
            <= '9' {
            proof {
                lemma_digit_run_bound(s@, i + d + 1);
            }
            d + 1 + digit_run_exec(s, i + d + 1)
        } else {
            d
        }
    } else if s[i] == '0' {
        if char_at(s, i + 1, '.') && i + 2 < s.len() && '0' <= s[i + 2] && s[i + 2] <= '9' {
            proof {
                lemma_digit_run_bound(s@, i + 2);
            }
            2 + digit_run_exec(s, i + 2)
        } else {
            1
        }
    } else {
        0
    }
}

/// Whether the keyword `w` stands in `s` at `i`.
fn word_at(s: &Vec<char>, i: usize, w: &[char]) -> (r: bool)
    requires
        s@.len() <= MAX_SOURCE_LEN,
        i <= s@.len(),
    ensures
        r == starts_with_at(s@, i as int, w@),
{
    if w.len() > s.len() - i {
        return false;
    }
    let mut k: usize = 0;
    while k < w.len()
        invariant
            s@.len() <= MAX_SOURCE_LEN,
            i + w@.len() <= s@.len(),
            0 <= k <= w@.len(),
            forall|j: int| 0 <= j < k ==> s@[i + j] == w@[j],
        decreases w@.len() - k,
    {
        if s[i + k] != w[k] {
            assert(s@.subrange(i as int, i + w@.len())[k as int] != w@[k as int]);
            return false;
        }
        k += 1;
    }
    assert(s@.subrange(i as int, i + w@.len()) =~= w@);
    true
}

fn reserved_at_exec(s: &Vec<char>, i: usize) -> (r: Option<ReservedWord>)
    requires
        s@.len() <= MAX_SOURCE_LEN,
        i < s@.len(),
    ensures
        r == reserved_at(s@, i as int),
{
    let c = s[i];
    if c == '=' {
        if char_at(s, i + 1, '=') {
            Some(ReservedWord::Equal)
        } else if char_at(s, i + 1, '>') {
            Some(ReservedWord::Arrow)
        } else {
            Some(ReservedWord::Assign)
        }
    } else if c == '(' {
        Some(ReservedWord::LeftParenthesis)
    } else if c == ')' {
        Some(ReservedWord::RightParenthesis)
    } else if c == '{' {
        Some(ReservedWord::LeftCurly)
    } else if c == '}' {
        Some(ReservedWord::RightCurly)
    } else if c == '[' {
        Some(ReservedWord::LeftSquareBracket)
    } else if c == ']' {
        Some(ReservedWord::RightSquareBracket)
    } else if c == '.' {
        Some(ReservedWord::Dot)
    } else if c == ',' {
        Some(ReservedWord::Comma)
    } else if c == ':' {
        Some(ReservedWord::Colon)
    } else if c == ';' {
        Some(ReservedWord::SemiColon)
    } else if c == '~' {
        Some(ReservedWord::Not)
    } else if c == '+' {
        if char_at(s, i + 1, '=') {
            Some(ReservedWord::AdditiveAssign)
        } else {
            Some(ReservedWord::Add)
        }
    } else if c == '-' {
        if char_at(s, i + 1, '=') {
            Some(ReservedWord::SubtractiveAssign)
        } else {
            Some(ReservedWord::Sub)
        }
    } else if c == '/' {
        if char_at(s, i + 1, '=') {
            Some(ReservedWord::DivisiveAssign)
        } else {
            Some(ReservedWord::Div)
        }
    } else if c == '%' {
        if char_at(s, i + 1, '=') {
            Some(ReservedWord::ModuloAssign)
        } else {
            Some(ReservedWord::Mod)
        }
    } else if c == '^' {
        if char_at(s, i + 1, '=') {
            Some(ReservedWord::XorAssign)
        } else {
            Some(ReservedWord::Xor)
        }
    } else if c == '!' {
        if char_at(s, i + 1, '=') {
            Some(ReservedWord::NotEqual)
        } else {
            Some(ReservedWord::LogicalNot)
        }
    } else if c == '*' {
        if char_at(s, i + 1, '*') {
            if char_at(s, i + 2, '=') {
                Some(ReservedWord::ExponentialAssign)
            } else {
                Some(ReservedWord::Exponential)
            }
        } else if char_at(s, i + 1, '=') {
            Some(ReservedWord::MultiplicativeAssign)
        } else {
            Some(ReservedWord::Mult)
        }
    } else if c == '<' {
        if char_at(s, i + 1, '<') {
            if char_at(s, i + 2, '=') {
                Some(ReservedWord::LeftShiftAssign)
            } else {
                Some(ReservedWord::LeftShift)
            }
        } else if char_at(s, i + 1, '=') {
            Some(ReservedWord::LessOrEq)
        } else {
            Some(ReservedWord::Less)
        }
    } else if c == '>' {
        if char_at(s, i + 1, '>') {
            if char_at(s, i + 2, '>') {
                if char_at(s, i + 3, '=') {
                    Some(ReservedWord::UnsignedRightShiftAssign)
                } else {
                    Some(ReservedWord::UnsignedRightShift)
                }
            } else if char_at(s, i + 2, '=') {
                Some(ReservedWord::RightShiftAssign)
            } else {
                Some(ReservedWord::RightShift)
            }
        } else if char_at(s, i + 1, '=') {
            Some(ReservedWord::GreaterOrEq)
        } else {
            Some(ReservedWord::Greater)
        }
    } else if c == '&' {
        if char_at(s, i + 1, '&') {
            Some(ReservedWord::LogicalAnd)
        } else if char_at(s, i + 1, '=') {
            Some(ReservedWord::AndAssign)
        } else {
            Some(ReservedWord::And)
        }
    } else if c == '|' {
        if char_at(s, i + 1, '|') {
            Some(ReservedWord::LogicalOr)
        } else if char_at(s, i + 1, '=') {
            Some(ReservedWord::OrAssign)
        } else {
            Some(ReservedWord::Or)
        }
    } else {
        let w_const = ['c', 'o', 'n', 's', 't'];
        let w_let = ['l', 'e', 't'];
        let w_import = ['i', 'm', 'p', 'o', 'r', 't'];
        let w_export = ['e', 'x', 'p', 'o', 'r', 't'];
        let w_from = ['f', 'r', 'o', 'm'];
        let w_default = ['d', 'e', 'f', 'a', 'u', 'l', 't'];
        let w_true = ['t', 'r', 'u', 'e'];
        let w_false = ['f', 'a', 'l', 's', 'e'];
        assert(w_const@ =~= ReservedWord::Const.text());
        assert(w_let@ =~= ReservedWord::Let.text());
        assert(w_import@ =~= ReservedWord::Import.text());
        assert(w_export@ =~= ReservedWord::Export.text());
        assert(w_from@ =~= ReservedWord::From.text());
        assert(w_default@ =~= ReservedWord::Default.text());
        assert(w_true@ =~= ReservedWord::True.text());
        assert(w_false@ =~= ReservedWord::False.text());
        if word_at(s, i, w_const.as_slice()) {
            Some(ReservedWord::Const)
        } else if word_at(s, i, w_let.as_slice()) {
            Some(ReservedWord::Let)
        } else if word_at(s, i, w_import.as_slice()) {
            Some(ReservedWord::Import)
        } else if word_at(s, i, w_export.as_slice()) {
            Some(ReservedWord::Export)
        } else if word_at(s, i, w_from.as_slice()) {
            Some(ReservedWord::From)
        } else if word_at(s, i, w_default.as_slice()) {
            Some(ReservedWord::Default)
        } else if word_at(s, i, w_true.as_slice()) {
            Some(ReservedWord::True)
        } else if word_at(s, i, w_false.as_slice()) {
            Some(ReservedWord::False)
        } else {
            None
        }
    }
}

// ---------------------------------------------------------------------------
// The lexer
// ---------------------------------------------------------------------------

/// Turns one source text into tokens.
pub struct Lexer {
    source: Vec<char>,
    pub tokens: Vec<Token>,
    ind: u64,
    col: u32,
    ln: u32,
    file_path: String,
}

impl Lexer {
    /// The source text.
    pub closed spec fn source(&self) -> Seq<char> {
        self.source@
    }

    /// The path of the file that the text came from.
    pub closed spec fn path(&self) -> Seq<char> {
        self.file_path@
    }

    /// The tokens recorded so far.
    pub closed spec fn token_views(&self) -> Seq<TokenView> {
        views(self.tokens@)
    }

    /// The tokens recorded so far.
    pub fn tokens(&self) -> (r: &Vec<Token>)
        ensures
            views(r@) == self.token_views(),
    {
        &self.tokens
    }

    pub fn new(code: &str, path: &str) -> (r: Lexer)
        ensures
            r.source() == code@,
            r.path() == path@,
            r.token_views().len() == 0,
    {
        broadcast use vstd::string::group_string_axioms;

        let mut source: Vec<char> = Vec::new();
        let mut it = code.chars();
        assert(it.remaining() == code@);
        loop
            invariant
                source@ + it.remaining() == code@,
                it.obeys_prophetic_iter_laws(),
                it.decrease() is Some,
            ensures
                source@ == code@,
            decreases it.decrease()->0,
        {
            match it.next() {
                Some(c) => {
                    source.push(c);
                    assert(source@ + it.remaining() =~= code@);
                },
                None => {
                    assert(source@ =~= code@);
                    break;
                },
            }
        }
        Lexer { source, tokens: Vec::new(), ind: 0, col: 1, ln: 1, file_path: String::from_str(path) }
    }

    fn push_token(&mut self, token_base: TokenBase)
        ensures
            views(final(self).tokens@) == views(old(self).tokens@).push(
                token_of(
                    Ok(token_base@),
                    old(self).ln as int,
                    old(self).col as int,
                    old(self).ind as int,
                    old(self).file_path@,
                ),
            ),
            final(self).source == old(self).source,
            final(self).file_path == old(self).file_path,
            final(self).ln == old(self).ln,
            final(self).col == old(self).col,
            final(self).ind == old(self).ind,
    {
        let tk = Token::new(Ok(token_base), self.ln, self.col, self.ind, self.file_path.clone());
        self.tokens.push(tk);
        assert(views(self.tokens@) =~= views(old(self).tokens@).push(tk@));
    }

    fn push_invalid_token(&mut self, base_str: String) -> (r: Token)
        ensures
            r@ == token_of(
                Err(base_str@),
                old(self).ln as int,
                old(self).col as int,
                old(self).ind as int,
                old(self).file_path@,
            ),
            views(final(self).tokens@) == views(old(self).tokens@).push(r@),
            final(self).source == old(self).source,
            final(self).file_path == old(self).file_path,
            final(self).ln == old(self).ln,
            final(self).col == old(self).col,
            final(self).ind == old(self).ind,
    {
        let tk = Token::new(Err(base_str), self.ln, self.col, self.ind, self.file_path.clone());
        self.tokens.push(tk.clone());
        assert(views(self.tokens@) =~= views(old(self).tokens@).push(tk@));
        tk
    }

    /// Records the token or invalid lexeme at `i` and tells how many characters it took.
    fn lex_token_at(&mut self, i: usize, invalid: &mut Vec<Token>) -> (step: usize)
        requires
            old(self).source@.len() <= MAX_SOURCE_LEN,
            i < old(self).source@.len(),
            !(step_at(old(self).source@, i as int).0 is Skip),
            old(self).ln == line_of(old(self).source@, i as int),
            old(self).col == col_of(old(self).source@, i as int),
            old(self).ind == i,
        ensures
            step == step_at(old(self).source@, i as int).1,
            views(final(self).tokens@) == views(old(self).tokens@).push(
                token_at(old(self).source@, i as int, old(self).file_path@),
            ),
            views(final(invalid)@) == if step_at(old(self).source@, i as int).0 is Bad {
                views(old(invalid)@).push(token_at(old(self).source@, i as int, old(self).file_path@))
            } else {
                views(old(invalid)@)
            },
            final(self).source == old(self).source,
            final(self).file_path == old(self).file_path,
            final(self).ln == old(self).ln,
            final(self).col == old(self).col,
            final(self).ind == old(self).ind,
    {
        let ghost src = self.source@;
        proof {
            lemma_step_positive(src, i as int);
            lemma_runs(src, i as int);
        }
        let c = self.source[i];
        let nl = number_len_exec(&self.source, i);
        if nl > 0 {
            let text = string_of(&self.source, i, i + nl);
            self.push_token(TokenBase::Number(text));
            return nl;
        }
        match reserved_at_exec(&self.source, i) {
            Some(r) => {
                self.push_token(TokenBase::Reserved(r));
                return r.as_str().unicode_len();
            },
            None => {},
        }
        if c == '_' || ('a' <= c && c <= 'z') || ('A' <= c && c <= 'Z') {
            let k = ident_run_exec(&self.source, i);
            let text = string_of(&self.source, i, i + k);
            self.push_token(TokenBase::Identifier(text));
            return k;
        }
        if c == '"' {
            let q = quote_run_exec(&self.source, i + 1, '"');
            if char_at(&self.source, i + 1 + q, '"') {
                let text = string_of(&self.source, i + 1, i + 1 + q);
                self.push_token(TokenBase::String(text));
                return q + 2;
            }
        }
        if c == '\'' {
            let q = quote_run_exec(&self.source, i + 1, '\'');
            if char_at(&self.source, i + 1 + q, '\'') {
                let text = string_of(&self.source, i + 1, i + 1 + q);
                self.push_token(TokenBase::String(text));
                return q + 2;
            }
        }
        let k = invalid_run_exec(&self.source, i);
        let text = string_of(&self.source, i, i + k);
        let tk = self.push_invalid_token(text);
        invalid.push(tk);
        assert(views(invalid@) =~= views(old(invalid)@).push(tk@));
        k
    }

    /// Tokenizes the whole source text. Every lexeme is recorded, valid or not, in source
    /// order; the result is an error, holding the invalid ones in order, exactly when there
    /// is at least one.
    pub fn lex(&mut self) -> (r: Result<(), LexError>)
        requires
            old(self).source().len() <= MAX_SOURCE_LEN,
        ensures
            final(self).source() == old(self).source(),
            final(self).path() == old(self).path(),
            final(self).token_views() == lex_tokens(old(self).source(), old(self).path()),
            r is Ok <==> invalid_tokens(old(self).source(), old(self).path()).len() == 0,
            r matches Err(e) ==> e.tokens() == invalid_tokens(
                old(self).source(),
                old(self).path(),
            ),
    {
        let ghost src = self.source@;
        let ghost path = self.file_path@;
        self.tokens = Vec::new();
        self.ind = 0;
        self.col = 1;
        self.ln = 1;
        let mut invalid: Vec<Token> = Vec::new();
        let n = self.source.len();
        let mut i: usize = 0;
        assert(views(self.tokens@) =~= Seq::<TokenView>::empty());
        assert(views(self.tokens@) + lex_from(src, 0, path) =~= lex_from(src, 0, path));
        assert(invalid_of(Seq::<TokenView>::empty()) =~= Seq::<TokenView>::empty());
        assert(views(invalid@) =~= Seq::<TokenView>::empty());
        while i < n
            invariant
                self.source@ == src,
                self.file_path@ == path,
                n == src.len(),
                n <= MAX_SOURCE_LEN,
                i <= n,
                self.ind == i,
                self.ln == line_of(src, i as int),
                self.col == col_of(src, i as int),
                views(self.tokens@) + lex_from(src, i as int, path) == lex_tokens(src, path),
                views(invalid@) == invalid_of(views(self.tokens@)),
            decreases n - i,
        {
            proof {
                lemma_step_positive(src, i as int);
                lemma_runs(src, i as int);
                lemma_line_col_bound(src, i as int);
                lemma_lex_from_unfold(src, i as int, path);
            }
            let ghost before = views(self.tokens@);
            let c = self.source[i];
            let step: usize;
            if c == ' ' || c == '\t' || c == '\n' || c == '\r' || c == '\0' {
                if c == '\n' {
                    self.ln = self.ln + 1;
                    self.col = 1;
                } else {
                    self.col = self.col + 1;
                }
                step = 1;
            } else if c == '/' && char_at(&self.source, i + 1, '/') {
                let k = comment_run_exec(&self.source, i + 2);
                step = 2 + k;
                proof {
                    lemma_comment_run_bound(src, i + 2);
                    lemma_advance_in_line(src, i as int, step as int);
                }
                self.col = self.col + step as u32;
            } else {
                step = self.lex_token_at(i, &mut invalid);
                proof {
                    lemma_step_in_line(src, i as int);
                    lemma_advance_in_line(src, i as int, step as int);
                    lemma_invalid_of_push(before, token_at(src, i as int, path));
                    assert(before + lex_from(src, i as int, path) =~= views(self.tokens@)
                        + lex_from(src, i + step, path));
                }
                self.col = self.col + step as u32;
            }
            i = i + step;
            self.ind = i as u64;
        }
        proof {
            assert(views(self.tokens@) + lex_from(src, n as int, path) =~= views(self.tokens@));
        }
        if invalid.len() == 0 {
            Ok(())
        } else {
            Err(LexError::new(invalid))
        }
    }
}

} // verus!
