use vstd::prelude::*;

use crate::reserved_word::ReservedWord;

verus! {

/// What a token holds, as mathematical values.
pub enum TokenBaseModel {
    Str(Seq<char>),
    Num(Seq<char>),
    Res(ReservedWord),
    Ident(Seq<char>),
}

/// The payload of a recognised token.
#[derive(Debug)]
pub enum TokenBase {
    String(String),
    Number(String),
    Reserved(ReservedWord),
    Identifier(String),
}

impl View for TokenBase {
    type V = TokenBaseModel;

    open spec fn view(&self) -> TokenBaseModel {
        match self {
            TokenBase::String(s) => TokenBaseModel::Str(s@),
            TokenBase::Number(n) => TokenBaseModel::Num(n@),
            TokenBase::Reserved(r) => TokenBaseModel::Res(*r),
            TokenBase::Identifier(i) => TokenBaseModel::Ident(i@),
        }
    }
}

/// How a payload is written back as source text: a string literal in double quotes,
/// everything else as it is.
pub open spec fn display_text(m: TokenBaseModel) -> Seq<char> {
    match m {
        TokenBaseModel::Str(s) => seq!['"'] + s + seq!['"'],
        TokenBaseModel::Num(n) => n,
        TokenBaseModel::Res(r) => r.text(),
        TokenBaseModel::Ident(i) => i,
    }
}

impl PartialEq for TokenBase {
    fn eq(&self, o: &TokenBase) -> (r: bool) {
        match (self, o) {
            (TokenBase::String(a), TokenBase::String(b)) => *a == *b,
            (TokenBase::Number(a), TokenBase::Number(b)) => *a == *b,
            (TokenBase::Reserved(a), TokenBase::Reserved(b)) => *a == *b,
            (TokenBase::Identifier(a), TokenBase::Identifier(b)) => *a == *b,
            _ => false,
        }
    }
}

impl vstd::std_specs::cmp::PartialEqSpecImpl for TokenBase {
    open spec fn obeys_eq_spec() -> bool {
        true
    }

    open spec fn eq_spec(&self, o: &TokenBase) -> bool {
        self@ == o@
    }
}

impl Clone for TokenBase {
    fn clone(&self) -> (r: TokenBase)
        ensures
            r@ == self@,
    {
        match self {
            TokenBase::String(s) => TokenBase::String(s.clone()),
            TokenBase::Number(n) => TokenBase::Number(n.clone()),
            TokenBase::Reserved(r) => TokenBase::Reserved(*r),
            TokenBase::Identifier(i) => TokenBase::Identifier(i.clone()),
        }
    }
}

impl TokenBase {
    /// The source text of this payload.
    pub fn to_string(&self) -> (r: String)
        ensures
            r@ == display_text(self@),
    {
        match self {
            TokenBase::String(s) => {
                let mut out = String::from_str("\"");
                out.append(s.as_str());
                out.append("\"");
                proof {
                    reveal_strlit("\"");
                }
                out
            },
            TokenBase::Number(n) => n.clone(),
            TokenBase::Reserved(r) => r.to_string(),
            TokenBase::Identifier(i) => i.clone(),
        }
    }

    pub fn default_string() -> (r: TokenBase)
        ensures
            r@ == TokenBaseModel::Str(Seq::empty()),
    {
        TokenBase::String(String::new())
    }

    pub fn default_number() -> (r: TokenBase)
        ensures
            r@ == TokenBaseModel::Num(Seq::empty()),
    {
        TokenBase::Number(String::new())
    }

    pub fn default_identifier() -> (r: TokenBase)
        ensures
            r@ == TokenBaseModel::Ident(Seq::empty()),
    {
        TokenBase::Identifier(String::new())
    }

    /// One payload of each literal kind: string, number, `true`, `false`.
    pub fn get_literal_token_bases() -> (r: [TokenBase; 4])
        ensures
            r[0]@ == TokenBaseModel::Str(Seq::empty()),
            r[1]@ == TokenBaseModel::Num(Seq::empty()),
            r[2]@ == TokenBaseModel::Res(ReservedWord::True),
            r[3]@ == TokenBaseModel::Res(ReservedWord::False),
    {
        [
            TokenBase::default_string(),
            TokenBase::default_number(),
            TokenBase::Reserved(ReservedWord::True),
            TokenBase::Reserved(ReservedWord::False),
        ]
    }
}

/// A token as mathematical values: its payload (none for an invalid lexeme), its text,
/// and where it stands in its file.
pub struct TokenView {
    pub token: Option<TokenBaseModel>,
    pub base: Seq<char>,
    pub ln: int,
    pub col: int,
    pub ind: int,
    pub len: int,
    pub path: Seq<char>,
}

/// A positioned lexical unit.
#[derive(Debug)]
pub struct Token {
    token: Option<TokenBase>,
    base_str: String,
    ln: u32,
    col: u32,
    ind: u64,
    len: usize,
    file_path: String,
}

/// Where a token stands: line and column (both from 1), offset and length in characters,
/// and the file it came from.
#[derive(Debug)]
pub struct TokenPosition {
    pub ln: u32,
    pub col: u32,
    pub ind: u64,
    pub len: usize,
    pub path: String,
}

pub open spec fn option_view(t: Option<TokenBase>) -> Option<TokenBaseModel> {
    match t {
        Some(b) => Some(b@),
        None => None,
    }
}

impl View for Token {
    type V = TokenView;

    closed spec fn view(&self) -> TokenView {
        TokenView {
            token: option_view(self.token),
            base: self.base_str@,
            ln: self.ln as int,
            col: self.col as int,
            ind: self.ind as int,
            len: self.len as int,
            path: self.file_path@,
        }
    }
}

/// The token that `Token::new` builds from a payload (or an invalid lexeme) and a position.
pub open spec fn token_of(
    token_base: Result<TokenBaseModel, Seq<char>>,
    ln: int,
    col: int,
    ind: int,
    path: Seq<char>,
) -> TokenView {
    let base = match token_base {
        Ok(tb) => display_text(tb),
        Err(bs) => bs,
    };
    TokenView {
        token: match token_base {
            Ok(tb) => Some(tb),
            Err(_) => None,
        },
        base,
        ln,
        col,
        ind,
        len: base.len() as int,
        path,
    }
}

pub open spec fn result_view(r: Result<TokenBase, String>) -> Result<TokenBaseModel, Seq<char>> {
    match r {
        Ok(tb) => Ok(tb@),
        Err(s) => Err(s@),
    }
}

impl Clone for Token {
    fn clone(&self) -> (r: Token)
        ensures
            r@ == self@,
    {
        Token {
            token: match &self.token {
                Some(t) => Some(t.clone()),
                None => None,
            },
            base_str: self.base_str.clone(),
            ln: self.ln,
            col: self.col,
            ind: self.ind,
            len: self.len,
            file_path: self.file_path.clone(),
        }
    }
}

impl PartialEq for Token {
    /// Two tokens are equal when both are valid and carry equal payloads; positions do not count.
    fn eq(&self, other: &Token) -> (r: bool) {
        match (&self.token, &other.token) {
            (Some(a), Some(b)) => a.eq(b),
            _ => false,
        }
    }
}

impl vstd::std_specs::cmp::PartialEqSpecImpl for Token {
    open spec fn obeys_eq_spec() -> bool {
        true
    }

    open spec fn eq_spec(&self, other: &Token) -> bool {
        self@.token is Some && self@.token == other@.token
    }
}

impl Token {
    pub fn new(
        token_base: Result<TokenBase, String>,
        ln: u32,
        col: u32,
        ind: u64,
        file_path: String,
    ) -> (r: Token)
        ensures
            r@ == token_of(result_view(token_base), ln as int, col as int, ind as int, file_path@),
    {
        let base_str = match &token_base {
            Ok(tb) => tb.to_string(),
            Err(bs) => bs.clone(),
        };
        let len = base_str.as_str().unicode_len();
        Token {
            token: match token_base {
                Ok(tb) => Some(tb),
                Err(_) => None,
            },
            base_str,
            ln,
            col,
            ind,
            len,
            file_path,
        }
    }

    pub fn get_token(&self) -> (r: &Option<TokenBase>)
        ensures
            option_view(*r) == self@.token,
    {
        &self.token
    }

    pub fn get_token_position(&self) -> (r: TokenPosition)
        ensures
            r.ln as int == self@.ln,
            r.col as int == self@.col,
            r.ind as int == self@.ind,
            r.len as int == self@.len,
            r.path@ == self@.path,
    {
        TokenPosition {
            ln: self.ln,
            col: self.col,
            ind: self.ind,
            len: self.len,
            path: self.file_path.clone(),
        }
    }

    pub fn get_base_text(&self) -> (r: &str)
        ensures
            r@ == self@.base,
    {
        self.base_str.as_str()
    }

    /// The payload's kind and content, if the token is not an invalid lexeme.
    pub fn base(&self) -> (r: Option<TokenBase>)
        ensures
            option_view(r) == self@.token,
    {
        match &self.token {
            Some(t) => Some(t.clone()),
            None => None,
        }
    }

    /// The line of the token (from 1).
    pub fn line(&self) -> (r: u32)
        ensures
            r as int == self@.ln,
    {
        self.ln
    }

    /// The column of the token (from 1).
    pub fn column(&self) -> (r: u32)
        ensures
            r as int == self@.col,
    {
        self.col
    }
}

} // verus!
