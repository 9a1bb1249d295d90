use vstd::prelude::*;

verus! {

/// A punctuation mark, operator or keyword of the language.
#[derive(Clone, Copy, Debug, PartialEq, Eq, Structural)]
pub enum ReservedWord {
    Assign,
    LeftParenthesis,
    RightParenthesis,
    LeftCurly,
    RightCurly,
    LeftSquareBracket,
    RightSquareBracket,
    Dot,
    Comma,
    SemiColon,
    Colon,
    Arrow,
    Const,
    Let,
    Import,
    Export,
    Default,
    From,
    True,
    False,
    Add,
    Mult,
    Div,
    Sub,
    Mod,
    Less,
    Greater,
    And,
    Or,
    Xor,
    Not,
    LogicalNot,
    LeftShift,
    RightShift,
    UnsignedRightShift,
    LessOrEq,
    GreaterOrEq,
    Equal,
    NotEqual,
    Exponential,
    LogicalAnd,
    LogicalOr,
    AdditiveAssign,
    SubtractiveAssign,
    MultiplicativeAssign,
    DivisiveAssign,
    ModuloAssign,
    LeftShiftAssign,
    RightShiftAssign,
    UnsignedRightShiftAssign,
    AndAssign,
    XorAssign,
    OrAssign,
    ExponentialAssign,
}

impl ReservedWord {
    /// The canonical text of the word, used both to recognise it and to print it.
    pub open spec fn text(self) -> Seq<char> {
        match self {
            ReservedWord::Assign => seq!['='],
            ReservedWord::LeftParenthesis => seq!['('],
            ReservedWord::RightParenthesis => seq![')'],
            ReservedWord::LeftCurly => seq!['{'],
            ReservedWord::RightCurly => seq!['}'],
            ReservedWord::LeftSquareBracket => seq!['['],
            ReservedWord::RightSquareBracket => seq![']'],
            ReservedWord::Dot => seq!['.'],
            ReservedWord::Comma => seq![','],
            ReservedWord::SemiColon => seq![';'],
            ReservedWord::Colon => seq![':'],
            ReservedWord::Arrow => seq!['=', '>'],
            ReservedWord::Const => seq!['c', 'o', 'n', 's', 't'],
            ReservedWord::Let => seq!['l', 'e', 't'],
            ReservedWord::Import => seq!['i', 'm', 'p', 'o', 'r', 't'],
            ReservedWord::Export => seq!['e', 'x', 'p', 'o', 'r', 't'],
            ReservedWord::Default => seq!['d', 'e', 'f', 'a', 'u', 'l', 't'],
            ReservedWord::From => seq!['f', 'r', 'o', 'm'],
            ReservedWord::True => seq!['t', 'r', 'u', 'e'],
            ReservedWord::False => seq!['f', 'a', 'l', 's', 'e'],
            ReservedWord::Add => seq!['+'],
            ReservedWord::Mult => seq!['*'],
            ReservedWord::Div => seq!['/'],
            ReservedWord::Sub => seq!['-'],
            ReservedWord::Mod => seq!['%'],
            ReservedWord::Less => seq!['<'],
            ReservedWord::Greater => seq!['>'],
            ReservedWord::And => seq!['&'],
            ReservedWord::Or => seq!['|'],
            ReservedWord::Xor => seq!['^'],
            ReservedWord::Not => seq!['~'],
            ReservedWord::LogicalNot => seq!['!'],
            ReservedWord::LeftShift => seq!['<', '<'],
            ReservedWord::RightShift => seq!['>', '>'],
            ReservedWord::UnsignedRightShift => seq!['>', '>', '>'],
            ReservedWord::LessOrEq => seq!['<', '='],
            ReservedWord::GreaterOrEq => seq!['>', '='],
            ReservedWord::Equal => seq!['=', '='],
            ReservedWord::NotEqual => seq!['!', '='],
            ReservedWord::Exponential => seq!['*', '*'],
            ReservedWord::LogicalAnd => seq!['&', '&'],
            ReservedWord::LogicalOr => seq!['|', '|'],
            ReservedWord::AdditiveAssign => seq!['+', '='],
            ReservedWord::SubtractiveAssign => seq!['-', '='],
            ReservedWord::MultiplicativeAssign => seq!['*', '='],
            ReservedWord::DivisiveAssign => seq!['/', '='],
            ReservedWord::ModuloAssign => seq!['%', '='],
            ReservedWord::LeftShiftAssign => seq!['<', '<', '='],
            ReservedWord::RightShiftAssign => seq!['>', '>', '='],
            ReservedWord::UnsignedRightShiftAssign => seq!['>', '>', '>', '='],
            ReservedWord::AndAssign => seq!['&', '='],
            ReservedWord::XorAssign => seq!['^', '='],
            ReservedWord::OrAssign => seq!['|', '='],
            ReservedWord::ExponentialAssign => seq!['*', '*', '='],
        }
    }

    /// The canonical text of the word as a string slice.
    pub fn as_str(&self) -> (r: &'static str)
        ensures
            r@ == self.text(),
    {
        match self {
            ReservedWord::Assign => {
                proof {
                    reveal_strlit("=");
                }
                assert("="@ =~= seq!['=']);
                "="
            },
            ReservedWord::LeftParenthesis => {
                proof {
                    reveal_strlit("(");
                }
                assert("("@ =~= seq!['(']);
                "("
            },
            ReservedWord::RightParenthesis => {
                proof {
                    reveal_strlit(")");
                }
                assert(")"@ =~= seq![')']);
                ")"
            },
            ReservedWord::LeftCurly => {
                proof {
                    reveal_strlit("{");
                }
                assert("{"@ =~= seq!['{']);
                "{"
            },
            ReservedWord::RightCurly => {
                proof {
                    reveal_strlit("}");
                }
                assert("}"@ =~= seq!['}']);
                "}"
            },
            ReservedWord::LeftSquareBracket => {
                proof {
                    reveal_strlit("[");
                }
                assert("["@ =~= seq!['[']);
                "["
            },
            ReservedWord::RightSquareBracket => {
                proof {
                    reveal_strlit("]");
                }
                assert("]"@ =~= seq![']']);
                "]"
            },
            ReservedWord::Dot => {
                proof {
                    reveal_strlit(".");
                }
                assert("."@ =~= seq!['.']);
                "."
            },
            ReservedWord::Comma => {
                proof {
                    reveal_strlit(",");
                }
                assert(","@ =~= seq![',']);
                ","
            },
            ReservedWord::SemiColon => {
                proof {
                    reveal_strlit(";");
                }
                assert(";"@ =~= seq![';']);
                ";"
            },
            ReservedWord::Colon => {
                proof {
                    reveal_strlit(":");
                }
                assert(":"@ =~= seq![':']);
                ":"
            },
            ReservedWord::Arrow => {
                proof {
                    reveal_strlit("=>");
                }
                assert("=>"@ =~= seq!['=', '>']);
                "=>"
            },
            ReservedWord::Const => {
                proof {
                    reveal_strlit("const");
                }
                assert("const"@ =~= seq!['c', 'o', 'n', 's', 't']);
                "const"
            },
            ReservedWord::Let => {
                proof {
                    reveal_strlit("let");
                }
                assert("let"@ =~= seq!['l', 'e', 't']);
                "let"
            },
            ReservedWord::Import => {
                proof {
                    reveal_strlit("import");
                }
                assert("import"@ =~= seq!['i', 'm', 'p', 'o', 'r', 't']);
                "import"
            },
            ReservedWord::Export => {
                proof {
                    reveal_strlit("export");
                }
                assert("export"@ =~= seq!['e', 'x', 'p', 'o', 'r', 't']);
                "export"
            },
            ReservedWord::Default => {
                proof {
                    reveal_strlit("default");
                }
                assert("default"@ =~= seq!['d', 'e', 'f', 'a', 'u', 'l', 't']);
                "default"
            },
            ReservedWord::From => {
                proof {
                    reveal_strlit("from");
                }
                assert("from"@ =~= seq!['f', 'r', 'o', 'm']);
                "from"
            },
            ReservedWord::True => {
                proof {
                    reveal_strlit("true");
                }
                assert("true"@ =~= seq!['t', 'r', 'u', 'e']);
                "true"
            },
            ReservedWord::False => {
                proof {
                    reveal_strlit("false");
                }
                assert("false"@ =~= seq!['f', 'a', 'l', 's', 'e']);
                "false"
            },
            ReservedWord::Add => {
                proof {
                    reveal_strlit("+");
                }
                assert("+"@ =~= seq!['+']);
                "+"
            },
            ReservedWord::Mult => {
                proof {
                    reveal_strlit("*");
                }
                assert("*"@ =~= seq!['*']);
                "*"
            },
            ReservedWord::Div => {
                proof {
                    reveal_strlit("/");
                }
                assert("/"@ =~= seq!['/']);
                "/"
            },
            ReservedWord::Sub => {
                proof {
                    reveal_strlit("-");
                }
                assert("-"@ =~= seq!['-']);
                "-"
            },
            ReservedWord::Mod => {
                proof {
                    reveal_strlit("%");
                }
                assert("%"@ =~= seq!['%']);
                "%"
            },
            ReservedWord::Less => {
                proof {
                    reveal_strlit("<");
                }
                assert("<"@ =~= seq!['<']);
                "<"
            },
            ReservedWord::Greater => {
                proof {
                    reveal_strlit(">");
                }
                assert(">"@ =~= seq!['>']);
                ">"
            },
            ReservedWord::And => {
                proof {
                    reveal_strlit("&");
                }
                assert("&"@ =~= seq!['&']);
                "&"
            },
            ReservedWord::Or => {
                proof {
                    reveal_strlit("|");
                }
                assert("|"@ =~= seq!['|']);
                "|"
            },
            ReservedWord::Xor => {
                proof {
                    reveal_strlit("^");
                }
                assert("^"@ =~= seq!['^']);
                "^"
            },
            ReservedWord::Not => {
                proof {
                    reveal_strlit("~");
                }
                assert("~"@ =~= seq!['~']);
                "~"
            },
            ReservedWord::LogicalNot => {
                proof {
                    reveal_strlit("!");
                }
                assert("!"@ =~= seq!['!']);
                "!"
            },
            ReservedWord::LeftShift => {
                proof {
                    reveal_strlit("<<");
                }
                assert("<<"@ =~= seq!['<', '<']);
                "<<"
            },
            ReservedWord::RightShift => {
                proof {
                    reveal_strlit(">>");
                }
                assert(">>"@ =~= seq!['>', '>']);
                ">>"
            },
            ReservedWord::UnsignedRightShift => {
                proof {
                    reveal_strlit(">>>");
                }
                assert(">>>"@ =~= seq!['>', '>', '>']);
                ">>>"
            },
            ReservedWord::LessOrEq => {
                proof {
                    reveal_strlit("<=");
                }
                assert("<="@ =~= seq!['<', '=']);
                "<="
            },
            ReservedWord::GreaterOrEq => {
                proof {
                    reveal_strlit(">=");
                }
                assert(">="@ =~= seq!['>', '=']);
                ">="
            },
            ReservedWord::Equal => {
                proof {
                    reveal_strlit("==");
                }
                assert("=="@ =~= seq!['=', '=']);
                "=="
            },
            ReservedWord::NotEqual => {
                proof {
                    reveal_strlit("!=");
                }
                assert("!="@ =~= seq!['!', '=']);
                "!="
            },
            ReservedWord::Exponential => {
                proof {
                    reveal_strlit("**");
                }
                assert("**"@ =~= seq!['*', '*']);
                "**"
            },
            ReservedWord::LogicalAnd => {
                proof {
                    reveal_strlit("&&");
                }
                assert("&&"@ =~= seq!['&', '&']);
                "&&"
            },
            ReservedWord::LogicalOr => {
                proof {
                    reveal_strlit("||");
                }
                assert("||"@ =~= seq!['|', '|']);
                "||"
            },
            ReservedWord::AdditiveAssign => {
                proof {
                    reveal_strlit("+=");
                }
                assert("+="@ =~= seq!['+', '=']);
                "+="
            },
            ReservedWord::SubtractiveAssign => {
                proof {
                    reveal_strlit("-=");
                }
                assert("-="@ =~= seq!['-', '=']);
                "-="
            },
            ReservedWord::MultiplicativeAssign => {
                proof {
                    reveal_strlit("*=");
                }
                assert("*="@ =~= seq!['*', '=']);
                "*="
            },
            ReservedWord::DivisiveAssign => {
                proof {
                    reveal_strlit("/=");
                }
                assert("/="@ =~= seq!['/', '=']);
                "/="
            },
            ReservedWord::ModuloAssign => {
                proof {
                    reveal_strlit("%=");
                }
                assert("%="@ =~= seq!['%', '=']);
                "%="
            },
            ReservedWord::LeftShiftAssign => {
                proof {
                    reveal_strlit("<<=");
                }
                assert("<<="@ =~= seq!['<', '<', '=']);
                "<<="
            },
            ReservedWord::RightShiftAssign => {
                proof {
                    reveal_strlit(">>=");
                }
                assert(">>="@ =~= seq!['>', '>', '=']);
                ">>="
            },
            ReservedWord::UnsignedRightShiftAssign => {
                proof {
                    reveal_strlit(">>>=");
                }
                assert(">>>="@ =~= seq!['>', '>', '>', '=']);
                ">>>="
            },
            ReservedWord::AndAssign => {
                proof {
                    reveal_strlit("&=");
                }
                assert("&="@ =~= seq!['&', '=']);
                "&="
            },
            ReservedWord::XorAssign => {
                proof {
                    reveal_strlit("^=");
                }
                assert("^="@ =~= seq!['^', '=']);
                "^="
            },
            ReservedWord::OrAssign => {
                proof {
                    reveal_strlit("|=");
                }
                assert("|="@ =~= seq!['|', '=']);
                "|="
            },
            ReservedWord::ExponentialAssign => {
                proof {
                    reveal_strlit("**=");
                }
                assert("**="@ =~= seq!['*', '*', '=']);
                "**="
            },
        }
    }

    /// The canonical text of the word as an owned string.
    pub fn to_string(&self) -> (r: String)
        ensures
            r@ == self.text(),
    {
        String::from_str(self.as_str())
    }
}

} // verus!
