use rotten_script::lexer::Lexer;
use rotten_script::reserved_word::ReservedWord;
use rotten_script::token::{Token, TokenBase};

/// expected: token_base, actually: token
fn assert_eq_token_and_token_base(token_base: TokenBase, token: &Token) {
    assert_eq!(token.get_token().as_ref().unwrap(), &token_base);
}

#[test]
fn test_lexer_single_comment() {
    let cases = vec![
        "// test1",
        "//test3\n",
        "//test4\r\n",
        "\n//ttest\n//te",
        "\n//\r\n",
    ];
    for item in cases {
        let mut lexer = Lexer::new(item, "");
        lexer.lex().unwrap();
        assert_eq!(0, lexer.tokens.len());
    }
}

#[test]
fn test_identifier() {
    let cases = vec!["ident", "ident ident", "ide\nnt", "ode \t den"];
    for (ind, item) in cases.iter().enumerate() {
        let mut lexer = Lexer::new(item, "");
        lexer.lex().unwrap();

        if ind == 0 {
            assert_eq!(1, lexer.tokens.len());
        } else {
            let expected_idents = item
                .split(|x| x == ' ' || x == '\n' || x == '\t')
                .filter(|x| !x.is_empty())
                .collect::<Vec<_>>();
            assert_eq!(lexer.tokens.len(), 2);
            assert_eq_token_and_token_base(
                TokenBase::Identifier(expected_idents[0].to_string()),
                &lexer.tokens[0],
            );
            assert_eq_token_and_token_base(
                TokenBase::Identifier(expected_idents[1].to_string()),
                &lexer.tokens[1],
            );
        }
    }
}

#[test]
fn test_sq_string() {
    let cases = vec!["'test1'", "'test3''yrdy'", "'tes\nyr'", "'test\"te'"];
    for (ind, item) in cases.iter().enumerate() {
        let mut lexer = Lexer::new(item, "");
        if lexer.lex().is_ok() {
            match ind {
                0 => {
                    assert_eq!(1, lexer.tokens.len());
                    assert_eq_token_and_token_base(
                        TokenBase::String(String::from("test1")),
                        &lexer.tokens[0],
                    );
                }
                1 => {
                    assert_eq!(2, lexer.tokens.len());
                    assert_eq_token_and_token_base(
                        TokenBase::String(String::from("test3")),
                        &lexer.tokens[0],
                    );
                    assert_eq_token_and_token_base(
                        TokenBase::String(String::from("yrdy")),
                        &lexer.tokens[1],
                    );
                }
                3 => {
                    assert_eq!(1, lexer.tokens.len());
                    assert_eq_token_and_token_base(
                        TokenBase::String(String::from("test\"te")),
                        &lexer.tokens[0],
                    );
                }
                _ => panic!(),
            }
        } else {
            assert_eq!(2, ind);
        }
    }
}

#[test]
fn test_dq_string() {
    let cases = vec![
        r#""test1""#,
        r#""test3""yrdy""#,
        "\"tes\nyr\"",
        r#""test'te""#,
    ];
    for (ind, item) in cases.iter().enumerate() {
        let mut lexer = Lexer::new(item, "");
        let result = lexer.lex();
        if result.is_ok() {
            match ind {
                0 => {
                    assert_eq!(1, lexer.tokens.len());
                    assert_eq_token_and_token_base(
                        TokenBase::String(String::from("test1")),
                        &lexer.tokens[0],
                    );
                }
                1 => {
                    assert_eq!(2, lexer.tokens.len());
                    assert_eq_token_and_token_base(
                        TokenBase::String(String::from("test3")),
                        &lexer.tokens[0],
                    );
                    assert_eq_token_and_token_base(
                        TokenBase::String(String::from("yrdy")),
                        &lexer.tokens[1],
                    );
                }
                3 => {
                    assert_eq!(1, lexer.tokens.len());
                    assert_eq_token_and_token_base(
                        TokenBase::String(String::from("test'te")),
                        &lexer.tokens[0],
                    );
                }
                _ => panic!(),
            }
        } else {
            assert_eq!(2, ind);
        }
    }
}

#[test]
fn test_number() {
    let valid_cases = vec!["33", ".435", "3232.042", "0", "0.33"];
    for (ind, item) in valid_cases.iter().enumerate() {
        let mut lexer = Lexer::new(item, "");
        lexer.lex().unwrap();
        match ind {
            0 => {
                assert_eq!(1, lexer.tokens.len());
                assert_eq_token_and_token_base(TokenBase::Number("33".to_string()), &lexer.tokens[0]);
            }
            1 => {
                assert_eq!(1, lexer.tokens.len());
                assert_eq_token_and_token_base(TokenBase::Number(".435".to_string()), &lexer.tokens[0]);
            }
            2 => {
                assert_eq!(1, lexer.tokens.len());
                assert_eq_token_and_token_base(
                    TokenBase::Number("3232.042".to_string()),
                    &lexer.tokens[0],
                );
            }
            3 => {
                assert_eq!(1, lexer.tokens.len());
                assert_eq_token_and_token_base(TokenBase::Number("0".to_string()), &lexer.tokens[0]);
            }
            4 => {
                assert_eq!(1, lexer.tokens.len());
                assert_eq_token_and_token_base(TokenBase::Number("0.33".to_string()), &lexer.tokens[0]);
            }
            _ => panic!(),
        }
    }
}

#[test]
fn test_reserved() {
    let cases = vec![
        "=", "(", ")", "{", "}", "[", "]", ".", ",", ";", "=>", "const", "let", "import", "export",
        "default", "from", "true", "false", "+", "*", "/", "-", "%", "<", ">", "&", "|", "^", "~",
        "!", "<<", ">>", ">>>", "<=", ">=", "==", "!=", "**", "&&", "||", "+=", "-=", "*=", "/=",
        "%=", "<<=", ">>=", ">>>=", "&=", "^=", "|=", "**=", ":",
    ];
    for (ind, case) in cases.iter().enumerate() {
        let mut lexer = Lexer::new(case, "");
        lexer.lex().unwrap();

        assert_eq!(1, lexer.tokens.len());

        let first = lexer.tokens[0].get_token().as_ref().unwrap().clone();
        match ind {
            0 => assert_eq!(TokenBase::Reserved(ReservedWord::Assign), first),
            1 => assert_eq!(TokenBase::Reserved(ReservedWord::LeftParenthesis), first),
            2 => assert_eq!(TokenBase::Reserved(ReservedWord::RightParenthesis), first),
            3 => assert_eq!(TokenBase::Reserved(ReservedWord::LeftCurly), first),
            4 => assert_eq!(TokenBase::Reserved(ReservedWord::RightCurly), first),
            5 => assert_eq!(TokenBase::Reserved(ReservedWord::LeftSquareBracket), first),
            6 => assert_eq!(TokenBase::Reserved(ReservedWord::RightSquareBracket), first),
            7 => assert_eq!(TokenBase::Reserved(ReservedWord::Dot), first),
            8 => assert_eq!(TokenBase::Reserved(ReservedWord::Comma), first),
            9 => assert_eq!(TokenBase::Reserved(ReservedWord::SemiColon), first),
            10 => assert_eq!(TokenBase::Reserved(ReservedWord::Arrow), first),
            11 => assert_eq!(TokenBase::Reserved(ReservedWord::Const), first),
            12 => assert_eq!(TokenBase::Reserved(ReservedWord::Let), first),
            13 => assert_eq!(TokenBase::Reserved(ReservedWord::Import), first),
            14 => assert_eq!(TokenBase::Reserved(ReservedWord::Export), first),
            15 => assert_eq!(TokenBase::Reserved(ReservedWord::Default), first),
            16 => assert_eq!(TokenBase::Reserved(ReservedWord::From), first),
            17 => assert_eq!(TokenBase::Reserved(ReservedWord::True), first),
            18 => assert_eq!(TokenBase::Reserved(ReservedWord::False), first),
            19 => assert_eq!(TokenBase::Reserved(ReservedWord::Add), first),
            20 => assert_eq!(TokenBase::Reserved(ReservedWord::Mult), first),
            21 => assert_eq!(TokenBase::Reserved(ReservedWord::Div), first),
            22 => assert_eq!(TokenBase::Reserved(ReservedWord::Sub), first),
            23 => assert_eq!(TokenBase::Reserved(ReservedWord::Mod), first),
            24 => assert_eq!(TokenBase::Reserved(ReservedWord::Less), first),
            25 => assert_eq!(TokenBase::Reserved(ReservedWord::Greater), first),
            26 => assert_eq!(TokenBase::Reserved(ReservedWord::And), first),
            27 => assert_eq!(TokenBase::Reserved(ReservedWord::Or), first),
            28 => assert_eq!(TokenBase::Reserved(ReservedWord::Xor), first),
            29 => assert_eq!(TokenBase::Reserved(ReservedWord::Not), first),
            30 => assert_eq!(TokenBase::Reserved(ReservedWord::LogicalNot), first),
            31 => assert_eq!(TokenBase::Reserved(ReservedWord::LeftShift), first),
            32 => assert_eq!(TokenBase::Reserved(ReservedWord::RightShift), first),
            33 => assert_eq!(TokenBase::Reserved(ReservedWord::UnsignedRightShift), first),
            34 => assert_eq!(TokenBase::Reserved(ReservedWord::LessOrEq), first),
            35 => assert_eq!(TokenBase::Reserved(ReservedWord::GreaterOrEq), first),
            36 => assert_eq!(TokenBase::Reserved(ReservedWord::Equal), first),
            37 => assert_eq!(TokenBase::Reserved(ReservedWord::NotEqual), first),
            38 => assert_eq!(TokenBase::Reserved(ReservedWord::Exponential), first),
            39 => assert_eq!(TokenBase::Reserved(ReservedWord::LogicalAnd), first),
            40 => assert_eq!(TokenBase::Reserved(ReservedWord::LogicalOr), first),
            41 => assert_eq!(TokenBase::Reserved(ReservedWord::AdditiveAssign), first),
            42 => assert_eq!(TokenBase::Reserved(ReservedWord::SubtractiveAssign), first),
            43 => assert_eq!(TokenBase::Reserved(ReservedWord::MultiplicativeAssign), first),
            44 => assert_eq!(TokenBase::Reserved(ReservedWord::DivisiveAssign), first),
            45 => assert_eq!(TokenBase::Reserved(ReservedWord::ModuloAssign), first),
            46 => assert_eq!(TokenBase::Reserved(ReservedWord::LeftShiftAssign), first),
            47 => assert_eq!(TokenBase::Reserved(ReservedWord::RightShiftAssign), first),
            48 => assert_eq!(TokenBase::Reserved(ReservedWord::UnsignedRightShiftAssign), first),
            49 => assert_eq!(TokenBase::Reserved(ReservedWord::AndAssign), first),
            50 => assert_eq!(TokenBase::Reserved(ReservedWord::XorAssign), first),
            51 => assert_eq!(TokenBase::Reserved(ReservedWord::OrAssign), first),
            52 => assert_eq!(TokenBase::Reserved(ReservedWord::ExponentialAssign), first),
            53 => assert_eq!(TokenBase::Reserved(ReservedWord::Colon), first),
            _ => panic!(),
        }
    }
}

#[test]
fn test_to_string() {
    let reserveds = vec![
        ReservedWord::Assign,
        ReservedWord::LeftParenthesis,
        ReservedWord::RightParenthesis,
        ReservedWord::LeftCurly,
        ReservedWord::RightCurly,
        ReservedWord::LeftSquareBracket,
        ReservedWord::RightSquareBracket,
        ReservedWord::Dot,
        ReservedWord::Comma,
        ReservedWord::SemiColon,
        ReservedWord::Arrow,
        ReservedWord::Const,
        ReservedWord::Let,
        ReservedWord::Import,
        ReservedWord::Export,
        ReservedWord::Default,
        ReservedWord::From,
    ];
    for item in reserveds {
        match item {
            ReservedWord::Assign => assert_eq!("=", item.to_string()),
            ReservedWord::LeftParenthesis => assert_eq!("(", item.to_string()),
            ReservedWord::RightParenthesis => assert_eq!(")", item.to_string()),
            ReservedWord::LeftCurly => assert_eq!("{", item.to_string()),
            ReservedWord::RightCurly => assert_eq!("}", item.to_string()),
            ReservedWord::LeftSquareBracket => assert_eq!("[", item.to_string()),
            ReservedWord::RightSquareBracket => assert_eq!("]", item.to_string()),
            ReservedWord::Dot => assert_eq!(".", item.to_string()),
            ReservedWord::Comma => assert_eq!(",", item.to_string()),
            ReservedWord::SemiColon => assert_eq!(";", item.to_string()),
            ReservedWord::Arrow => assert_eq!("=>", item.to_string()),
            ReservedWord::Const => assert_eq!("const", item.to_string()),
            ReservedWord::Let => assert_eq!("let", item.to_string()),
            ReservedWord::Import => assert_eq!("import", item.to_string()),
            ReservedWord::Export => assert_eq!("export", item.to_string()),
            ReservedWord::Default => assert_eq!("default", item.to_string()),
            ReservedWord::From => assert_eq!("from", item.to_string()),
            _ => panic!(),
        }
    }
}

#[test]
fn greedy_operator_matching() {
    let mut lexer = Lexer::new(">>>=", "");
    lexer.lex().unwrap();
    assert_eq!(1, lexer.tokens.len());
    assert_eq_token_and_token_base(
        TokenBase::Reserved(ReservedWord::UnsignedRightShiftAssign),
        &lexer.tokens[0],
    );
    let mut lexer = Lexer::new(">>>>", "");
    lexer.lex().unwrap();
    assert_eq!(2, lexer.tokens.len());
    assert_eq_token_and_token_base(TokenBase::Reserved(ReservedWord::UnsignedRightShift), &lexer.tokens[0]);
    assert_eq_token_and_token_base(TokenBase::Reserved(ReservedWord::Greater), &lexer.tokens[1]);
}

#[test]
fn invalid_lexeme_does_not_stop_lexing() {
    let mut lexer = Lexer::new("const a = @x;", "f.rots");
    let err = lexer.lex().unwrap_err();
    assert_eq!(4, lexer.tokens.len());
    assert!(lexer.tokens[3].get_token().is_none());
    assert_eq!("@x;", lexer.tokens[3].get_base_text());
    assert_eq_token_and_token_base(TokenBase::Reserved(ReservedWord::Const), &lexer.tokens[0]);
    assert_eq_token_and_token_base(TokenBase::Identifier("a".to_string()), &lexer.tokens[1]);
    assert_eq_token_and_token_base(TokenBase::Reserved(ReservedWord::Assign), &lexer.tokens[2]);
    assert_eq!(1, err.invalid_tokens().len());
    assert_eq!("@x;", err.invalid_tokens()[0].get_base_text());
    assert_eq!(10, err.invalid_tokens()[0].get_token_position().ind);
    assert_eq!("f.rots", err.invalid_tokens()[0].get_token_position().path);
}

#[test]
fn invalid_lexeme_between_valid_tokens() {
    let mut lexer = Lexer::new("a # b", "");
    let err = lexer.lex().unwrap_err();
    assert_eq!(3, lexer.tokens.len());
    assert_eq_token_and_token_base(TokenBase::Identifier("a".to_string()), &lexer.tokens[0]);
    assert!(lexer.tokens[1].get_token().is_none());
    assert_eq_token_and_token_base(TokenBase::Identifier("b".to_string()), &lexer.tokens[2]);
    assert_eq!(1, err.invalid_tokens().len());
    assert_eq!("#", err.invalid_tokens()[0].get_base_text());
}

#[test]
fn positions_match_the_source() {
    let src = "const x = 1;\n  let\ty = 'ab';\n// note\n\"s\"";
    let mut lexer = Lexer::new(src, "p");
    lexer.lex().unwrap();
    let chars: Vec<char> = src.chars().collect();
    assert_eq!(11, lexer.tokens.len());
    for t in &lexer.tokens {
        let pos = t.get_token_position();
        let ind = pos.ind as usize;
        let mut ln = 1u32;
        let mut col = 1u32;
        for c in &chars[..ind] {
            if *c == '\n' {
                ln += 1;
                col = 1;
            } else {
                col += 1;
            }
        }
        assert_eq!(ln, pos.ln);
        assert_eq!(col, pos.col);
        assert!(ind + pos.len <= chars.len());
    }
    let y = &lexer.tokens[6];
    assert_eq!((2, 7), (y.line(), y.column()));
    assert_eq!("\"ab\"", lexer.tokens[8].get_base_text());
    assert_eq!(4, lexer.tokens[8].get_token_position().len);
    assert_eq!((4, 1), (lexer.tokens[10].line(), lexer.tokens[10].column()));
}

#[test]
fn numbers_and_keyword_prefixes() {
    let mut lexer = Lexer::new("12. 0. 007 constant", "");
    lexer.lex().unwrap();
    let texts: Vec<&str> = lexer.tokens.iter().map(|t| t.get_base_text()).collect();
    assert_eq!(vec!["12", ".", "0", ".", "0", "0", "7", "const", "ant"], texts);
    assert_eq_token_and_token_base(TokenBase::Reserved(ReservedWord::Dot), &lexer.tokens[1]);
}

#[test]
fn empty_source_has_no_tokens() {
    let mut lexer = Lexer::new("", "");
    assert!(lexer.lex().is_ok());
    assert_eq!(0, lexer.tokens.len());
}

#[test]
fn unterminated_string_is_invalid() {
    let mut lexer = Lexer::new("\"abc", "");
    let err = lexer.lex().unwrap_err();
    assert_eq!(1, err.invalid_tokens().len());
    assert_eq!("\"abc", err.invalid_tokens()[0].get_base_text());
}

#[test]
fn token_text_of_each_payload() {
    assert_eq!("\"a b\"", TokenBase::String("a b".to_string()).to_string());
    assert_eq!("1.5", TokenBase::Number("1.5".to_string()).to_string());
    assert_eq!(">>=", TokenBase::Reserved(ReservedWord::RightShiftAssign).to_string());
    assert_eq!("name", TokenBase::Identifier("name".to_string()).to_string());
    let t = Token::new(Ok(TokenBase::String("xy".to_string())), 3, 4, 5, "f".to_string());
    assert_eq!("\"xy\"", t.get_base_text());
    assert_eq!(4, t.get_token_position().len);
    let bad = Token::new(Err("$$".to_string()), 1, 1, 0, "f".to_string());
    assert!(bad.get_token().is_none());
    assert_eq!("$$", bad.get_base_text());
    let bases = TokenBase::get_literal_token_bases();
    assert_eq!(TokenBase::default_string(), bases[0]);
    assert_eq!(TokenBase::default_number(), bases[1]);
    assert_eq!(TokenBase::Reserved(ReservedWord::True), bases[2]);
    assert_eq!(TokenBase::Reserved(ReservedWord::False), bases[3]);
    assert_eq!(TokenBase::Identifier(String::new()), TokenBase::default_identifier());
    assert_ne!(TokenBase::Identifier("a".to_string()), TokenBase::String("a".to_string()));
}

#[test]
fn tokens_compare_by_payload() {
    let a = Token::new(Ok(TokenBase::Identifier("v".to_string())), 1, 1, 0, "f".to_string());
    let b = Token::new(Ok(TokenBase::Identifier("v".to_string())), 9, 4, 30, "g".to_string());
    let c = Token::new(Ok(TokenBase::Identifier("w".to_string())), 1, 1, 0, "f".to_string());
    let bad = Token::new(Err("v".to_string()), 1, 1, 0, "f".to_string());
    assert!(a == b);
    assert!(a != c);
    assert!(bad != bad.clone());
    assert!(a != bad);
}

#[test]
fn lexer_error_keeps_its_tokens() {
    use_lexer_error();
}

fn use_lexer_error() {
    let t = Token::new(Err("?".to_string()), 2, 3, 9, "f".to_string());
    let e = rotten_script::lex_error::LexerError::new(vec![t]);
    assert_eq!(1, e.invalid_tokens().len());
    assert_eq!("?", e.invalid_tokens()[0].get_base_text());
    assert_eq!(2, e.invalid_tokens()[0].line());
}
