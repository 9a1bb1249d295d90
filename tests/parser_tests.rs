use rotten_script::ast::{Ast, AstType};
use rotten_script::invalid_syntax::{token_base_array_to_string, InvalidSyntaxType};
use rotten_script::lexer::Lexer;
use rotten_script::non_terminal::NonTerminal;
use rotten_script::parser::Parser;
use rotten_script::reserved_word::ReservedWord;
use rotten_script::token::{Token, TokenBase};
use rotten_script::token_stack::TokenStack;

fn to_token_list(token_bases: &[TokenBase]) -> Vec<Token> {
    token_bases
        .iter()
        .map(|x| Token::new(Ok(x.clone()), 0, 0, 0, String::new()))
        .collect()
}

fn count_without_reserved_token_base(tokens: &[TokenBase]) -> usize {
    tokens
        .iter()
        .filter(|x| !matches!(x, TokenBase::Reserved(_)))
        .count()
}

fn lex(src: &str) -> Vec<Token> {
    let mut lexer = Lexer::new(src, "test.rots");
    lexer.lex().unwrap();
    lexer.tokens
}

fn kind(ast: &Ast) -> AstType {
    ast.ast_type
}

fn kids(ast: &Ast) -> &Vec<Ast> {
    ast.children.as_ref().unwrap()
}

fn leaf(ast: &Ast) -> TokenBase {
    ast.token.as_ref().unwrap().get_token().clone().unwrap()
}

#[test]
fn test_name() {}

#[test]
fn parse_named_import_declaration_test() {
    let use_state = TokenBase::Identifier("useState".to_string());
    let use_effect = TokenBase::Identifier("useEffect".to_string());
    let react = TokenBase::String("react".to_string());
    let tokens = vec![
        TokenBase::Reserved(ReservedWord::Import),
        TokenBase::Reserved(ReservedWord::LeftCurly),
        use_state.clone(),
        TokenBase::Reserved(ReservedWord::Comma),
        use_effect.clone(),
        TokenBase::Reserved(ReservedWord::RightCurly),
        TokenBase::Reserved(ReservedWord::From),
        react.clone(),
    ];
    let token_list = to_token_list(&tokens);
    let token_stack = TokenStack::new(&token_list);
    let mut parser = Parser::new(token_stack);
    let ast = parser.parse_named_import_declaration().unwrap();
    assert_eq!(AstType::NonTerminal(NonTerminal::NamedImportDeclaration), ast.ast_type);
    let children = ast.children.as_ref().unwrap();
    assert_eq!(count_without_reserved_token_base(&tokens), children.len());
    assert_eq!(use_state, leaf(&children[0]));
    assert_eq!(use_effect, leaf(&children[1]));
    assert_eq!(react, leaf(&children[2]));
}

#[test]
fn parse_default_import_declaration_test() {
    let react = TokenBase::String("react".to_string());
    let upper_react = TokenBase::Identifier("React".to_string());
    let tokens = vec![TokenBase::Reserved(ReservedWord::Import), upper_react.clone(), TokenBase::Reserved(ReservedWord::From), react.clone()];
    let token_list = to_token_list(&tokens);
    let token_stack = TokenStack::new(&token_list);
    let mut parser = Parser::new(token_stack);
    let ast = parser.parse_default_import_declaration().unwrap();
    assert_eq!(AstType::NonTerminal(NonTerminal::DefaultImportDeclaration), ast.ast_type);
    let children = ast.children.as_ref().unwrap();
    assert_eq!(count_without_reserved_token_base(&tokens), children.len());
    assert_eq!(upper_react, leaf(&children[0]));
    assert_eq!(react, leaf(&children[1]));
}

#[test]
fn parse_import_declaration_test() {}

#[test]
fn precedence_nests_multiplication_inside_addition() {
    let tokens = lex("1 + 2 * 3");
    let mut parser = Parser::new(TokenStack::new(&tokens));
    let ast = parser.parse_expression2().unwrap();
    assert_eq!(AstType::NonTerminal(NonTerminal::AdditiveExpression), kind(&ast));
    let c = kids(&ast);
    assert_eq!(3, c.len());
    assert_eq!(TokenBase::Number("1".to_string()), leaf(&c[0]));
    assert_eq!(TokenBase::Reserved(ReservedWord::Add), leaf(&c[1]));
    assert_eq!(AstType::NonTerminal(NonTerminal::MultiplicativeExpression), kind(&c[2]));
    assert_eq!(3, kids(&c[2]).len());
    assert!(!parser.errors().has_error());
}

#[test]
fn left_associative_chain() {
    let tokens = lex("a - b - c");
    let mut parser = Parser::new(TokenStack::new(&tokens));
    let ast = parser.parse_expression2().unwrap();
    assert_eq!(AstType::NonTerminal(NonTerminal::AdditiveExpression), kind(&ast));
    assert_eq!(5, kids(&ast).len());
}

#[test]
fn exponent_after_unary_is_reported() {
    let tokens = lex("-1 ** 2");
    let mut parser = Parser::new(TokenStack::new(&tokens));
    parser.parse_expression2().unwrap();
    let errors = parser.errors().errors();
    assert_eq!(1, errors.len());
    assert!(matches!(errors[0].get_type(), InvalidSyntaxType::ExponentialError()));

    let tokens = lex("(-1) ** 2");
    let mut parser = Parser::new(TokenStack::new(&tokens));
    let ast = parser.parse_expression2().unwrap();
    assert!(!parser.errors().has_error());
    assert_eq!(AstType::NonTerminal(NonTerminal::ExponentiationExpression), kind(&ast));
    assert_eq!(
        AstType::NonTerminal(NonTerminal::ParenthesizedExpression),
        kind(&kids(&ast)[0])
    );
}

#[test]
fn exponent_is_right_associative() {
    let tokens = lex("2 ** 3 ** 4");
    let mut parser = Parser::new(TokenStack::new(&tokens));
    let ast = parser.parse_expression2().unwrap();
    assert_eq!(AstType::NonTerminal(NonTerminal::ExponentiationExpression), kind(&ast));
    let c = kids(&ast);
    assert_eq!(TokenBase::Number("2".to_string()), leaf(&c[0]));
    assert_eq!(AstType::NonTerminal(NonTerminal::ExponentiationExpression), kind(&c[1]));
}

#[test]
fn arrow_and_parenthesized_are_told_apart() {
    let tokens = lex("(a)");
    let mut parser = Parser::new(TokenStack::new(&tokens));
    let ast = parser.parse_expression2().unwrap();
    assert_eq!(AstType::NonTerminal(NonTerminal::ParenthesizedExpression), kind(&ast));
    assert!(!parser.errors().has_error());

    let tokens = lex("() => { a; }");
    let mut parser = Parser::new(TokenStack::new(&tokens));
    let ast = parser.parse_expression2().unwrap();
    assert_eq!(AstType::NonTerminal(NonTerminal::FunctionExpression), kind(&ast));
    let body = &kids(&ast)[0];
    assert_eq!(AstType::NonTerminal(NonTerminal::CompoundExpression), kind(body));
    assert_eq!(
        AstType::NonTerminal(NonTerminal::ExpressionStatement),
        kind(&kids(body)[0])
    );
    assert!(!parser.errors().has_error());

    let tokens = lex("((a))");
    let mut parser = Parser::new(TokenStack::new(&tokens));
    assert_eq!(false, parser.should_continue_as_function_expr().unwrap());
    let ast = parser.parse_expression2().unwrap();
    assert_eq!(AstType::NonTerminal(NonTerminal::ParenthesizedExpression), kind(&ast));
    assert!(!parser.errors().has_error());

    let tokens = lex("((a)) => {}");
    let parser = Parser::new(TokenStack::new(&tokens));
    assert_eq!(true, parser.should_continue_as_function_expr().unwrap());

    let tokens = lex("((a)");
    let parser = Parser::new(TokenStack::new(&tokens));
    assert!(parser.should_continue_as_function_expr().is_err());
}

#[test]
fn only_unexpected_tokens_give_one_diagnostic_each() {
    let src = vec![","; 50].join(" ");
    let tokens = lex(&src);
    assert_eq!(50, tokens.len());
    let mut parser = Parser::new(TokenStack::new(&tokens));
    assert!(parser.parse().is_err());
    assert_eq!(50, parser.errors().errors().len());
    assert!(!parser.tokens.has_next());
}

#[test]
fn missing_semicolon_reports_end_of_input() {
    let tokens = lex("const x = 1");
    let mut parser = Parser::new(TokenStack::new(&tokens));
    assert!(parser.parse().is_err());
    let errors = parser.errors().errors();
    assert_eq!(1, errors.len());
    assert!(matches!(errors[0].get_type(), InvalidSyntaxType::UnexpectedEof));
    assert_eq!(1, errors[0].get_position().ln);
    assert_eq!(11, errors[0].get_position().col);
}

#[test]
fn unexpected_token_names_the_expected_kinds() {
    let tokens = lex("const = 1;");
    let mut parser = Parser::new(TokenStack::new(&tokens));
    assert!(parser.parse().is_err());
    let errors = parser.errors().errors();
    match errors[0].get_type() {
        InvalidSyntaxType::ExpectedNext(pair) => {
            assert_eq!("identifier", token_base_array_to_string(&pair.0));
            assert_eq!("=", pair.1.get_base_text());
        }
        _ => panic!(),
    }
    assert_eq!(7, errors[0].get_position().col);
}

#[test]
fn expected_kinds_are_listed_once_each() {
    let arr = vec![
        TokenBase::default_string(),
        TokenBase::default_number(),
        TokenBase::default_identifier(),
        TokenBase::Reserved(ReservedWord::LeftParenthesis),
        TokenBase::Reserved(ReservedWord::True),
    ];
    assert_eq!("literal, identifier, `(`", token_base_array_to_string(&arr));
    assert_eq!("", token_base_array_to_string(&[]));
}

#[test]
fn end_to_end_declaration() {
    let tokens = lex("const x = 1;");
    let bases: Vec<TokenBase> = tokens.iter().map(|t| t.get_token().clone().unwrap()).collect();
    assert_eq!(
        vec![
            TokenBase::Reserved(ReservedWord::Const),
            TokenBase::Identifier("x".to_string()),
            TokenBase::Reserved(ReservedWord::Assign),
            TokenBase::Number("1".to_string()),
            TokenBase::Reserved(ReservedWord::SemiColon),
        ],
        bases
    );
    let mut parser = Parser::new(TokenStack::new(&tokens));
    parser.parse().unwrap();
    let unit = kids(&parser.ast);
    assert_eq!(1, unit.len());
    let exportable = &unit[0];
    assert_eq!(
        AstType::NonTerminal(NonTerminal::ExportableConstDeclaration),
        kind(exportable)
    );
    let decl = &kids(exportable)[0];
    assert_eq!(AstType::NonTerminal(NonTerminal::ConstDeclaration), kind(decl));
    let body = &kids(decl)[0];
    assert_eq!(AstType::NonTerminal(NonTerminal::DeclarationBody), kind(body));
    assert_eq!(TokenBase::Identifier("x".to_string()), leaf(&kids(body)[0]));
    let expr = &kids(body)[1];
    assert_eq!(AstType::NonTerminal(NonTerminal::Expression), kind(expr));
    assert_eq!(TokenBase::Number("1".to_string()), leaf(&kids(expr)[0]));
}

#[test]
fn parse_consumes_everything_and_recovers() {
    let tokens = lex("import { a } from 'm'; [EntryPoint] export default const main = () => { f(1, x.y); 2 }; ; const z = 3;");
    let mut parser = Parser::new(TokenStack::new(&tokens));
    assert!(parser.parse().is_err());
    assert_eq!(1, parser.errors().errors().len());
    assert!(!parser.tokens.has_next());
    let unit = kids(&parser.ast);
    assert_eq!(4, unit.len());
    assert_eq!(AstType::NonTerminal(NonTerminal::ImportDeclaration), kind(&unit[0]));
    assert_eq!(AstType::NonTerminal(NonTerminal::Attribute), kind(&unit[1]));
    assert_eq!(3, kids(&unit[2]).len());
    assert_eq!(1, kids(&unit[3]).len());
}

#[test]
fn ast_construction_and_invalid_flag() {
    let t = Token::new(Ok(TokenBase::Identifier("a".to_string())), 1, 1, 0, String::new());
    let mut l = Ast::new_leaf(t);
    assert!(!l.is_invalid());
    l.set_invalid();
    assert!(l.is_invalid());
    let mut node = Ast::new_node_with_leaves(NonTerminal::Args, Vec::new());
    assert!(!node.is_invalid());
    node.add_child(l);
    assert!(node.is_invalid());
    let t2 = Token::new(Ok(TokenBase::Number("1".to_string())), 1, 3, 2, String::new());
    let t3 = Token::new(Ok(TokenBase::Number("2".to_string())), 1, 5, 4, String::new());
    node.add_children(vec![Ast::new_leaf(t2), Ast::new_leaf(t3)]);
    assert_eq!(3, kids(&node).len());
    assert_eq!(TokenBase::Number("2".to_string()), leaf(&kids(&node)[2]));
    let outer = Ast::new_node_with_leaves(NonTerminal::Expression, vec![node]);
    assert!(outer.is_invalid());
}

#[test]
fn tree_dump_lists_kinds_and_tokens() {
    let tokens = lex("const x = 1;");
    let mut parser = Parser::new(TokenStack::new(&tokens));
    parser.parse().unwrap();
    assert_eq!(
        "NonTerminal(TranslationUnit)\n  NonTerminal(ExportableConstDeclaration)\n    NonTerminal(ConstDeclaration)\n      NonTerminal(DeclarationBody)\n        x\n        NonTerminal(Expression)\n          1\n",
        parser.ast.unparse()
    );
}

#[test]
fn repeated_end_of_input_is_shown_once() {
    let tokens = lex("import { a");
    let mut parser = Parser::new(TokenStack::new(&tokens));
    assert!(parser.parse().is_err());
    let all = parser.errors().errors();
    assert_eq!(2, all.len());
    assert!(matches!(all[0].get_type(), InvalidSyntaxType::UnexpectedEof));
    assert!(matches!(all[1].get_type(), InvalidSyntaxType::UnexpectedEof));
    assert_eq!(1, parser.errors().shown().len());
}
