use rotten_script::reserved_word::ReservedWord;
use rotten_script::token::{Token, TokenBase};
use rotten_script::token_stack::TokenStack;

fn create_token_data(token_base: TokenBase) -> Token {
    Token::new(Ok(token_base), 0, 0, 0, String::new())
}

#[test]
fn test_basic_utilities() {
    let tokens = [
        create_token_data(TokenBase::Reserved(ReservedWord::Arrow)),
        create_token_data(TokenBase::Reserved(ReservedWord::Comma)),
        create_token_data(TokenBase::Identifier("test".to_string())),
    ];

    let mut token_stack = TokenStack::new(&tokens);
    assert_eq!(true, token_stack.has_next());
    assert!(token_stack.peek_token().is_none());
    assert_eq!(
        Some(tokens[0].get_token().as_ref().unwrap().clone()),
        token_stack.next()
    );
    assert_eq!(0, token_stack.ind());
    assert_eq!(
        Some(tokens[1].get_token().as_ref().unwrap().clone()),
        token_stack.next()
    );
    assert_eq!(
        Some(tokens[2].get_token().as_ref().unwrap().clone()),
        token_stack.look_ahead(1)
    );
    assert_eq!(
        Some(tokens[1].get_token().as_ref().unwrap().clone()),
        token_stack.peek()
    );
    assert_eq!(
        Some(tokens[2].get_token().as_ref().unwrap().clone()),
        token_stack.next()
    );
    assert_eq!(false, token_stack.has_next());
}

#[test]
fn test_scan_reserved() {
    let tokens = [
        create_token_data(TokenBase::Reserved(ReservedWord::Arrow)),
        create_token_data(TokenBase::Reserved(ReservedWord::Comma)),
        create_token_data(TokenBase::Identifier("test".to_string())),
    ];

    let mut token_stack = TokenStack::new(&tokens);
    token_stack.scan_reserved(ReservedWord::Arrow).unwrap();
    token_stack.next();
    token_stack.scan_reserved(ReservedWord::Comma).unwrap();
    token_stack.next();
    if token_stack.scan_reserved(ReservedWord::Arrow).is_ok() {
        panic!()
    }
}

#[test]
fn test_consume_reserved() {
    let tokens = [
        create_token_data(TokenBase::Reserved(ReservedWord::Arrow)),
        create_token_data(TokenBase::Reserved(ReservedWord::Comma)),
        create_token_data(TokenBase::Identifier("test".to_string())),
    ];

    let mut token_stack = TokenStack::new(&tokens);
    token_stack.consume_reserved(ReservedWord::Arrow).unwrap();
    token_stack.consume_reserved(ReservedWord::Comma).unwrap();
    if token_stack.consume_reserved(ReservedWord::Arrow).is_ok() {
        panic!()
    }
}

#[test]
fn lookahead_past_the_end_and_skipping() {
    let tokens = [
        create_token_data(TokenBase::Identifier("a".to_string())),
        create_token_data(TokenBase::Reserved(ReservedWord::Comma)),
        create_token_data(TokenBase::Reserved(ReservedWord::SemiColon)),
    ];
    let mut token_stack = TokenStack::new(&tokens);
    assert_eq!(-1, token_stack.ind());
    assert!(token_stack.look_ahead(4).is_none());
    assert!(token_stack.nth(0).is_none());
    assert_eq!(
        Some(TokenBase::Reserved(ReservedWord::SemiColon)),
        token_stack.look_ahead(3)
    );
    token_stack.skip_reserved_until(ReservedWord::SemiColon).unwrap();
    assert_eq!(1, token_stack.ind());
    assert!(token_stack.skip_reserved_until(ReservedWord::Arrow).is_err());
    assert!(!token_stack.has_next());
    assert!(token_stack.next_token().is_none());
    assert!(token_stack.scan_reserved(ReservedWord::Comma).is_err());
}
