pub mod ast;
pub mod builder;
pub mod grammar;
pub mod import_parser;
pub mod invalid_syntax;
pub mod lex_error;
pub mod lexer;
pub mod member_map;
pub mod non_terminal;
pub mod parser;
pub mod reserved_word;
pub mod semantic_tree;
pub mod token;
pub mod token_stack;
