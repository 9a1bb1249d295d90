use rotten_script::ast::Ast;
use rotten_script::builder::Builder;
use rotten_script::lexer::Lexer;
use rotten_script::member_map::MemberMap;
use rotten_script::parser::Parser;
use rotten_script::semantic_tree::{ExportedType, FuncInfo, SemanticError, SemanticTree};
use rotten_script::token_stack::TokenStack;

fn parse(src: &str) -> Ast {
    let mut lexer = Lexer::new(src, "f.rots");
    lexer.lex().unwrap();
    let tokens = lexer.tokens;
    let mut parser = Parser::new(TokenStack::new(&tokens));
    parser.parse().unwrap();
    parser.ast
}

fn transpile(files: Vec<(&str, &str)>) -> Vec<(String, String)> {
    let asts: Vec<(String, Ast)> = files.iter().map(|(p, s)| (p.to_string(), parse(s))).collect();
    let list: Vec<(String, &Ast)> = asts.iter().map(|(p, a)| (p.clone(), a)).collect();
    let mut tree = SemanticTree::new(list);
    tree.analyze().unwrap();
    let mut builder = Builder::new(&tree);
    builder.unparse()
}

#[test]
fn two_entry_points_are_refused() {
    let a = parse("[EntryPoint] const main = () => {};");
    let b = parse("[EntryPoint] const start = () => {};");
    let mut tree = SemanticTree::new(vec![("a.rots".to_string(), &a), ("b.rots".to_string(), &b)]);
    assert_eq!(Err(SemanticError::MultipleEntryPoints), tree.analyze());
}

#[test]
fn one_entry_point_is_found() {
    let a = parse("const helper = 1;");
    let b = parse("[Other] [EntryPoint] export const main = () => {};");
    let mut tree = SemanticTree::new(vec![("a.rots".to_string(), &a), ("b.rots".to_string(), &b)]);
    assert_eq!(Ok(()), tree.analyze());
    assert_eq!(Some("main".to_string()), tree.get_entrypoint_func_name());
    assert_eq!(Some(1), tree.get_entrypoint_file());
    let members = tree.get_members();
    assert_eq!(2, members.len());
    assert_eq!(0, members[0].func_id);
    assert_eq!(1, members[1].func_id);
    assert_eq!("b.rots#main", members[1].full_path);
    assert_eq!(ExportedType::Export, members[1].exported_type);
    assert_eq!(ExportedType::NotExported, members[0].exported_type);
    assert!(members[1].is_entry);
}

#[test]
fn func_info_reads_the_entry_point_attribute() {
    let f = FuncInfo::new(
        "run".to_string(),
        "x.rots".to_string(),
        7,
        vec!["Inline".to_string(), "EntryPoint".to_string()],
        ExportedType::DefaultExport,
    );
    assert!(f.is_entry);
    assert_eq!("x.rots#run", f.full_path);
    assert_eq!("x.rots", f.file_name);
    let g = FuncInfo::new("h".to_string(), "x".to_string(), 0, vec![], ExportedType::Export);
    assert!(!g.is_entry);
}

#[test]
fn end_to_end_unparse() {
    let out = transpile(vec![("a.rots", "const x = 1;")]);
    assert_eq!(vec![("a.rots".to_string(), "const x = 1;\n".to_string())], out);
}

#[test]
fn entry_point_call_is_appended() {
    let out = transpile(vec![
        ("lib.rots", "export const two = 2;"),
        ("main.rots", "import { two } from 'lib';\n[EntryPoint]\nexport default const main = () => {\n  log(two);\n};"),
    ]);
    assert_eq!("export const two = 2;\n", out[0].1);
    assert_eq!(
        "import { two } from \"lib\";\nexport default const main = () => {\n    log(two);\n};\n\nmain();\n",
        out[1].1
    );
}

#[test]
fn blocks_and_expressions_are_normalized() {
    let out = transpile(vec![(
        "a.rots",
        "import React from \"react\"; const f = () => { let y = a.b(1,2) + (-c) ** 2; y };",
    )]);
    assert_eq!(
        "import React from \"react\";\nconst f = () => {\n    let y = a.b(1,2) + (-c) ** 2;\n    y\n};\n",
        out[0].1
    );
}

#[test]
fn unparse_is_a_fixed_point() {
    let src = "import { a, b } from 'm';\nexport const main = () => { const v = a.c(1, 'x') * (2 + 3) || !b; v; f(() => { 1 }) };";
    let first = transpile(vec![("m.rots", src)]);
    let second = transpile(vec![("m.rots", &first[0].1)]);
    assert_eq!(first, second);
}

#[test]
fn member_map_keeps_ids_unique() {
    let mut map = MemberMap::new();
    assert_eq!(0, map.len());
    let a = FuncInfo::new("a".to_string(), "x.rots".to_string(), 0, vec![], ExportedType::Export);
    let b = FuncInfo::new(
        "b".to_string(),
        "y.rots".to_string(),
        1,
        vec!["EntryPoint".to_string()],
        ExportedType::NotExported,
    );
    let c = FuncInfo::new("c".to_string(), "x.rots".to_string(), 2, vec![], ExportedType::Export);
    let dup = FuncInfo::new("d".to_string(), "z.rots".to_string(), 1, vec![], ExportedType::Export);
    assert_eq!(Ok(()), map.insert(a));
    assert_eq!(Ok(()), map.insert(b));
    assert_eq!(Ok(()), map.insert(c));
    assert_eq!(Err(()), map.insert(dup));
    assert_eq!(3, map.len());
    let in_x: Vec<&str> = map.get_from_file_name("x.rots").iter().map(|f| f.name.as_str()).collect();
    assert_eq!(vec!["a", "c"], in_x);
    let in_z: Vec<&str> = map.get_from_file_name("z.rots").iter().map(|f| f.name.as_str()).collect();
    assert_eq!(vec!["d"], in_z);
    assert_eq!(&[1usize][..], map.get_entrypoint_ids());
}
