use datalang::compile;
use datalang::frontend::parser::{Expected, SyntaxError};
use datalang::frontend::tokenizer::{LexError, Token, TokenKind};
use datalang::frontend::{Namespace, ResolveError};
use datalang::CompileError;

#[test]
fn compiles_declarations_to_classes() {
    assert_eq!(
        compile("data Unit;\ndata Pair(Unit, Unit);\ndata P{x: Unit, y: Pair}\n"),
        Ok(concat(&[
            "class Unit{constructor(){}}",
            "class Pair{constructor(_0,_1){this[\"_0\"]=_0;this[\"_1\"]=_1}}",
            "class P{constructor(_0,_1){this[\"x\"]=_0;this[\"y\"]=_1}}",
        ]))
    );
}

fn concat(parts: &[&str]) -> String {
    parts.iter().map(|part| part.to_string()).collect()
}

#[test]
fn compiles_a_sum_type() {
    assert_eq!(
        compile("data Int; data E{A, B(Int), C{x: Int}}"),
        Ok(concat(&[
            "class Int{constructor(){}}",
            "class E{constructor(_0,_1,_2){this[\"_variant\"]=_0;this[\"_0\"]=_1;this[\"x\"]=_2}}",
        ]))
    );
}

#[test]
fn the_types_of_functions_are_not_written() {
    assert_eq!(
        compile("data A; fn f() { data Local(A); }"),
        Ok("class A{constructor(){}}".to_string())
    );
}

#[test]
fn compiling_twice_gives_the_same_text() {
    let source = "data Int; data A(B, Int); data B{x: A, y: Int} data E{L(A), R(B), N}
                  fn f() { data C(A, B, E); let x: Int = 1; }";
    let first = compile(source);
    let second = compile(source);
    assert!(first.is_ok());
    assert_eq!(first, second);
    assert_eq!(
        first,
        Ok(concat(&[
            "class Int{constructor(){}}",
            "class A{constructor(_0,_1){this[\"_0\"]=_0;this[\"_1\"]=_1}}",
            "class B{constructor(_0,_1){this[\"x\"]=_0;this[\"y\"]=_1}}",
            "class E{constructor(_0,_1){this[\"_variant\"]=_0;this[\"_0\"]=_1}}",
        ]))
    );
}

#[test]
fn empty_text_compiles_to_empty_text() {
    assert_eq!(compile(""), Ok(String::new()));
}

#[test]
fn what_stands_behind_the_block_is_not_looked_at() {
    assert_eq!(compile("data A; } data A;"), Ok("class A{constructor(){}}".to_string()));
}

#[test]
fn each_stage_reports_its_error() {
    assert_eq!(
        compile("data A; ?"),
        Err(CompileError::Lexical(LexError { character: '?', position: 8 }))
    );
    assert_eq!(
        compile("data A"),
        Err(CompileError::Syntax(SyntaxError {
            expected: Expected::DataShape,
            found: None,
            position: 2,
        }))
    );
    assert_eq!(
        compile("data A(B;"),
        Err(CompileError::Syntax(SyntaxError {
            expected: Expected::Either(TokenKind::Comma, TokenKind::ParenRight),
            found: Some(Token::SemiColon),
            position: 4,
        }))
    );
    assert_eq!(
        compile("data A(Ghost);"),
        Err(CompileError::Resolve(ResolveError::UnresolvedType { name: "Ghost".to_string() }))
    );
    assert_eq!(
        compile("data X; data X;"),
        Err(CompileError::Resolve(ResolveError::DuplicateName {
            namespace: Namespace::Type,
            name: "X".to_string(),
        }))
    );
}

#[test]
fn a_lexical_error_comes_before_any_other() {
    assert_eq!(
        compile("data A(Ghost); data ; #"),
        Err(CompileError::Lexical(LexError { character: '#', position: 22 }))
    );
}
