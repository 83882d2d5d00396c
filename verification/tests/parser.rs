use datalang::frontend::parser::{
    Block, DataItem, DataVariant, Expected, Expression, FunctionItem, LetItem, Parser, Statement,
    SyntaxError,
};
use datalang::frontend::tokenizer::{Token, TokenKind, Tokenizer};

fn parser(text: &str) -> Parser {
    Parser::new(Tokenizer::new(text.chars().collect()).tokenize().unwrap())
}

fn s(text: &str) -> String {
    text.to_string()
}

fn field(name: &str, declared: &str) -> (String, String) {
    (s(name), s(declared))
}

fn refused(expected: Expected, found: Option<Token>, position: usize) -> SyntaxError {
    SyntaxError { expected, found, position }
}

#[test]
fn parses_a_marker() {
    assert_eq!(
        parser("data Unit;").parse_data(),
        Ok(DataItem::Single(DataVariant::Marker { name: s("Unit") }))
    );
}

#[test]
fn parses_a_tuple() {
    assert_eq!(
        parser("data Pair(Int, Int);").parse_data(),
        Ok(DataItem::Single(DataVariant::Tuple { name: s("Pair"), fields: vec![s("Int"), s("Int")] }))
    );
}

#[test]
fn parses_a_struct() {
    assert_eq!(
        parser("data P{x: Int, y: Int}").parse_data(),
        Ok(DataItem::Single(DataVariant::Struct {
            name: s("P"),
            fields: vec![field("x", "Int"), field("y", "Int")],
        }))
    );
}

#[test]
fn parses_a_sum_type() {
    assert_eq!(
        parser("data E{A, B(Int), C{x: Int}}").parse_data(),
        Ok(DataItem::Multiple {
            name: s("E"),
            variants: vec![
                DataVariant::Marker { name: s("A") },
                DataVariant::Tuple { name: s("B"), fields: vec![s("Int")] },
                DataVariant::Struct { name: s("C"), fields: vec![field("x", "Int")] },
            ],
        })
    );
}

#[test]
fn parses_an_empty_sum_type() {
    assert_eq!(
        parser("data Never { }").parse_data(),
        Ok(DataItem::Multiple { name: s("Never"), variants: vec![] })
    );
}

#[test]
fn a_colon_behind_the_first_name_makes_a_struct() {
    assert_eq!(
        parser("data S{A: B}").parse_data(),
        Ok(DataItem::Single(DataVariant::Struct { name: s("S"), fields: vec![field("A", "B")] }))
    );
    assert_eq!(
        parser("data S{A}").parse_data(),
        Ok(DataItem::Multiple { name: s("S"), variants: vec![DataVariant::Marker { name: s("A") }] })
    );
}

#[test]
fn a_colon_ends_a_marker_variant() {
    assert_eq!(
        parser("data E{A(), B:, C}").parse_data(),
        Ok(DataItem::Multiple {
            name: s("E"),
            variants: vec![
                DataVariant::Tuple { name: s("A"), fields: vec![] },
                DataVariant::Marker { name: s("B") },
                DataVariant::Marker { name: s("C") },
            ],
        })
    );
}

#[test]
fn lists_of_a_variant_may_end_with_a_comma() {
    assert_eq!(
        parser("data E{A(X, Y,), B{x: X,}}").parse_data(),
        Ok(DataItem::Multiple {
            name: s("E"),
            variants: vec![
                DataVariant::Tuple { name: s("A"), fields: vec![s("X"), s("Y")] },
                DataVariant::Struct { name: s("B"), fields: vec![field("x", "X")] },
            ],
        })
    );
    assert_eq!(
        parser("data T(X,);").parse_data(),
        Ok(DataItem::Single(DataVariant::Tuple { name: s("T"), fields: vec![s("X")] }))
    );
    assert_eq!(
        parser("data T();").parse_data(),
        Ok(DataItem::Single(DataVariant::Tuple { name: s("T"), fields: vec![] }))
    );
}

#[test]
fn a_struct_item_takes_no_comma_behind_its_last_field() {
    assert_eq!(
        parser("data P{x: Int,}").parse_data(),
        Err(refused(Expected::Kind(TokenKind::Identifier), Some(Token::BraceRight), 7))
    );
}

#[test]
fn a_sum_type_takes_no_comma_behind_its_last_variant() {
    assert_eq!(
        parser("data E{A, B,}").parse_data(),
        Err(refused(Expected::Kind(TokenKind::Identifier), Some(Token::BraceRight), 7))
    );
}

#[test]
fn a_tuple_item_needs_its_semicolon() {
    assert_eq!(
        parser("data Pair(Int, Int)").parse_data(),
        Err(refused(Expected::Kind(TokenKind::SemiColon), None, 7))
    );
    assert_eq!(
        parser("data T() data").parse_data(),
        Err(refused(Expected::Kind(TokenKind::SemiColon), Some(Token::KeywordData), 4))
    );
}

#[test]
fn refuses_what_is_no_data_item() {
    assert_eq!(
        parser("let").parse_data(),
        Err(refused(Expected::Kind(TokenKind::KeywordData), Some(Token::KeywordLet), 0))
    );
    assert_eq!(
        parser("data 12").parse_data(),
        Err(refused(
            Expected::Kind(TokenKind::Identifier),
            Some(Token::LiteralNumber(s("12"))),
            1
        ))
    );
    assert_eq!(
        parser("data X =").parse_data(),
        Err(refused(Expected::DataShape, Some(Token::Equals), 2))
    );
    assert_eq!(parser("data X").parse_data(), Err(refused(Expected::DataShape, None, 2)));
    assert_eq!(
        parser("data X { ; }").parse_data(),
        Err(refused(
            Expected::Either(TokenKind::Identifier, TokenKind::BraceRight),
            Some(Token::SemiColon),
            3
        ))
    );
    assert_eq!(
        parser("data X { A = }").parse_data(),
        Err(refused(Expected::VariantShape, Some(Token::Equals), 4))
    );
    assert_eq!(
        parser("data X(A B);").parse_data(),
        Err(refused(
            Expected::Either(TokenKind::Comma, TokenKind::ParenRight),
            Some(Token::Identifier(s("B"))),
            4
        ))
    );
    assert_eq!(
        parser("data X(;").parse_data(),
        Err(refused(
            Expected::Either(TokenKind::Identifier, TokenKind::ParenRight),
            Some(Token::SemiColon),
            3
        ))
    );
    assert_eq!(
        parser("data X { a: B; }").parse_data(),
        Err(refused(
            Expected::Either(TokenKind::Comma, TokenKind::BraceRight),
            Some(Token::SemiColon),
            6
        ))
    );
    assert_eq!(
        parser("data X { a: 1 }").parse_data(),
        Err(refused(
            Expected::Kind(TokenKind::Identifier),
            Some(Token::LiteralNumber(s("1"))),
            5
        ))
    );
    assert_eq!(
        parser("data X { V { a B } }").parse_data(),
        Err(refused(Expected::Kind(TokenKind::Colon), Some(Token::Identifier(s("B"))), 6))
    );
}

#[test]
fn parses_a_function() {
    assert_eq!(
        parser("fn main() { data Local; }").parse_function(),
        Ok(FunctionItem {
            name: s("main"),
            arguments: vec![],
            body: Block(vec![Statement::DataItem(DataItem::Single(DataVariant::Marker {
                name: s("Local")
            }))]),
        })
    );
}

#[test]
fn a_function_takes_no_arguments() {
    assert_eq!(
        parser("fn f(x: Int) { }").parse_function(),
        Err(refused(Expected::Kind(TokenKind::ParenRight), Some(Token::Identifier(s("x"))), 3))
    );
}

#[test]
fn a_function_needs_its_closing_brace() {
    assert_eq!(
        parser("fn f() { data A;").parse_function(),
        Err(refused(Expected::Kind(TokenKind::BraceRight), None, 8))
    );
    assert_eq!(
        parser("fn f() { 1 }").parse_function(),
        Err(refused(
            Expected::Kind(TokenKind::BraceRight),
            Some(Token::LiteralNumber(s("1"))),
            5
        ))
    );
}

#[test]
fn parses_a_let_with_each_kind_of_expression() {
    assert_eq!(
        parser("let x: Int = 42;").parse_let(),
        Ok(LetItem {
            name: s("x"),
            declared_type: s("Int"),
            expression: Expression::LiteralInteger(s("42")),
        })
    );
    assert_eq!(
        parser("let b: Bool = true;").parse_let(),
        Ok(LetItem {
            name: s("b"),
            declared_type: s("Bool"),
            expression: Expression::LiteralBoolean(true),
        })
    );
    assert_eq!(
        parser("let b: Bool = false;").parse_let(),
        Ok(LetItem {
            name: s("b"),
            declared_type: s("Bool"),
            expression: Expression::LiteralBoolean(false),
        })
    );
    assert_eq!(
        parser("let y: Int = f();").parse_let(),
        Ok(LetItem {
            name: s("y"),
            declared_type: s("Int"),
            expression: Expression::FunctionCall { name: s("f"), arguments: vec![] },
        })
    );
    assert_eq!(
        parser("let z: Int = { data Inner; };").parse_let(),
        Ok(LetItem {
            name: s("z"),
            declared_type: s("Int"),
            expression: Expression::Block(Block(vec![Statement::DataItem(DataItem::Single(
                DataVariant::Marker { name: s("Inner") }
            ))])),
        })
    );
}

#[test]
fn refuses_expressions_that_the_grammar_does_not_have() {
    assert_eq!(
        parser("x;").parse_expression(),
        Err(refused(Expected::Kind(TokenKind::ParenLeft), Some(Token::SemiColon), 1))
    );
    assert_eq!(
        parser("f(1)").parse_expression(),
        Err(refused(
            Expected::Kind(TokenKind::ParenRight),
            Some(Token::LiteralNumber(s("1"))),
            2
        ))
    );
    assert_eq!(
        parser(";").parse_expression(),
        Err(refused(Expected::Expression, Some(Token::SemiColon), 0))
    );
    assert_eq!(parser("").parse_expression(), Err(refused(Expected::Expression, None, 0)));
    assert_eq!(
        parser("let x: Int 1;").parse_let(),
        Err(refused(Expected::Kind(TokenKind::Equals), Some(Token::LiteralNumber(s("1"))), 4))
    );
    assert_eq!(
        parser("let x: Int = 1").parse_let(),
        Err(refused(Expected::Kind(TokenKind::SemiColon), None, 6))
    );
}

#[test]
fn a_block_ends_at_the_first_token_that_starts_no_item() {
    let mut parser = parser("data A; fn f() { } let x: A = 1; } data B;");
    assert_eq!(
        parser.parse_block(),
        Ok(Block(vec![
            Statement::DataItem(DataItem::Single(DataVariant::Marker { name: s("A") })),
            Statement::FunctionItem(FunctionItem {
                name: s("f"),
                arguments: vec![],
                body: Block(vec![]),
            }),
            Statement::LetItem(LetItem {
                name: s("x"),
                declared_type: s("A"),
                expression: Expression::LiteralInteger(s("1")),
            }),
        ]))
    );
    assert_eq!(parser.parse_block(), Ok(Block(vec![])));
}

#[test]
fn an_empty_block_is_a_block() {
    assert_eq!(parser("").parse_block(), Ok(Block(vec![])));
}

#[test]
fn a_block_fails_where_one_of_its_items_fails() {
    assert_eq!(
        parser("data A; data B(").parse_block(),
        Err(refused(Expected::Either(TokenKind::Identifier, TokenKind::ParenRight), None, 6))
    );
}

#[test]
fn names_of_items_and_variants() {
    let item = parser("data E{A, B(Int)}").parse_data().unwrap();
    assert_eq!(item.name(), "E");
    let single = parser("data Pair(Int, Int);").parse_data().unwrap();
    assert_eq!(single.name(), "Pair");
    assert_eq!(DataVariant::Marker { name: s("M") }.name(), "M");
    assert_eq!(DataVariant::Tuple { name: s("T"), fields: vec![] }.name(), "T");
    assert_eq!(DataVariant::Struct { name: s("S"), fields: vec![] }.name(), "S");
}

#[test]
fn statements_hand_out_their_items() {
    let block = parser("data A; fn f() { }").parse_block().unwrap();
    assert!(block.0[0].data_item_ref().is_some());
    assert!(block.0[0].function_item_ref().is_none());
    assert!(block.0[1].data_item_ref().is_none());
    assert_eq!(block.0[1].function_item_ref().unwrap().name, "f");
}
