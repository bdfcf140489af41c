use bigdecimal::{BigDecimal, FromPrimitive};
use rxl::ast::Expr;
use rxl::decimal::Decimal;
use rxl::error::{TableError, TableResult};
use rxl::parser::Parser;
use rxl::tokenizer::{Token, Tokenizer};
use std::ops::Range;

fn number(x: f64) -> Token {
    Token::Number(Decimal::parse(&BigDecimal::from_f64(x).unwrap().to_string()).unwrap())
}

fn parse_tokens(tokens: Vec<Token>) -> TableResult<Expr> {
    let mut parser = Parser::new(tokens.into_iter().map(Ok).collect());
    parser.ast()
}

fn parse_text(text: &str) -> TableResult<Expr> {
    let chars: Vec<char> = text.chars().collect();
    let mut tokenizer = Tokenizer::new(&chars);
    let mut parser = Parser::new(tokenizer.tokens());
    parser.ast()
}

#[test]
fn test_simple_op() {

    for op in [Token::Minus, Token::Plus, Token::Slash, Token::Star] {
        for left_token in [Token::CellRef((0, 0)), number(1.2)] {
            for right_token in [Token::CellRef((1, 1)), number(1.4)] {
                let tokens = vec![left_token.clone(), op.clone(), right_token.clone()];
                let ast = parse_tokens(tokens);
                assert!(ast.is_ok());
                let expectec_ast = Expr::binary(
                    Expr::literal(left_token.clone()),
                    op.clone(),
                    Expr::literal(right_token),
                );

                let ast = ast.unwrap();

                assert_eq!(ast, expectec_ast);
            }
        }
    }
}

#[test]
fn test_sum_of_sums() {

    let tokens = vec![
        Token::Sum,
        Token::LeftParen,
        Token::CellRef((0, 0)),
        Token::Comma,
        Token::Sum,
        Token::LeftParen,
        Token::CellRange((Range { start: 0, end: 5 }, Range { start: 1, end: 3 })),
        Token::RightParen,
        Token::RightParen,
    ];

    let ast = parse_tokens(tokens);
    assert!(ast.is_ok());
    assert_eq!(
        ast.unwrap(),
        Expr::call(
            Expr::literal(Token::Sum),
            vec![
                Expr::literal(Token::CellRef((0, 0)),),
                Expr::call(
                    Expr::literal(Token::Sum),
                    vec![Expr::literal(Token::CellRange((
                        Range { start: 0, end: 5 },
                        Range { start: 1, end: 3 }
                    )),)]
                )
            ]
        )
    );
}

#[test]
fn precedence_and_left_grouping() {
    let one = Token::Number(Decimal::parse("1").unwrap());
    let two = Token::Number(Decimal::parse("2").unwrap());
    let three = Token::Number(Decimal::parse("3").unwrap());
    let expected = Expr::binary(
        Expr::binary(Expr::literal(one.clone()), Token::Minus, Expr::literal(two.clone())),
        Token::Plus,
        Expr::binary(Expr::literal(three.clone()), Token::Star, Expr::literal(one.clone())),
    );
    assert_eq!(parse_text("1 - 2 + 3 * 1").unwrap(), expected);
    let grouped = Expr::binary(
        Expr::literal(one.clone()),
        Token::Minus,
        Expr::grouping(Expr::binary(Expr::literal(two), Token::Plus, Expr::literal(three))),
    );
    assert_eq!(parse_text("1-(2+3)").unwrap(), grouped);
    assert_eq!(
        parse_text("--1").unwrap(),
        Expr::unary(Token::Minus, Expr::unary(Token::Minus, Expr::literal(one)))
    );
}

#[test]
fn missing_parentheses_are_reported() {
    match parse_text("(1+2") {
        Err(TableError::ErrorConstructingAst(m)) => assert_eq!(m, "Expected ')' after expression"),
        other => panic!("unexpected {:?}", other),
    }
    match parse_text("sum(1,2") {
        Err(TableError::ErrorConstructingAst(m)) => assert_eq!(m, "Expect ')' after arguments"),
        other => panic!("unexpected {:?}", other),
    }
    match parse_text("1+") {
        Err(TableError::ErrorConstructingAst(m)) => assert_eq!(m, "Invalid primary expression token"),
        other => panic!("unexpected {:?}", other),
    }
    assert!(matches!(parse_text("sum()"), Err(TableError::ErrorConstructingAst(_))));
}

#[test]
fn lexer_error_stops_the_parse() {
    assert!(matches!(parse_text("1 + $"), Err(TableError::InvalidCell(_))));
    assert!(parse_text("1 2 $").is_ok());
}
