use bigdecimal::{BigDecimal, FromPrimitive};
use rxl::decimal::Decimal;
use rxl::error::{TableError, TableResult};
use rxl::tokenizer::Token;
use rxl::tokenizer::Tokenizer;
use std::ops::Range;

fn lex(input: &[char]) -> Vec<TableResult<Token>> {
    let mut tokenizer = Tokenizer::new(input);
    tokenizer.tokens()
}

#[test]
fn test_parse_integer() {
    let tokens = lex(&[' ', '1', '.', '2']);
    assert_eq!(tokens.len(), 1);
    let token = tokens[0].clone().unwrap();
    assert_eq!(token, Token::Number(Decimal::new(false, vec![1, 2], 1).unwrap()));
}

#[test]
fn test_parse_cell_reference() {
    let tokens = lex(&[' ', 'a', 'a', '1', '2']);
    assert_eq!(tokens.len(), 1);
    let token = tokens[0].clone().unwrap();
    assert_eq!(token, Token::CellRef((26, 11)));
}

#[test]
fn test_parse_cell_op() {
    for (op, expected_op_token) in vec![('+', Token::Plus), ('-', Token::Minus), ('/', Token::Slash), ('*', Token::Star)] {
        let input = &[' ', ' ', 'a', '1', ' ', op, ' ', 'b', '3'];
        let tokens = lex(input);
        assert_eq!(tokens.len(), 3);
        let expected_tokens = vec![Token::CellRef((0, 0)), expected_op_token, Token::CellRef((1, 2))];
        for (token, expected_token) in tokens.iter().zip(expected_tokens) {
            assert!(token.is_ok());
            assert_eq!(token.clone().unwrap(), expected_token);
        }
    }
}

#[test]
fn test_parse_cell_range() {
    let input = &[' ', ' ', 'a', '1', ':', 'a', '5'];
    let tokens = lex(input);
    assert_eq!(tokens.len(), 1);
    assert_eq!(
        tokens[0].clone().unwrap(),
        Token::CellRange((Range { start: 0, end: 1 }, Range { start: 0, end: 5 }))
    )
}

#[test]
fn test_sum_cell_range() {
    let input = &[
        ' ', ' ', 's', 'u', 'm', '(', 'a', '1', ':', 'b', '2', '2', ')', '+', 'c', '3',
    ];
    let tokens = lex(input);
    assert_eq!(tokens.len(), 6);
    let expected_tokens = vec![
        Token::Sum,
        Token::LeftParen,
        Token::CellRange((Range { start: 0, end: 2 }, Range { start: 0, end: 22 })),
        Token::RightParen,
        Token::Plus,
        Token::CellRef((2, 2)),
    ];
    for (token, expected_token) in tokens.iter().zip(expected_tokens) {
        assert!(token.is_ok());
        assert_eq!(token.clone().unwrap(), expected_token)
    }
}

#[test]
fn test_sum_cell_values() {
    let input = &[
        ' ', ' ', 's', 'u', 'm', '(', 'a', '1', ',', ' ', 'b', '2', '2', ')', '+', 'c', '3',
    ];
    let tokens = lex(input);
    assert_eq!(tokens.len(), 8);
    let expected_tokens = vec![
        Token::Sum,
        Token::LeftParen,
        Token::CellRef((0, 0)),
        Token::Comma,
        Token::CellRef((1, 21)),
        Token::RightParen,
        Token::Plus,
        Token::CellRef((2, 2)),
    ];
    for (token, expected_token) in tokens.iter().zip(expected_tokens) {
        assert!(token.is_ok());
        assert_eq!(token.clone().unwrap(), expected_token)
    }
}

fn chars(s: &str) -> Vec<char> {
    s.chars().collect()
}

#[test]
fn column_letters_are_base_26_without_zero() {
    assert_eq!(lex(&chars("aa12"))[0].clone().unwrap(), Token::CellRef((26, 11)));
    assert_eq!(lex(&chars("a1"))[0].clone().unwrap(), Token::CellRef((0, 0)));
    assert_eq!(lex(&chars("z1"))[0].clone().unwrap(), Token::CellRef((25, 0)));
    assert_eq!(lex(&chars("AA1"))[0].clone().unwrap(), Token::CellRef((26, 0)));
    assert_eq!(lex(&chars("ba3"))[0].clone().unwrap(), Token::CellRef((52, 2)));
}

#[test]
fn range_spans_both_corners() {
    let expected = Token::CellRange((Range { start: 0, end: 2 }, Range { start: 0, end: 22 }));
    assert_eq!(lex(&chars("a1:b22"))[0].clone().unwrap(), expected);
    assert_eq!(lex(&chars("b22:a1"))[0].clone().unwrap(), expected);
    assert_eq!(lex(&chars("b1:a22"))[0].clone().unwrap(), expected);
}

#[test]
fn sum_keyword_ignores_case() {
    assert_eq!(lex(&chars("SuM"))[0].clone().unwrap(), Token::Sum);
}

#[test]
fn letters_after_sum_make_a_reference() {
    let tokens = lex(&chars("sums1"));
    assert_eq!(tokens[0].clone().unwrap(), Token::CellRef((348_496, 0)));
    let tokens = lex(&chars("sumé1"));
    assert!(matches!(tokens[0], Err(TableError::InvalidCell(_))));
}

#[test]
fn tabs_and_newlines_are_skipped() {
    let tokens = lex(&chars("\t1\n+ 2"));
    assert_eq!(tokens.len(), 3);
    assert_eq!(tokens[1].clone().unwrap(), Token::Plus);
}

#[test]
fn unknown_character_is_reported() {
    let tokens = lex(&chars("1 $ 2"));
    assert_eq!(tokens.len(), 3);
    match &tokens[1] {
        Err(TableError::InvalidCell(m)) => assert_eq!(m, "Unknown character encountered: $"),
        other => panic!("unexpected {:?}", other),
    }
    assert_eq!(tokens[2].clone().unwrap(), Token::Number(Decimal::new(false, vec![2], 0).unwrap()));
}

#[test]
fn non_ascii_numeral_is_not_a_number() {
    let tokens = lex(&chars("\u{663}"));
    match &tokens[0] {
        Err(TableError::InvalidCell(m)) => assert_eq!(m, "Could not format \u{663} as a valid number"),
        other => panic!("unexpected {:?}", other),
    }
}

#[test]
fn row_zero_and_missing_row_are_rejected() {
    assert!(matches!(lex(&chars("a0"))[0], Err(TableError::InvalidCell(_))));
    assert!(matches!(lex(&chars("a+"))[0], Err(TableError::InvalidCell(_))));
    match &lex(&chars("a1:b"))[0] {
        Err(TableError::InvalidCell(m)) => assert_eq!(m, "Invalid cell range"),
        other => panic!("unexpected {:?}", other),
    }
}

#[test]
fn oversized_references_are_rejected() {
    assert!(matches!(lex(&chars("a99999999999999999999999"))[0], Err(TableError::InvalidCell(_))));
    assert!(matches!(lex(&chars("zzzzzzzzzzzzzzzzzzzz1"))[0], Err(TableError::InvalidCell(_))));
}

#[test]
fn number_with_trailing_dot() {
    let tokens = lex(&chars("7."));
    assert_eq!(tokens.len(), 1);
    assert_eq!(tokens[0].clone().unwrap(), Token::Number(Decimal::new(false, vec![7], 0).unwrap()));
}

#[test]
fn decimal_read_from_float_text() {
    let d = Decimal::parse(&BigDecimal::from_f64(1.5).unwrap().to_string()).unwrap();
    assert_eq!(d.to_text(), "1.5");
}

#[test]
fn decimals_compare_by_value() {
    let tokens = lex(&chars("1.20 0012 0.0"));
    assert_eq!(tokens[0].clone().unwrap(), Token::Number(Decimal::new(false, vec![1, 2], 1).unwrap()));
    assert_eq!(tokens[1].clone().unwrap(), Token::Number(Decimal::new(false, vec![1, 2, 0, 0], 2).unwrap()));
    assert_eq!(tokens[2].clone().unwrap(), Token::Number(Decimal::new(true, vec![], -3).unwrap()));
    assert_ne!(Decimal::new(false, vec![1, 2], 1), Decimal::new(true, vec![1, 2], 1));
    assert!(Decimal::new(false, vec![1, 10], 0).is_none());
}
