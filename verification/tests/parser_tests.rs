use loxi::ast::{Expression, LiteralValue};
use loxi::lexer::{lex, Literal, Token, TokenType};
use loxi::parser::{parse, synchronize};
use loxi::result::Error;

fn plain(ty: TokenType, lexeme: &str, line: usize, col: usize) -> Token {
    Token {
        token_type: ty,
        lexeme: lexeme.to_string(),
        literal: Literal::Nothing,
        source_position: (line, col),
    }
}

fn number(text: &str, line: usize, col: usize) -> Token {
    Token {
        token_type: TokenType::Number,
        lexeme: text.to_string(),
        literal: Literal::Number(text.to_string()),
        source_position: (line, col),
    }
}

fn eof() -> Token {
    plain(TokenType::Eof, "", 0, 0)
}

fn parse_source(source: &str) -> Box<Expression<Token>> {
    let tokens = lex(source).unwrap();
    parse(&tokens).unwrap()
}

#[test]
fn parse_single_number_literal() {
    let expr = parse_source("42");
    match *expr {
        Expression::Literal(LiteralValue::Number(ref s)) => assert_eq!(s, "42"),
        _ => panic!("expected a number literal"),
    }
}

#[test]
fn parse_fractional_number_literal() {
    let expr = parse_source("3.14");
    match *expr {
        Expression::Literal(LiteralValue::Number(ref s)) => assert_eq!(s, "3.14"),
        _ => panic!("expected a number literal"),
    }
}

#[test]
fn parse_keyword_literals() {
    assert_eq!(parse_source("true").print(), "true");
    assert_eq!(parse_source("false").print(), "false");
    assert_eq!(parse_source("nil").print(), "nil");
}

#[test]
fn parse_left_associative_term() {
    let expr = parse_source("1 + 2 + 3");
    assert_eq!(expr.print(), "(+ (+ 1 2) 3)");
}

#[test]
fn parse_left_associative_factor() {
    let expr = parse_source("8 / 4 / 2");
    assert_eq!(expr.print(), "(/ (/ 8 4) 2)");
}

#[test]
fn parse_left_associative_equality_and_comparison() {
    assert_eq!(parse_source("1 == 2 != 3").print(), "(!= (== 1 2) 3)");
    assert_eq!(parse_source("1 < 2 <= 3").print(), "(<= (< 1 2) 3)");
}

#[test]
fn parse_left_associative_comma() {
    let expr = parse_source("1, 2, 3");
    assert_eq!(expr.print(), "(, (, 1 2) 3)");
}

#[test]
fn parse_precedence_term_over_factor() {
    let expr = parse_source("1 + 2 * 3");
    assert_eq!(expr.print(), "(+ 1 (* 2 3))");
}

#[test]
fn parse_unary_right_associative() {
    let expr = parse_source("- - 5");
    match *expr {
        Expression::Unary { ref operator, ref right } => {
            assert_eq!(operator.token_type, TokenType::Minus);
            match **right {
                Expression::Unary { ref operator, ref right } => {
                    assert_eq!(operator.token_type, TokenType::Minus);
                    match **right {
                        Expression::Literal(LiteralValue::Number(ref s)) => assert_eq!(s, "5"),
                        _ => panic!("expected a number literal"),
                    }
                }
                _ => panic!("expected a nested unary expression"),
            }
        }
        _ => panic!("expected a unary expression"),
    }
}

#[test]
fn parse_grouping() {
    let expr = parse_source("(1 + 2) * 3");
    assert_eq!(expr.print(), "(* (group (+ 1 2)) 3)");
}

#[test]
fn parse_unbalanced_parenthesis() {
    let tokens = lex("(1 + 2").unwrap();
    let err = parse(&tokens).unwrap_err();
    match err {
        Error::SyntaxError { message, source_position } => {
            assert_eq!(message, "expected ')'");
            assert_eq!(source_position, (1, 1));
        }
        _ => panic!("expected a syntax error"),
    }
}

#[test]
fn parse_expected_expression_on_operator() {
    let tokens = lex("+ 1").unwrap();
    let err = parse(&tokens).unwrap_err();
    match err {
        Error::SyntaxError { message, source_position } => {
            assert_eq!(message, "expected expression");
            assert_eq!(source_position, (1, 1));
        }
        _ => panic!("expected a syntax error"),
    }
}

#[test]
fn parse_expected_expression_on_empty_input() {
    let tokens: Vec<Token> = Vec::new();
    let err = parse(&tokens).unwrap_err();
    match err {
        Error::SyntaxError { message, source_position } => {
            assert_eq!(message, "expected expression");
            assert_eq!(source_position, (0, 0));
        }
        _ => panic!("expected a syntax error"),
    }
}

#[test]
fn parse_ternary_expression() {
    let tokens = vec![
        number("1", 1, 1),
        plain(TokenType::QuestionMark, "?", 1, 3),
        number("2", 1, 5),
        plain(TokenType::Colon, ":", 1, 7),
        number("3", 1, 9),
        eof(),
    ];
    let expr = parse(&tokens).unwrap();
    assert_eq!(expr.print(), "(? 1 2 3)");
}

#[test]
fn parse_ternary_right_associative() {
    let tokens = vec![
        number("1", 1, 1),
        plain(TokenType::QuestionMark, "?", 1, 2),
        number("2", 1, 3),
        plain(TokenType::Colon, ":", 1, 4),
        number("3", 1, 5),
        plain(TokenType::QuestionMark, "?", 1, 6),
        number("4", 1, 7),
        plain(TokenType::Colon, ":", 1, 8),
        number("5", 1, 9),
        eof(),
    ];
    let expr = parse(&tokens).unwrap();
    assert_eq!(expr.print(), "(? 1 2 (? 3 4 5))");
}

#[test]
fn parse_ternary_missing_colon() {
    let tokens = vec![
        number("1", 1, 1),
        plain(TokenType::QuestionMark, "?", 1, 3),
        number("2", 1, 5),
        eof(),
    ];
    let err = parse(&tokens).unwrap_err();
    match err {
        Error::SyntaxError { message, source_position } => {
            assert_eq!(message, "expected ':'");
            assert_eq!(source_position, (1, 3));
        }
        _ => panic!("expected a syntax error"),
    }
}

#[test]
fn parse_ignores_trailing_tokens() {
    let tokens = lex("1 2").unwrap();
    let expr = parse(&tokens).unwrap();
    assert_eq!(expr.print(), "1");
}

#[test]
fn parse_string_literal_expression() {
    let expr = parse_source("\"hello\"");
    match *expr {
        Expression::Literal(LiteralValue::Str(ref s)) => assert_eq!(s, "hello"),
        _ => panic!("expected a string literal"),
    }
}

#[test]
fn synchronize_skips_to_statement_boundary() {
    let tokens = lex("1 + 2; 3").unwrap();
    // Positions: 1 + 2 ; 3 eof -> the semicolon is at index 3.
    assert_eq!(synchronize(&tokens, 0), 4);
    let tokens2 = lex("1 2 var x").unwrap();
    // The `var` keyword is at index 2.
    assert_eq!(synchronize(&tokens2, 0), 2);
    let tokens3 = lex("1 2 3").unwrap();
    // No boundary: runs to the end of the sequence.
    assert_eq!(synchronize(&tokens3, 0), tokens3.len());
}

#[test]
fn roundtrip_single_literals() {
    for source in ["42", "42.5", "true", "false", "nil"] {
        let printed = parse_source(source).print();
        assert_eq!(printed, *source);
        let reparsed = parse_source(&printed).print();
        assert_eq!(reparsed, printed);
    }
}
