use loxi::ast::{Expression, LiteralValue};
use loxi::lexer::{Literal, Token, TokenType};
use loxi::result::Error;

fn op_token(ty: TokenType, lexeme: &str) -> Token {
    Token {
        token_type: ty,
        lexeme: lexeme.to_string(),
        literal: Literal::Nothing,
        source_position: (1, 1),
    }
}

#[test]
fn print_expression() {
    let num_expr = Box::new(Expression::Literal(LiteralValue::Number("3.14".to_string())));
    let num_expr_2 = Box::new(Expression::Literal(LiteralValue::Number("6.28".to_string())));
    let minus_op = op_token(TokenType::Minus, "-");
    let mul_op = op_token(TokenType::Asterisk, "*");
    let negate_expr = Box::new(Expression::Unary {
        operator: minus_op,
        right: num_expr_2,
    });
    let expr = Expression::Binary {
        operator: mul_op,
        left: num_expr,
        right: negate_expr,
    };

    let output: String = expr.print();

    assert_eq!(output, "(* 3.14 (- 6.28))");
}

#[test]
fn print_grouping_and_ternary() {
    let inner = Box::new(Expression::Literal(LiteralValue::Number("1".to_string())));
    let grouping: Expression<Token> = Expression::Grouping(inner);
    assert_eq!(grouping.print(), "(group 1)");

    let ternary = Expression::Ternary {
        operator: op_token(TokenType::QuestionMark, "?"),
        left: Box::new(Expression::Literal(LiteralValue::True)),
        middle: Box::new(Expression::Literal(LiteralValue::Str("a".to_string()))),
        right: Box::new(Expression::Literal(LiteralValue::Nil)),
    };
    assert_eq!(ternary.print(), "(? true a nil)");
}

#[test]
fn render_syntax_error() {
    let err = Error::SyntaxError {
        message: "expected ')'".to_string(),
        source_position: (3, 17),
    };
    assert_eq!(err.render(), "Syntax Error [ln: 3, col: 17]: expected ')'");
}

#[test]
fn render_multiple_errors() {
    let first = Error::SyntaxError {
        message: "expected expression".to_string(),
        source_position: (1, 2),
    };
    let second = Error::SyntaxError {
        message: "expected ':'".to_string(),
        source_position: (10, 20),
    };
    let both = Error::MultipleErrors(vec![first, second]);
    assert_eq!(
        both.render(),
        "Syntax Error [ln: 1, col: 2]: expected expressionSyntax Error [ln: 10, col: 20]: expected ':'"
    );
}

#[test]
fn render_empty_aggregate() {
    let none = Error::MultipleErrors(Vec::new());
    assert_eq!(none.render(), "");
}
