//! Syntactic analysis: a recursive-descent parser that consumes a token
//! sequence through a forward cursor with one-token lookahead and produces an
//! expression tree, or a structured syntax error.
//!
//! The grammar, lowest to highest precedence (left-associative unless noted):
//!
//! ```text
//! expression → comma
//! comma      → ternary ( "," ternary )*
//! ternary    → equality ( "?" ternary ":" ternary )?      (right-associative)
//! equality   → comparison ( ( "==" | "!=" ) comparison )*
//! comparison → term ( ( ">" | ">=" | "<" | "<=" ) term )*
//! term       → factor ( ( "+" | "-" ) factor )*
//! factor     → unary ( ( "*" | "/" ) unary )*
//! unary      → ( "-" | "!" ) unary | primary              (right-associative)
//! primary    → NUMBER | STRING | "true" | "false" | "nil" | "(" expression ")"
//! ```

use crate::ast::{view_expr, Expression, ExpressionModel, LiteralValue, LiteralValueModel};
use crate::lexer::{tokens_view, Literal, LiteralModel, Token, TokenModel, TokenType};
use crate::result::{matches_error, Error, ErrorModel};
use vstd::prelude::*;
use vstd::slice::slice_index_get;
use vstd::string::StringExecFns;

verus! {

/// Whether the token at `pos` exists and has category `ty`.
pub open spec fn peek_is(ts: Seq<TokenModel>, pos: int, ty: TokenType) -> bool {
    0 <= pos < ts.len() && ts[pos].token_type == ty
}

/// The diagnostic for a position where the grammar requires a primary
/// expression and finds none.
pub open spec fn expected_expression_msg() -> Seq<char> {
    "expected expression"@
}

/// The diagnostic for a parenthesized expression missing its `)`.
pub open spec fn expected_rparen_msg() -> Seq<char> {
    "expected ')'"@
}

/// The diagnostic for a `?` branch missing its `:`.
pub open spec fn expected_colon_msg() -> Seq<char> {
    "expected ':'"@
}

/// The operators of the equality tier.
pub open spec fn is_equality_op(ty: TokenType) -> bool {
    ty == TokenType::BangEqual || ty == TokenType::EqualEqual
}

/// The operators of the comparison tier.
pub open spec fn is_comparison_op(ty: TokenType) -> bool {
    ||| ty == TokenType::GreaterThan
    ||| ty == TokenType::GreaterThanOrEqual
    ||| ty == TokenType::LessThan
    ||| ty == TokenType::LessThanOrEqual
}

/// The operators of the term tier.
pub open spec fn is_term_op(ty: TokenType) -> bool {
    ty == TokenType::Plus || ty == TokenType::Minus
}

/// The operators of the factor tier.
pub open spec fn is_factor_op(ty: TokenType) -> bool {
    ty == TokenType::Asterisk || ty == TokenType::Slash
}

/// A whole expression: the lowest-precedence tier.
pub open spec fn sp_expression(ts: Seq<TokenModel>, pos: int) -> Result<
    (ExpressionModel, int),
    ErrorModel,
>
    decreases ts.len() - pos, 8int,
{
    sp_comma(ts, pos)
}

/// The comma tier: `ternary ( "," ternary )*`, folded to the left.
pub open spec fn sp_comma(ts: Seq<TokenModel>, pos: int) -> Result<
    (ExpressionModel, int),
    ErrorModel,
>
    decreases ts.len() - pos, 7int,
{
    match sp_ternary(ts, pos) {
        Ok((e1, p1)) => if pos < p1 <= ts.len() {
            sp_comma_rest(ts, p1, e1)
        } else {
            Ok((e1, p1))
        },
        Err(e) => Err(e),
    }
}

/// Folds further `"," ternary` steps onto `acc`, left-associatively.
pub open spec fn sp_comma_rest(ts: Seq<TokenModel>, pos: int, acc: ExpressionModel) -> Result<
    (ExpressionModel, int),
    ErrorModel,
>
    decreases ts.len() - pos, 0int,
{
    if peek_is(ts, pos, TokenType::Comma) {
        match sp_ternary(ts, pos + 1) {
            Ok((e2, p2)) => {
                let folded = ExpressionModel::Binary {
                    operator: ts[pos],
                    left: Box::new(acc),
                    right: Box::new(e2),
                };
                if pos < p2 <= ts.len() {
                    sp_comma_rest(ts, p2, folded)
                } else {
                    Ok((folded, p2))
                }
            },
            Err(e) => Err(e),
        }
    } else {
        Ok((acc, pos))
    }
}

/// The ternary tier: `equality ( "?" ternary ":" ternary )?`.  The branches
/// associate to the right; a `?` whose `:` is missing is a syntax error
/// positioned at the `?` token.
pub open spec fn sp_ternary(ts: Seq<TokenModel>, pos: int) -> Result<
    (ExpressionModel, int),
    ErrorModel,
>
    decreases ts.len() - pos, 6int,
{
    match sp_equality(ts, pos) {
        Ok((cond, p1)) => if pos < p1 <= ts.len() && peek_is(ts, p1, TokenType::QuestionMark) {
            match sp_ternary(ts, p1 + 1) {
                Ok((then_branch, p2)) => if peek_is(ts, p2, TokenType::Colon) {
                    if p1 < p2 {
                        match sp_ternary(ts, p2 + 1) {
                            Ok((else_branch, p3)) => Ok(
                                (
                                    ExpressionModel::Ternary {
                                        operator: ts[p1],
                                        left: Box::new(cond),
                                        middle: Box::new(then_branch),
                                        right: Box::new(else_branch),
                                    },
                                    p3,
                                ),
                            ),
                            Err(e) => Err(e),
                        }
                    } else {
                        Ok((cond, p1))
                    }
                } else {
                    Err(
                        ErrorModel {
                            msg: expected_colon_msg(),
                            line: ts[p1].line,
                            col: ts[p1].col,
                        },
                    )
                },
                Err(e) => Err(e),
            }
        } else {
            Ok((cond, p1))
        },
        Err(e) => Err(e),
    }
}

/// The equality tier: `comparison ( ( "==" | "!=" ) comparison )*`.
pub open spec fn sp_equality(ts: Seq<TokenModel>, pos: int) -> Result<
    (ExpressionModel, int),
    ErrorModel,
>
    decreases ts.len() - pos, 5int,
{
    match sp_comparison(ts, pos) {
        Ok((e1, p1)) => if pos < p1 <= ts.len() {
            sp_equality_rest(ts, p1, e1)
        } else {
            Ok((e1, p1))
        },
        Err(e) => Err(e),
    }
}

/// Folds further equality-operator steps onto `acc`, left-associatively.
pub open spec fn sp_equality_rest(ts: Seq<TokenModel>, pos: int, acc: ExpressionModel) -> Result<
    (ExpressionModel, int),
    ErrorModel,
>
    decreases ts.len() - pos, 0int,
{
    if 0 <= pos < ts.len() && is_equality_op(ts[pos].token_type) {
        match sp_comparison(ts, pos + 1) {
            Ok((e2, p2)) => {
                let folded = ExpressionModel::Binary {
                    operator: ts[pos],
                    left: Box::new(acc),
                    right: Box::new(e2),
                };
                if pos < p2 <= ts.len() {
                    sp_equality_rest(ts, p2, folded)
                } else {
                    Ok((folded, p2))
                }
            },
            Err(e) => Err(e),
        }
    } else {
        Ok((acc, pos))
    }
}

/// The comparison tier: `term ( ( ">" | ">=" | "<" | "<=" ) term )*`.
pub open spec fn sp_comparison(ts: Seq<TokenModel>, pos: int) -> Result<
    (ExpressionModel, int),
    ErrorModel,
>
    decreases ts.len() - pos, 4int,
{
    match sp_term(ts, pos) {
        Ok((e1, p1)) => if pos < p1 <= ts.len() {
            sp_comparison_rest(ts, p1, e1)
        } else {
            Ok((e1, p1))
        },
        Err(e) => Err(e),
    }
}

/// Folds further comparison-operator steps onto `acc`, left-associatively.
pub open spec fn sp_comparison_rest(ts: Seq<TokenModel>, pos: int, acc: ExpressionModel) -> Result<
    (ExpressionModel, int),
    ErrorModel,
>
    decreases ts.len() - pos, 0int,
{
    if 0 <= pos < ts.len() && is_comparison_op(ts[pos].token_type) {
        match sp_term(ts, pos + 1) {
            Ok((e2, p2)) => {
                let folded = ExpressionModel::Binary {
                    operator: ts[pos],
                    left: Box::new(acc),
                    right: Box::new(e2),
                };
                if pos < p2 <= ts.len() {
                    sp_comparison_rest(ts, p2, folded)
                } else {
                    Ok((folded, p2))
                }
            },
            Err(e) => Err(e),
        }
    } else {
        Ok((acc, pos))
    }
}

/// The term tier: `factor ( ( "+" | "-" ) factor )*`.
pub open spec fn sp_term(ts: Seq<TokenModel>, pos: int) -> Result<
    (ExpressionModel, int),
    ErrorModel,
>
    decreases ts.len() - pos, 3int,
{
    match sp_factor(ts, pos) {
        Ok((e1, p1)) => if pos < p1 <= ts.len() {
            sp_term_rest(ts, p1, e1)
        } else {
            Ok((e1, p1))
        },
        Err(e) => Err(e),
    }
}

/// Folds further term-operator steps onto `acc`, left-associatively.
pub open spec fn sp_term_rest(ts: Seq<TokenModel>, pos: int, acc: ExpressionModel) -> Result<
    (ExpressionModel, int),
    ErrorModel,
>
    decreases ts.len() - pos, 0int,
{
    if 0 <= pos < ts.len() && is_term_op(ts[pos].token_type) {
        match sp_factor(ts, pos + 1) {
            Ok((e2, p2)) => {
                let folded = ExpressionModel::Binary {
                    operator: ts[pos],
                    left: Box::new(acc),
                    right: Box::new(e2),
                };
                if pos < p2 <= ts.len() {
                    sp_term_rest(ts, p2, folded)
                } else {
                    Ok((folded, p2))
                }
            },
            Err(e) => Err(e),
        }
    } else {
        Ok((acc, pos))
    }
}

/// The factor tier: `unary ( ( "*" | "/" ) unary )*`.
pub open spec fn sp_factor(ts: Seq<TokenModel>, pos: int) -> Result<
    (ExpressionModel, int),
    ErrorModel,
>
    decreases ts.len() - pos, 2int,
{
    match sp_unary(ts, pos) {
        Ok((e1, p1)) => if pos < p1 <= ts.len() {
            sp_factor_rest(ts, p1, e1)
        } else {
            Ok((e1, p1))
        },
        Err(e) => Err(e),
    }
}

/// Folds further factor-operator steps onto `acc`, left-associatively.
pub open spec fn sp_factor_rest(ts: Seq<TokenModel>, pos: int, acc: ExpressionModel) -> Result<
    (ExpressionModel, int),
    ErrorModel,
>
    decreases ts.len() - pos, 0int,
{
    if 0 <= pos < ts.len() && is_factor_op(ts[pos].token_type) {
        match sp_unary(ts, pos + 1) {
            Ok((e2, p2)) => {
                let folded = ExpressionModel::Binary {
                    operator: ts[pos],
                    left: Box::new(acc),
                    right: Box::new(e2),
                };
                if pos < p2 <= ts.len() {
                    sp_factor_rest(ts, p2, folded)
                } else {
                    Ok((folded, p2))
                }
            },
            Err(e) => Err(e),
        }
    } else {
        Ok((acc, pos))
    }
}

/// The unary tier: `( "-" | "!" ) unary | primary`, right-associative
/// through direct recursion.
pub open spec fn sp_unary(ts: Seq<TokenModel>, pos: int) -> Result<
    (ExpressionModel, int),
    ErrorModel,
>
    decreases ts.len() - pos, 1int,
{
    if peek_is(ts, pos, TokenType::Bang) || peek_is(ts, pos, TokenType::Minus) {
        match sp_unary(ts, pos + 1) {
            Ok((e1, p1)) => Ok(
                (ExpressionModel::Unary { operator: ts[pos], right: Box::new(e1) }, p1),
            ),
            Err(e) => Err(e),
        }
    } else {
        sp_primary(ts, pos)
    }
}

/// The primary tier: a number, string, `true`, `false` or `nil` literal, or
/// a parenthesized expression.  A parenthesized expression not closed by `)`
/// fails at the opening parenthesis; any other token, or exhausted input,
/// fails with "expected expression" at the offending token's position.
pub open spec fn sp_primary(ts: Seq<TokenModel>, pos: int) -> Result<
    (ExpressionModel, int),
    ErrorModel,
>
    decreases ts.len() - pos, 0int,
{
    if pos < 0 || pos >= ts.len() {
        Err(ErrorModel { msg: expected_expression_msg(), line: 0, col: 0 })
    } else {
        let t = ts[pos];
        if t.token_type == TokenType::Number {
            match t.literal {
                LiteralModel::NumberValue(s) => Ok(
                    (ExpressionModel::Literal(LiteralValueModel::Number(s)), pos + 1),
                ),
                _ => Err(ErrorModel { msg: expected_expression_msg(), line: t.line, col: t.col }),
            }
        } else if t.token_type == TokenType::Str {
            match t.literal {
                LiteralModel::StrValue(s) => Ok(
                    (ExpressionModel::Literal(LiteralValueModel::Str(s)), pos + 1),
                ),
                _ => Err(ErrorModel { msg: expected_expression_msg(), line: t.line, col: t.col }),
            }
        } else if t.token_type == TokenType::True {
            Ok((ExpressionModel::Literal(LiteralValueModel::True), pos + 1))
        } else if t.token_type == TokenType::False {
            Ok((ExpressionModel::Literal(LiteralValueModel::False), pos + 1))
        } else if t.token_type == TokenType::Nil {
            Ok((ExpressionModel::Literal(LiteralValueModel::Nil), pos + 1))
        } else if t.token_type == TokenType::LeftParen {
            match sp_expression(ts, pos + 1) {
                Ok((inner, p1)) => if peek_is(ts, p1, TokenType::RightParen) {
                    Ok((ExpressionModel::Grouping(Box::new(inner)), p1 + 1))
                } else {
                    Err(ErrorModel { msg: expected_rparen_msg(), line: t.line, col: t.col })
                },
                Err(e) => Err(e),
            }
        } else {
            Err(ErrorModel { msg: expected_expression_msg(), line: t.line, col: t.col })
        }
    }
}

/// What parsing a whole token sequence yields: the expression of the lowest
/// tier parsed from the front; tokens beyond it are ignored.
pub open spec fn sp_parse(ts: Seq<TokenModel>) -> Result<ExpressionModel, ErrorModel> {
    match sp_expression(ts, 0) {
        Ok((e, _p)) => Ok(e),
        Err(e) => Err(e),
    }
}

/// Relates an executable parsing step to its specification: equal outcomes,
/// and on success a cursor that moved forward and stayed in bounds.
pub open spec fn step_matches(
    r: Result<(Box<Expression<Token>>, usize), Error>,
    s: Result<(ExpressionModel, int), ErrorModel>,
    lo: int,
    len: int,
) -> bool {
    match r {
        Ok((e, p)) => {
            &&& s == Ok::<(ExpressionModel, int), ErrorModel>((view_expr(*e), p as int))
            &&& lo < p as int <= len
        },
        Err(er) => s matches Err(m) && matches_error(er, m),
    }
}

/// Whether the token at `pos` exists and has category `ty`.
fn peek_match(tokens: &[Token], pos: usize, ty: TokenType) -> (r: bool)
    ensures
        r == peek_is(tokens_view(tokens@), pos as int, ty),
        tokens@.len() <= usize::MAX,
{
    if pos < tokens.len() {
        let r = slice_index_get(tokens, pos).token_type == ty;
        proof {
            assert(tokens_view(tokens@)[pos as int] == tokens@[pos as int]@);
        }
        r
    } else {
        false
    }
}

/// An "expected expression" error at the given position.
fn expected_expression_err(source_position: (usize, usize)) -> (e: Error)
    ensures
        matches_error(
            e,
            ErrorModel {
                msg: expected_expression_msg(),
                line: source_position.0 as int,
                col: source_position.1 as int,
            },
        ),
{
    Error::SyntaxError { message: String::from_str("expected expression"), source_position }
}

fn expression(tokens: &[Token], pos: usize) -> (r: Result<(Box<Expression<Token>>, usize), Error>)
    requires
        pos <= tokens@.len(),
    ensures
        step_matches(
            r,
            sp_expression(tokens_view(tokens@), pos as int),
            pos as int,
            tokens@.len() as int,
        ),
    decreases tokens@.len() - pos, 8int,
{
    let r = comma(tokens, pos);
    r
}

fn comma(tokens: &[Token], pos: usize) -> (r: Result<(Box<Expression<Token>>, usize), Error>)
    requires
        pos <= tokens@.len(),
    ensures
        step_matches(
            r,
            sp_comma(tokens_view(tokens@), pos as int),
            pos as int,
            tokens@.len() as int,
        ),
    decreases tokens@.len() - pos, 7int,
{
    match ternary(tokens, pos) {
        Ok((e1, p1)) => comma_rest(tokens, p1, e1, Ghost(pos as int)),
        Err(e) => Err(e),
    }
}

fn comma_rest(
    tokens: &[Token],
    pos: usize,
    acc: Box<Expression<Token>>,
    Ghost(lo): Ghost<int>,
) -> (r: Result<(Box<Expression<Token>>, usize), Error>)
    requires
        lo < pos as int <= tokens@.len(),
    ensures
        step_matches(
            r,
            sp_comma_rest(tokens_view(tokens@), pos as int, view_expr(*acc)),
            lo,
            tokens@.len() as int,
        ),
    decreases tokens@.len() - pos, 0int,
{
    if peek_match(tokens, pos, TokenType::Comma) {
        let op = slice_index_get(tokens, pos).clone();
        proof {
            assert(op@ == tokens_view(tokens@)[pos as int]);
        }
        match ternary(tokens, pos + 1) {
            Ok((e2, p2)) => {
                let folded = Box::new(
                    Expression::Binary { operator: op, left: acc, right: e2 },
                );
                comma_rest(tokens, p2, folded, Ghost(lo))
            },
            Err(e) => Err(e),
        }
    } else {
        Ok((acc, pos))
    }
}

fn ternary(tokens: &[Token], pos: usize) -> (r: Result<(Box<Expression<Token>>, usize), Error>)
    requires
        pos <= tokens@.len(),
    ensures
        step_matches(
            r,
            sp_ternary(tokens_view(tokens@), pos as int),
            pos as int,
            tokens@.len() as int,
        ),
    decreases tokens@.len() - pos, 6int,
{
    match equality(tokens, pos) {
        Ok((cond, p1)) => {
            if peek_match(tokens, p1, TokenType::QuestionMark) {
                let op = slice_index_get(tokens, p1).clone();
                proof {
                    assert(op@ == tokens_view(tokens@)[p1 as int]);
                }
                match ternary(tokens, p1 + 1) {
                    Ok((then_branch, p2)) => {
                        if peek_match(tokens, p2, TokenType::Colon) {
                            match ternary(tokens, p2 + 1) {
                                Ok((else_branch, p3)) => Ok(
                                    (
                                        Box::new(
                                            Expression::Ternary {
                                                operator: op,
                                                left: cond,
                                                middle: then_branch,
                                                right: else_branch,
                                            },
                                        ),
                                        p3,
                                    ),
                                ),
                                Err(e) => Err(e),
                            }
                        } else {
                            Err(
                                Error::SyntaxError {
                                    message: String::from_str("expected ':'"),
                                    source_position: op.source_position,
                                },
                            )
                        }
                    },
                    Err(e) => Err(e),
                }
            } else {
                Ok((cond, p1))
            }
        },
        Err(e) => Err(e),
    }
}

fn equality(tokens: &[Token], pos: usize) -> (r: Result<(Box<Expression<Token>>, usize), Error>)
    requires
        pos <= tokens@.len(),
    ensures
        step_matches(
            r,
            sp_equality(tokens_view(tokens@), pos as int),
            pos as int,
            tokens@.len() as int,
        ),
    decreases tokens@.len() - pos, 5int,
{
    match comparison(tokens, pos) {
        Ok((e1, p1)) => equality_rest(tokens, p1, e1, Ghost(pos as int)),
        Err(e) => Err(e),
    }
}

fn equality_rest(
    tokens: &[Token],
    pos: usize,
    acc: Box<Expression<Token>>,
    Ghost(lo): Ghost<int>,
) -> (r: Result<(Box<Expression<Token>>, usize), Error>)
    requires
        lo < pos as int <= tokens@.len(),
    ensures
        step_matches(
            r,
            sp_equality_rest(tokens_view(tokens@), pos as int, view_expr(*acc)),
            lo,
            tokens@.len() as int,
        ),
    decreases tokens@.len() - pos, 0int,
{
    if peek_match(tokens, pos, TokenType::BangEqual) || peek_match(
        tokens,
        pos,
        TokenType::EqualEqual,
    ) {
        let op = slice_index_get(tokens, pos).clone();
        proof {
            assert(op@ == tokens_view(tokens@)[pos as int]);
        }
        match comparison(tokens, pos + 1) {
            Ok((e2, p2)) => {
                let folded = Box::new(
                    Expression::Binary { operator: op, left: acc, right: e2 },
                );
                equality_rest(tokens, p2, folded, Ghost(lo))
            },
            Err(e) => Err(e),
        }
    } else {
        Ok((acc, pos))
    }
}

fn comparison(tokens: &[Token], pos: usize) -> (r: Result<(Box<Expression<Token>>, usize), Error>)
    requires
        pos <= tokens@.len(),
    ensures
        step_matches(
            r,
            sp_comparison(tokens_view(tokens@), pos as int),
            pos as int,
            tokens@.len() as int,
        ),
    decreases tokens@.len() - pos, 4int,
{
    match term(tokens, pos) {
        Ok((e1, p1)) => comparison_rest(tokens, p1, e1, Ghost(pos as int)),
        Err(e) => Err(e),
    }
}

fn comparison_rest(
    tokens: &[Token],
    pos: usize,
    acc: Box<Expression<Token>>,
    Ghost(lo): Ghost<int>,
) -> (r: Result<(Box<Expression<Token>>, usize), Error>)
    requires
        lo < pos as int <= tokens@.len(),
    ensures
        step_matches(
            r,
            sp_comparison_rest(tokens_view(tokens@), pos as int, view_expr(*acc)),
            lo,
            tokens@.len() as int,
        ),
    decreases tokens@.len() - pos, 0int,
{
    if peek_match(tokens, pos, TokenType::GreaterThan) || peek_match(
        tokens,
        pos,
        TokenType::GreaterThanOrEqual,
    ) || peek_match(tokens, pos, TokenType::LessThan) || peek_match(
        tokens,
        pos,
        TokenType::LessThanOrEqual,
    ) {
        let op = slice_index_get(tokens, pos).clone();
        proof {
            assert(op@ == tokens_view(tokens@)[pos as int]);
        }
        match term(tokens, pos + 1) {
            Ok((e2, p2)) => {
                let folded = Box::new(
                    Expression::Binary { operator: op, left: acc, right: e2 },
                );
                comparison_rest(tokens, p2, folded, Ghost(lo))
            },
            Err(e) => Err(e),
        }
    } else {
        Ok((acc, pos))
    }
}

fn term(tokens: &[Token], pos: usize) -> (r: Result<(Box<Expression<Token>>, usize), Error>)
    requires
        pos <= tokens@.len(),
    ensures
        step_matches(
            r,
            sp_term(tokens_view(tokens@), pos as int),
            pos as int,
            tokens@.len() as int,
        ),
    decreases tokens@.len() - pos, 3int,
{
    match factor(tokens, pos) {
        Ok((e1, p1)) => term_rest(tokens, p1, e1, Ghost(pos as int)),
        Err(e) => Err(e),
    }
}

fn term_rest(
    tokens: &[Token],
    pos: usize,
    acc: Box<Expression<Token>>,
    Ghost(lo): Ghost<int>,
) -> (r: Result<(Box<Expression<Token>>, usize), Error>)
    requires
        lo < pos as int <= tokens@.len(),
    ensures
        step_matches(
            r,
            sp_term_rest(tokens_view(tokens@), pos as int, view_expr(*acc)),
            lo,
            tokens@.len() as int,
        ),
    decreases tokens@.len() - pos, 0int,
{
    if peek_match(tokens, pos, TokenType::Plus) || peek_match(tokens, pos, TokenType::Minus) {
        let op = slice_index_get(tokens, pos).clone();
        proof {
            assert(op@ == tokens_view(tokens@)[pos as int]);
        }
        match factor(tokens, pos + 1) {
            Ok((e2, p2)) => {
                let folded = Box::new(
                    Expression::Binary { operator: op, left: acc, right: e2 },
                );
                term_rest(tokens, p2, folded, Ghost(lo))
            },
            Err(e) => Err(e),
        }
    } else {
        Ok((acc, pos))
    }
}

fn factor(tokens: &[Token], pos: usize) -> (r: Result<(Box<Expression<Token>>, usize), Error>)
    requires
        pos <= tokens@.len(),
    ensures
        step_matches(
            r,
            sp_factor(tokens_view(tokens@), pos as int),
            pos as int,
            tokens@.len() as int,
        ),
    decreases tokens@.len() - pos, 2int,
{
    match unary(tokens, pos) {
        Ok((e1, p1)) => factor_rest(tokens, p1, e1, Ghost(pos as int)),
        Err(e) => Err(e),
    }
}

fn factor_rest(
    tokens: &[Token],
    pos: usize,
    acc: Box<Expression<Token>>,
    Ghost(lo): Ghost<int>,
) -> (r: Result<(Box<Expression<Token>>, usize), Error>)
    requires
        lo < pos as int <= tokens@.len(),
    ensures
        step_matches(
            r,
            sp_factor_rest(tokens_view(tokens@), pos as int, view_expr(*acc)),
            lo,
            tokens@.len() as int,
        ),
    decreases tokens@.len() - pos, 0int,
{
    if peek_match(tokens, pos, TokenType::Asterisk) || peek_match(tokens, pos, TokenType::Slash) {
        let op = slice_index_get(tokens, pos).clone();
        proof {
            assert(op@ == tokens_view(tokens@)[pos as int]);
        }
        match unary(tokens, pos + 1) {
            Ok((e2, p2)) => {
                let folded = Box::new(
                    Expression::Binary { operator: op, left: acc, right: e2 },
                );
                factor_rest(tokens, p2, folded, Ghost(lo))
            },
            Err(e) => Err(e),
        }
    } else {
        Ok((acc, pos))
    }
}

fn unary(tokens: &[Token], pos: usize) -> (r: Result<(Box<Expression<Token>>, usize), Error>)
    requires
        pos <= tokens@.len(),
    ensures
        step_matches(
            r,
            sp_unary(tokens_view(tokens@), pos as int),
            pos as int,
            tokens@.len() as int,
        ),
    decreases tokens@.len() - pos, 1int,
{
    if peek_match(tokens, pos, TokenType::Bang) || peek_match(tokens, pos, TokenType::Minus) {
        let op = slice_index_get(tokens, pos).clone();
        proof {
            assert(op@ == tokens_view(tokens@)[pos as int]);
        }
        match unary(tokens, pos + 1) {
            Ok((e1, p1)) => Ok(
                (Box::new(Expression::Unary { operator: op, right: e1 }), p1),
            ),
            Err(e) => Err(e),
        }
    } else {
        primary(tokens, pos)
    }
}

fn primary(tokens: &[Token], pos: usize) -> (r: Result<(Box<Expression<Token>>, usize), Error>)
    requires
        pos <= tokens@.len(),
    ensures
        step_matches(
            r,
            sp_primary(tokens_view(tokens@), pos as int),
            pos as int,
            tokens@.len() as int,
        ),
    decreases tokens@.len() - pos, 0int,
{
    if pos >= tokens.len() {
        return Err(expected_expression_err((0, 0)));
    }
    let t = slice_index_get(tokens, pos);
    proof {
        assert(t@ == tokens_view(tokens@)[pos as int]);
    }
    match t.token_type {
        TokenType::Number => {
            match &t.literal {
                Literal::Number(s) => Ok(
                    (
                        Box::new(Expression::Literal(LiteralValue::Number(s.clone()))),
                        pos + 1,
                    ),
                ),
                _ => Err(expected_expression_err(t.source_position)),
            }
        },
        TokenType::Str => {
            match &t.literal {
                Literal::Str(s) => Ok(
                    (Box::new(Expression::Literal(LiteralValue::Str(s.clone()))), pos + 1),
                ),
                _ => Err(expected_expression_err(t.source_position)),
            }
        },
        TokenType::True => Ok((Box::new(Expression::Literal(LiteralValue::True)), pos + 1)),
        TokenType::False => Ok((Box::new(Expression::Literal(LiteralValue::False)), pos + 1)),
        TokenType::Nil => Ok((Box::new(Expression::Literal(LiteralValue::Nil)), pos + 1)),
        TokenType::LeftParen => {
            match expression(tokens, pos + 1) {
                Ok((inner, p1)) => {
                    if peek_match(tokens, p1, TokenType::RightParen) {
                        Ok((Box::new(Expression::Grouping(inner)), p1 + 1))
                    } else {
                        Err(
                            Error::SyntaxError {
                                message: String::from_str("expected ')'"),
                                source_position: t.source_position,
                            },
                        )
                    }
                },
                Err(e) => Err(e),
            }
        },
        _ => Err(expected_expression_err(t.source_position)),
    }
}

/// Parses the front of a token sequence as one expression and returns its
/// tree, or the first syntax error; tokens after the expression are ignored.
pub fn parse(tokens: &[Token]) -> (r: Result<Box<Expression<Token>>, Error>)
    ensures
        match r {
            Ok(e) => sp_parse(tokens_view(tokens@)) == Ok::<ExpressionModel, ErrorModel>(
                view_expr(*e),
            ),
            Err(er) => sp_parse(tokens_view(tokens@)) matches Err(m) && matches_error(er, m),
        },
{
    match expression(tokens, 0) {
        Ok((e, _p)) => Ok(e),
        Err(e) => Err(e),
    }
}

/// A statement keyword at which error recovery can resume parsing.
pub open spec fn is_sync_point(ty: TokenType) -> bool {
    ||| ty == TokenType::Class
    ||| ty == TokenType::Fun
    ||| ty == TokenType::Var
    ||| ty == TokenType::For
    ||| ty == TokenType::If
    ||| ty == TokenType::While
    ||| ty == TokenType::Print
    ||| ty == TokenType::Return
}

/// Where discarding tokens from `pos` on reaches a synchronization point:
/// just past a semicolon, at a statement keyword, or at the end.
pub open spec fn sp_synchronize(ts: Seq<TokenModel>, pos: int) -> int
    decreases ts.len() - pos,
{
    if pos < 0 || pos >= ts.len() {
        ts.len() as int
    } else if ts[pos].token_type == TokenType::Semicolon {
        pos + 1
    } else if is_sync_point(ts[pos].token_type) {
        pos
    } else {
        sp_synchronize(ts, pos + 1)
    }
}

/// Discards tokens until a statement boundary: the position just past the
/// next semicolon, at the next statement-introducing keyword, or the end of
/// the sequence.  Supports resuming after an error in multi-statement input;
/// the single-expression entry point does not invoke it.
pub fn synchronize(tokens: &[Token], pos: usize) -> (p: usize)
    requires
        pos <= tokens@.len(),
    ensures
        p as int == sp_synchronize(tokens_view(tokens@), pos as int),
        p <= tokens@.len(),
    decreases tokens@.len() - pos,
{
    if pos >= tokens.len() {
        return pos;
    }
    let ty = slice_index_get(tokens, pos).token_type;
    proof {
        assert(tokens_view(tokens@)[pos as int] == tokens@[pos as int]@);
    }
    if ty == TokenType::Semicolon {
        pos + 1
    } else if ty == TokenType::Class || ty == TokenType::Fun || ty == TokenType::Var
        || ty == TokenType::For || ty == TokenType::If || ty == TokenType::While
        || ty == TokenType::Print || ty == TokenType::Return {
        pos
    } else {
        synchronize(tokens, pos + 1)
    }
}

} // verus!
