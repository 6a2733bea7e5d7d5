//! The abstract syntax tree produced by the parser, and its rendering as a
//! fully-parenthesized prefix expression.

use crate::lexer::{Token, TokenModel};
use vstd::prelude::*;
use vstd::string::StringExecFns;

verus! {

/// The value carried by a literal expression.  A number keeps the exact
/// digits of its source text.
#[derive(Debug)]
pub enum LiteralValue {
    Number(String),
    Str(String),
    True,
    False,
    Nil,
}

/// The mathematical shape of a literal value.
pub enum LiteralValueModel {
    Number(Seq<char>),
    Str(Seq<char>),
    True,
    False,
    Nil,
}

impl View for LiteralValue {
    type V = LiteralValueModel;

    open spec fn view(&self) -> LiteralValueModel {
        match self {
            LiteralValue::Number(s) => LiteralValueModel::Number(s@),
            LiteralValue::Str(s) => LiteralValueModel::Str(s@),
            LiteralValue::True => LiteralValueModel::True,
            LiteralValue::False => LiteralValueModel::False,
            LiteralValue::Nil => LiteralValueModel::Nil,
        }
    }
}

/// An expression node: a tagged union over literals, unary, binary and
/// ternary operator applications, and parenthesized groupings.  Each
/// composite variant exclusively owns its children.
#[derive(Debug)]
pub enum Expression<T> {
    Literal(LiteralValue),
    Unary { operator: T, right: Box<Expression<T>> },
    Binary { operator: T, left: Box<Expression<T>>, right: Box<Expression<T>> },
    Ternary {
        operator: T,
        left: Box<Expression<T>>,
        middle: Box<Expression<T>>,
        right: Box<Expression<T>>,
    },
    Grouping(Box<Expression<T>>),
}

/// The mathematical shape of an expression whose operators are tokens.
pub enum ExpressionModel {
    Literal(LiteralValueModel),
    Unary { operator: TokenModel, right: Box<ExpressionModel> },
    Binary { operator: TokenModel, left: Box<ExpressionModel>, right: Box<ExpressionModel> },
    Ternary {
        operator: TokenModel,
        left: Box<ExpressionModel>,
        middle: Box<ExpressionModel>,
        right: Box<ExpressionModel>,
    },
    Grouping(Box<ExpressionModel>),
}

/// The model of an expression tree over tokens.
pub open spec fn view_expr(e: Expression<Token>) -> ExpressionModel
    decreases e,
{
    match e {
        Expression::Literal(v) => ExpressionModel::Literal(v@),
        Expression::Unary { operator, right } => ExpressionModel::Unary {
            operator: operator@,
            right: Box::new(view_expr(*right)),
        },
        Expression::Binary { operator, left, right } => ExpressionModel::Binary {
            operator: operator@,
            left: Box::new(view_expr(*left)),
            right: Box::new(view_expr(*right)),
        },
        Expression::Ternary { operator, left, middle, right } => ExpressionModel::Ternary {
            operator: operator@,
            left: Box::new(view_expr(*left)),
            middle: Box::new(view_expr(*middle)),
            right: Box::new(view_expr(*right)),
        },
        Expression::Grouping(inner) => ExpressionModel::Grouping(Box::new(view_expr(*inner))),
    }
}

/// How a literal value renders: a number or string as its text, the keyword
/// literals as their keyword.
pub open spec fn spec_print_literal(v: LiteralValueModel) -> Seq<char> {
    match v {
        LiteralValueModel::Number(s) => s,
        LiteralValueModel::Str(s) => s,
        LiteralValueModel::True => "true"@,
        LiteralValueModel::False => "false"@,
        LiteralValueModel::Nil => "nil"@,
    }
}

/// How an expression renders: a fully-parenthesized prefix form, each
/// operator shown as its lexeme, groupings marked with `group`.
pub open spec fn spec_print(e: ExpressionModel) -> Seq<char>
    decreases e,
{
    match e {
        ExpressionModel::Literal(v) => spec_print_literal(v),
        ExpressionModel::Unary { operator, right } => "("@ + operator.lexeme + " "@
            + spec_print(*right) + ")"@,
        ExpressionModel::Binary { operator, left, right } => "("@ + operator.lexeme + " "@
            + spec_print(*left) + " "@ + spec_print(*right) + ")"@,
        ExpressionModel::Ternary { operator, left, middle, right } => "("@ + operator.lexeme
            + " "@ + spec_print(*left) + " "@ + spec_print(*middle) + " "@
            + spec_print(*right) + ")"@,
        ExpressionModel::Grouping(inner) => "(group "@ + spec_print(*inner) + ")"@,
    }
}

impl LiteralValue {
    /// Renders this literal value as text.
    pub fn print(&self) -> (s: String)
        ensures
            s@ == spec_print_literal(self@),
    {
        match self {
            LiteralValue::Number(s) => s.clone(),
            LiteralValue::Str(s) => s.clone(),
            LiteralValue::True => String::from_str("true"),
            LiteralValue::False => String::from_str("false"),
            LiteralValue::Nil => String::from_str("nil"),
        }
    }
}

impl Expression<Token> {
    /// Renders this tree as a fully-parenthesized prefix expression, such as
    /// `(* 3.14 (- 6.28))`.
    pub fn print(&self) -> (s: String)
        ensures
            s@ == spec_print(view_expr(*self)),
        decreases *self,
    {
        match self {
            Expression::Literal(v) => v.print(),
            Expression::Unary { operator, right } => {
                let mut s = String::from_str("(");
                s.append(operator.lexeme.as_str());
                s.append(" ");
                let r = right.print();
                s.append(r.as_str());
                s.append(")");
                proof {
                    assert(s@ =~= spec_print(view_expr(*self)));
                }
                s
            },
            Expression::Binary { operator, left, right } => {
                let mut s = String::from_str("(");
                s.append(operator.lexeme.as_str());
                s.append(" ");
                let l = left.print();
                s.append(l.as_str());
                s.append(" ");
                let r = right.print();
                s.append(r.as_str());
                s.append(")");
                proof {
                    assert(s@ =~= spec_print(view_expr(*self)));
                }
                s
            },
            Expression::Ternary { operator, left, middle, right } => {
                let mut s = String::from_str("(");
                s.append(operator.lexeme.as_str());
                s.append(" ");
                let l = left.print();
                s.append(l.as_str());
                s.append(" ");
                let m = middle.print();
                s.append(m.as_str());
                s.append(" ");
                let r = right.print();
                s.append(r.as_str());
                s.append(")");
                proof {
                    assert(s@ =~= spec_print(view_expr(*self)));
                }
                s
            },
            Expression::Grouping(inner) => {
                let mut s = String::from_str("(group ");
                let g = inner.print();
                s.append(g.as_str());
                s.append(")");
                proof {
                    assert(s@ =~= spec_print(view_expr(*self)));
                }
                s
            },
        }
    }
}

} // verus!
