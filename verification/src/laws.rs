//! Laws relating the lexer, the parser and the printer: statements proved
//! once and for all inputs in their scope.

use crate::ast::{spec_print, ExpressionModel, LiteralValueModel};
use crate::text::{is_alphabetic_char, is_alphanumeric_char, is_digit10};
use crate::lexer::{
    count_alnum, count_digits, eof_token, lemma_count_alnum_exact, lemma_count_digits_exact,
    lemma_scan_string, scan_string,
    spec_keyword, spec_lex, spec_lex_line, spec_lex_lines, spec_split_lines, split_lines_acc,
    tok, unterminated_string_msg, LiteralModel, TokenModel, TokenType,
};
use crate::parser::{
    expected_rparen_msg, is_comparison_op, is_equality_op, is_factor_op, is_term_op, peek_is,
    sp_comma, sp_comma_rest, sp_comparison, sp_comparison_rest, sp_equality, sp_equality_rest,
    sp_expression, sp_factor, sp_factor_rest, sp_parse, sp_primary, sp_term, sp_term_rest,
    sp_ternary, sp_unary,
};
use crate::result::ErrorModel;
use vstd::prelude::*;

verus! {

broadcast use vstd::string::group_string_axioms;

proof fn lemma_split_acc_no_newline(s: Seq<char>, cur: Seq<char>)
    requires
        forall|m: int| 0 <= m < s.len() ==> s[m] != '\n',
        cur.len() + s.len() > 0,
    ensures
        split_lines_acc(s, cur) == seq![cur + s],
    decreases s.len(),
{
    if s.len() == 0 {
        assert(cur + s =~= cur);
    } else {
        assert(forall|m: int|
            0 <= m < s.drop_first().len() ==> #[trigger] s.drop_first()[m] != '\n');
        lemma_split_acc_no_newline(s.drop_first(), cur.push(s[0]));
        assert(cur.push(s[0]) + s.drop_first() =~= cur + s);
    }
}

/// A nonempty source text without a newline is a single line.
proof fn lemma_split_single_line(s: Seq<char>)
    requires
        s.len() > 0,
        forall|m: int| 0 <= m < s.len() ==> s[m] != '\n',
    ensures
        spec_split_lines(s) == seq![s],
{
    lemma_split_acc_no_newline(s, Seq::empty());
    assert(Seq::<char>::empty() + s =~= s);
}

/// The shape of a numeric literal's text: `dlen` leading digits, either the
/// whole text or followed by a decimal point and at least one more digit,
/// with digits to the end.
pub open spec fn is_number_text(s: Seq<char>, dlen: int) -> bool {
    &&& 1 <= dlen <= s.len()
    &&& forall|m: int| 0 <= m < dlen ==> is_digit10(s[m])
    &&& dlen < s.len() ==> {
        &&& s[dlen] == '.'
        &&& dlen + 1 < s.len()
        &&& forall|m: int| dlen < m < s.len() ==> is_digit10(s[m])
    }
}

/// The token a numeric literal at the start of the first line lexes to.
pub open spec fn number_token(s: Seq<char>) -> TokenModel {
    tok(TokenType::Number, s, LiteralModel::NumberValue(s), 1, 1)
}

/// Lexing one line that consists of exactly one numeric literal yields
/// exactly that number token.
proof fn lemma_lex_number_line(s: Seq<char>, dlen: int)
    requires
        is_number_text(s, dlen),
    ensures
        spec_lex_line(s, 1, 0) == Ok::<Seq<TokenModel>, ErrorModel>(seq![number_token(s)]),
{
    assert(is_digit10(s[0]));
    assert(('.' as u32) == 46);
    if dlen == s.len() {
        lemma_count_digits_exact(s, 1, dlen - 1);
        assert(count_digits(s, 1) == dlen - 1);
        assert(s.subrange(0, s.len() as int) =~= s);
        assert(spec_lex_line(s, 1, s.len() as int) == Ok::<Seq<TokenModel>, ErrorModel>(
            Seq::empty(),
        ));
        assert(seq![number_token(s)] + Seq::<TokenModel>::empty() =~= seq![number_token(s)]);
    } else {
        assert(!is_digit10('.'));
        lemma_count_digits_exact(s, 1, dlen - 1);
        lemma_count_digits_exact(s, dlen + 1, s.len() - (dlen + 1));
        assert(s.subrange(0, s.len() as int) =~= s);
        assert(spec_lex_line(s, 1, s.len() as int) == Ok::<Seq<TokenModel>, ErrorModel>(
            Seq::empty(),
        ));
        assert(seq![number_token(s)] + Seq::<TokenModel>::empty() =~= seq![number_token(s)]);
    }
}

/// A source text that consists of exactly one numeric literal lexes to that
/// number token followed by the end-of-input token.
pub proof fn lemma_lex_number(s: Seq<char>, dlen: int)
    requires
        is_number_text(s, dlen),
    ensures
        spec_lex(s) == Ok::<Seq<TokenModel>, ErrorModel>(seq![number_token(s), eof_token()]),
{
    assert(('\n' as u32) == 10);
    assert(forall|m: int| 0 <= m < s.len() ==> s[m] != '\n') by {
        assert forall|m: int| 0 <= m < s.len() implies s[m] != '\n' by {
            if m < dlen || dlen < m {
                assert(is_digit10(s[m]) || s[m] == '.');
            }
        }
    }
    lemma_split_single_line(s);
    lemma_lex_number_line(s, dlen);
    let lines = spec_split_lines(s);
    assert(spec_lex_lines(lines, 1) == Ok::<Seq<TokenModel>, ErrorModel>(Seq::empty()));
    assert(seq![number_token(s)] + Seq::<TokenModel>::empty() =~= seq![number_token(s)]);
    assert(spec_lex_lines(lines, 0) == Ok::<Seq<TokenModel>, ErrorModel>(seq![number_token(s)]));
    assert(seq![number_token(s)].push(eof_token()) =~= seq![number_token(s), eof_token()]);
}

/// A string literal opened at the start of a line and never closed before
/// the line ends fails lexing with the unterminated-string error at the
/// opening quote.
pub proof fn lemma_unterminated_string(s: Seq<char>)
    requires
        s.len() > 0,
        s[0] == '"',
        forall|m: int| 1 <= m < s.len() ==> s[m] != '"',
        forall|m: int| 0 <= m < s.len() ==> s[m] != '\n',
    ensures
        spec_lex(s) == Err::<Seq<TokenModel>, ErrorModel>(
            ErrorModel { msg: unterminated_string_msg(), line: 1, col: 1 },
        ),
{
    lemma_split_single_line(s);
    lemma_scan_string(s, 1);
    assert(scan_string(s, 1) is None);
}

/// A word: an alphabetic first character, alphanumeric characters after it.
pub open spec fn is_word_text(s: Seq<char>) -> bool {
    &&& s.len() > 0
    &&& is_alphabetic_char(s[0])
    &&& forall|m: int| 1 <= m < s.len() ==> is_alphanumeric_char(s[m])
}

/// The token a word at the start of the first line lexes to: its category
/// comes from the keyword table.
pub open spec fn word_token(s: Seq<char>) -> TokenModel {
    tok(spec_keyword(s), s, LiteralModel::NoValue, 1, 1)
}

/// Lexing one line that consists of exactly one word yields exactly that
/// word's token.
proof fn lemma_lex_word_line(s: Seq<char>)
    requires
        is_word_text(s),
    ensures
        spec_lex_line(s, 1, 0) == Ok::<Seq<TokenModel>, ErrorModel>(seq![word_token(s)]),
{
    lemma_count_alnum_exact(s, 1, s.len() - 1);
    assert(s.subrange(0, s.len() as int) =~= s);
    assert(spec_lex_line(s, 1, s.len() as int) == Ok::<Seq<TokenModel>, ErrorModel>(Seq::empty()));
    assert(seq![word_token(s)] + Seq::<TokenModel>::empty() =~= seq![word_token(s)]);
}

/// A source text that consists of exactly one word lexes to that word's
/// token followed by the end-of-input token.
pub proof fn lemma_lex_word(s: Seq<char>)
    requires
        is_word_text(s),
    ensures
        spec_lex(s) == Ok::<Seq<TokenModel>, ErrorModel>(seq![word_token(s), eof_token()]),
{
    assert(forall|m: int| 0 <= m < s.len() ==> s[m] != '\n') by {
        assert forall|m: int| 0 <= m < s.len() implies s[m] != '\n' by {
            if m > 0 {
                assert(is_alphanumeric_char(s[m]));
            }
        }
    }
    lemma_split_single_line(s);
    lemma_lex_word_line(s);
    let lines = spec_split_lines(s);
    assert(spec_lex_lines(lines, 1) == Ok::<Seq<TokenModel>, ErrorModel>(Seq::empty()));
    assert(seq![word_token(s)] + Seq::<TokenModel>::empty() =~= seq![word_token(s)]);
    assert(spec_lex_lines(lines, 0) == Ok::<Seq<TokenModel>, ErrorModel>(seq![word_token(s)]));
    assert(seq![word_token(s)].push(eof_token()) =~= seq![word_token(s), eof_token()]);
}

/// The literal value a single token stands for, if any.
pub open spec fn sp_literal_of(t: TokenModel) -> Option<LiteralValueModel> {
    if t.token_type == TokenType::Number {
        match t.literal {
            LiteralModel::NumberValue(s) => Some(LiteralValueModel::Number(s)),
            _ => None,
        }
    } else if t.token_type == TokenType::Str {
        match t.literal {
            LiteralModel::StrValue(s) => Some(LiteralValueModel::Str(s)),
            _ => None,
        }
    } else if t.token_type == TokenType::True {
        Some(LiteralValueModel::True)
    } else if t.token_type == TokenType::False {
        Some(LiteralValueModel::False)
    } else if t.token_type == TokenType::Nil {
        Some(LiteralValueModel::Nil)
    } else {
        None
    }
}

proof fn lemma_literal_unary(ts: Seq<TokenModel>, pos: int, v: LiteralValueModel)
    requires
        0 <= pos < ts.len(),
        sp_literal_of(ts[pos]) == Some(v),
    ensures
        sp_unary(ts, pos) == Ok::<(ExpressionModel, int), ErrorModel>(
            (ExpressionModel::Literal(v), pos + 1),
        ),
{
    assert(sp_primary(ts, pos) == Ok::<(ExpressionModel, int), ErrorModel>(
        (ExpressionModel::Literal(v), pos + 1),
    ));
}

proof fn lemma_factor_plain(ts: Seq<TokenModel>, pos: int, e: ExpressionModel, p: int)
    requires
        sp_unary(ts, pos) == Ok::<(ExpressionModel, int), ErrorModel>((e, p)),
        pos < p <= ts.len(),
        !(0 <= p < ts.len() && is_factor_op(ts[p].token_type)),
    ensures
        sp_factor(ts, pos) == Ok::<(ExpressionModel, int), ErrorModel>((e, p)),
{
}

proof fn lemma_term_plain(ts: Seq<TokenModel>, pos: int, e: ExpressionModel, p: int)
    requires
        sp_factor(ts, pos) == Ok::<(ExpressionModel, int), ErrorModel>((e, p)),
        pos < p <= ts.len(),
        !(0 <= p < ts.len() && is_term_op(ts[p].token_type)),
    ensures
        sp_term(ts, pos) == Ok::<(ExpressionModel, int), ErrorModel>((e, p)),
{
}

proof fn lemma_comparison_plain(ts: Seq<TokenModel>, pos: int, e: ExpressionModel, p: int)
    requires
        sp_term(ts, pos) == Ok::<(ExpressionModel, int), ErrorModel>((e, p)),
        pos < p <= ts.len(),
        !(0 <= p < ts.len() && is_comparison_op(ts[p].token_type)),
    ensures
        sp_comparison(ts, pos) == Ok::<(ExpressionModel, int), ErrorModel>((e, p)),
{
}

proof fn lemma_equality_plain(ts: Seq<TokenModel>, pos: int, e: ExpressionModel, p: int)
    requires
        sp_comparison(ts, pos) == Ok::<(ExpressionModel, int), ErrorModel>((e, p)),
        pos < p <= ts.len(),
        !(0 <= p < ts.len() && is_equality_op(ts[p].token_type)),
    ensures
        sp_equality(ts, pos) == Ok::<(ExpressionModel, int), ErrorModel>((e, p)),
{
}

proof fn lemma_ternary_plain(ts: Seq<TokenModel>, pos: int, e: ExpressionModel, p: int)
    requires
        sp_equality(ts, pos) == Ok::<(ExpressionModel, int), ErrorModel>((e, p)),
        pos < p <= ts.len(),
        !peek_is(ts, p, TokenType::QuestionMark),
    ensures
        sp_ternary(ts, pos) == Ok::<(ExpressionModel, int), ErrorModel>((e, p)),
{
}

proof fn lemma_comma_plain(ts: Seq<TokenModel>, pos: int, e: ExpressionModel, p: int)
    requires
        sp_ternary(ts, pos) == Ok::<(ExpressionModel, int), ErrorModel>((e, p)),
        pos < p <= ts.len(),
        !peek_is(ts, p, TokenType::Comma),
    ensures
        sp_comma(ts, pos) == Ok::<(ExpressionModel, int), ErrorModel>((e, p)),
        sp_expression(ts, pos) == Ok::<(ExpressionModel, int), ErrorModel>((e, p)),
{
}

/// Raises a parsed literal through every tier: with no operator following,
/// each tier returns the literal unchanged.
proof fn lemma_literal_expression(ts: Seq<TokenModel>, pos: int, v: LiteralValueModel)
    requires
        0 <= pos < ts.len(),
        sp_literal_of(ts[pos]) == Some(v),
        pos + 1 < ts.len() ==> ts[pos + 1].token_type == TokenType::Eof,
    ensures
        sp_expression(ts, pos) == Ok::<(ExpressionModel, int), ErrorModel>(
            (ExpressionModel::Literal(v), pos + 1),
        ),
{
    let e = ExpressionModel::Literal(v);
    lemma_literal_unary(ts, pos, v);
    lemma_factor_plain(ts, pos, e, pos + 1);
    lemma_term_plain(ts, pos, e, pos + 1);
    lemma_comparison_plain(ts, pos, e, pos + 1);
    lemma_equality_plain(ts, pos, e, pos + 1);
    lemma_ternary_plain(ts, pos, e, pos + 1);
    lemma_comma_plain(ts, pos, e, pos + 1);
}

/// A token sequence of one literal token and the end-of-input token parses
/// to exactly that literal expression.
pub proof fn lemma_parse_literal_eof(ts: Seq<TokenModel>, v: LiteralValueModel)
    requires
        ts.len() == 2,
        sp_literal_of(ts[0]) == Some(v),
        ts[1].token_type == TokenType::Eof,
    ensures
        sp_parse(ts) == Ok::<ExpressionModel, ErrorModel>(ExpressionModel::Literal(v)),
{
    lemma_literal_expression(ts, 0, v);
}

/// For every source text that is a single numeric literal, lexing yields the
/// number token and parsing yields exactly `Literal(Number(text))`.
pub proof fn lemma_parse_number(s: Seq<char>, dlen: int)
    requires
        is_number_text(s, dlen),
    ensures
        spec_lex(s) == Ok::<Seq<TokenModel>, ErrorModel>(seq![number_token(s), eof_token()]),
        sp_parse(seq![number_token(s), eof_token()]) == Ok::<ExpressionModel, ErrorModel>(
            ExpressionModel::Literal(LiteralValueModel::Number(s)),
        ),
{
    lemma_lex_number(s, dlen);
    lemma_parse_literal_eof(
        seq![number_token(s), eof_token()],
        LiteralValueModel::Number(s),
    );
}

/// The unary operator nests to the right: a doubled `-` before a literal
/// parses as `Unary(-, Unary(-, literal))`.
pub proof fn lemma_unary_right_associative(
    m1: TokenModel,
    m2: TokenModel,
    lit: TokenModel,
    eof: TokenModel,
    v: LiteralValueModel,
)
    requires
        m1.token_type == TokenType::Minus,
        m2.token_type == TokenType::Minus,
        sp_literal_of(lit) == Some(v),
        eof.token_type == TokenType::Eof,
    ensures
        sp_parse(seq![m1, m2, lit, eof]) == Ok::<ExpressionModel, ErrorModel>(
            ExpressionModel::Unary {
                operator: m1,
                right: Box::new(
                    ExpressionModel::Unary {
                        operator: m2,
                        right: Box::new(ExpressionModel::Literal(v)),
                    },
                ),
            },
        ),
{
    let ts = seq![m1, m2, lit, eof];
    lemma_literal_unary(ts, 2, v);
    let inner = ExpressionModel::Unary {
        operator: m2,
        right: Box::new(ExpressionModel::Literal(v)),
    };
    let outer = ExpressionModel::Unary { operator: m1, right: Box::new(inner) };
    assert(sp_unary(ts, 1) == Ok::<(ExpressionModel, int), ErrorModel>((inner, 3)));
    assert(sp_unary(ts, 0) == Ok::<(ExpressionModel, int), ErrorModel>((outer, 3)));
    lemma_factor_plain(ts, 0, outer, 3);
    lemma_term_plain(ts, 0, outer, 3);
    lemma_comparison_plain(ts, 0, outer, 3);
    lemma_equality_plain(ts, 0, outer, 3);
    lemma_ternary_plain(ts, 0, outer, 3);
    lemma_comma_plain(ts, 0, outer, 3);
}

/// Two operators of the same left-associative tier.
pub open spec fn same_tier_ops(t1: TokenType, t2: TokenType) -> bool {
    ||| (t1 == TokenType::Comma && t2 == TokenType::Comma)
    ||| (is_equality_op(t1) && is_equality_op(t2))
    ||| (is_comparison_op(t1) && is_comparison_op(t2))
    ||| (is_term_op(t1) && is_term_op(t2))
    ||| (is_factor_op(t1) && is_factor_op(t2))
}

/// The left-folded tree `(o2 (o1 a b) c)` over three literal expressions.
pub open spec fn left_folded(
    o1: TokenModel,
    o2: TokenModel,
    va: LiteralValueModel,
    vb: LiteralValueModel,
    vc: LiteralValueModel,
) -> ExpressionModel {
    ExpressionModel::Binary {
        operator: o2,
        left: Box::new(
            ExpressionModel::Binary {
                operator: o1,
                left: Box::new(ExpressionModel::Literal(va)),
                right: Box::new(ExpressionModel::Literal(vb)),
            },
        ),
        right: Box::new(ExpressionModel::Literal(vc)),
    }
}

proof fn lemma_left_assoc_factor(
    ts: Seq<TokenModel>,
    va: LiteralValueModel,
    vb: LiteralValueModel,
    vc: LiteralValueModel,
)
    requires
        ts.len() == 6,
        sp_literal_of(ts[0]) == Some(va),
        sp_literal_of(ts[2]) == Some(vb),
        sp_literal_of(ts[4]) == Some(vc),
        is_factor_op(ts[1].token_type),
        is_factor_op(ts[3].token_type),
        ts[5].token_type == TokenType::Eof,
    ensures
        sp_parse(ts) == Ok::<ExpressionModel, ErrorModel>(left_folded(ts[1], ts[3], va, vb, vc)),
{
    let la = ExpressionModel::Literal(va);
    let lb = ExpressionModel::Literal(vb);
    let lc = ExpressionModel::Literal(vc);
    let ab = ExpressionModel::Binary { operator: ts[1], left: Box::new(la), right: Box::new(lb) };
    let abc = left_folded(ts[1], ts[3], va, vb, vc);
    lemma_literal_unary(ts, 0, va);
    lemma_literal_unary(ts, 2, vb);
    lemma_literal_unary(ts, 4, vc);
    assert(sp_factor_rest(ts, 5, abc) == Ok::<(ExpressionModel, int), ErrorModel>((abc, 5)));
    assert(sp_factor_rest(ts, 3, ab) == Ok::<(ExpressionModel, int), ErrorModel>((abc, 5)));
    assert(sp_factor_rest(ts, 1, la) == Ok::<(ExpressionModel, int), ErrorModel>((abc, 5)));
    assert(sp_factor(ts, 0) == Ok::<(ExpressionModel, int), ErrorModel>((abc, 5)));
    lemma_term_plain(ts, 0, abc, 5);
    lemma_comparison_plain(ts, 0, abc, 5);
    lemma_equality_plain(ts, 0, abc, 5);
    lemma_ternary_plain(ts, 0, abc, 5);
    lemma_comma_plain(ts, 0, abc, 5);
}

proof fn lemma_left_assoc_term(
    ts: Seq<TokenModel>,
    va: LiteralValueModel,
    vb: LiteralValueModel,
    vc: LiteralValueModel,
)
    requires
        ts.len() == 6,
        sp_literal_of(ts[0]) == Some(va),
        sp_literal_of(ts[2]) == Some(vb),
        sp_literal_of(ts[4]) == Some(vc),
        is_term_op(ts[1].token_type),
        is_term_op(ts[3].token_type),
        ts[5].token_type == TokenType::Eof,
    ensures
        sp_parse(ts) == Ok::<ExpressionModel, ErrorModel>(left_folded(ts[1], ts[3], va, vb, vc)),
{
    let la = ExpressionModel::Literal(va);
    let lb = ExpressionModel::Literal(vb);
    let lc = ExpressionModel::Literal(vc);
    let ab = ExpressionModel::Binary { operator: ts[1], left: Box::new(la), right: Box::new(lb) };
    let abc = left_folded(ts[1], ts[3], va, vb, vc);
    lemma_literal_unary(ts, 0, va);
    lemma_literal_unary(ts, 2, vb);
    lemma_literal_unary(ts, 4, vc);
    lemma_factor_plain(ts, 0, la, 1);
    lemma_factor_plain(ts, 2, lb, 3);
    lemma_factor_plain(ts, 4, lc, 5);
    assert(sp_term_rest(ts, 5, abc) == Ok::<(ExpressionModel, int), ErrorModel>((abc, 5)));
    assert(sp_term_rest(ts, 3, ab) == Ok::<(ExpressionModel, int), ErrorModel>((abc, 5)));
    assert(sp_term_rest(ts, 1, la) == Ok::<(ExpressionModel, int), ErrorModel>((abc, 5)));
    assert(sp_term(ts, 0) == Ok::<(ExpressionModel, int), ErrorModel>((abc, 5)));
    lemma_comparison_plain(ts, 0, abc, 5);
    lemma_equality_plain(ts, 0, abc, 5);
    lemma_ternary_plain(ts, 0, abc, 5);
    lemma_comma_plain(ts, 0, abc, 5);
}

proof fn lemma_left_assoc_comparison(
    ts: Seq<TokenModel>,
    va: LiteralValueModel,
    vb: LiteralValueModel,
    vc: LiteralValueModel,
)
    requires
        ts.len() == 6,
        sp_literal_of(ts[0]) == Some(va),
        sp_literal_of(ts[2]) == Some(vb),
        sp_literal_of(ts[4]) == Some(vc),
        is_comparison_op(ts[1].token_type),
        is_comparison_op(ts[3].token_type),
        ts[5].token_type == TokenType::Eof,
    ensures
        sp_parse(ts) == Ok::<ExpressionModel, ErrorModel>(left_folded(ts[1], ts[3], va, vb, vc)),
{
    let la = ExpressionModel::Literal(va);
    let lb = ExpressionModel::Literal(vb);
    let lc = ExpressionModel::Literal(vc);
    let ab = ExpressionModel::Binary { operator: ts[1], left: Box::new(la), right: Box::new(lb) };
    let abc = left_folded(ts[1], ts[3], va, vb, vc);
    lemma_literal_unary(ts, 0, va);
    lemma_literal_unary(ts, 2, vb);
    lemma_literal_unary(ts, 4, vc);
    lemma_factor_plain(ts, 0, la, 1);
    lemma_factor_plain(ts, 2, lb, 3);
    lemma_factor_plain(ts, 4, lc, 5);
    lemma_term_plain(ts, 0, la, 1);
    lemma_term_plain(ts, 2, lb, 3);
    lemma_term_plain(ts, 4, lc, 5);
    assert(sp_comparison_rest(ts, 5, abc) == Ok::<(ExpressionModel, int), ErrorModel>((abc, 5)));
    assert(sp_comparison_rest(ts, 3, ab) == Ok::<(ExpressionModel, int), ErrorModel>((abc, 5)));
    assert(sp_comparison_rest(ts, 1, la) == Ok::<(ExpressionModel, int), ErrorModel>((abc, 5)));
    assert(sp_comparison(ts, 0) == Ok::<(ExpressionModel, int), ErrorModel>((abc, 5)));
    lemma_equality_plain(ts, 0, abc, 5);
    lemma_ternary_plain(ts, 0, abc, 5);
    lemma_comma_plain(ts, 0, abc, 5);
}

proof fn lemma_left_assoc_equality(
    ts: Seq<TokenModel>,
    va: LiteralValueModel,
    vb: LiteralValueModel,
    vc: LiteralValueModel,
)
    requires
        ts.len() == 6,
        sp_literal_of(ts[0]) == Some(va),
        sp_literal_of(ts[2]) == Some(vb),
        sp_literal_of(ts[4]) == Some(vc),
        is_equality_op(ts[1].token_type),
        is_equality_op(ts[3].token_type),
        ts[5].token_type == TokenType::Eof,
    ensures
        sp_parse(ts) == Ok::<ExpressionModel, ErrorModel>(left_folded(ts[1], ts[3], va, vb, vc)),
{
    let la = ExpressionModel::Literal(va);
    let lb = ExpressionModel::Literal(vb);
    let lc = ExpressionModel::Literal(vc);
    let ab = ExpressionModel::Binary { operator: ts[1], left: Box::new(la), right: Box::new(lb) };
    let abc = left_folded(ts[1], ts[3], va, vb, vc);
    lemma_literal_unary(ts, 0, va);
    lemma_literal_unary(ts, 2, vb);
    lemma_literal_unary(ts, 4, vc);
    lemma_factor_plain(ts, 0, la, 1);
    lemma_factor_plain(ts, 2, lb, 3);
    lemma_factor_plain(ts, 4, lc, 5);
    lemma_term_plain(ts, 0, la, 1);
    lemma_term_plain(ts, 2, lb, 3);
    lemma_term_plain(ts, 4, lc, 5);
    lemma_comparison_plain(ts, 0, la, 1);
    lemma_comparison_plain(ts, 2, lb, 3);
    lemma_comparison_plain(ts, 4, lc, 5);
    assert(sp_equality_rest(ts, 5, abc) == Ok::<(ExpressionModel, int), ErrorModel>((abc, 5)));
    assert(sp_equality_rest(ts, 3, ab) == Ok::<(ExpressionModel, int), ErrorModel>((abc, 5)));
    assert(sp_equality_rest(ts, 1, la) == Ok::<(ExpressionModel, int), ErrorModel>((abc, 5)));
    assert(sp_equality(ts, 0) == Ok::<(ExpressionModel, int), ErrorModel>((abc, 5)));
    lemma_ternary_plain(ts, 0, abc, 5);
    lemma_comma_plain(ts, 0, abc, 5);
}

proof fn lemma_left_assoc_comma(
    ts: Seq<TokenModel>,
    va: LiteralValueModel,
    vb: LiteralValueModel,
    vc: LiteralValueModel,
)
    requires
        ts.len() == 6,
        sp_literal_of(ts[0]) == Some(va),
        sp_literal_of(ts[2]) == Some(vb),
        sp_literal_of(ts[4]) == Some(vc),
        ts[1].token_type == TokenType::Comma,
        ts[3].token_type == TokenType::Comma,
        ts[5].token_type == TokenType::Eof,
    ensures
        sp_parse(ts) == Ok::<ExpressionModel, ErrorModel>(left_folded(ts[1], ts[3], va, vb, vc)),
{
    let la = ExpressionModel::Literal(va);
    let lb = ExpressionModel::Literal(vb);
    let lc = ExpressionModel::Literal(vc);
    let ab = ExpressionModel::Binary { operator: ts[1], left: Box::new(la), right: Box::new(lb) };
    let abc = left_folded(ts[1], ts[3], va, vb, vc);
    lemma_literal_unary(ts, 0, va);
    lemma_literal_unary(ts, 2, vb);
    lemma_literal_unary(ts, 4, vc);
    lemma_factor_plain(ts, 0, la, 1);
    lemma_factor_plain(ts, 2, lb, 3);
    lemma_factor_plain(ts, 4, lc, 5);
    lemma_term_plain(ts, 0, la, 1);
    lemma_term_plain(ts, 2, lb, 3);
    lemma_term_plain(ts, 4, lc, 5);
    lemma_comparison_plain(ts, 0, la, 1);
    lemma_comparison_plain(ts, 2, lb, 3);
    lemma_comparison_plain(ts, 4, lc, 5);
    lemma_equality_plain(ts, 0, la, 1);
    lemma_equality_plain(ts, 2, lb, 3);
    lemma_equality_plain(ts, 4, lc, 5);
    lemma_ternary_plain(ts, 0, la, 1);
    lemma_ternary_plain(ts, 2, lb, 3);
    lemma_ternary_plain(ts, 4, lc, 5);
    assert(sp_comma_rest(ts, 5, abc) == Ok::<(ExpressionModel, int), ErrorModel>((abc, 5)));
    assert(sp_comma_rest(ts, 3, ab) == Ok::<(ExpressionModel, int), ErrorModel>((abc, 5)));
    assert(sp_comma_rest(ts, 1, la) == Ok::<(ExpressionModel, int), ErrorModel>((abc, 5)));
    assert(sp_comma(ts, 0) == Ok::<(ExpressionModel, int), ErrorModel>((abc, 5)));
}

/// Left associativity: for every left-associative tier, three literals
/// joined by two operators of that tier parse as `(o2 (o1 a b) c)`, never
/// as `(o1 a (o2 b c))`.
pub proof fn lemma_left_associative(
    ts: Seq<TokenModel>,
    va: LiteralValueModel,
    vb: LiteralValueModel,
    vc: LiteralValueModel,
)
    requires
        ts.len() == 6,
        sp_literal_of(ts[0]) == Some(va),
        sp_literal_of(ts[2]) == Some(vb),
        sp_literal_of(ts[4]) == Some(vc),
        same_tier_ops(ts[1].token_type, ts[3].token_type),
        ts[5].token_type == TokenType::Eof,
    ensures
        sp_parse(ts) == Ok::<ExpressionModel, ErrorModel>(left_folded(ts[1], ts[3], va, vb, vc)),
{
    if ts[1].token_type == TokenType::Comma {
        lemma_left_assoc_comma(ts, va, vb, vc);
    } else if is_equality_op(ts[1].token_type) {
        lemma_left_assoc_equality(ts, va, vb, vc);
    } else if is_comparison_op(ts[1].token_type) {
        lemma_left_assoc_comparison(ts, va, vb, vc);
    } else if is_term_op(ts[1].token_type) {
        lemma_left_assoc_term(ts, va, vb, vc);
    } else {
        lemma_left_assoc_factor(ts, va, vb, vc);
    }
}

/// A parenthesized expression whose closing `)` is missing fails parsing
/// with "expected ')'" positioned at the opening parenthesis.
pub proof fn lemma_unbalanced_paren(ts: Seq<TokenModel>, e: ExpressionModel, p: int)
    requires
        ts.len() > 0,
        ts[0].token_type == TokenType::LeftParen,
        sp_expression(ts, 1) == Ok::<(ExpressionModel, int), ErrorModel>((e, p)),
        !peek_is(ts, p, TokenType::RightParen),
    ensures
        sp_parse(ts) == Err::<ExpressionModel, ErrorModel>(
            ErrorModel { msg: expected_rparen_msg(), line: ts[0].line, col: ts[0].col },
        ),
{
    let err = ErrorModel { msg: expected_rparen_msg(), line: ts[0].line, col: ts[0].col };
    assert(sp_primary(ts, 0) == Err::<(ExpressionModel, int), ErrorModel>(err));
    assert(sp_unary(ts, 0) == Err::<(ExpressionModel, int), ErrorModel>(err));
    assert(sp_factor(ts, 0) == Err::<(ExpressionModel, int), ErrorModel>(err));
    assert(sp_term(ts, 0) == Err::<(ExpressionModel, int), ErrorModel>(err));
    assert(sp_comparison(ts, 0) == Err::<(ExpressionModel, int), ErrorModel>(err));
    assert(sp_equality(ts, 0) == Err::<(ExpressionModel, int), ErrorModel>(err));
    assert(sp_ternary(ts, 0) == Err::<(ExpressionModel, int), ErrorModel>(err));
    assert(sp_comma(ts, 0) == Err::<(ExpressionModel, int), ErrorModel>(err));
}

/// What holds of every token a line yields: it is not the end-of-input
/// sentinel, its lexeme is non-empty, and it carries the line's 1-based
/// number and a 1-based column.
pub open spec fn wf_content_token(t: TokenModel, line_no: int) -> bool {
    &&& t.token_type != TokenType::Eof
    &&& t.lexeme.len() >= 1
    &&& t.line == line_no
    &&& t.col >= 1
}

#[verifier::rlimit(100)]
proof fn lemma_lex_line_wf(l: Seq<char>, line_no: int, j: int)
    requires
        0 <= j,
    ensures
        spec_lex_line(l, line_no, j) matches Ok(ts) ==> forall|i: int|
            0 <= i < ts.len() ==> wf_content_token(#[trigger] ts[i], line_no),
    decreases l.len() - j,
{
    if 0 <= j < l.len() {
        crate::lexer::lemma_count_digits(l, j + 1);
        crate::lexer::lemma_count_alnum(l, j + 1);
        lemma_scan_string(l, j + 1);
        let il = count_digits(l, j + 1);
        if j + 2 + il <= l.len() {
            crate::lexer::lemma_count_digits(l, j + 2 + il);
        }
        lemma_lex_line_wf(l, line_no, j + 1);
        if j + 2 <= l.len() {
            lemma_lex_line_wf(l, line_no, j + 2);
        }
        match scan_string(l, j + 1) {
            Some(k) => {
                lemma_lex_line_wf(l, line_no, j + k + 2);
            },
            None => {},
        }
        lemma_lex_line_wf(l, line_no, j + 1 + il);
        if j + 2 + il <= l.len() {
            lemma_lex_line_wf(l, line_no, j + 2 + il + count_digits(l, j + 2 + il));
        }
        lemma_lex_line_wf(l, line_no, j + 1 + count_alnum(l, j + 1));
    }
}

proof fn lemma_lex_lines_wf(lines: Seq<Seq<char>>, i: int)
    ensures
        spec_lex_lines(lines, i) matches Ok(ts) ==> forall|m: int|
            0 <= m < ts.len() ==> wf_content_token(#[trigger] ts[m], ts[m].line) && ts[m].line >= 1,
    decreases lines.len() - i,
{
    if 0 <= i < lines.len() {
        lemma_lex_line_wf(lines[i], i + 1, 0);
        lemma_lex_lines_wf(lines, i + 1);
    }
}

/// A successful lex is terminated by exactly one end-of-input token: the
/// last token is the sentinel, and every token before it belongs to the
/// source, with a non-empty lexeme and a 1-based line and column.
pub proof fn lemma_lex_terminated(s: Seq<char>, ts: Seq<TokenModel>)
    requires
        spec_lex(s) == Ok::<Seq<TokenModel>, ErrorModel>(ts),
    ensures
        ts.len() >= 1,
        ts[ts.len() - 1] == eof_token(),
        forall|i: int| 0 <= i < ts.len() - 1 ==> wf_content_token(#[trigger] ts[i], ts[i].line)
            && ts[i].line >= 1,
{
    lemma_lex_lines_wf(spec_split_lines(s), 0);
}

/// The literal expressions whose printed text reads back as one token: a
/// number with well-formed digits, or one of the keyword literals.  A string
/// literal prints without its quotes, and composite trees print in prefix
/// form, so their printed text does not re-read as the same tree.
pub open spec fn printable_literal(v: LiteralValueModel) -> bool {
    match v {
        LiteralValueModel::Number(s) => exists|dlen: int| is_number_text(s, dlen),
        LiteralValueModel::Str(_) => false,
        LiteralValueModel::True => true,
        LiteralValueModel::False => true,
        LiteralValueModel::Nil => true,
    }
}

proof fn reveal_keywords()
    ensures
        spec_keyword("true"@) == TokenType::True,
        spec_keyword("false"@) == TokenType::False,
        spec_keyword("nil"@) == TokenType::Nil,
        is_word_text("true"@),
        is_word_text("false"@),
        is_word_text("nil"@),
{
    reveal_strlit("and");
    reveal_strlit("class");
    reveal_strlit("else");
    reveal_strlit("false");
    reveal_strlit("for");
    reveal_strlit("fun");
    reveal_strlit("if");
    reveal_strlit("nil");
    reveal_strlit("or");
    reveal_strlit("print");
    reveal_strlit("return");
    reveal_strlit("super");
    reveal_strlit("this");
    reveal_strlit("true");
    assert("and"@.len() == 3 && "and"@[0] == 'a');
    assert("class"@.len() == 5 && "class"@[0] == 'c');
    assert("else"@.len() == 4 && "else"@[0] == 'e');
    assert("for"@.len() == 3 && "for"@[0] == 'f');
    assert("fun"@.len() == 3 && "fun"@[0] == 'f');
    assert("if"@.len() == 2);
    assert("or"@.len() == 2);
    assert("print"@.len() == 5 && "print"@[0] == 'p');
    assert("return"@.len() == 6);
    assert("super"@.len() == 5 && "super"@[0] == 's');
    assert("this"@.len() == 4 && "this"@[0] == 't' && "this"@[1] == 'h');
    assert("true"@.len() == 4 && "true"@[0] == 't' && "true"@[1] == 'r' && "true"@[2] == 'u'
        && "true"@[3] == 'e');
    assert("false"@.len() == 5 && "false"@[0] == 'f' && "false"@[1] == 'a' && "false"@[2] == 'l'
        && "false"@[3] == 's' && "false"@[4] == 'e');
    assert("nil"@.len() == 3 && "nil"@[0] == 'n' && "nil"@[1] == 'i' && "nil"@[2] == 'l');
}

/// Round trip: printing a literal expression and lexing and parsing the
/// printed text yields a structurally identical tree.
pub proof fn lemma_print_roundtrip(e: ExpressionModel)
    requires
        e matches ExpressionModel::Literal(v) && printable_literal(v),
    ensures
        spec_lex(spec_print(e)) matches Ok(ts) && sp_parse(ts) == Ok::<
            ExpressionModel,
            ErrorModel,
        >(e),
{
    match e {
        ExpressionModel::Literal(v) => {
            match v {
                LiteralValueModel::Number(s) => {
                    let dlen = choose|dlen: int| is_number_text(s, dlen);
                    lemma_parse_number(s, dlen);
                },
                LiteralValueModel::True => {
                    reveal_keywords();
                    lemma_lex_word("true"@);
                    lemma_parse_literal_eof(
                        seq![word_token("true"@), eof_token()],
                        LiteralValueModel::True,
                    );
                },
                LiteralValueModel::False => {
                    reveal_keywords();
                    lemma_lex_word("false"@);
                    lemma_parse_literal_eof(
                        seq![word_token("false"@), eof_token()],
                        LiteralValueModel::False,
                    );
                },
                LiteralValueModel::Nil => {
                    reveal_keywords();
                    lemma_lex_word("nil"@);
                    lemma_parse_literal_eof(
                        seq![word_token("nil"@), eof_token()],
                        LiteralValueModel::Nil,
                    );
                },
                LiteralValueModel::Str(_) => {},
            }
        },
        _ => {},
    }
}

} // verus!
