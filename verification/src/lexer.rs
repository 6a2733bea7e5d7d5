//! Lexical analysis: turns source text into an ordered sequence of tokens,
//! each carrying a kind, its exact source text, an optional literal value and
//! a 1-based line/column position.

use crate::text::{
    chars_to_string, char_alphabetic, char_alphanumeric, char_whitespace, digit10,
    is_alphabetic_char, is_alphanumeric_char, is_digit10, is_whitespace_char, push_char,
    str_chars, str_eq,
};
use crate::result::{matches_error, Error, ErrorModel};
use vstd::prelude::*;

verus! {

/// A 1-based (line, column) pair; the end-of-input token carries the
/// sentinel `(0, 0)`.
pub type SourcePosition = (usize, usize);

/// The closed set of token categories.
#[derive(Debug, PartialEq, Eq, Structural, Clone, Copy)]
pub enum TokenType {
    LeftParen,
    RightParen,
    LeftBrace,
    RightBrace,
    Comma,
    Dot,
    Minus,
    Plus,
    Semicolon,
    Slash,
    Asterisk,
    Bang,
    BangEqual,
    Equal,
    EqualEqual,
    GreaterThan,
    GreaterThanOrEqual,
    LessThan,
    LessThanOrEqual,
    QuestionMark,
    Colon,
    Identifier,
    Str,
    Number,
    And,
    Class,
    Else,
    False,
    Fun,
    For,
    If,
    Nil,
    Or,
    Print,
    Return,
    Super,
    This,
    True,
    Var,
    While,
    Eof,
}

/// The literal payload of a token: absent, the unquoted contents of a string
/// literal, or the exact digits of a number literal.
#[derive(Debug)]
pub enum Literal {
    Nothing,
    Str(String),
    Number(String),
}

/// The mathematical shape of a literal payload.
pub enum LiteralModel {
    NoValue,
    StrValue(Seq<char>),
    NumberValue(Seq<char>),
}

impl View for Literal {
    type V = LiteralModel;

    open spec fn view(&self) -> LiteralModel {
        match self {
            Literal::Nothing => LiteralModel::NoValue,
            Literal::Str(s) => LiteralModel::StrValue(s@),
            Literal::Number(s) => LiteralModel::NumberValue(s@),
        }
    }
}

impl Clone for Literal {
    fn clone(&self) -> (r: Self)
        ensures
            r == *self,
    {
        match self {
            Literal::Nothing => Literal::Nothing,
            Literal::Str(s) => Literal::Str(s.clone()),
            Literal::Number(s) => Literal::Number(s.clone()),
        }
    }
}

/// One lexical unit: its category, the exact source substring it was derived
/// from, its literal payload, and its source position.
#[derive(Debug)]
pub struct Token {
    pub token_type: TokenType,
    pub lexeme: String,
    pub literal: Literal,
    pub source_position: SourcePosition,
}

/// The mathematical shape of a token.
pub struct TokenModel {
    pub token_type: TokenType,
    pub lexeme: Seq<char>,
    pub literal: LiteralModel,
    pub line: int,
    pub col: int,
}

impl View for Token {
    type V = TokenModel;

    open spec fn view(&self) -> TokenModel {
        TokenModel {
            token_type: self.token_type,
            lexeme: self.lexeme@,
            literal: self.literal@,
            line: self.source_position.0 as int,
            col: self.source_position.1 as int,
        }
    }
}

impl Clone for Token {
    fn clone(&self) -> (r: Self)
        ensures
            r == *self,
    {
        Token {
            token_type: self.token_type,
            lexeme: self.lexeme.clone(),
            literal: self.literal.clone(),
            source_position: self.source_position,
        }
    }
}

/// The keyword table: which category a given identifier-shaped lexeme maps to.
pub open spec fn spec_keyword(l: Seq<char>) -> TokenType {
    if l == "and"@ {
        TokenType::And
    } else if l == "class"@ {
        TokenType::Class
    } else if l == "else"@ {
        TokenType::Else
    } else if l == "false"@ {
        TokenType::False
    } else if l == "for"@ {
        TokenType::For
    } else if l == "fun"@ {
        TokenType::Fun
    } else if l == "if"@ {
        TokenType::If
    } else if l == "nil"@ {
        TokenType::Nil
    } else if l == "or"@ {
        TokenType::Or
    } else if l == "print"@ {
        TokenType::Print
    } else if l == "return"@ {
        TokenType::Return
    } else if l == "super"@ {
        TokenType::Super
    } else if l == "this"@ {
        TokenType::This
    } else if l == "true"@ {
        TokenType::True
    } else if l == "var"@ {
        TokenType::Var
    } else if l == "while"@ {
        TokenType::While
    } else {
        TokenType::Identifier
    }
}

/// Removes a single carriage return at the end of a line, as the separator
/// `"\r\n"` leaves one behind.
pub open spec fn strip_cr(l: Seq<char>) -> Seq<char> {
    if l.len() > 0 && l[l.len() - 1] == '\r' {
        l.drop_last()
    } else {
        l
    }
}

/// Splits the text `s`, with the line `cur` accumulated so far, into lines:
/// lines are separated by `'\n'`, a `'\r'` directly before a separator is
/// dropped, and a trailing empty piece after a final separator is no line.
pub open spec fn split_lines_acc(s: Seq<char>, cur: Seq<char>) -> Seq<Seq<char>>
    decreases s.len(),
{
    if s.len() == 0 {
        if cur.len() == 0 {
            Seq::empty()
        } else {
            seq![cur]
        }
    } else if s[0] == '\n' {
        seq![strip_cr(cur)] + split_lines_acc(s.drop_first(), Seq::empty())
    } else {
        split_lines_acc(s.drop_first(), cur.push(s[0]))
    }
}

/// The lines of the source text `s`.
pub open spec fn spec_split_lines(s: Seq<char>) -> Seq<Seq<char>> {
    split_lines_acc(s, Seq::empty())
}

/// Number of consecutive decimal digits at or after position `j`.
pub open spec fn count_digits(l: Seq<char>, j: int) -> nat
    decreases l.len() - j,
{
    if j < 0 || j >= l.len() {
        0
    } else if is_digit10(l[j]) {
        1 + count_digits(l, j + 1)
    } else {
        0
    }
}

/// Number of consecutive alphanumeric characters at or after position `j`.
pub open spec fn count_alnum(l: Seq<char>, j: int) -> nat
    decreases l.len() - j,
{
    if j < 0 || j >= l.len() {
        0
    } else if is_alphanumeric_char(l[j]) {
        1 + count_alnum(l, j + 1)
    } else {
        0
    }
}

/// Offset, from position `j`, of the next double quote on the line, if any.
pub open spec fn scan_string(l: Seq<char>, j: int) -> Option<nat>
    decreases l.len() - j,
{
    if j < 0 || j >= l.len() {
        None
    } else if l[j] == '"' {
        Some(0nat)
    } else {
        match scan_string(l, j + 1) {
            Some(k) => Some((k + 1) as nat),
            None => None,
        }
    }
}

pub proof fn lemma_count_digits(l: Seq<char>, j: int)
    requires
        0 <= j <= l.len(),
    ensures
        j + count_digits(l, j) <= l.len(),
        forall|m: int| j <= m < j + count_digits(l, j) ==> is_digit10(l[m]),
        j + count_digits(l, j) < l.len() ==> !is_digit10(l[j + count_digits(l, j)]),
    decreases l.len() - j,
{
    if j < l.len() && is_digit10(l[j]) {
        lemma_count_digits(l, j + 1);
    }
}

pub proof fn lemma_count_alnum(l: Seq<char>, j: int)
    requires
        0 <= j <= l.len(),
    ensures
        j + count_alnum(l, j) <= l.len(),
        forall|m: int| j <= m < j + count_alnum(l, j) ==> is_alphanumeric_char(l[m]),
        j + count_alnum(l, j) < l.len() ==> !is_alphanumeric_char(l[j + count_alnum(l, j)]),
    decreases l.len() - j,
{
    if j < l.len() && is_alphanumeric_char(l[j]) {
        lemma_count_alnum(l, j + 1);
    }
}

pub proof fn lemma_scan_string(l: Seq<char>, j: int)
    requires
        0 <= j <= l.len(),
    ensures
        match scan_string(l, j) {
            Some(k) => {
                &&& j + k < l.len()
                &&& l[j + k] == '"'
                &&& forall|m: int| j <= m < j + k ==> l[m] != '"'
            },
            None => forall|m: int| j <= m < l.len() ==> l[m] != '"',
        },
    decreases l.len() - j,
{
    if j < l.len() && l[j] != '"' {
        lemma_scan_string(l, j + 1);
    }
}

/// Constructs a token model.
pub open spec fn tok(
    ty: TokenType,
    lexeme: Seq<char>,
    lit: LiteralModel,
    line: int,
    col: int,
) -> TokenModel {
    TokenModel { token_type: ty, lexeme: lexeme, literal: lit, line: line, col: col }
}

/// A one-character token at position `j` of the line.
pub open spec fn single_tok(ty: TokenType, l: Seq<char>, line_no: int, j: int) -> TokenModel {
    tok(ty, l.subrange(j, j + 1), LiteralModel::NoValue, line_no, j + 1)
}

/// A two-character token at position `j` of the line.
pub open spec fn double_tok(ty: TokenType, l: Seq<char>, line_no: int, j: int) -> TokenModel {
    tok(ty, l.subrange(j, j + 2), LiteralModel::NoValue, line_no, j + 1)
}

/// Prepends a token to the outcome of lexing the rest of a line.
pub open spec fn lex_cons(
    t: TokenModel,
    rest: Result<Seq<TokenModel>, ErrorModel>,
) -> Result<Seq<TokenModel>, ErrorModel> {
    match rest {
        Ok(ts) => Ok(seq![t] + ts),
        Err(e) => Err(e),
    }
}

/// Prepends already-lexed tokens to the outcome of lexing what remains.
pub open spec fn lex_concat(
    ts: Seq<TokenModel>,
    rest: Result<Seq<TokenModel>, ErrorModel>,
) -> Result<Seq<TokenModel>, ErrorModel> {
    match rest {
        Ok(more) => Ok(ts + more),
        Err(e) => Err(e),
    }
}

/// The diagnostic for a string literal whose closing quote is missing.
pub open spec fn unterminated_string_msg() -> Seq<char> {
    "String literal missing closing '\"'"@
}

/// The diagnostic for a character outside the lexical grammar.
pub open spec fn unrecognized_char_msg(c: char) -> Seq<char> {
    "Unrecognized character '"@ + seq![c, '\'']
}

/// Lexes one line, 1-based number `line_no`, from position `j` on.  Scanning
/// is by single characters with at most two characters of lookahead:
/// one-character punctuation maps directly to its category; `!`, `=`, `<`,
/// `>` join a following `=`; `//` discards the rest of the line; `"` opens a
/// string literal that must close before the line ends; a digit opens a
/// number whose fraction is consumed only when a `.` is followed by another
/// digit; a letter or `_` opens an identifier, matched against the keyword
/// table; whitespace separates; any other character is an error.
pub open spec fn spec_lex_line(l: Seq<char>, line_no: int, j: int) -> Result<
    Seq<TokenModel>,
    ErrorModel,
>
    decreases l.len() - j,
    via spec_lex_line_decreases
{
    if j < 0 || j >= l.len() {
        Ok(Seq::empty())
    } else {
        let c = l[j];
        if c == '(' {
            lex_cons(single_tok(TokenType::LeftParen, l, line_no, j), spec_lex_line(l, line_no, j + 1))
        } else if c == ')' {
            lex_cons(single_tok(TokenType::RightParen, l, line_no, j), spec_lex_line(l, line_no, j + 1))
        } else if c == '{' {
            lex_cons(single_tok(TokenType::LeftBrace, l, line_no, j), spec_lex_line(l, line_no, j + 1))
        } else if c == '}' {
            lex_cons(single_tok(TokenType::RightBrace, l, line_no, j), spec_lex_line(l, line_no, j + 1))
        } else if c == ',' {
            lex_cons(single_tok(TokenType::Comma, l, line_no, j), spec_lex_line(l, line_no, j + 1))
        } else if c == '.' {
            lex_cons(single_tok(TokenType::Dot, l, line_no, j), spec_lex_line(l, line_no, j + 1))
        } else if c == '-' {
            lex_cons(single_tok(TokenType::Minus, l, line_no, j), spec_lex_line(l, line_no, j + 1))
        } else if c == '+' {
            lex_cons(single_tok(TokenType::Plus, l, line_no, j), spec_lex_line(l, line_no, j + 1))
        } else if c == ';' {
            lex_cons(single_tok(TokenType::Semicolon, l, line_no, j), spec_lex_line(l, line_no, j + 1))
        } else if c == '*' {
            lex_cons(single_tok(TokenType::Asterisk, l, line_no, j), spec_lex_line(l, line_no, j + 1))
        } else if c == '!' {
            if j + 1 < l.len() && l[j + 1] == '=' {
                lex_cons(double_tok(TokenType::BangEqual, l, line_no, j), spec_lex_line(l, line_no, j + 2))
            } else {
                lex_cons(single_tok(TokenType::Bang, l, line_no, j), spec_lex_line(l, line_no, j + 1))
            }
        } else if c == '=' {
            if j + 1 < l.len() && l[j + 1] == '=' {
                lex_cons(double_tok(TokenType::EqualEqual, l, line_no, j), spec_lex_line(l, line_no, j + 2))
            } else {
                lex_cons(single_tok(TokenType::Equal, l, line_no, j), spec_lex_line(l, line_no, j + 1))
            }
        } else if c == '<' {
            if j + 1 < l.len() && l[j + 1] == '=' {
                lex_cons(double_tok(TokenType::LessThanOrEqual, l, line_no, j), spec_lex_line(l, line_no, j + 2))
            } else {
                lex_cons(single_tok(TokenType::LessThan, l, line_no, j), spec_lex_line(l, line_no, j + 1))
            }
        } else if c == '>' {
            if j + 1 < l.len() && l[j + 1] == '=' {
                lex_cons(double_tok(TokenType::GreaterThanOrEqual, l, line_no, j), spec_lex_line(l, line_no, j + 2))
            } else {
                lex_cons(single_tok(TokenType::GreaterThan, l, line_no, j), spec_lex_line(l, line_no, j + 1))
            }
        } else if c == '/' {
            if j + 1 < l.len() && l[j + 1] == '/' {
                Ok(Seq::empty())
            } else {
                lex_cons(single_tok(TokenType::Slash, l, line_no, j), spec_lex_line(l, line_no, j + 1))
            }
        } else if c == '"' {
            match scan_string(l, j + 1) {
                Some(k) => lex_cons(
                    tok(
                        TokenType::Str,
                        l.subrange(j, j + k + 2),
                        LiteralModel::StrValue(l.subrange(j + 1, j + 1 + k)),
                        line_no,
                        j + 1,
                    ),
                    spec_lex_line(l, line_no, j + k + 2),
                ),
                None => Err(ErrorModel { msg: unterminated_string_msg(), line: line_no, col: j + 1 }),
            }
        } else if is_digit10(c) {
            let il = count_digits(l, j + 1);
            let end = if j + 1 + il < l.len() && l[j + 1 + il] == '.' && j + 2 + il < l.len()
                && is_digit10(l[j + 2 + il]) {
                j + 2 + il + count_digits(l, j + 2 + il)
            } else {
                j + 1 + il
            };
            lex_cons(
                tok(
                    TokenType::Number,
                    l.subrange(j, end),
                    LiteralModel::NumberValue(l.subrange(j, end)),
                    line_no,
                    j + 1,
                ),
                spec_lex_line(l, line_no, end),
            )
        } else if is_alphabetic_char(c) || c == '_' {
            let end = j + 1 + count_alnum(l, j + 1);
            lex_cons(
                tok(
                    spec_keyword(l.subrange(j, end)),
                    l.subrange(j, end),
                    LiteralModel::NoValue,
                    line_no,
                    j + 1,
                ),
                spec_lex_line(l, line_no, end),
            )
        } else if is_whitespace_char(c) {
            spec_lex_line(l, line_no, j + 1)
        } else {
            Err(ErrorModel { msg: unrecognized_char_msg(c), line: line_no, col: j + 1 })
        }
    }
}

#[via_fn]
proof fn spec_lex_line_decreases(l: Seq<char>, line_no: int, j: int) {
    if 0 <= j < l.len() {
        lemma_count_digits(l, j + 1);
        lemma_count_alnum(l, j + 1);
        lemma_scan_string(l, j + 1);
        let il = count_digits(l, j + 1);
        if j + 2 + il <= l.len() {
            lemma_count_digits(l, j + 2 + il);
        }
    }
}

/// Lexes the lines from index `i` on; line numbers are 1-based.
pub open spec fn spec_lex_lines(lines: Seq<Seq<char>>, i: int) -> Result<
    Seq<TokenModel>,
    ErrorModel,
>
    decreases lines.len() - i,
{
    if i < 0 || i >= lines.len() {
        Ok(Seq::empty())
    } else {
        match spec_lex_line(lines[i], i + 1, 0) {
            Ok(ts) => lex_concat(ts, spec_lex_lines(lines, i + 1)),
            Err(e) => Err(e),
        }
    }
}

/// The terminal end-of-input token: empty lexeme, sentinel position.
pub open spec fn eof_token() -> TokenModel {
    tok(TokenType::Eof, Seq::empty(), LiteralModel::NoValue, 0, 0)
}

/// The token sequence of the source text `s`: its lines lexed in order,
/// terminated by exactly one end-of-input token — or the first error.
pub open spec fn spec_lex(s: Seq<char>) -> Result<Seq<TokenModel>, ErrorModel> {
    match spec_lex_lines(spec_split_lines(s), 0) {
        Ok(ts) => Ok(ts.push(eof_token())),
        Err(e) => Err(e),
    }
}

/// The token models of a token sequence.
pub open spec fn tokens_view(ts: Seq<Token>) -> Seq<TokenModel> {
    ts.map_values(|t: Token| t@)
}

pub proof fn lemma_count_digits_exact(l: Seq<char>, j: int, k: int)
    requires
        0 <= j,
        j + k <= l.len(),
        0 <= k,
        forall|m: int| j <= m < j + k ==> is_digit10(l[m]),
        j + k == l.len() || !is_digit10(l[j + k]),
    ensures
        count_digits(l, j) == k,
    decreases k,
{
    if k > 0 {
        assert(is_digit10(l[j]));
        lemma_count_digits_exact(l, j + 1, k - 1);
    }
}

pub proof fn lemma_count_alnum_exact(l: Seq<char>, j: int, k: int)
    requires
        0 <= j,
        j + k <= l.len(),
        0 <= k,
        forall|m: int| j <= m < j + k ==> is_alphanumeric_char(l[m]),
        j + k == l.len() || !is_alphanumeric_char(l[j + k]),
    ensures
        count_alnum(l, j) == k,
    decreases k,
{
    if k > 0 {
        assert(is_alphanumeric_char(l[j]));
        lemma_count_alnum_exact(l, j + 1, k - 1);
    }
}

proof fn lemma_scan_string_found(l: Seq<char>, j: int, k: int)
    requires
        0 <= j <= k < l.len(),
        l[k] == '"',
        forall|m: int| j <= m < k ==> l[m] != '"',
    ensures
        scan_string(l, j) == Some((k - j) as nat),
    decreases k - j,
{
    if j < k {
        lemma_scan_string_found(l, j + 1, k);
    }
}

proof fn lemma_scan_string_none(l: Seq<char>, j: int)
    requires
        0 <= j <= l.len(),
        forall|m: int| j <= m < l.len() ==> l[m] != '"',
    ensures
        scan_string(l, j) is None,
    decreases l.len() - j,
{
    if j < l.len() {
        lemma_scan_string_none(l, j + 1);
    }
}

/// The character sequences of a sequence of line buffers.
pub open spec fn lines_view(ls: Seq<Vec<char>>) -> Seq<Seq<char>> {
    ls.map_values(|v: Vec<char>| v@)
}

/// Splits a character buffer into its lines.
fn split_lines(cs: &Vec<char>) -> (r: Vec<Vec<char>>)
    ensures
        lines_view(r@) == spec_split_lines(cs@),
{
    let ghost full: Seq<char> = cs@;
    let mut out: Vec<Vec<char>> = Vec::new();
    let mut cur: Vec<char> = Vec::new();
    let mut i: usize = 0;
    proof {
        assert(full.subrange(0, full.len() as int) =~= full);
        assert(lines_view(Seq::empty()) + split_lines_acc(full, Seq::empty()) =~= split_lines_acc(
            full,
            Seq::empty(),
        ));
    }
    while i < cs.len()
        invariant
            i <= cs@.len(),
            cs@ == full,
            spec_split_lines(full) == lines_view(out@) + split_lines_acc(
                full.subrange(i as int, full.len() as int),
                cur@,
            ),
        decreases cs@.len() - i,
    {
        let ghost rem: Seq<char> = full.subrange(i as int, full.len() as int);
        proof {
            assert(rem.len() > 0);
            assert(rem[0] == full[i as int]);
            assert(rem.drop_first() =~= full.subrange(i + 1, full.len() as int));
        }
        let c = cs[i];
        if c == '\n' {
            let ghost cur0: Seq<char> = cur@;
            if cur.len() > 0 && cur[cur.len() - 1] == '\r' {
                let _ = cur.pop();
            }
            proof {
                assert(cur@ =~= strip_cr(cur0));
                assert(lines_view(out@.push(cur)) =~= lines_view(out@).push(cur@));
                assert(lines_view(out@).push(strip_cr(cur0)) + split_lines_acc(
                    rem.drop_first(),
                    Seq::empty(),
                ) =~= lines_view(out@) + (seq![strip_cr(cur0)] + split_lines_acc(
                    rem.drop_first(),
                    Seq::empty(),
                )));
            }
            out.push(cur);
            cur = Vec::new();
            proof {
                assert(cur@ =~= Seq::<char>::empty());
            }
        } else {
            let ghost cur0: Seq<char> = cur@;
            cur.push(c);
            proof {
                assert(split_lines_acc(rem, cur0) == split_lines_acc(rem.drop_first(), cur0.push(c)));
            }
        }
        i = i + 1;
    }
    proof {
        assert(full.subrange(i as int, full.len() as int) =~= Seq::<char>::empty());
    }
    if cur.len() > 0 {
        proof {
            assert(lines_view(out@.push(cur)) =~= lines_view(out@).push(cur@));
            assert(lines_view(out@) + split_lines_acc(Seq::empty(), cur@) =~= lines_view(
                out@,
            ).push(cur@));
        }
        out.push(cur);
    } else {
        proof {
            assert(lines_view(out@) + split_lines_acc(Seq::empty(), cur@) =~= lines_view(out@));
        }
    }
    out
}

proof fn lemma_concat_cons(ts: Seq<TokenModel>, t: TokenModel, rest: Result<
    Seq<TokenModel>,
    ErrorModel,
>)
    ensures
        lex_concat(ts, lex_cons(t, rest)) == lex_concat(ts.push(t), rest),
{
    match rest {
        Ok(m) => {
            assert(ts + (seq![t] + m) =~= ts.push(t) + m);
        },
        Err(_) => {},
    }
}

proof fn lemma_tokens_view_push(s: Seq<Token>, t: Token)
    ensures
        tokens_view(s.push(t)) == tokens_view(s).push(t@),
{
    assert(tokens_view(s.push(t)) =~= tokens_view(s).push(t@));
}

/// Lexes one line of source text, 1-based number `line_no`.
#[verifier::rlimit(100)]
fn lex_one_line(line: &Vec<char>, line_no: usize) -> (r: Result<Vec<Token>, Error>)
    ensures
        match r {
            Ok(v) => spec_lex_line(line@, line_no as int, 0) == Ok::<Seq<TokenModel>, ErrorModel>(
                tokens_view(v@),
            ),
            Err(e) => spec_lex_line(line@, line_no as int, 0) matches Err(m) && matches_error(e, m),
        },
{
    let ghost l: Seq<char> = line@;
    let n = line.len();
    let mut out: Vec<Token> = Vec::new();
    let mut j: usize = 0;
    while j < n
        invariant
            j <= n,
            n == l.len(),
            line@ == l,
            spec_lex_line(l, line_no as int, 0) == lex_concat(
                tokens_view(out@),
                spec_lex_line(l, line_no as int, j as int),
            ),
        decreases n - j,
    {
        let ghost out0: Seq<Token> = out@;
        let ghost rest0: Result<Seq<TokenModel>, ErrorModel> = spec_lex_line(
            l,
            line_no as int,
            j as int,
        );
        let c = line[j];
        let simple: Option<TokenType> = match c {
            '(' => Some(TokenType::LeftParen),
            ')' => Some(TokenType::RightParen),
            '{' => Some(TokenType::LeftBrace),
            '}' => Some(TokenType::RightBrace),
            ',' => Some(TokenType::Comma),
            '.' => Some(TokenType::Dot),
            '-' => Some(TokenType::Minus),
            '+' => Some(TokenType::Plus),
            ';' => Some(TokenType::Semicolon),
            '*' => Some(TokenType::Asterisk),
            _ => None,
        };
        if let Some(ty) = simple {
            let t = Token {
                token_type: ty,
                lexeme: chars_to_string(line, j, j + 1),
                literal: Literal::Nothing,
                source_position: (line_no, j + 1),
            };
            proof {
                assert(t@ == single_tok(ty, l, line_no as int, j as int));
                assert(rest0 == lex_cons(t@, spec_lex_line(l, line_no as int, j + 1)));
                lemma_concat_cons(tokens_view(out0), t@, spec_lex_line(l, line_no as int, j + 1));
                lemma_tokens_view_push(out0, t);
            }
            out.push(t);
            j = j + 1;
        } else if c == '!' || c == '=' || c == '<' || c == '>' {
            let two = j + 1 < n && line[j + 1] == '=';
            let ty = if c == '!' {
                if two { TokenType::BangEqual } else { TokenType::Bang }
            } else if c == '=' {
                if two { TokenType::EqualEqual } else { TokenType::Equal }
            } else if c == '<' {
                if two { TokenType::LessThanOrEqual } else { TokenType::LessThan }
            } else {
                if two { TokenType::GreaterThanOrEqual } else { TokenType::GreaterThan }
            };
            let width: usize = if two { 2 } else { 1 };
            let t = Token {
                token_type: ty,
                lexeme: chars_to_string(line, j, j + width),
                literal: Literal::Nothing,
                source_position: (line_no, j + 1),
            };
            proof {
                if two {
                    assert(t@ == double_tok(ty, l, line_no as int, j as int));
                } else {
                    assert(t@ == single_tok(ty, l, line_no as int, j as int));
                }
                assert(rest0 == lex_cons(t@, spec_lex_line(l, line_no as int, j + width)));
                lemma_concat_cons(
                    tokens_view(out0),
                    t@,
                    spec_lex_line(l, line_no as int, j + width),
                );
                lemma_tokens_view_push(out0, t);
            }
            out.push(t);
            j = j + width;
        } else if c == '/' {
            if j + 1 < n && line[j + 1] == '/' {
                // A line comment: the rest of the line is discarded.
                return Ok(out);
            }
            let t = Token {
                token_type: TokenType::Slash,
                lexeme: chars_to_string(line, j, j + 1),
                literal: Literal::Nothing,
                source_position: (line_no, j + 1),
            };
            proof {
                assert(t@ == single_tok(TokenType::Slash, l, line_no as int, j as int));
                assert(rest0 == lex_cons(t@, spec_lex_line(l, line_no as int, j + 1)));
                lemma_concat_cons(tokens_view(out0), t@, spec_lex_line(l, line_no as int, j + 1));
                lemma_tokens_view_push(out0, t);
            }
            out.push(t);
            j = j + 1;
        } else if c == '"' {
            let mut k = j + 1;
            while k < n && line[k] != '"'
                invariant
                    j + 1 <= k <= n,
                    n == l.len(),
                    line@ == l,
                    forall|m: int| j + 1 <= m < k ==> l[m] != '"',
                decreases n - k,
            {
                k = k + 1;
            }
            if k < n {
                proof {
                    lemma_scan_string_found(l, j + 1, k as int);
                }
                let t = Token {
                    token_type: TokenType::Str,
                    lexeme: chars_to_string(line, j, k + 1),
                    literal: Literal::Str(chars_to_string(line, j + 1, k)),
                    source_position: (line_no, j + 1),
                };
                proof {
                    let koff = (k - (j + 1)) as int;
                    assert(t@ == tok(
                        TokenType::Str,
                        l.subrange(j as int, j as int + koff + 2),
                        LiteralModel::StrValue(l.subrange(j + 1, j + 1 + koff)),
                        line_no as int,
                        j + 1,
                    ));
                    assert(rest0 == lex_cons(t@, spec_lex_line(l, line_no as int, j as int + koff + 2)));
                    lemma_concat_cons(
                        tokens_view(out0),
                        t@,
                        spec_lex_line(l, line_no as int, j as int + koff + 2),
                    );
                    lemma_tokens_view_push(out0, t);
                }
                out.push(t);
                j = k + 1;
            } else {
                proof {
                    lemma_scan_string_none(l, j + 1);
                }
                return Err(
                    Error::SyntaxError {
                        message: String::from_str("String literal missing closing '\"'"),
                        source_position: (line_no, j + 1),
                    },
                );
            }
        } else if digit10(c) {
            let mut k = j + 1;
            while k < n && digit10(line[k])
                invariant
                    j + 1 <= k <= n,
                    n == l.len(),
                    line@ == l,
                    forall|m: int| j + 1 <= m < k ==> is_digit10(l[m]),
                decreases n - k,
            {
                k = k + 1;
            }
            proof {
                lemma_count_digits_exact(l, j + 1, k - (j + 1));
            }
            let end: usize = if k < n && line[k] == '.' && k + 1 < n && digit10(line[k + 1]) {
                let mut f = k + 1;
                while f < n && digit10(line[f])
                    invariant
                        k + 1 <= f <= n,
                        n == l.len(),
                        line@ == l,
                        forall|m: int| k + 1 <= m < f ==> is_digit10(l[m]),
                    decreases n - f,
                {
                    f = f + 1;
                }
                proof {
                    lemma_count_digits_exact(l, k + 1, f - (k + 1));
                }
                f
            } else {
                k
            };
            let lexeme = chars_to_string(line, j, end);
            let t = Token {
                token_type: TokenType::Number,
                lexeme: lexeme,
                literal: Literal::Number(chars_to_string(line, j, end)),
                source_position: (line_no, j + 1),
            };
            proof {
                assert(t@ == tok(
                    TokenType::Number,
                    l.subrange(j as int, end as int),
                    LiteralModel::NumberValue(l.subrange(j as int, end as int)),
                    line_no as int,
                    j + 1,
                ));
                assert(rest0 == lex_cons(t@, spec_lex_line(l, line_no as int, end as int)));
                lemma_concat_cons(tokens_view(out0), t@, spec_lex_line(l, line_no as int, end as int));
                lemma_tokens_view_push(out0, t);
            }
            out.push(t);
            j = end;
        } else if char_alphabetic(c) || c == '_' {
            let mut k = j + 1;
            while k < n && char_alphanumeric(line[k])
                invariant
                    j + 1 <= k <= n,
                    n == l.len(),
                    line@ == l,
                    forall|m: int| j + 1 <= m < k ==> is_alphanumeric_char(l[m]),
                decreases n - k,
            {
                k = k + 1;
            }
            proof {
                lemma_count_alnum_exact(l, j + 1, k - (j + 1));
            }
            let lexeme = chars_to_string(line, j, k);
            let ty = map_lexeme_to_keyword(lexeme.as_str());
            let t = Token {
                token_type: ty,
                lexeme: lexeme,
                literal: Literal::Nothing,
                source_position: (line_no, j + 1),
            };
            proof {
                assert(t@ == tok(
                    spec_keyword(l.subrange(j as int, k as int)),
                    l.subrange(j as int, k as int),
                    LiteralModel::NoValue,
                    line_no as int,
                    j + 1,
                ));
                assert(rest0 == lex_cons(t@, spec_lex_line(l, line_no as int, k as int)));
                lemma_concat_cons(tokens_view(out0), t@, spec_lex_line(l, line_no as int, k as int));
                lemma_tokens_view_push(out0, t);
            }
            out.push(t);
            j = k;
        } else if char_whitespace(c) {
            j = j + 1;
        } else {
            let mut message = String::from_str("Unrecognized character '");
            push_char(&mut message, c);
            push_char(&mut message, '\'');
            proof {
                assert(message@ =~= unrecognized_char_msg(c));
            }
            return Err(
                Error::SyntaxError { message: message, source_position: (line_no, j + 1) },
            );
        }
    }
    proof {
        assert(spec_lex_line(l, line_no as int, j as int) == Ok::<Seq<TokenModel>, ErrorModel>(
            Seq::empty(),
        ));
        assert(tokens_view(out@) + Seq::<TokenModel>::empty() =~= tokens_view(out@));
    }
    Ok(out)
}

/// Turns source text into its token sequence, or into the first lexical
/// error.  On success the tokens are exactly those of the lexical grammar,
/// in source order, terminated by one end-of-input token.
pub fn lex(source: &str) -> (r: Result<Vec<Token>, Error>)
    ensures
        match r {
            Ok(v) => spec_lex(source@) == Ok::<Seq<TokenModel>, ErrorModel>(tokens_view(v@)),
            Err(e) => spec_lex(source@) matches Err(m) && matches_error(e, m),
        },
{
    let cs = str_chars(source);
    let lines = split_lines(&cs);
    let ghost lv: Seq<Seq<char>> = spec_split_lines(source@);
    let mut tokens: Vec<Token> = Vec::new();
    let mut i: usize = 0;
    while i < lines.len()
        invariant
            i <= lines@.len(),
            lv == spec_split_lines(source@),
            lines_view(lines@) == lv,
            spec_lex_lines(lv, 0) == lex_concat(tokens_view(tokens@), spec_lex_lines(lv, i as int)),
        decreases lines@.len() - i,
    {
        let r = lex_one_line(&lines[i], i + 1);
        match r {
            Ok(mut ts) => {
                proof {
                    assert(lines[i as int]@ == lv[i as int]);
                    assert(spec_lex_lines(lv, i as int) == lex_concat(
                        tokens_view(ts@),
                        spec_lex_lines(lv, i + 1),
                    ));
                    assert(tokens_view(tokens@ + ts@) =~= tokens_view(tokens@) + tokens_view(ts@));
                    match spec_lex_lines(lv, i + 1) {
                        Ok(more) => {
                            assert(tokens_view(tokens@) + (tokens_view(ts@) + more) =~= (tokens_view(
                                tokens@,
                            ) + tokens_view(ts@)) + more);
                        },
                        Err(_) => {},
                    }
                }
                tokens.append(&mut ts);
            },
            Err(e) => {
                proof {
                    assert(lines[i as int]@ == lv[i as int]);
                }
                return Err(e);
            },
        }
        i = i + 1;
    }
    let eof = Token {
        token_type: TokenType::Eof,
        lexeme: String::new(),
        literal: Literal::Nothing,
        source_position: (0, 0),
    };
    proof {
        assert(spec_lex_lines(lv, i as int) == Ok::<Seq<TokenModel>, ErrorModel>(Seq::empty()));
        assert(tokens_view(tokens@) + Seq::<TokenModel>::empty() =~= tokens_view(tokens@));
        assert(eof@ == eof_token());
        lemma_tokens_view_push(tokens@, eof);
    }
    tokens.push(eof);
    Ok(tokens)
}

/// Maps the given lexeme to the corresponding keyword category, or to
/// `Identifier` when it is no keyword.
pub fn map_lexeme_to_keyword(lexeme: &str) -> (t: TokenType)
    ensures
        t == spec_keyword(lexeme@),
{
    if str_eq(lexeme, "and") {
        TokenType::And
    } else if str_eq(lexeme, "class") {
        TokenType::Class
    } else if str_eq(lexeme, "else") {
        TokenType::Else
    } else if str_eq(lexeme, "false") {
        TokenType::False
    } else if str_eq(lexeme, "for") {
        TokenType::For
    } else if str_eq(lexeme, "fun") {
        TokenType::Fun
    } else if str_eq(lexeme, "if") {
        TokenType::If
    } else if str_eq(lexeme, "nil") {
        TokenType::Nil
    } else if str_eq(lexeme, "or") {
        TokenType::Or
    } else if str_eq(lexeme, "print") {
        TokenType::Print
    } else if str_eq(lexeme, "return") {
        TokenType::Return
    } else if str_eq(lexeme, "super") {
        TokenType::Super
    } else if str_eq(lexeme, "this") {
        TokenType::This
    } else if str_eq(lexeme, "true") {
        TokenType::True
    } else if str_eq(lexeme, "var") {
        TokenType::Var
    } else if str_eq(lexeme, "while") {
        TokenType::While
    } else {
        TokenType::Identifier
    }
}

} // verus!
