//! Diagnostics shared by the lexer and the parser: a syntax error carrying a
//! message and a source position, and an ordered aggregate of such errors.

use crate::lexer::SourcePosition;
use vstd::string::StringExecFns;
use vstd::prelude::*;

verus! {

/// A lexical or syntactic diagnostic.  Both lexing and parsing failures share
/// the `SyntaxError` shape; `MultipleErrors` is an ordered aggregate reserved
/// for batch reporting.
#[derive(Debug)]
pub enum Error {
    SyntaxError { message: String, source_position: SourcePosition },
    MultipleErrors(Vec<Error>),
}

/// The mathematical shape of a syntax error: its message and its 1-based
/// line/column position.
pub struct ErrorModel {
    pub msg: Seq<char>,
    pub line: int,
    pub col: int,
}

/// Whether the executable error `e` is the syntax error that `m` describes.
pub open spec fn matches_error(e: Error, m: ErrorModel) -> bool {
    match e {
        Error::SyntaxError { message, source_position } => {
            &&& message@ == m.msg
            &&& source_position.0 as int == m.line
            &&& source_position.1 as int == m.col
        },
        Error::MultipleErrors(_) => false,
    }
}

/// The character of a single decimal digit.
pub open spec fn digit_to_char(d: nat) -> char {
    if d == 0 {
        '0'
    } else if d == 1 {
        '1'
    } else if d == 2 {
        '2'
    } else if d == 3 {
        '3'
    } else if d == 4 {
        '4'
    } else if d == 5 {
        '5'
    } else if d == 6 {
        '6'
    } else if d == 7 {
        '7'
    } else if d == 8 {
        '8'
    } else {
        '9'
    }
}

/// The decimal rendering of `n`, most significant digit first, no sign and
/// no leading zero except for zero itself.
pub open spec fn dec_str(n: nat) -> Seq<char>
    decreases n,
{
    if n < 10 {
        seq![digit_to_char(n)]
    } else {
        dec_str(n / 10).push(digit_to_char(n % 10))
    }
}

/// Relies on the `format!` macro of std: renders an unsigned integer in
/// decimal.
#[verifier::external_body]
fn usize_dec(n: usize) -> (s: String)
    ensures
        s@ == dec_str(n as nat),
{
    format!("{}", n)
}

/// The text an error renders to: a syntax error names its line, column and
/// message; an aggregate renders as the concatenation of its parts in order.
pub open spec fn spec_render(e: Error) -> Seq<char>
    decreases e,
{
    match e {
        Error::SyntaxError { message, source_position } => "Syntax Error [ln: "@ + dec_str(
            source_position.0 as nat,
        ) + ", col: "@ + dec_str(source_position.1 as nat) + "]: "@ + message@,
        Error::MultipleErrors(errors) => spec_render_seq(errors@),
    }
}

/// The concatenated renderings of a sequence of errors.
pub open spec fn spec_render_seq(s: Seq<Error>) -> Seq<char>
    decreases s,
{
    if s.len() == 0 {
        Seq::empty()
    } else {
        spec_render(s[0]) + spec_render_seq(s.drop_first())
    }
}

impl Error {
    /// Renders this diagnostic as text, in the shape
    /// `Syntax Error [ln: L, col: C]: M`.
    #[verifier::loop_isolation(false)]
    pub fn render(&self) -> (s: String)
        ensures
            s@ == spec_render(*self),
        decreases *self,
    {
        match self {
            Error::SyntaxError { message, source_position } => {
                let mut s = String::from_str("Syntax Error [ln: ");
                s.append(usize_dec(source_position.0).as_str());
                s.append(", col: ");
                s.append(usize_dec(source_position.1).as_str());
                s.append("]: ");
                s.append(message.as_str());
                proof {
                    assert(s@ =~= spec_render(*self));
                }
                s
            },
            Error::MultipleErrors(errors) => {
                let ghost all: Seq<Error> = errors@;
                let mut s = String::new();
                let mut i: usize = 0;
                proof {
                    assert(all.skip(0) =~= all);
                }
                while i < errors.len()
                    invariant
                        i <= errors@.len(),
                        errors@ == all,
                        *self == Error::MultipleErrors(*errors),
                        s@ + spec_render_seq(all.skip(i as int)) == spec_render_seq(all),
                    decreases errors@.len() - i,
                {
                    let part = errors[i].render();
                    proof {
                        let rest = all.skip(i as int);
                        assert(rest[0] == all[i as int]);
                        assert(rest.drop_first() =~= all.skip(i + 1));
                        assert((s@ + part@) + spec_render_seq(all.skip(i + 1)) =~= s@ + (part@
                            + spec_render_seq(all.skip(i + 1))));
                    }
                    s.append(part.as_str());
                    i = i + 1;
                }
                proof {
                    assert(all.skip(i as int) =~= Seq::<Error>::empty());
                    assert(s@ + Seq::<char>::empty() =~= s@);
                }
                s
            },
        }
    }
}

} // verus!
