use vstd::prelude::*;
use crate::lexer::{Lexeme, TokenKind};

verus! {

/// A diagnostic, with the line, column and length of the source span it cites.
#[derive(Debug, Clone, PartialEq)]
pub enum Error {
    /// The lexer met a character that starts no token.
    UnexpectedCharacter(char, usize, usize, usize),
    /// The input ended inside a construct, such as a string.
    UnexpectedEOI(String),
    /// A required token is missing.
    ExpectedToken(TokenKind, usize, usize, usize),
    /// The token at this place cannot begin an expression.
    ExpectedExpression(usize, usize, usize),
    /// An operand has the wrong type for its operator.
    MismatchedTypes(usize, usize, usize, String),
    /// The operator is not defined on these operand types.
    ImpossibleOperation(usize, usize, usize, String),
    /// The chunk's constant pool is full.
    TooManyConstants(usize, usize, usize),
}

/// What an [`Error`] says, with its texts as character sequences.
pub ghost enum Diagnostic {
    UnexpectedCharacter(char, int, int, int),
    UnexpectedEOI(Seq<char>),
    ExpectedToken(Lexeme, int, int, int),
    ExpectedExpression(int, int, int),
    MismatchedTypes(int, int, int, Seq<char>),
    ImpossibleOperation(int, int, int, Seq<char>),
    TooManyConstants(int, int, int),
}

impl View for Error {
    type V = Diagnostic;

    open spec fn view(&self) -> Diagnostic {
        match self {
            Error::UnexpectedCharacter(c, l, col, n) => Diagnostic::UnexpectedCharacter(
                *c,
                *l as int,
                *col as int,
                *n as int,
            ),
            Error::UnexpectedEOI(m) => Diagnostic::UnexpectedEOI(m@),
            Error::ExpectedToken(k, l, col, n) => Diagnostic::ExpectedToken(
                k.lexeme(),
                *l as int,
                *col as int,
                *n as int,
            ),
            Error::ExpectedExpression(l, col, n) => Diagnostic::ExpectedExpression(
                *l as int,
                *col as int,
                *n as int,
            ),
            Error::MismatchedTypes(l, col, n, m) => Diagnostic::MismatchedTypes(
                *l as int,
                *col as int,
                *n as int,
                m@,
            ),
            Error::ImpossibleOperation(l, col, n, m) => Diagnostic::ImpossibleOperation(
                *l as int,
                *col as int,
                *n as int,
                m@,
            ),
            Error::TooManyConstants(l, col, n) => Diagnostic::TooManyConstants(
                *l as int,
                *col as int,
                *n as int,
            ),
        }
    }
}

impl Error {
    /// The column and length that the error underlines, where it carries them.
    pub fn location(&self) -> (r: Option<(usize, usize)>)
        ensures
            r == match self {
                Error::UnexpectedCharacter(_, _, c, n) => Some((*c, *n)),
                Error::UnexpectedEOI(_) => None,
                Error::ExpectedToken(_, _, c, n) => Some((*c, *n)),
                Error::ExpectedExpression(_, c, n) => Some((*c, *n)),
                Error::MismatchedTypes(_, c, n, _) => Some((*c, *n)),
                Error::ImpossibleOperation(_, c, n, _) => Some((*c, *n)),
                Error::TooManyConstants(_, c, n) => Some((*c, *n)),
            },
    {
        match self {
            Error::UnexpectedCharacter(_, _, c, n) => Some((*c, *n)),
            Error::UnexpectedEOI(_) => None,
            Error::ExpectedToken(_, _, c, n) => Some((*c, *n)),
            Error::ExpectedExpression(_, c, n) => Some((*c, *n)),
            Error::MismatchedTypes(_, c, n, _) => Some((*c, *n)),
            Error::ImpossibleOperation(_, c, n, _) => Some((*c, *n)),
            Error::TooManyConstants(_, c, n) => Some((*c, *n)),
        }
    }
}

} // verus!
