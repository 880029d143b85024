use vstd::prelude::*;
use crate::lexer::TokenKind;

verus! {

/// Binding power of an operator, from loosest to tightest.
#[derive(Debug, Clone, Copy, PartialEq, Eq, Structural, PartialOrd, Ord)]
pub enum Precedence {
    Lowest,
    Assignment,
    Or,
    And,
    Equality,
    Comparison,
    Term,
    Factor,
    Indices,
    Unary,
    Call,
    Primary,
}

impl Precedence {
    /// Position of the level in the order, `Lowest` being 0.
    pub open spec fn rank(self) -> nat {
        match self {
            Precedence::Lowest => 0,
            Precedence::Assignment => 1,
            Precedence::Or => 2,
            Precedence::And => 3,
            Precedence::Equality => 4,
            Precedence::Comparison => 5,
            Precedence::Term => 6,
            Precedence::Factor => 7,
            Precedence::Indices => 8,
            Precedence::Unary => 9,
            Precedence::Call => 10,
            Precedence::Primary => 11,
        }
    }

    /// Whether this level binds at least as tightly as `other`.
    pub fn at_least(self, other: Precedence) -> (r: bool)
        ensures
            r == (other.rank() <= self.rank()),
    {
        self.index() >= other.index()
    }

    fn index(self) -> (r: u8)
        ensures
            r as nat == self.rank(),
    {
        match self {
            Precedence::Lowest => 0,
            Precedence::Assignment => 1,
            Precedence::Or => 2,
            Precedence::And => 3,
            Precedence::Equality => 4,
            Precedence::Comparison => 5,
            Precedence::Term => 6,
            Precedence::Factor => 7,
            Precedence::Indices => 8,
            Precedence::Unary => 9,
            Precedence::Call => 10,
            Precedence::Primary => 11,
        }
    }

    /// The next tighter level; `Primary` wraps round to `Lowest`.
    pub fn shift(self) -> (r: Precedence)
        ensures
            self.rank() < 11 ==> r.rank() == self.rank() + 1,
            self.rank() == 11 ==> r == Precedence::Lowest,
            r == self.next(),
    {
        match self {
            Precedence::Lowest => Precedence::Assignment,
            Precedence::Assignment => Precedence::Or,
            Precedence::Or => Precedence::And,
            Precedence::And => Precedence::Equality,
            Precedence::Equality => Precedence::Comparison,
            Precedence::Comparison => Precedence::Term,
            Precedence::Term => Precedence::Factor,
            Precedence::Factor => Precedence::Indices,
            Precedence::Indices => Precedence::Unary,
            Precedence::Unary => Precedence::Call,
            Precedence::Call => Precedence::Primary,
            Precedence::Primary => Precedence::Lowest,
        }
    }
}

} // verus!

verus! {

impl Precedence {
    /// The next tighter level; `Primary` wraps round to `Lowest`.
    pub open spec fn next(self) -> Precedence {
        match self {
            Precedence::Lowest => Precedence::Assignment,
            Precedence::Assignment => Precedence::Or,
            Precedence::Or => Precedence::And,
            Precedence::And => Precedence::Equality,
            Precedence::Equality => Precedence::Comparison,
            Precedence::Comparison => Precedence::Term,
            Precedence::Term => Precedence::Factor,
            Precedence::Factor => Precedence::Indices,
            Precedence::Indices => Precedence::Unary,
            Precedence::Unary => Precedence::Call,
            Precedence::Call => Precedence::Primary,
            Precedence::Primary => Precedence::Lowest,
        }
    }
}

/// How a token begins an expression.
#[derive(Debug, Clone, Copy, PartialEq, Eq, Structural)]
pub enum Prefix {
    /// `(` expression `)`
    Grouping,
    /// `-`, `!` or `not` before an operand
    Unary,
    /// `true`, `false` or `nil`
    Literal,
    Number,
    String,
}

/// How a token joins the expression before it to the one after it.
#[derive(Debug, Clone, Copy, PartialEq, Eq, Structural)]
pub enum Infix {
    Binary,
}

/// What a token can do in an expression, and how tightly it binds as an infix operator.
#[derive(Debug, Clone, Copy, PartialEq, Eq, Structural)]
pub struct ParseRule {
    pub prefix: Option<Prefix>,
    pub infix: Option<Infix>,
    pub prec: Precedence,
}

pub open spec fn prefix_of(kind: TokenKind) -> Option<Prefix> {
    match kind {
        TokenKind::LeftParen => Some(Prefix::Grouping),
        TokenKind::Minus | TokenKind::Exclamation | TokenKind::Not => Some(Prefix::Unary),
        TokenKind::False | TokenKind::True | TokenKind::Nil => Some(Prefix::Literal),
        TokenKind::Number(_) => Some(Prefix::Number),
        TokenKind::String(_) => Some(Prefix::String),
        _ => None,
    }
}

pub open spec fn precedence_of(kind: TokenKind) -> Precedence {
    match kind {
        TokenKind::Minus | TokenKind::Plus => Precedence::Term,
        TokenKind::Slash | TokenKind::Asterisk | TokenKind::Percent => Precedence::Factor,
        TokenKind::Hat => Precedence::Indices,
        TokenKind::Equals | TokenKind::NotEquals => Precedence::Equality,
        TokenKind::Greater | TokenKind::GreaterEq | TokenKind::Less | TokenKind::LessEq => {
            Precedence::Comparison
        },
        _ => Precedence::Lowest,
    }
}

/// The rule of a token kind: the operators combine two expressions, and every token that
/// is no operator has the lowest precedence.
pub open spec fn rule_of(kind: TokenKind) -> ParseRule {
    ParseRule {
        prefix: prefix_of(kind),
        infix: if precedence_of(kind) == Precedence::Lowest {
            None
        } else {
            Some(Infix::Binary)
        },
        prec: precedence_of(kind),
    }
}

/// Looks up the rule of a token kind.
pub fn get_rule(kind: &TokenKind) -> (r: ParseRule)
    ensures
        r == rule_of(*kind),
{
    let prefix = match kind {
        TokenKind::LeftParen => Some(Prefix::Grouping),
        TokenKind::Minus | TokenKind::Exclamation | TokenKind::Not => Some(Prefix::Unary),
        TokenKind::False | TokenKind::True | TokenKind::Nil => Some(Prefix::Literal),
        TokenKind::Number(_) => Some(Prefix::Number),
        TokenKind::String(_) => Some(Prefix::String),
        _ => None,
    };
    let prec = match kind {
        TokenKind::Minus | TokenKind::Plus => Precedence::Term,
        TokenKind::Slash | TokenKind::Asterisk | TokenKind::Percent => Precedence::Factor,
        TokenKind::Hat => Precedence::Indices,
        TokenKind::Equals | TokenKind::NotEquals => Precedence::Equality,
        TokenKind::Greater | TokenKind::GreaterEq | TokenKind::Less | TokenKind::LessEq => {
            Precedence::Comparison
        },
        _ => Precedence::Lowest,
    };
    let infix = match prec {
        Precedence::Lowest => None,
        _ => Some(Infix::Binary),
    };
    ParseRule { prefix, infix, prec }
}

} // verus!
