//! Operator tags and the precedence levels that order them.

use vstd::prelude::*;

verus! {

/// How tightly an operator binds. The levels are totally ordered, from
/// `Lowest` to `Index`: the derived order is that of the list, and `below`
/// is its strict part.
#[derive(Debug, Clone, Copy, PartialEq, Eq, PartialOrd, Ord, Structural)]
pub enum Precedence {
    Lowest,
    Equals,
    Relational,
    Sum,
    Product,
    Prefix,
    Call,
    Index,
}

impl Precedence {
    /// The position of the level in the order, starting from 0.
    pub open spec fn order(self) -> int {
        match self {
            Precedence::Lowest => 0,
            Precedence::Equals => 1,
            Precedence::Relational => 2,
            Precedence::Sum => 3,
            Precedence::Product => 4,
            Precedence::Prefix => 5,
            Precedence::Call => 6,
            Precedence::Index => 7,
        }
    }

    /// The position of the level in the order, starting from 0.
    pub fn level(&self) -> (r: u8)
        ensures
            r == self.order(),
    {
        match self {
            Precedence::Lowest => 0,
            Precedence::Equals => 1,
            Precedence::Relational => 2,
            Precedence::Sum => 3,
            Precedence::Product => 4,
            Precedence::Prefix => 5,
            Precedence::Call => 6,
            Precedence::Index => 7,
        }
    }

    /// Whether `self` binds strictly less tightly than `other`.
    pub fn below(&self, other: &Precedence) -> (r: bool)
        ensures
            r == (self.order() < other.order()),
    {
        self.level() < other.level()
    }
}

/// A unary operator written before its operand.
#[derive(Debug, Clone, Copy, PartialEq, Eq, Structural)]
pub enum Prefix {
    Minus,
    Bang,
}

impl Prefix {
    /// The operator as it is written in source text.
    pub open spec fn symbol(self) -> Seq<char> {
        match self {
            Prefix::Minus => "-"@,
            Prefix::Bang => "!"@,
        }
    }

    /// The operator as it is written in source text.
    pub fn to_string(&self) -> (r: String)
        ensures
            r@ == self.symbol(),
    {
        match self {
            Prefix::Minus => String::from_str("-"),
            Prefix::Bang => String::from_str("!"),
        }
    }
}

/// A binary operator written between its operands.
#[derive(Debug, Clone, Copy, PartialEq, Eq, Structural)]
pub enum Infix {
    Eq,
    NotEq,
    LessThan,
    GreaterThan,
    Plus,
    Minus,
    Slash,
    Asterisk,
}

impl Infix {
    /// The operator as it is written in source text.
    pub open spec fn symbol(self) -> Seq<char> {
        match self {
            Infix::Eq => "=="@,
            Infix::NotEq => "!="@,
            Infix::LessThan => "<"@,
            Infix::GreaterThan => ">"@,
            Infix::Plus => "+"@,
            Infix::Minus => "-"@,
            Infix::Slash => "/"@,
            Infix::Asterisk => "*"@,
        }
    }

    /// The operator as it is written in source text.
    pub fn to_string(&self) -> (r: String)
        ensures
            r@ == self.symbol(),
    {
        match self {
            Infix::Eq => String::from_str("=="),
            Infix::NotEq => String::from_str("!="),
            Infix::LessThan => String::from_str("<"),
            Infix::GreaterThan => String::from_str(">"),
            Infix::Plus => String::from_str("+"),
            Infix::Minus => String::from_str("-"),
            Infix::Slash => String::from_str("/"),
            Infix::Asterisk => String::from_str("*"),
        }
    }
}

} // verus!
