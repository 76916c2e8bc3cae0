//! The lexical categories of the language.

use crate::operator::Precedence;
use crate::text::{i64_to_string, int_text};
use vstd::prelude::*;

verus! {

/// A lexical unit of source text.
#[derive(Debug, PartialEq, Eq)]
pub enum Token {
    /// Text that is no token of the language.
    Illegal(String),
    /// End of input.
    Eof,
    Ident(String),
    Int(i64),
    String(String),
    /// `=`
    Assign,
    /// `+`
    Plus,
    /// `-`
    Minus,
    /// `*`
    Asterisk,
    /// `/`
    Slash,
    /// `<`
    LessThan,
    /// `>`
    GreaterThan,
    /// `,`
    Comma,
    /// `;`
    Semicolon,
    /// `:`
    Colon,
    /// `(`
    LParen,
    /// `)`
    RParen,
    /// `{`
    LBrace,
    /// `}`
    RBrace,
    /// `[`
    LBracket,
    /// `]`
    RBracket,
    /// `!`
    Bang,
    /// `==`
    Eq,
    /// `!=`
    NotEq,
    Function,
    Let,
    True,
    False,
    If,
    Else,
    Return,
}

/// The mathematical value of a [`Token`].
pub enum TokenView {
    Illegal(Seq<char>),
    Eof,
    Ident(Seq<char>),
    Int(int),
    String(Seq<char>),
    Assign,
    Plus,
    Minus,
    Asterisk,
    Slash,
    LessThan,
    GreaterThan,
    Comma,
    Semicolon,
    Colon,
    LParen,
    RParen,
    LBrace,
    RBrace,
    LBracket,
    RBracket,
    Bang,
    Eq,
    NotEq,
    Function,
    Let,
    True,
    False,
    If,
    Else,
    Return,
}

impl View for Token {
    type V = TokenView;

    open spec fn view(&self) -> TokenView {
        match self {
            Token::Illegal(s) => TokenView::Illegal(s@),
            Token::Eof => TokenView::Eof,
            Token::Ident(s) => TokenView::Ident(s@),
            Token::Int(n) => TokenView::Int(*n as int),
            Token::String(s) => TokenView::String(s@),
            Token::Assign => TokenView::Assign,
            Token::Plus => TokenView::Plus,
            Token::Minus => TokenView::Minus,
            Token::Asterisk => TokenView::Asterisk,
            Token::Slash => TokenView::Slash,
            Token::LessThan => TokenView::LessThan,
            Token::GreaterThan => TokenView::GreaterThan,
            Token::Comma => TokenView::Comma,
            Token::Semicolon => TokenView::Semicolon,
            Token::Colon => TokenView::Colon,
            Token::LParen => TokenView::LParen,
            Token::RParen => TokenView::RParen,
            Token::LBrace => TokenView::LBrace,
            Token::RBrace => TokenView::RBrace,
            Token::LBracket => TokenView::LBracket,
            Token::RBracket => TokenView::RBracket,
            Token::Bang => TokenView::Bang,
            Token::Eq => TokenView::Eq,
            Token::NotEq => TokenView::NotEq,
            Token::Function => TokenView::Function,
            Token::Let => TokenView::Let,
            Token::True => TokenView::True,
            Token::False => TokenView::False,
            Token::If => TokenView::If,
            Token::Else => TokenView::Else,
            Token::Return => TokenView::Return,
        }
    }
}

/// The keyword that `word` spells, if it spells one.
pub open spec fn keyword_of(word: Seq<char>) -> Option<TokenView> {
    if word == "fn"@ {
        Some(TokenView::Function)
    } else if word == "let"@ {
        Some(TokenView::Let)
    } else if word == "true"@ {
        Some(TokenView::True)
    } else if word == "false"@ {
        Some(TokenView::False)
    } else if word == "if"@ {
        Some(TokenView::If)
    } else if word == "else"@ {
        Some(TokenView::Else)
    } else if word == "return"@ {
        Some(TokenView::Return)
    } else {
        None
    }
}

/// The precedence with which a token binds as an infix operator; `Lowest`
/// for a token that is none.
pub open spec fn precedence_of(tok: TokenView) -> Precedence {
    match tok {
        TokenView::Eq => Precedence::Equals,
        TokenView::NotEq => Precedence::Equals,
        TokenView::Plus => Precedence::Sum,
        TokenView::Minus => Precedence::Sum,
        TokenView::Asterisk => Precedence::Product,
        TokenView::Slash => Precedence::Product,
        TokenView::LessThan => Precedence::Relational,
        TokenView::GreaterThan => Precedence::Relational,
        TokenView::LParen => Precedence::Call,
        TokenView::LBracket => Precedence::Index,
        _ => Precedence::Lowest,
    }
}

/// What the debug notation of a string is: the text between double quotes,
/// with the characters that need it escaped.
pub uninterp spec fn quoted(s: Seq<char>) -> Seq<char>;

/// Calls the `Debug` formatting of `str`, which writes the text between
/// double quotes and escapes the characters that need it. The result is
/// given a name; nothing else is claimed of it.
#[verifier::external_body]
fn quote(s: &str) -> (r: String)
    ensures
        r@ == quoted(s@),
{
    format!("{:?}", s)
}

/// The debug notation of a token: the variant's name, followed in brackets
/// by what it carries.
pub open spec fn token_text(tok: TokenView) -> Seq<char> {
    match tok {
        TokenView::Illegal(s) => "Illegal("@ + quoted(s) + ")"@,
        TokenView::Eof => "Eof"@,
        TokenView::Ident(s) => "Ident("@ + quoted(s) + ")"@,
        TokenView::Int(n) => "Int("@ + int_text(n) + ")"@,
        TokenView::String(s) => "String("@ + quoted(s) + ")"@,
        TokenView::Assign => "Assign"@,
        TokenView::Plus => "Plus"@,
        TokenView::Minus => "Minus"@,
        TokenView::Asterisk => "Asterisk"@,
        TokenView::Slash => "Slash"@,
        TokenView::LessThan => "LessThan"@,
        TokenView::GreaterThan => "GreaterThan"@,
        TokenView::Comma => "Comma"@,
        TokenView::Semicolon => "Semicolon"@,
        TokenView::Colon => "Colon"@,
        TokenView::LParen => "LParen"@,
        TokenView::RParen => "RParen"@,
        TokenView::LBrace => "LBrace"@,
        TokenView::RBrace => "RBrace"@,
        TokenView::LBracket => "LBracket"@,
        TokenView::RBracket => "RBracket"@,
        TokenView::Bang => "Bang"@,
        TokenView::Eq => "Eq"@,
        TokenView::NotEq => "NotEq"@,
        TokenView::Function => "Function"@,
        TokenView::Let => "Let"@,
        TokenView::True => "True"@,
        TokenView::False => "False"@,
        TokenView::If => "If"@,
        TokenView::Else => "Else"@,
        TokenView::Return => "Return"@,
    }
}

fn wrapped(name: &str, inner: String) -> (r: String)
    ensures
        r@ == name@ + inner@ + ")"@,
{
    let mut s = String::from_str(name);
    s.append(inner.as_str());
    s.append(")");
    s
}

impl Clone for Token {
    fn clone(&self) -> (r: Self)
        ensures
            r@ == self@,
    {
        match self {
            Token::Illegal(s) => Token::Illegal(s.clone()),
            Token::Eof => Token::Eof,
            Token::Ident(s) => Token::Ident(s.clone()),
            Token::Int(n) => Token::Int(*n),
            Token::String(s) => Token::String(s.clone()),
            Token::Assign => Token::Assign,
            Token::Plus => Token::Plus,
            Token::Minus => Token::Minus,
            Token::Asterisk => Token::Asterisk,
            Token::Slash => Token::Slash,
            Token::LessThan => Token::LessThan,
            Token::GreaterThan => Token::GreaterThan,
            Token::Comma => Token::Comma,
            Token::Semicolon => Token::Semicolon,
            Token::Colon => Token::Colon,
            Token::LParen => Token::LParen,
            Token::RParen => Token::RParen,
            Token::LBrace => Token::LBrace,
            Token::RBrace => Token::RBrace,
            Token::LBracket => Token::LBracket,
            Token::RBracket => Token::RBracket,
            Token::Bang => Token::Bang,
            Token::Eq => Token::Eq,
            Token::NotEq => Token::NotEq,
            Token::Function => Token::Function,
            Token::Let => Token::Let,
            Token::True => Token::True,
            Token::False => Token::False,
            Token::If => Token::If,
            Token::Else => Token::Else,
            Token::Return => Token::Return,
        }
    }
}

impl Token {
    /// The keyword that `c` spells, or `None` where it spells none.
    pub fn keyword(c: &str) -> (r: Option<Token>)
        ensures
            match r {
                Some(t) => keyword_of(c@) == Some(t@),
                None => keyword_of(c@) is None,
            },
    {
        let word = String::from_str(c);
        if word == String::from_str("fn") {
            Some(Token::Function)
        } else if word == String::from_str("let") {
            Some(Token::Let)
        } else if word == String::from_str("true") {
            Some(Token::True)
        } else if word == String::from_str("false") {
            Some(Token::False)
        } else if word == String::from_str("if") {
            Some(Token::If)
        } else if word == String::from_str("else") {
            Some(Token::Else)
        } else if word == String::from_str("return") {
            Some(Token::Return)
        } else {
            None
        }
    }

    /// The precedence with which `tok` binds as an infix operator.
    pub fn precedence(tok: Token) -> (r: Precedence)
        ensures
            r == precedence_of(tok@),
    {
        match tok {
            Token::Eq => Precedence::Equals,
            Token::NotEq => Precedence::Equals,
            Token::Plus => Precedence::Sum,
            Token::Minus => Precedence::Sum,
            Token::Asterisk => Precedence::Product,
            Token::Slash => Precedence::Product,
            Token::LessThan => Precedence::Relational,
            Token::GreaterThan => Precedence::Relational,
            Token::LParen => Precedence::Call,
            Token::LBracket => Precedence::Index,
            _ => Precedence::Lowest,
        }
    }

    /// Whether the two tokens are the same: of one category, and carrying
    /// the same text or number.
    pub fn same(&self, other: &Token) -> (r: bool)
        ensures
            r == (self@ == other@),
    {
        match (self, other) {
            (Token::Illegal(a), Token::Illegal(b)) => *a == *b,
            (Token::Eof, Token::Eof) => true,
            (Token::Ident(a), Token::Ident(b)) => *a == *b,
            (Token::Int(a), Token::Int(b)) => *a == *b,
            (Token::String(a), Token::String(b)) => *a == *b,
            (Token::Assign, Token::Assign) => true,
            (Token::Plus, Token::Plus) => true,
            (Token::Minus, Token::Minus) => true,
            (Token::Asterisk, Token::Asterisk) => true,
            (Token::Slash, Token::Slash) => true,
            (Token::LessThan, Token::LessThan) => true,
            (Token::GreaterThan, Token::GreaterThan) => true,
            (Token::Comma, Token::Comma) => true,
            (Token::Semicolon, Token::Semicolon) => true,
            (Token::Colon, Token::Colon) => true,
            (Token::LParen, Token::LParen) => true,
            (Token::RParen, Token::RParen) => true,
            (Token::LBrace, Token::LBrace) => true,
            (Token::RBrace, Token::RBrace) => true,
            (Token::LBracket, Token::LBracket) => true,
            (Token::RBracket, Token::RBracket) => true,
            (Token::Bang, Token::Bang) => true,
            (Token::Eq, Token::Eq) => true,
            (Token::NotEq, Token::NotEq) => true,
            (Token::Function, Token::Function) => true,
            (Token::Let, Token::Let) => true,
            (Token::True, Token::True) => true,
            (Token::False, Token::False) => true,
            (Token::If, Token::If) => true,
            (Token::Else, Token::Else) => true,
            (Token::Return, Token::Return) => true,
            _ => false,
        }
    }

    /// The token in debug notation, as error messages show it.
    pub fn debug_string(&self) -> (r: String)
        ensures
            r@ == token_text(self@),
    {
        match self {
            Token::Illegal(s) => wrapped("Illegal(", quote(s.as_str())),
            Token::Eof => String::from_str("Eof"),
            Token::Ident(s) => wrapped("Ident(", quote(s.as_str())),
            Token::Int(n) => wrapped("Int(", i64_to_string(*n)),
            Token::String(s) => wrapped("String(", quote(s.as_str())),
            Token::Assign => String::from_str("Assign"),
            Token::Plus => String::from_str("Plus"),
            Token::Minus => String::from_str("Minus"),
            Token::Asterisk => String::from_str("Asterisk"),
            Token::Slash => String::from_str("Slash"),
            Token::LessThan => String::from_str("LessThan"),
            Token::GreaterThan => String::from_str("GreaterThan"),
            Token::Comma => String::from_str("Comma"),
            Token::Semicolon => String::from_str("Semicolon"),
            Token::Colon => String::from_str("Colon"),
            Token::LParen => String::from_str("LParen"),
            Token::RParen => String::from_str("RParen"),
            Token::LBrace => String::from_str("LBrace"),
            Token::RBrace => String::from_str("RBrace"),
            Token::LBracket => String::from_str("LBracket"),
            Token::RBracket => String::from_str("RBracket"),
            Token::Bang => String::from_str("Bang"),
            Token::Eq => String::from_str("Eq"),
            Token::NotEq => String::from_str("NotEq"),
            Token::Function => String::from_str("Function"),
            Token::Let => String::from_str("Let"),
            Token::True => String::from_str("True"),
            Token::False => String::from_str("False"),
            Token::If => String::from_str("If"),
            Token::Else => String::from_str("Else"),
            Token::Return => String::from_str("Return"),
        }
    }
}

} // verus!
