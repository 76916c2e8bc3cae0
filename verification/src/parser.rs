//! The parser: from tokens to a syntax tree, by recursive descent for
//! statements and precedence climbing for expressions.
//!
//! What the parser yields is specified by the functions `program_from`,
//! `stmt_at`, `expr_at` and their companions, over a [`Cursor`]: the current
//! token, the next one, and the tokens after them. The methods of
//! [`Parser`] compute exactly that.
//!
//! The first statement that does not parse ends the parse with its error.
//! After an expression the parser stands at the last token of the
//! expression; after a block, at the closing brace.

use crate::ast::{Expr, ExprView, Program, Stmt, StmtView};
use crate::error::{error_text, result_view, ErrorView, MonkeyError};
use crate::lexer::Lexer;
use crate::operator::{Infix, Precedence, Prefix};
use crate::token::{precedence_of, token_text, Token, TokenView};
use vstd::prelude::*;

verus! {

/// Where a parser stands in its tokens.
pub struct Cursor {
    /// The current token.
    pub cur: TokenView,
    /// The token after the current one.
    pub peek: TokenView,
    /// The tokens after `peek`; after them come `Eof` tokens for ever.
    pub rest: Seq<TokenView>,
}

/// What a token counts for in a cursor's budget.
pub open spec fn weight(tok: TokenView) -> nat {
    if tok is Eof {
        0
    } else {
        1
    }
}

impl Cursor {
    /// The cursor one token further.
    pub open spec fn advance(self) -> Cursor {
        if self.rest.len() > 0 {
            Cursor { cur: self.peek, peek: self.rest[0], rest: self.rest.drop_first() }
        } else {
            Cursor { cur: self.peek, peek: TokenView::Eof, rest: self.rest }
        }
    }

    /// The number of tokens other than `Eof` from the current one on. It
    /// bounds the work that a parse from this cursor can do.
    #[verifier::opaque]
    pub open spec fn budget(self) -> nat {
        self.rest.len() + weight(self.cur) + weight(self.peek)
    }

    /// `Eof` comes only at the end: after an `Eof` token all tokens are
    /// `Eof`.
    /// The lexer and the cursor are well-formed.
    #[verifier::opaque]
    pub open spec fn wf(self) -> bool {
        &&& self.cur is Eof ==> self.peek is Eof
        &&& self.peek is Eof ==> self.rest.len() == 0
        &&& forall|i: int| 0 <= i < self.rest.len() ==> !(#[trigger] self.rest[i] is Eof)
    }
}

/// The cursor with which a parser starts on the tokens `tokens`.
pub open spec fn start(tokens: Seq<TokenView>) -> Cursor {
    Cursor {
        cur: TokenView::Illegal(seq!['\0']),
        peek: TokenView::Illegal(seq!['\0']),
        rest: tokens,
    }.advance().advance()
}

/// The error of an expression that starts with a token with which no
/// expression starts.
pub open spec fn no_prefix(tok: TokenView) -> ErrorView {
    ErrorView::Custom(token_text(tok))
}

/// The error of an infix expression at a token that is no infix operator.
pub open spec fn no_infix() -> ErrorView {
    ErrorView::Custom("not yet"@)
}

/// The error that stands in these definitions where a parse would go on
/// from a cursor that is no further than the one it began with. No parse
/// from a well-formed cursor yields it: the lemmas of the module `progress`
/// show that the conditions under which the definitions go on always hold.
pub open spec fn stalled() -> ErrorView {
    ErrorView::Custom("parser made no progress"@)
}

/// The error of a statement, as a program's error.
pub open spec fn stmt_error(err: ErrorView) -> ErrorView {
    ErrorView::Custom("stmt error: "@ + error_text(err))
}

/// The error of a statement, as a block's error.
pub open spec fn block_error(err: ErrorView) -> ErrorView {
    ErrorView::Custom(error_text(err))
}

/// Requires the next token to be `tok` and moves to it; an error, and no
/// move, where it is another.
pub open spec fn expect(c: Cursor, tok: TokenView) -> (Cursor, Result<bool, ErrorView>) {
    if c.peek == tok {
        (c.advance(), Ok(true))
    } else {
        (c, Err(ErrorView::UnexpectedToken(tok, c.peek)))
    }
}

/// Moves to the next token where it is a semicolon.
pub open spec fn skip_semicolon(c: Cursor) -> Cursor {
    if c.peek is Semicolon {
        c.advance()
    } else {
        c
    }
}

/// The operator that a token is as a prefix operator.
pub open spec fn prefix_of(tok: TokenView) -> Option<Prefix> {
    match tok {
        TokenView::Minus => Some(Prefix::Minus),
        TokenView::Bang => Some(Prefix::Bang),
        _ => None,
    }
}

/// The operator that a token is as an infix operator.
pub open spec fn infix_of(tok: TokenView) -> Option<Infix> {
    match tok {
        TokenView::Plus => Some(Infix::Plus),
        TokenView::Minus => Some(Infix::Minus),
        TokenView::Slash => Some(Infix::Slash),
        TokenView::Asterisk => Some(Infix::Asterisk),
        TokenView::Eq => Some(Infix::Eq),
        TokenView::NotEq => Some(Infix::NotEq),
        TokenView::LessThan => Some(Infix::LessThan),
        TokenView::GreaterThan => Some(Infix::GreaterThan),
        _ => None,
    }
}

/// The statements `acc` followed by those of the program from `c` on: one
/// statement after the other until the current token is `Eof`. After each
/// statement the parser moves one token on.
pub open spec fn program_from(c: Cursor, acc: Seq<StmtView>) -> (
    Cursor,
    Result<Seq<StmtView>, ErrorView>,
)
    decreases c.budget(), 12nat,
{
    if c.cur is Eof {
        (c, Ok(acc))
    } else {
        let (c1, r) = stmt_at(c);
        match r {
            Err(err) => (c1, Err(stmt_error(err))),
            Ok(stmt) => {
                let c2 = c1.advance();
                if c2.budget() < c.budget() {
                    program_from(c2, acc.push(stmt))
                } else {
                    (c2, Err(stalled()))
                }
            },
        }
    }
}

/// The statement at `c`: a `let` statement, a `return` statement, or else
/// an expression statement.
pub open spec fn stmt_at(c: Cursor) -> (Cursor, Result<StmtView, ErrorView>)
    decreases c.budget(), 9nat,
{
    match c.cur {
        TokenView::Let => let_at(c),
        TokenView::Return => return_at(c),
        _ => expr_stmt_at(c),
    }
}

/// The expression at `next`, a cursor that a parse which began at `c` has
/// reached by moving on.
pub open spec fn expr_next(c: Cursor, next: Cursor, precedence: Precedence) -> (
    Cursor,
    Result<ExprView, ErrorView>,
)
    decreases c.budget(), 0nat,
{
    if next.budget() < c.budget() {
        expr_at(next, precedence)
    } else {
        (next, Err(no_prefix(next.cur)))
    }
}

/// `let <ident> = <expr>`, with an optional semicolon after it.
pub open spec fn let_at(c: Cursor) -> (Cursor, Result<StmtView, ErrorView>)
    decreases c.budget(), 8nat,
{
    let c1 = c.advance();
    match c1.cur {
        TokenView::Ident(ident) => {
            let (c2, r) = expect(c1, TokenView::Assign);
            match r {
                Err(err) => (c2, Err(err)),
                Ok(_) => {
                    let (c3, v) = expr_next(c, c2.advance(), Precedence::Lowest);
                    match v {
                        Err(err) => (c3, Err(err)),
                        Ok(value) => (
                            skip_semicolon(c3),
                            Ok(StmtView::LetStatement { ident: ExprView::Ident(ident), value }),
                        ),
                    }
                },
            }
        },
        tok => (c1, Err(ErrorView::UnexpectedToken(TokenView::Ident(Seq::empty()), tok))),
    }
}

/// `return <expr>`, with an optional semicolon after it.
pub open spec fn return_at(c: Cursor) -> (Cursor, Result<StmtView, ErrorView>)
    decreases c.budget(), 8nat,
{
    let (c1, v) = expr_next(c, c.advance(), Precedence::Lowest);
    match v {
        Err(err) => (c1, Err(err)),
        Ok(value) => (skip_semicolon(c1), Ok(StmtView::ReturnStatement { value })),
    }
}

/// An expression, with an optional semicolon after it.
pub open spec fn expr_stmt_at(c: Cursor) -> (Cursor, Result<StmtView, ErrorView>)
    decreases c.budget(), 8nat,
{
    let (c1, v) = expr_at(c, Precedence::Lowest);
    match v {
        Err(err) => (c1, Err(err)),
        Ok(expr) => (skip_semicolon(c1), Ok(StmtView::ExpressionStatement { expr })),
    }
}

/// `{ <stmt>* }`, where the next token is the opening brace. The block ends
/// at the closing brace, where the parser then stands, or at the end of
/// the input.
pub open spec fn block_at(c: Cursor) -> (Cursor, Result<StmtView, ErrorView>)
    decreases c.budget(), 4nat,
{
    let (c1, r) = expect(c, TokenView::LBrace);
    match r {
        Err(err) => (c1, Err(err)),
        Ok(_) => {
            let c2 = c1.advance();
            if c2.budget() < c.budget() {
                block_from(c2, Seq::empty())
            } else {
                (c2, Err(stalled()))
            }
        },
    }
}

/// The statements `acc` followed by those of the block from `c` on.
pub open spec fn block_from(c: Cursor, acc: Seq<StmtView>) -> (
    Cursor,
    Result<StmtView, ErrorView>,
)
    decreases c.budget(), 11nat,
{
    if c.cur is RBrace || c.cur is Eof {
        (c, Ok(StmtView::BlockStatement { stmts: acc }))
    } else {
        let (c1, r) = stmt_at(c);
        match r {
            Err(err) => (c1, Err(block_error(err))),
            Ok(stmt) => {
                let c2 = c1.advance();
                if c2.budget() < c.budget() {
                    block_from(c2, acc.push(stmt))
                } else {
                    (c2, Err(stalled()))
                }
            },
        }
    }
}

/// The expression that starts with the current token and ends before the
/// first operator, call or index after it: a name, a literal, or one of
/// the forms that begin with a token of their own.
pub open spec fn head_at(c: Cursor) -> (Cursor, Result<ExprView, ErrorView>)
    decreases c.budget(), 6nat,
{
    match c.cur {
        TokenView::Ident(ident) => (c, Ok(ExprView::Ident(ident))),
        TokenView::String(val) => (c, Ok(ExprView::String(val))),
        TokenView::Int(val) => (c, Ok(ExprView::Int(val))),
        TokenView::True => (c, Ok(ExprView::Boolean(true))),
        TokenView::False => (c, Ok(ExprView::Boolean(false))),
        TokenView::Minus => prefix_at(c),
        TokenView::Bang => prefix_at(c),
        TokenView::LParen => group_at(c),
        TokenView::If => if_at(c),
        TokenView::Function => func_at(c),
        TokenView::LBrace => hash_at(c),
        TokenView::LBracket => array_at(c),
        tok => (c, Err(no_prefix(tok))),
    }
}

/// The expression at `c` that binds more tightly than `precedence`: the
/// expression that starts with the current token, extended to the right by
/// every operator, call and index that binds more tightly than
/// `precedence`.
pub open spec fn expr_at(c: Cursor, precedence: Precedence) -> (
    Cursor,
    Result<ExprView, ErrorView>,
)
    decreases c.budget(), 7nat,
{
    let (c1, l) = head_at(c);
    match l {
        Err(err) => (c1, Err(err)),
        Ok(left) => if c1.budget() <= c.budget() {
            infix_from(c1, left, precedence)
        } else {
            (c1, Err(stalled()))
        },
    }
}

/// The expression `left`, extended to the right by every operator, call
/// and index from `c` on that binds more tightly than `precedence`. A
/// semicolon as the current token ends the expression.
pub open spec fn infix_from(c: Cursor, left: ExprView, precedence: Precedence) -> (
    Cursor,
    Result<ExprView, ErrorView>,
)
    decreases c.budget(), 5nat,
{
    if !(c.cur is Semicolon) && precedence.order() < precedence_of(c.peek).order() {
        let c1 = c.advance();
        let (c2, r) = if c1.budget() <= c.budget() {
            match c1.cur {
                TokenView::LParen => call_at(c1, left),
                TokenView::LBracket => index_at(c1, left),
                _ => infix_at(c1, left),
            }
        } else {
            (c1, Err(stalled()))
        };
        match r {
            Err(err) => (c2, Err(err)),
            Ok(extended) => if c2.budget() < c.budget() {
                infix_from(c2, extended, precedence)
            } else {
                (c2, Err(stalled()))
            },
        }
    } else {
        (c, Ok(left))
    }
}

/// `-<expr>` or `!<expr>`, where the current token is the operator.
pub open spec fn prefix_at(c: Cursor) -> (Cursor, Result<ExprView, ErrorView>)
    decreases c.budget(), 4nat,
{
    match prefix_of(c.cur) {
        None => (c, Err(no_prefix(c.cur))),
        Some(op) => {
            let (c1, r) = expr_next(c, c.advance(), Precedence::Prefix);
            match r {
                Err(err) => (c1, Err(err)),
                Ok(right) => (c1, Ok(ExprView::PrefixExpr { op, right: Box::new(right) })),
            }
        },
    }
}

/// `<left> <op> <expr>`, where the current token is the operator. The
/// right operand extends as far as operators bind more tightly than `op`,
/// so operators of one precedence associate to the left.
pub open spec fn infix_at(c: Cursor, left: ExprView) -> (Cursor, Result<ExprView, ErrorView>)
    decreases c.budget(), 4nat,
{
    match infix_of(c.cur) {
        None => (c, Err(no_infix())),
        Some(op) => {
            let (c1, r) = expr_next(c, c.advance(), precedence_of(c.cur));
            match r {
                Err(err) => (c1, Err(err)),
                Ok(right) => (
                    c1,
                    Ok(ExprView::InfixExpr { left: Box::new(left), right: Box::new(right), op }),
                ),
            }
        },
    }
}

/// `(<expr>)`, where the current token is the opening parenthesis.
pub open spec fn group_at(c: Cursor) -> (Cursor, Result<ExprView, ErrorView>)
    decreases c.budget(), 4nat,
{
    let (c1, r) = expr_next(c, c.advance(), Precedence::Lowest);
    match r {
        Err(err) => (c1, Err(err)),
        Ok(expr) => {
            let (c2, e) = expect(c1, TokenView::RParen);
            match e {
                Err(err) => (c2, Err(err)),
                Ok(_) => (c2, Ok(expr)),
            }
        },
    }
}

/// `<left>[<expr>]`, where the current token is the opening bracket.
pub open spec fn index_at(c: Cursor, left: ExprView) -> (Cursor, Result<ExprView, ErrorView>)
    decreases c.budget(), 4nat,
{
    let (c1, r) = expr_next(c, c.advance(), Precedence::Lowest);
    match r {
        Err(err) => (c1, Err(err)),
        Ok(index) => {
            let (c2, e) = expect(c1, TokenView::RBracket);
            match e {
                Err(err) => (c2, Err(err)),
                Ok(_) => (
                    c2,
                    Ok(ExprView::IndexExpr { left: Box::new(left), index: Box::new(index) }),
                ),
            }
        },
    }
}

/// The block at `next`, a cursor that a parse which began at `c` has
/// reached by moving on.
pub open spec fn block_next(c: Cursor, next: Cursor) -> (Cursor, Result<StmtView, ErrorView>)
    decreases c.budget(), 0nat,
{
    if next.budget() < c.budget() {
        block_at(next)
    } else {
        (next, Err(stalled()))
    }
}

/// `if (<expr>) <block>`, with an optional `else <block>` where the token
/// after the first block is `else`. The current token is `if`.
pub open spec fn if_at(c: Cursor) -> (Cursor, Result<ExprView, ErrorView>)
    decreases c.budget(), 4nat,
{
    let (c1, e1) = expect(c, TokenView::LParen);
    match e1 {
        Err(err) => (c1, Err(err)),
        Ok(_) => {
            let (c2, r) = expr_next(c, c1.advance(), Precedence::Lowest);
            match r {
                Err(err) => (c2, Err(err)),
                Ok(condition) => {
                    let (c3, e2) = expect(c2, TokenView::RParen);
                    match e2 {
                        Err(err) => (c3, Err(err)),
                        Ok(_) => {
                            let (c4, b1) = block_next(c, c3);
                            match b1 {
                                Err(err) => (c4, Err(err)),
                                Ok(consequence) => {
                                    let (c5, a) = else_at(c, c4);
                                    match a {
                                        Err(err) => (c5, Err(err)),
                                        Ok(alternative) => (
                                            c5,
                                            Ok(
                                                ExprView::IfExpr {
                                                    condition: Box::new(condition),
                                                    consequence: Box::new(consequence),
                                                    alternative,
                                                },
                                            ),
                                        ),
                                    }
                                },
                            }
                        },
                    }
                },
            }
        },
    }
}

/// The `else <block>` of an `if` expression that began at `c`, where the
/// parser stands at the closing brace of the first block: the block where
/// the next token is `else`, and nothing otherwise.
pub open spec fn else_at(c: Cursor, after: Cursor) -> (
    Cursor,
    Result<Option<Box<StmtView>>, ErrorView>,
)
    decreases c.budget(), 1nat,
{
    if after.peek is Else {
        let (c1, b) = block_next(c, after.advance());
        match b {
            Err(err) => (c1, Err(err)),
            Ok(alt) => (c1, Ok(Some(Box::new(alt)))),
        }
    } else {
        (after, Ok(None))
    }
}

/// `fn (<params>) <block>`, where the current token is `fn`.
pub open spec fn func_at(c: Cursor) -> (Cursor, Result<ExprView, ErrorView>)
    decreases c.budget(), 4nat,
{
    let (c1, p) = params_at(c);
    match p {
        Err(err) => (c1, Err(err)),
        Ok(parameters) => {
            let (c2, b) = block_next(c, c1);
            match b {
                Err(err) => (c2, Err(err)),
                Ok(body) => (c2, Ok(ExprView::FuncLiteral { parameters, body: Box::new(body) })),
            }
        },
    }
}

/// The error of a token that is no identifier where one is required.
pub open spec fn no_ident(tok: TokenView) -> ErrorView {
    ErrorView::UnexpectedToken(TokenView::Ident(Seq::empty()), tok)
}

/// The parameter list of a function literal, where the next token is its
/// opening parenthesis: identifiers with commas between them, up to the
/// closing parenthesis, where the parser then stands.
pub open spec fn params_at(c: Cursor) -> (Cursor, Result<Seq<ExprView>, ErrorView>)
    decreases c.budget(), 3nat,
{
    let (c1, e) = expect(c, TokenView::LParen);
    match e {
        Err(err) => (c1, Err(err)),
        Ok(_) => if c1.peek is RParen {
            (c1.advance(), Ok(Seq::empty()))
        } else {
            let c2 = c1.advance();
            match c2.cur {
                TokenView::Ident(ident) => if c2.budget() < c.budget() {
                    params_from(c2, seq![ExprView::Ident(ident)])
                } else {
                    (c2, Err(stalled()))
                },
                tok => (c2, Err(no_ident(tok))),
            }
        },
    }
}

/// The parameters `acc` followed by those from `c` on, each after a comma,
/// up to the closing parenthesis.
pub open spec fn params_from(c: Cursor, acc: Seq<ExprView>) -> (
    Cursor,
    Result<Seq<ExprView>, ErrorView>,
)
    decreases c.budget(), 2nat,
{
    if c.peek is Comma {
        let c2 = c.advance().advance();
        match c2.cur {
            TokenView::Ident(ident) => if c2.budget() < c.budget() {
                params_from(c2, acc.push(ExprView::Ident(ident)))
            } else {
                (c2, Err(stalled()))
            },
            tok => (c2, Err(no_ident(tok))),
        }
    } else {
        let (c1, e) = expect(c, TokenView::RParen);
        match e {
            Err(err) => (c1, Err(err)),
            Ok(_) => (c1, Ok(acc)),
        }
    }
}

/// `<function>(<args>)`, where the current token is the opening
/// parenthesis.
pub open spec fn call_at(c: Cursor, function: ExprView) -> (Cursor, Result<ExprView, ErrorView>)
    decreases c.budget(), 4nat,
{
    let (c1, r) = list_at(c, TokenView::RParen);
    match r {
        Err(err) => (c1, Err(err)),
        Ok(args) => (c1, Ok(ExprView::CallExpr { function: Box::new(function), args })),
    }
}

/// `[<elements>]`, where the current token is the opening bracket.
pub open spec fn array_at(c: Cursor) -> (Cursor, Result<ExprView, ErrorView>)
    decreases c.budget(), 4nat,
{
    let (c1, r) = list_at(c, TokenView::RBracket);
    match r {
        Err(err) => (c1, Err(err)),
        Ok(elements) => (c1, Ok(ExprView::ArrayLiteral { elements })),
    }
}

/// Expressions with commas between them, up to the token `end`, where the
/// current token is the opening delimiter.
pub open spec fn list_at(c: Cursor, end: TokenView) -> (Cursor, Result<Seq<ExprView>, ErrorView>)
    decreases c.budget(), 3nat,
{
    if c.peek == end {
        (c.advance(), Ok(Seq::empty()))
    } else {
        let (c1, r) = expr_next(c, c.advance(), Precedence::Lowest);
        match r {
            Err(err) => (c1, Err(err)),
            Ok(first) => if c1.budget() < c.budget() {
                list_from(c1, seq![first], end)
            } else {
                (c1, Err(stalled()))
            },
        }
    }
}

/// The expressions `acc` followed by those from `c` on, each after a
/// comma, up to the token `end`.
pub open spec fn list_from(c: Cursor, acc: Seq<ExprView>, end: TokenView) -> (
    Cursor,
    Result<Seq<ExprView>, ErrorView>,
)
    decreases c.budget(), 2nat,
{
    if c.peek is Comma {
        let (c1, r) = expr_next(c, c.advance().advance(), Precedence::Lowest);
        match r {
            Err(err) => (c1, Err(err)),
            Ok(arg) => if c1.budget() < c.budget() {
                list_from(c1, acc.push(arg), end)
            } else {
                (c1, Err(stalled()))
            },
        }
    } else {
        let (c1, e) = expect(c, end);
        match e {
            Err(err) => (c1, Err(err)),
            Ok(_) => (c1, Ok(acc)),
        }
    }
}

/// `{<key>: <value>, ...}`, where the current token is the opening brace.
pub open spec fn hash_at(c: Cursor) -> (Cursor, Result<ExprView, ErrorView>)
    decreases c.budget(), 4nat,
{
    hash_from(c, Seq::empty())
}

/// The pairs `acc` followed by those from `c` on, up to the closing brace.
pub open spec fn hash_from(c: Cursor, acc: Seq<(ExprView, ExprView)>) -> (
    Cursor,
    Result<ExprView, ErrorView>,
)
    decreases c.budget(), 3nat,
{
    if c.peek is RBrace {
        (c.advance(), Ok(ExprView::HashLiteral { pairs: acc }))
    } else {
        let (c1, k) = expr_next(c, c.advance(), Precedence::Lowest);
        match k {
            Err(err) => (c1, Err(err)),
            Ok(key) => {
                let (c2, e) = expect(c1, TokenView::Colon);
                match e {
                    Err(err) => (c2, Err(err)),
                    Ok(_) => {
                        let (c3, v) = expr_next(c, c2.advance(), Precedence::Lowest);
                        match v {
                            Err(err) => (c3, Err(err)),
                            Ok(value) => {
                                let (c4, e2) = if c3.peek is RBrace {
                                    (c3, Ok(true))
                                } else {
                                    expect(c3, TokenView::Comma)
                                };
                                match e2 {
                                    Err(err) => (c4, Err(err)),
                                    Ok(_) => if c4.budget() < c.budget() {
                                        hash_from(c4, acc.push((key, value)))
                                    } else {
                                        (c4, Err(stalled()))
                                    },
                                }
                            },
                        }
                    },
                }
            },
        }
    }
}

/// Moving on keeps a cursor well-formed and never raises its budget; it
/// lowers the budget unless the current token is `Eof`, and then the cursor
/// stays as it is.
pub proof fn lemma_advance(c: Cursor)
    requires
        c.wf(),
    ensures
        c.advance().wf(),
        c.advance().budget() <= c.budget(),
        !(c.cur is Eof) ==> c.advance().budget() < c.budget(),
        c.cur is Eof ==> c.advance() == c && c.budget() == 0,
        !(c.peek is Eof) ==> !(c.cur is Eof),
{
    reveal(Cursor::wf);
    reveal(Cursor::budget);
    if c.cur is Eof {
        assert(c.rest =~= Seq::<TokenView>::empty());
    }
}

/// A parser starts with a well-formed cursor on tokens that hold no `Eof`.
pub proof fn lemma_start(tokens: Seq<TokenView>)
    requires
        forall|i: int| 0 <= i < tokens.len() ==> !(#[trigger] tokens[i] is Eof),
    ensures
        start(tokens).wf(),
{
    let c = Cursor {
        cur: TokenView::Illegal(seq!['\0']),
        peek: TokenView::Illegal(seq!['\0']),
        rest: tokens,
    };
    assert(c.wf()) by {
        reveal(Cursor::wf);
    }
    lemma_advance(c);
    lemma_advance(c.advance());
}

/// Where a parse from a well-formed cursor has moved on, the expression at
/// the cursor that it has reached is the one that `expr_at` gives.
pub proof fn lemma_expr_next(c: Cursor, next: Cursor, precedence: Precedence)
    requires
        c.wf(),
        next.wf(),
        next.budget() <= c.budget(),
        !(c.cur is Eof) ==> next.budget() < c.budget(),
    ensures
        expr_next(c, next, precedence) == expr_at(next, precedence),
{
    if !(next.budget() < c.budget()) {
        lemma_advance(c);
        lemma_advance(next);
        assert(next.cur is Eof);
    }
}

/// The view of the result of parsing a list of expressions.
pub open spec fn exprs_result(r: Result<Vec<Expr>, MonkeyError>) -> Result<
    Seq<ExprView>,
    ErrorView,
> {
    match r {
        Ok(items) => Ok(crate::ast::exprs_view(items@)),
        Err(err) => Err(err@),
    }
}

/// The view of the result of parsing an optional `else` block.
pub open spec fn else_view(r: Result<Option<Box<Stmt>>, MonkeyError>) -> Result<
    Option<Box<StmtView>>,
    ErrorView,
> {
    match r {
        Ok(Some(alt)) => Ok(Some(Box::new(alt@))),
        Ok(None) => Ok(None),
        Err(err) => Err(err@),
    }
}

/// The view of the result of a check that yields no value.
pub open spec fn check_result(r: Result<bool, MonkeyError>) -> Result<bool, ErrorView> {
    match r {
        Ok(b) => Ok(b),
        Err(err) => Err(err@),
    }
}

/// A parser over the tokens of a lexer.
#[derive(Debug)]
pub struct Parser {
    pub l: Lexer,
    pub cur_token: Token,
    pub peek_token: Token,
}

impl View for Parser {
    type V = Cursor;

    open spec fn view(&self) -> Cursor {
        Cursor { cur: self.cur_token@, peek: self.peek_token@, rest: self.l@ }
    }
}

impl Parser {
    pub open spec fn wf(&self) -> bool {
        self.l.wf() && self@.wf()
    }

    /// A parser at the first token of `l`.
    pub fn new(l: Lexer) -> (r: Self)
        requires
            l.wf(),
        ensures
            r.wf(),
            r@ == start(l@),
    {
        let mut first = String::new();
        first.push('\0');
        let mut second = String::new();
        second.push('\0');
        let mut p = Parser {
            l,
            cur_token: Token::Illegal(first),
            peek_token: Token::Illegal(second),
        };
        proof {
            assert(first@ =~= seq!['\0']);
            assert(second@ =~= seq!['\0']);
            Lexer::lemma_tokens_no_eof(p.l.input@, p.l.pos as int);
            lemma_start(p.l@);
            reveal(Cursor::wf);
        }
        p.next_token();
        p.next_token();
        p
    }

    /// Moves one token on.
    pub fn next_token(&mut self)
        requires
            old(self).wf(),
        ensures
            final(self).wf(),
            final(self)@ == old(self)@.advance(),
            final(self)@.budget() <= old(self)@.budget(),
            !(old(self)@.cur is Eof) ==> final(self)@.budget() < old(self)@.budget(),
            old(self)@.cur is Eof ==> final(self)@ == old(self)@ && old(self)@.budget() == 0,
            !(old(self)@.peek is Eof) ==> !(old(self)@.cur is Eof),
    {
        proof {
            Lexer::lemma_next_token(self.l.input@, self.l.pos as int);
            lemma_advance(self@);
        }
        self.cur_token = self.peek_token.clone();
        self.peek_token = self.l.next_token();
    }

    /// Parses the program from the current token to the end of the input.
    /// The first statement that fails ends the parse with its error.
    pub fn parse_program(&mut self) -> (r: Result<Program, MonkeyError>)
        requires
            old(self).wf(),
        ensures
            final(self).wf(),
            (final(self)@, result_view(r)) == program_from(old(self)@, Seq::empty()),
        decreases old(self)@.budget(), 12nat,
    {
        let mut program = Program::new();
        while !self.cur_token_is(Token::Eof)
            invariant
                self.wf(),
                self@.budget() <= old(self)@.budget(),
                program_from(self@, program@) == program_from(old(self)@, Seq::empty()),
            decreases self@.budget(),
        {
            let ghost acc = program@;
            match self.parse_stmt() {
                Ok(stmt) => {
                    let ghost sv = stmt@;
                    program.stmts.push(stmt);
                    assert(program@ =~= acc.push(sv));
                },
                Err(err) => {
                    let mut msg = String::from_str("stmt error: ");
                    msg.append(err.to_string().as_str());
                    return Err(MonkeyError::Custom(msg));
                },
            }
            self.next_token();
        }
        Ok(program)
    }

    /// Parses the statement at the current token.
    #[verifier::rlimit(40)]
    pub fn parse_stmt(&mut self) -> (r: Result<Stmt, MonkeyError>)
        requires
            old(self).wf(),
        ensures
            final(self).wf(),
            (final(self)@, result_view(r)) == stmt_at(old(self)@),
            final(self)@.budget() <= old(self)@.budget(),
        decreases old(self)@.budget(), 9nat,
    {
        let ghost c = self@;
        if self.cur_token_is(Token::Let) {
            assert(c.cur is Let);
            assert(stmt_at(c) == let_at(c));
            self.parse_let_stmt()
        } else if self.cur_token_is(Token::Return) {
            assert(c.cur is Return);
            assert(stmt_at(c) == return_at(c));
            self.parse_return_stmt()
        } else {
            assert(!(c.cur is Let) && !(c.cur is Return));
            assert(stmt_at(c) == expr_stmt_at(c));
            self.parse_expr_statement()
        }
    }

    #[verifier::rlimit(40)]
    fn parse_let_stmt(&mut self) -> (r: Result<Stmt, MonkeyError>)
        requires
            old(self).wf(),
            !(old(self)@.cur is Eof),
        ensures
            final(self).wf(),
            (final(self)@, result_view(r)) == let_at(old(self)@),
            final(self)@.budget() <= old(self)@.budget(),
        decreases old(self)@.budget(), 8nat,
    {
        let ghost c = self@;
        self.next_token();
        let ident = match self.cur_token.clone() {
            Token::Ident(ident) => ident,
            tok => {
                return Err(MonkeyError::UnexpectedToken(Token::Ident(String::new()), tok));
            },
        };
        match self.expect_peek(Token::Assign) {
            Err(err) => {
                return Err(err);
            },
            Ok(_) => {},
        }
        self.next_token();
        proof {
            lemma_expr_next(c, self@, Precedence::Lowest);
        }
        let value = match self.parse_expression(Precedence::Lowest) {
            Err(err) => {
                return Err(err);
            },
            Ok(value) => value,
        };
        self.skip_semicolon();
        Ok(Stmt::LetStatement { ident: Expr::Ident(ident), value })
    }

    fn parse_return_stmt(&mut self) -> (r: Result<Stmt, MonkeyError>)
        requires
            old(self).wf(),
            !(old(self)@.cur is Eof),
        ensures
            final(self).wf(),
            (final(self)@, result_view(r)) == return_at(old(self)@),
            final(self)@.budget() <= old(self)@.budget(),
        decreases old(self)@.budget(), 8nat,
    {
        let ghost c = self@;
        self.next_token();
        proof {
            lemma_expr_next(c, self@, Precedence::Lowest);
        }
        let return_value = match self.parse_expression(Precedence::Lowest) {
            Err(err) => {
                return Err(err);
            },
            Ok(value) => value,
        };
        self.skip_semicolon();
        Ok(Stmt::ReturnStatement { value: return_value })
    }

    #[verifier::rlimit(40)]
    fn parse_block_stmt(&mut self) -> (r: Result<Stmt, MonkeyError>)
        requires
            old(self).wf(),
        ensures
            final(self).wf(),
            (final(self)@, result_view(r)) == block_at(old(self)@),
            final(self)@.budget() <= old(self)@.budget(),
        decreases old(self)@.budget(), 5nat,
    {
        let ghost c = self@;
        match self.expect_peek(Token::LBrace) {
            Err(err) => {
                return Err(err);
            },
            Ok(_) => {},
        }
        let mut stmts: Vec<Stmt> = Vec::new();
        self.next_token();
        let ghost c2 = self@;
        assert(crate::ast::stmts_view(stmts@) =~= Seq::<StmtView>::empty());
        while !self.cur_token_is(Token::RBrace) && !self.cur_token_is(Token::Eof)
            invariant
                self.wf(),
                self@.budget() <= c2.budget(),
                c2.budget() < c.budget(),
                c == old(self)@,
                block_from(self@, crate::ast::stmts_view(stmts@)) == block_at(c),
            decreases self@.budget(),
        {
            let ghost acc = crate::ast::stmts_view(stmts@);
            match self.parse_stmt() {
                Ok(stmt) => {
                    let ghost sv = stmt@;
                    stmts.push(stmt);
                    assert(crate::ast::stmts_view(stmts@) =~= acc.push(sv));
                },
                Err(e) => {
                    return Err(MonkeyError::Custom(e.to_string()));
                },
            }
            self.next_token();
        }
        Ok(Stmt::BlockStatement { stmts })
    }

    fn parse_expr_statement(&mut self) -> (r: Result<Stmt, MonkeyError>)
        requires
            old(self).wf(),
        ensures
            final(self).wf(),
            (final(self)@, result_view(r)) == expr_stmt_at(old(self)@),
            final(self)@.budget() <= old(self)@.budget(),
        decreases old(self)@.budget(), 8nat,
    {
        let expr = match self.parse_expression(Precedence::Lowest) {
            Err(err) => {
                return Err(err);
            },
            Ok(expr) => expr,
        };
        self.skip_semicolon();
        Ok(Stmt::ExpressionStatement { expr })
    }

    #[verifier::rlimit(40)]
    fn parse_expression(&mut self, precedence: Precedence) -> (r: Result<Expr, MonkeyError>)
        requires
            old(self).wf(),
        ensures
            final(self).wf(),
            (final(self)@, result_view(r)) == expr_at(old(self)@, precedence),
            final(self)@.budget() <= old(self)@.budget(),
        decreases old(self)@.budget(), 7nat,
    {
        let ghost c = self@;
        let first = match self.cur_token.clone() {
            Token::Ident(ident) => Ok(Expr::Ident(ident)),
            Token::String(val) => Ok(Expr::String(val)),
            Token::Int(val) => Ok(Expr::Int(val)),
            Token::True => Ok(Expr::Boolean(true)),
            Token::False => Ok(Expr::Boolean(false)),
            Token::Minus => self.parse_prefix_expression(),
            Token::Bang => self.parse_prefix_expression(),
            Token::LParen => self.parse_group_expression(),
            Token::If => self.parse_if_expression(),
            Token::Function => self.parse_func(),
            Token::LBrace => self.parse_hash_literal(),
            Token::LBracket => self.parse_array_literal(),
            e => Err(MonkeyError::Custom(e.debug_string())),
        };
        let mut left = match first {
            Err(err) => {
                return Err(err);
            },
            Ok(left) => left,
        };
        let ghost c1 = self@;
        while !self.cur_token_is(Token::Semicolon) && precedence.below(&self.peek_precedence())
            invariant
                self.wf(),
                self@.budget() <= c1.budget(),
                c1.budget() <= c.budget(),
                c == old(self)@,
                infix_from(self@, left@, precedence) == expr_at(c, precedence),
            decreases self@.budget(),
        {
            self.next_token();
            let extended = match self.cur_token {
                Token::LParen => self.parse_call_expression(left),
                Token::LBracket => self.parse_index_expression(left),
                _ => self.parse_infix_expression(left),
            };
            left = match extended {
                Err(err) => {
                    return Err(err);
                },
                Ok(extended) => extended,
            };
        }
        Ok(left)
    }

    fn parse_prefix_expression(&mut self) -> (r: Result<Expr, MonkeyError>)
        requires
            old(self).wf(),
            !(old(self)@.cur is Eof),
        ensures
            final(self).wf(),
            (final(self)@, result_view(r)) == prefix_at(old(self)@),
            final(self)@.budget() <= old(self)@.budget(),
        decreases old(self)@.budget(), 5nat,
    {
        let ghost c = self@;
        let op = match self.cur_token {
            Token::Minus => Prefix::Minus,
            Token::Bang => Prefix::Bang,
            _ => {
                return Err(MonkeyError::Custom(self.cur_token.debug_string()));
            },
        };
        self.next_token();
        proof {
            lemma_expr_next(c, self@, Precedence::Prefix);
        }
        match self.parse_expression(Precedence::Prefix) {
            Err(err) => Err(err),
            Ok(right) => Ok(Expr::PrefixExpr { op, right: Box::new(right) }),
        }
    }

    fn parse_infix_expression(&mut self, left: Expr) -> (r: Result<Expr, MonkeyError>)
        requires
            old(self).wf(),
        ensures
            final(self).wf(),
            (final(self)@, result_view(r)) == infix_at(old(self)@, left@),
            final(self)@.budget() <= old(self)@.budget(),
        decreases old(self)@.budget(), 5nat,
    {
        let ghost c = self@;
        let op = match self.cur_token {
            Token::Plus => Infix::Plus,
            Token::Minus => Infix::Minus,
            Token::Slash => Infix::Slash,
            Token::Asterisk => Infix::Asterisk,
            Token::Eq => Infix::Eq,
            Token::NotEq => Infix::NotEq,
            Token::LessThan => Infix::LessThan,
            Token::GreaterThan => Infix::GreaterThan,
            _ => {
                return Err(MonkeyError::Custom(String::from_str("not yet")));
            },
        };
        let precedence = self.cur_precedence();
        self.next_token();
        proof {
            lemma_expr_next(c, self@, precedence);
        }
        match self.parse_expression(precedence) {
            Err(err) => Err(err),
            Ok(right) => Ok(
                Expr::InfixExpr { left: Box::new(left), right: Box::new(right), op },
            ),
        }
    }

    fn parse_group_expression(&mut self) -> (r: Result<Expr, MonkeyError>)
        requires
            old(self).wf(),
            !(old(self)@.cur is Eof),
        ensures
            final(self).wf(),
            (final(self)@, result_view(r)) == group_at(old(self)@),
            final(self)@.budget() <= old(self)@.budget(),
        decreases old(self)@.budget(), 5nat,
    {
        let ghost c = self@;
        self.next_token();
        proof {
            lemma_expr_next(c, self@, Precedence::Lowest);
        }
        let expr = match self.parse_expression(Precedence::Lowest) {
            Err(err) => {
                return Err(err);
            },
            Ok(expr) => expr,
        };
        match self.expect_peek(Token::RParen) {
            Err(err) => Err(err),
            Ok(_) => Ok(expr),
        }
    }

    fn parse_index_expression(&mut self, left: Expr) -> (r: Result<Expr, MonkeyError>)
        requires
            old(self).wf(),
            !(old(self)@.cur is Eof),
        ensures
            final(self).wf(),
            (final(self)@, result_view(r)) == index_at(old(self)@, left@),
            final(self)@.budget() <= old(self)@.budget(),
        decreases old(self)@.budget(), 5nat,
    {
        let ghost c = self@;
        self.next_token();
        proof {
            lemma_expr_next(c, self@, Precedence::Lowest);
        }
        let index = match self.parse_expression(Precedence::Lowest) {
            Err(err) => {
                return Err(err);
            },
            Ok(index) => index,
        };
        match self.expect_peek(Token::RBracket) {
            Err(err) => Err(err),
            Ok(_) => Ok(Expr::IndexExpr { left: Box::new(left), index: Box::new(index) }),
        }
    }

    #[verifier::rlimit(40)]
    fn parse_if_expression(&mut self) -> (r: Result<Expr, MonkeyError>)
        requires
            old(self).wf(),
            !(old(self)@.cur is Eof),
        ensures
            final(self).wf(),
            (final(self)@, result_view(r)) == if_at(old(self)@),
            final(self)@.budget() <= old(self)@.budget(),
        decreases old(self)@.budget(), 5nat,
    {
        let ghost c = self@;
        match self.expect_peek(Token::LParen) {
            Err(err) => {
                return Err(err);
            },
            Ok(_) => {},
        }
        self.next_token();
        proof {
            lemma_expr_next(c, self@, Precedence::Lowest);
        }
        let condition = match self.parse_expression(Precedence::Lowest) {
            Err(err) => {
                return Err(err);
            },
            Ok(condition) => condition,
        };
        match self.expect_peek(Token::RParen) {
            Err(err) => {
                return Err(err);
            },
            Ok(_) => {},
        }
        let consequence = match self.parse_block_stmt() {
            Err(err) => {
                return Err(err);
            },
            Ok(consequence) => consequence,
        };
        match self.parse_else(Ghost(c)) {
            Err(err) => Err(err),
            Ok(alternative) => Ok(
                Expr::IfExpr {
                    condition: Box::new(condition),
                    consequence: Box::new(consequence),
                    alternative,
                },
            ),
        }
    }

    fn parse_else(&mut self, Ghost(origin): Ghost<Cursor>) -> (r: Result<
        Option<Box<Stmt>>,
        MonkeyError,
    >)
        requires
            old(self).wf(),
            old(self)@.budget() < origin.budget(),
        ensures
            final(self).wf(),
            (final(self)@, else_view(r)) == else_at(origin, old(self)@),
            final(self)@.budget() <= old(self)@.budget(),
        decreases old(self)@.budget(), 6nat,
    {
        if self.peek_token_is(Token::Else) {
            self.next_token();
            match self.parse_block_stmt() {
                Err(err) => Err(err),
                Ok(alt) => Ok(Some(Box::new(alt))),
            }
        } else {
            Ok(None)
        }
    }

    fn parse_func(&mut self) -> (r: Result<Expr, MonkeyError>)
        requires
            old(self).wf(),
            !(old(self)@.cur is Eof),
        ensures
            final(self).wf(),
            (final(self)@, result_view(r)) == func_at(old(self)@),
            final(self)@.budget() <= old(self)@.budget(),
        decreases old(self)@.budget(), 5nat,
    {
        let parameters = match self.parse_func_params() {
            Err(err) => {
                return Err(err);
            },
            Ok(parameters) => parameters,
        };
        match self.parse_block_stmt() {
            Err(err) => Err(err),
            Ok(body) => Ok(Expr::FuncLiteral { parameters, body: Box::new(body) }),
        }
    }

    #[verifier::rlimit(40)]
    fn parse_func_params(&mut self) -> (r: Result<Vec<Expr>, MonkeyError>)
        requires
            old(self).wf(),
        ensures
            final(self).wf(),
            (final(self)@, exprs_result(r)) == params_at(old(self)@),
            final(self)@.budget() <= old(self)@.budget(),
            r is Ok ==> final(self)@.budget() < old(self)@.budget(),
        decreases old(self)@.budget(), 4nat,
    {
        let ghost c = self@;
        let mut params: Vec<Expr> = Vec::new();
        match self.expect_peek(Token::LParen) {
            Err(err) => {
                return Err(err);
            },
            Ok(_) => {},
        }
        if self.peek_token_is(Token::RParen) {
            self.next_token();
            assert(crate::ast::exprs_view(params@) =~= Seq::<ExprView>::empty());
            return Ok(params);
        }
        self.next_token();
        match self.cur_token.clone() {
            Token::Ident(ident) => {
                let ghost name = ident@;
                params.push(Expr::Ident(ident));
                assert(crate::ast::exprs_view(params@) =~= seq![ExprView::Ident(name)]);
            },
            tok => {
                return Err(MonkeyError::UnexpectedToken(Token::Ident(String::new()), tok));
            },
        }
        while self.peek_token_is(Token::Comma)
            invariant
                self.wf(),
                self@.budget() < c.budget(),
                c == old(self)@,
                params_from(self@, crate::ast::exprs_view(params@)) == params_at(c),
            decreases self@.budget(),
        {
            let ghost acc = crate::ast::exprs_view(params@);
            self.next_token();
            self.next_token();
            match self.cur_token.clone() {
                Token::Ident(ident) => {
                    let ghost name = ident@;
                    params.push(Expr::Ident(ident));
                    assert(crate::ast::exprs_view(params@) =~= acc.push(ExprView::Ident(name)));
                },
                tok => {
                    return Err(MonkeyError::UnexpectedToken(Token::Ident(String::new()), tok));
                },
            }
        }
        match self.expect_peek(Token::RParen) {
            Err(err) => Err(err),
            Ok(_) => Ok(params),
        }
    }

    fn parse_call_expression(&mut self, func: Expr) -> (r: Result<Expr, MonkeyError>)
        requires
            old(self).wf(),
            !(old(self)@.cur is Eof),
        ensures
            final(self).wf(),
            (final(self)@, result_view(r)) == call_at(old(self)@, func@),
            final(self)@.budget() <= old(self)@.budget(),
        decreases old(self)@.budget(), 5nat,
    {
        match self.parse_call_args(Token::RParen) {
            Err(err) => Err(err),
            Ok(args) => Ok(Expr::CallExpr { function: Box::new(func), args }),
        }
    }

    #[verifier::rlimit(40)]
    fn parse_call_args(&mut self, end: Token) -> (r: Result<Vec<Expr>, MonkeyError>)
        requires
            old(self).wf(),
            !(old(self)@.cur is Eof),
        ensures
            final(self).wf(),
            (final(self)@, exprs_result(r)) == list_at(old(self)@, end@),
            final(self)@.budget() <= old(self)@.budget(),
        decreases old(self)@.budget(), 4nat,
    {
        let ghost c = self@;
        let mut args: Vec<Expr> = Vec::new();
        if self.peek_token_is(end.clone()) {
            self.next_token();
            assert(crate::ast::exprs_view(args@) =~= Seq::<ExprView>::empty());
            return Ok(args);
        }
        self.next_token();
        proof {
            lemma_expr_next(c, self@, Precedence::Lowest);
        }
        match self.parse_expression(Precedence::Lowest) {
            Err(err) => {
                return Err(err);
            },
            Ok(first_arg) => {
                let ghost fv = first_arg@;
                args.push(first_arg);
                assert(crate::ast::exprs_view(args@) =~= seq![fv]);
            },
        }
        let ghost c1 = self@;
        while self.peek_token_is(Token::Comma)
            invariant
                self.wf(),
                self@.budget() <= c1.budget(),
                c1.budget() < c.budget(),
                c == old(self)@,
                list_from(self@, crate::ast::exprs_view(args@), end@) == list_at(c, end@),
            decreases self@.budget(),
        {
            let ghost ch = self@;
            let ghost acc = crate::ast::exprs_view(args@);
            self.next_token();
            self.next_token();
            proof {
                lemma_expr_next(ch, self@, Precedence::Lowest);
            }
            match self.parse_expression(Precedence::Lowest) {
                Err(err) => {
                    return Err(err);
                },
                Ok(arg) => {
                    let ghost av = arg@;
                    args.push(arg);
                    assert(crate::ast::exprs_view(args@) =~= acc.push(av));
                },
            }
        }
        match self.expect_peek(end) {
            Err(err) => Err(err),
            Ok(_) => Ok(args),
        }
    }

    /// Parses `[<elements>]`, where the current token is the opening
    /// bracket.
    pub fn parse_array_literal(&mut self) -> (r: Result<Expr, MonkeyError>)
        requires
            old(self).wf(),
        ensures
            final(self).wf(),
            (final(self)@, result_view(r)) == array_at(old(self)@),
            final(self)@.budget() <= old(self)@.budget(),
        decreases old(self)@.budget(), 5nat,
    {
        if self.cur_token_is(Token::Eof) {
            proof {
                lemma_advance(self@);
            }
            return Err(MonkeyError::Custom(Token::Eof.debug_string()));
        }
        match self.parse_call_args(Token::RBracket) {
            Err(err) => Err(err),
            Ok(elements) => Ok(Expr::ArrayLiteral { elements }),
        }
    }

    /// Parses `{<key>: <value>, ...}`, where the current token is the
    /// opening brace.
    #[verifier::rlimit(40)]
    pub fn parse_hash_literal(&mut self) -> (r: Result<Expr, MonkeyError>)
        requires
            old(self).wf(),
        ensures
            final(self).wf(),
            (final(self)@, result_view(r)) == hash_at(old(self)@),
            final(self)@.budget() <= old(self)@.budget(),
        decreases old(self)@.budget(), 5nat,
    {
        let ghost c = self@;
        if self.cur_token_is(Token::Eof) {
            proof {
                lemma_advance(self@);
            }
            return Err(MonkeyError::Custom(Token::Eof.debug_string()));
        }
        let mut pairs: Vec<(Expr, Expr)> = Vec::new();
        assert(crate::ast::pairs_view(pairs@) =~= Seq::<(ExprView, ExprView)>::empty());
        while !self.peek_token_is(Token::RBrace)
            invariant
                self.wf(),
                self@.budget() <= c.budget(),
                !(c.cur is Eof),
                self@ != c ==> self@.budget() < c.budget(),
                c == old(self)@,
                hash_from(self@, crate::ast::pairs_view(pairs@)) == hash_from(c, Seq::empty()),
            decreases self@.budget(),
        {
            let ghost ch = self@;
            let ghost acc = crate::ast::pairs_view(pairs@);
            self.next_token();
            proof {
                lemma_expr_next(ch, self@, Precedence::Lowest);
            }
            let key = match self.parse_expression(Precedence::Lowest) {
                Err(err) => {
                    return Err(err);
                },
                Ok(key) => key,
            };
            match self.expect_peek(Token::Colon) {
                Err(err) => {
                    return Err(err);
                },
                Ok(_) => {},
            }
            self.next_token();
            proof {
                lemma_expr_next(ch, self@, Precedence::Lowest);
            }
            let value = match self.parse_expression(Precedence::Lowest) {
                Err(err) => {
                    return Err(err);
                },
                Ok(value) => value,
            };
            let ghost kv = (key@, value@);
            pairs.push((key, value));
            assert(crate::ast::pairs_view(pairs@) =~= acc.push(kv));
            if !self.peek_token_is(Token::RBrace) {
                match self.expect_peek(Token::Comma) {
                    Err(err) => {
                        return Err(err);
                    },
                    Ok(_) => {},
                }
            }
        }
        self.next_token();
        Ok(Expr::HashLiteral { pairs })
    }

    fn skip_semicolon(&mut self)
        requires
            old(self).wf(),
        ensures
            final(self).wf(),
            final(self)@ == skip_semicolon(old(self)@),
            final(self)@.budget() <= old(self)@.budget(),
    {
        if self.peek_token_is(Token::Semicolon) {
            self.next_token();
        }
    }

    fn cur_token_is(&self, t: Token) -> (r: bool)
        ensures
            r == (self.cur_token@ == t@),
    {
        self.cur_token.same(&t)
    }

    fn peek_token_is(&self, t: Token) -> (r: bool)
        ensures
            r == (self.peek_token@ == t@),
    {
        self.peek_token.same(&t)
    }

    fn expect_peek(&mut self, t: Token) -> (r: Result<bool, MonkeyError>)
        requires
            old(self).wf(),
        ensures
            final(self).wf(),
            (final(self)@, check_result(r)) == expect(old(self)@, t@),
            final(self)@.budget() <= old(self)@.budget(),
            r is Ok && !(t@ is Eof) ==> final(self)@.budget() < old(self)@.budget(),
    {
        if self.peek_token.same(&t) {
            self.next_token();
            return Ok(true);
        }
        Err(MonkeyError::UnexpectedToken(t, self.peek_token.clone()))
    }

    fn peek_precedence(&self) -> (r: Precedence)
        ensures
            r == precedence_of(self.peek_token@),
    {
        Token::precedence(self.peek_token.clone())
    }

    fn cur_precedence(&self) -> (r: Precedence)
        ensures
            r == precedence_of(self.cur_token@),
    {
        Token::precedence(self.cur_token.clone())
    }
}

} // verus!
