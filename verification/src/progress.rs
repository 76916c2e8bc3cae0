//! Parsing moves forward.
//!
//! The definitions of the parser go on from the cursor that a part of the
//! parse has reached only where that cursor is further than the one they
//! began with, and yield the error `stalled` otherwise. The lemmas here
//! show, for every one of those definitions, that from a well-formed cursor
//! the condition holds: no parse yields `stalled`. They also show that a
//! parse leaves the cursor well-formed and never moves it back.

use crate::ast::{ExprView, StmtView};
use crate::error::ErrorView;
use crate::operator::Precedence;
use crate::parser::{
    array_at, block_at, block_from, block_next, call_at, expect, expr_at, expr_next,
    expr_stmt_at, func_at, group_at, hash_at, hash_from, head_at, if_at, index_at, infix_at,
    infix_from, infix_of, lemma_advance, let_at, list_at, list_from, params_at, params_from,
    prefix_at, prefix_of, program_from, return_at, skip_semicolon, stmt_at, Cursor,
};
use crate::token::{precedence_of, TokenView};
use vstd::prelude::*;

verus! {

/// Whether a parse that began at `c` may have reached `c1`: a well-formed
/// cursor that is no further back.
pub open spec fn moved(c: Cursor, c1: Cursor) -> bool {
    c1.wf() && c1.budget() <= c.budget()
}

/// Requiring a token leaves the cursor well-formed and no further back, and
/// moves it on where the token is there.
pub proof fn lemma_expect_moves(c: Cursor, tok: TokenView)
    requires
        c.wf(),
    ensures
        moved(c, expect(c, tok).0),
        expect(c, tok).1 is Ok && !(tok is Eof) ==> expect(c, tok).0.budget() < c.budget(),
{
    lemma_advance(c);
}

/// Passing over a semicolon leaves the cursor well-formed and no further
/// back.
pub proof fn lemma_semicolon_moves(c: Cursor)
    requires
        c.wf(),
    ensures
        moved(c, skip_semicolon(c)),
{
    lemma_advance(c);
}

/// A parse that moves on after a statement or an expression that began at
/// a token other than `Eof` is further than where that began.
proof fn lemma_step_after(c: Cursor, c1: Cursor)
    requires
        c.wf(),
        !(c.cur is Eof),
        moved(c, c1),
    ensures
        moved(c, c1.advance()),
        c1.advance().budget() < c.budget(),
{
    lemma_advance(c);
    lemma_advance(c1);
}

/// The parse of a program goes on after each of its statements.
pub proof fn lemma_program_moves(c: Cursor, acc: Seq<StmtView>)
    requires
        c.wf(),
    ensures
        moved(c, program_from(c, acc).0),
        !(c.cur is Eof) && stmt_at(c).1 is Ok ==> stmt_at(c).0.advance().budget() < c.budget(),
    decreases c.budget(), 12nat,
{
    if !(c.cur is Eof) {
        lemma_stmt_moves(c);
        let (c1, r) = stmt_at(c);
        if let Ok(stmt) = r {
            lemma_step_after(c, c1);
            lemma_program_moves(c1.advance(), acc.push(stmt));
        }
    }
}

/// The parse of a statement leaves the cursor well-formed and no further
/// back.
pub proof fn lemma_stmt_moves(c: Cursor)
    requires
        c.wf(),
    ensures
        moved(c, stmt_at(c).0),
    decreases c.budget(), 9nat,
{
    match c.cur {
        TokenView::Let => lemma_let_moves(c),
        TokenView::Return => lemma_return_moves(c),
        _ => lemma_expr_stmt_moves(c),
    }
}

/// An expression after a move: where it parses, the parse is further than
/// where it began.
pub proof fn lemma_expr_next_moves(c: Cursor, next: Cursor, precedence: Precedence)
    requires
        c.wf(),
        moved(c, next),
    ensures
        moved(c, expr_next(c, next, precedence).0),
        expr_next(c, next, precedence).1 is Ok ==> expr_next(c, next, precedence).0.budget()
            < c.budget(),
    decreases c.budget(), 0nat,
{
    if next.budget() < c.budget() {
        lemma_expr_moves(next, precedence);
    }
}

/// The parse of a `let` statement leaves the cursor well-formed and no
/// further back.
pub proof fn lemma_let_moves(c: Cursor)
    requires
        c.wf(),
    ensures
        moved(c, let_at(c).0),
    decreases c.budget(), 8nat,
{
    let c1 = c.advance();
    lemma_advance(c);
    lemma_expect_moves(c1, TokenView::Assign);
    let (c2, r) = expect(c1, TokenView::Assign);
    if c1.cur is Ident && r is Ok {
        lemma_advance(c2);
        lemma_expr_next_moves(c, c2.advance(), Precedence::Lowest);
        lemma_semicolon_moves(expr_next(c, c2.advance(), Precedence::Lowest).0);
    }
}

/// The parse of a `return` statement leaves the cursor well-formed and no
/// further back.
pub proof fn lemma_return_moves(c: Cursor)
    requires
        c.wf(),
    ensures
        moved(c, return_at(c).0),
    decreases c.budget(), 8nat,
{
    lemma_advance(c);
    lemma_expr_next_moves(c, c.advance(), Precedence::Lowest);
    lemma_semicolon_moves(expr_next(c, c.advance(), Precedence::Lowest).0);
}

/// The parse of an expression statement leaves the cursor well-formed and
/// no further back.
pub proof fn lemma_expr_stmt_moves(c: Cursor)
    requires
        c.wf(),
    ensures
        moved(c, expr_stmt_at(c).0),
    decreases c.budget(), 8nat,
{
    lemma_expr_moves(c, Precedence::Lowest);
    lemma_semicolon_moves(expr_at(c, Precedence::Lowest).0);
}

/// The parse of a block goes on after its opening brace.
pub proof fn lemma_block_moves(c: Cursor)
    requires
        c.wf(),
    ensures
        moved(c, block_at(c).0),
        expect(c, TokenView::LBrace).1 is Ok ==> expect(
            c,
            TokenView::LBrace,
        ).0.advance().budget() < c.budget(),
    decreases c.budget(), 4nat,
{
    lemma_expect_moves(c, TokenView::LBrace);
    let (c1, r) = expect(c, TokenView::LBrace);
    if r is Ok {
        lemma_advance(c1);
        lemma_block_from_moves(c1.advance(), Seq::empty());
    }
}

/// The parse of a block goes on after each of its statements.
pub proof fn lemma_block_from_moves(c: Cursor, acc: Seq<StmtView>)
    requires
        c.wf(),
    ensures
        moved(c, block_from(c, acc).0),
        !(c.cur is RBrace) && !(c.cur is Eof) && stmt_at(c).1 is Ok ==> stmt_at(
            c,
        ).0.advance().budget() < c.budget(),
    decreases c.budget(), 11nat,
{
    lemma_advance(c);
    if !(c.cur is RBrace) && !(c.cur is Eof) {
        lemma_stmt_moves(c);
        let (c1, r) = stmt_at(c);
        if let Ok(stmt) = r {
            lemma_step_after(c, c1);
            lemma_block_from_moves(c1.advance(), acc.push(stmt));
        }
    }
}

/// The parse of the head of an expression leaves the cursor well-formed and
/// no further back, and fails at `Eof`.
pub proof fn lemma_head_moves(c: Cursor)
    requires
        c.wf(),
    ensures
        moved(c, head_at(c).0),
        head_at(c).1 is Ok ==> !(c.cur is Eof),
    decreases c.budget(), 6nat,
{
    match c.cur {
        TokenView::Minus => lemma_prefix_moves(c),
        TokenView::Bang => lemma_prefix_moves(c),
        TokenView::LParen => lemma_group_moves(c),
        TokenView::If => lemma_if_moves(c),
        TokenView::Function => lemma_func_moves(c),
        TokenView::LBrace => lemma_hash_moves(c),
        TokenView::LBracket => lemma_array_moves(c),
        _ => {},
    }
}

/// The parse of an expression goes on after its head, and fails at `Eof`.
pub proof fn lemma_expr_moves(c: Cursor, precedence: Precedence)
    requires
        c.wf(),
    ensures
        moved(c, expr_at(c, precedence).0),
        expr_at(c, precedence).1 is Ok ==> !(c.cur is Eof),
        head_at(c).1 is Ok ==> head_at(c).0.budget() <= c.budget(),
    decreases c.budget(), 7nat,
{
    lemma_head_moves(c);
    let (c1, l) = head_at(c);
    if let Ok(left) = l {
        lemma_infix_from_moves(c1, left, precedence);
    }
}

/// The operator, call or index that extends an expression, where the next
/// token binds more tightly than the bound.
pub open spec fn extension(c: Cursor, left: ExprView) -> (Cursor, Result<ExprView, ErrorView>) {
    match c.cur {
        TokenView::LParen => call_at(c, left),
        TokenView::LBracket => index_at(c, left),
        _ => infix_at(c, left),
    }
}

/// The parse of what extends an expression goes on after each operator,
/// call and index.
pub proof fn lemma_infix_from_moves(c: Cursor, left: ExprView, precedence: Precedence)
    requires
        c.wf(),
    ensures
        moved(c, infix_from(c, left, precedence).0),
        c.advance().budget() <= c.budget(),
        !(c.cur is Semicolon) && precedence.order() < precedence_of(c.peek).order() && extension(
            c.advance(),
            left,
        ).1 is Ok ==> extension(c.advance(), left).0.budget() < c.budget(),
    decreases c.budget(), 5nat,
{
    lemma_advance(c);
    if !(c.cur is Semicolon) && precedence.order() < precedence_of(c.peek).order() {
        let c1 = c.advance();
        match c1.cur {
            TokenView::LParen => lemma_call_moves(c1, left),
            TokenView::LBracket => lemma_index_moves(c1, left),
            _ => lemma_infix_at_moves(c1, left),
        }
        let (c2, r) = extension(c1, left);
        if let Ok(extended) = r {
            lemma_infix_from_moves(c2, extended, precedence);
        }
    }
}

/// The parse of a prefix expression leaves the cursor well-formed and no
/// further back.
pub proof fn lemma_prefix_moves(c: Cursor)
    requires
        c.wf(),
    ensures
        moved(c, prefix_at(c).0),
    decreases c.budget(), 4nat,
{
    lemma_advance(c);
    if prefix_of(c.cur) is Some {
        lemma_expr_next_moves(c, c.advance(), Precedence::Prefix);
    }
}

/// The parse of an infix expression leaves the cursor well-formed and no
/// further back.
pub proof fn lemma_infix_at_moves(c: Cursor, left: ExprView)
    requires
        c.wf(),
    ensures
        moved(c, infix_at(c, left).0),
    decreases c.budget(), 4nat,
{
    lemma_advance(c);
    if infix_of(c.cur) is Some {
        lemma_expr_next_moves(c, c.advance(), precedence_of(c.cur));
    }
}

/// The parse of a parenthesised expression leaves the cursor well-formed
/// and no further back.
pub proof fn lemma_group_moves(c: Cursor)
    requires
        c.wf(),
    ensures
        moved(c, group_at(c).0),
    decreases c.budget(), 4nat,
{
    lemma_advance(c);
    lemma_expr_next_moves(c, c.advance(), Precedence::Lowest);
    lemma_expect_moves(expr_next(c, c.advance(), Precedence::Lowest).0, TokenView::RParen);
}

/// The parse of an index expression leaves the cursor well-formed and no
/// further back.
pub proof fn lemma_index_moves(c: Cursor, left: ExprView)
    requires
        c.wf(),
    ensures
        moved(c, index_at(c, left).0),
    decreases c.budget(), 4nat,
{
    lemma_advance(c);
    lemma_expr_next_moves(c, c.advance(), Precedence::Lowest);
    lemma_expect_moves(expr_next(c, c.advance(), Precedence::Lowest).0, TokenView::RBracket);
}

/// A block after a move.
pub proof fn lemma_block_next_moves(c: Cursor, next: Cursor)
    requires
        c.wf(),
        moved(c, next),
    ensures
        moved(c, block_next(c, next).0),
    decreases c.budget(), 0nat,
{
    if next.budget() < c.budget() {
        lemma_block_moves(next);
    }
}

/// The parse of an `if` expression goes on to its blocks.
pub proof fn lemma_if_moves(c: Cursor)
    requires
        c.wf(),
    ensures
        moved(c, if_at(c).0),
        ({
            let (c1, e1) = expect(c, TokenView::LParen);
            let (c2, r) = expr_next(c, c1.advance(), Precedence::Lowest);
            let (c3, e2) = expect(c2, TokenView::RParen);
            let (c4, b1) = block_next(c, c3);
            &&& e1 is Ok && r is Ok && e2 is Ok ==> c3.budget() < c.budget()
            &&& e1 is Ok && r is Ok && e2 is Ok && b1 is Ok ==> c4.advance().budget()
                < c.budget()
        }),
    decreases c.budget(), 4nat,
{
    lemma_expect_moves(c, TokenView::LParen);
    let (c1, e1) = expect(c, TokenView::LParen);
    if e1 is Ok {
        lemma_advance(c1);
        lemma_expr_next_moves(c, c1.advance(), Precedence::Lowest);
        let (c2, r) = expr_next(c, c1.advance(), Precedence::Lowest);
        if r is Ok {
            lemma_expect_moves(c2, TokenView::RParen);
            let (c3, e2) = expect(c2, TokenView::RParen);
            if e2 is Ok {
                lemma_block_next_moves(c, c3);
                lemma_block_moves(c3);
                let (c4, b1) = block_next(c, c3);
                if b1 is Ok {
                    lemma_advance(c4);
                    lemma_block_next_moves(c, c4.advance());
                }
            }
        }
    }
}

/// The parse of a function literal goes on to its body.
pub proof fn lemma_func_moves(c: Cursor)
    requires
        c.wf(),
    ensures
        moved(c, func_at(c).0),
        params_at(c).1 is Ok ==> params_at(c).0.budget() < c.budget(),
    decreases c.budget(), 4nat,
{
    lemma_params_moves(c);
    let (c1, p) = params_at(c);
    if p is Ok {
        lemma_block_next_moves(c, c1);
    }
}

/// The parse of a parameter list goes on after its opening parenthesis,
/// and where it succeeds it has moved on.
pub proof fn lemma_params_moves(c: Cursor)
    requires
        c.wf(),
    ensures
        moved(c, params_at(c).0),
        params_at(c).1 is Ok ==> params_at(c).0.budget() < c.budget(),
        expect(c, TokenView::LParen).1 is Ok ==> expect(
            c,
            TokenView::LParen,
        ).0.advance().budget() < c.budget(),
    decreases c.budget(), 3nat,
{
    lemma_expect_moves(c, TokenView::LParen);
    let (c1, e) = expect(c, TokenView::LParen);
    if e is Ok {
        lemma_advance(c1);
        let c2 = c1.advance();
        if !(c1.peek is RParen) {
            if let TokenView::Ident(ident) = c2.cur {
                lemma_params_from_moves(c2, seq![ExprView::Ident(ident)]);
            }
        }
    }
}

/// The parse of a parameter list goes on after each comma.
pub proof fn lemma_params_from_moves(c: Cursor, acc: Seq<ExprView>)
    requires
        c.wf(),
    ensures
        moved(c, params_from(c, acc).0),
        c.peek is Comma ==> c.advance().advance().budget() < c.budget(),
    decreases c.budget(), 2nat,
{
    lemma_advance(c);
    lemma_advance(c.advance());
    if c.peek is Comma {
        let c2 = c.advance().advance();
        if let TokenView::Ident(ident) = c2.cur {
            lemma_params_from_moves(c2, acc.push(ExprView::Ident(ident)));
        }
    } else {
        lemma_expect_moves(c, TokenView::RParen);
    }
}

/// The parse of a call leaves the cursor well-formed and no further back.
pub proof fn lemma_call_moves(c: Cursor, function: ExprView)
    requires
        c.wf(),
    ensures
        moved(c, call_at(c, function).0),
    decreases c.budget(), 4nat,
{
    lemma_list_moves(c, TokenView::RParen);
}

/// The parse of an array literal leaves the cursor well-formed and no
/// further back.
pub proof fn lemma_array_moves(c: Cursor)
    requires
        c.wf(),
    ensures
        moved(c, array_at(c).0),
    decreases c.budget(), 4nat,
{
    lemma_list_moves(c, TokenView::RBracket);
}

/// The parse of a list leaves the cursor well-formed and no further back.
pub proof fn lemma_list_moves(c: Cursor, end: TokenView)
    requires
        c.wf(),
    ensures
        moved(c, list_at(c, end).0),
    decreases c.budget(), 3nat,
{
    lemma_advance(c);
    if c.peek != end {
        lemma_expr_next_moves(c, c.advance(), Precedence::Lowest);
        let (c1, r) = expr_next(c, c.advance(), Precedence::Lowest);
        if let Ok(first) = r {
            lemma_list_from_moves(c1, seq![first], end);
        }
    }
}

/// The parse of the rest of a list leaves the cursor well-formed and no
/// further back.
pub proof fn lemma_list_from_moves(c: Cursor, acc: Seq<ExprView>, end: TokenView)
    requires
        c.wf(),
    ensures
        moved(c, list_from(c, acc, end).0),
    decreases c.budget(), 2nat,
{
    lemma_advance(c);
    lemma_advance(c.advance());
    if c.peek is Comma {
        lemma_expr_next_moves(c, c.advance().advance(), Precedence::Lowest);
        let (c1, r) = expr_next(c, c.advance().advance(), Precedence::Lowest);
        if let Ok(arg) = r {
            lemma_list_from_moves(c1, acc.push(arg), end);
        }
    } else {
        lemma_expect_moves(c, end);
    }
}

/// The parse of a hash literal leaves the cursor well-formed and no
/// further back.
pub proof fn lemma_hash_moves(c: Cursor)
    requires
        c.wf(),
    ensures
        moved(c, hash_at(c).0),
    decreases c.budget(), 4nat,
{
    lemma_hash_from_moves(c, Seq::empty());
}

/// The parse of a hash literal goes on after each of its pairs.
pub proof fn lemma_hash_from_moves(c: Cursor, acc: Seq<(ExprView, ExprView)>)
    requires
        c.wf(),
    ensures
        moved(c, hash_from(c, acc).0),
        ({
            let (c1, k) = expr_next(c, c.advance(), Precedence::Lowest);
            let (c2, e) = expect(c1, TokenView::Colon);
            let (c3, v) = expr_next(c, c2.advance(), Precedence::Lowest);
            k is Ok && e is Ok && v is Ok ==> c3.budget() < c.budget() && expect(
                c3,
                TokenView::Comma,
            ).0.budget() < c.budget()
        }),
    decreases c.budget(), 3nat,
{
    lemma_advance(c);
    if !(c.peek is RBrace) {
        lemma_expr_next_moves(c, c.advance(), Precedence::Lowest);
        let (c1, k) = expr_next(c, c.advance(), Precedence::Lowest);
        if let Ok(key) = k {
            lemma_expect_moves(c1, TokenView::Colon);
            let (c2, e) = expect(c1, TokenView::Colon);
            if e is Ok {
                lemma_advance(c2);
                lemma_expr_next_moves(c, c2.advance(), Precedence::Lowest);
                let (c3, v) = expr_next(c, c2.advance(), Precedence::Lowest);
                if let Ok(value) = v {
                    lemma_expect_moves(c3, TokenView::Comma);
                    let (c4, e2) = if c3.peek is RBrace {
                        (c3, Ok::<bool, ErrorView>(true))
                    } else {
                        expect(c3, TokenView::Comma)
                    };
                    if e2 is Ok {
                        lemma_hash_from_moves(c4, acc.push((key, value)));
                    }
                }
            }
        }
    }
}

} // verus!
