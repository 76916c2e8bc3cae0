//! What the parser yields is made of what the lexer can have read.
//!
//! Every name in a tree that the parser yields from a source text is made
//! of letters and spells no keyword, every integer literal is a number from
//! 0 to the greatest 64-bit signed integer, no string literal holds a
//! double quote, every `let` statement binds a name, every parameter is a
//! name, and the blocks of `if` expressions and function literals are
//! blocks of such statements.

use crate::ast::{ExprView, StmtView};
use crate::canon::{
    all_stable, clear_block, clear_expr, clear_list, clear_pairs, clear_stmt, clear_stmts,
    stable_block, stable_expr, stable_list, stable_pairs, stable_params, stable_stmt, word_ok,
};
use crate::error::ErrorView;
use crate::lexer::{
    lemma_digits_end_bounds, lemma_letters_end_bounds, lemma_skip_spaces_bounds,
    lemma_string_end_bounds, lemma_token_at_progress, skip_spaces, token_at, tokens_from,
};
use crate::operator::Precedence;
use crate::parser::{
    array_at, block_at, block_from, block_next, call_at, else_at, expect, expr_at, expr_next,
    expr_stmt_at, func_at, group_at, hash_at, hash_from, head_at, if_at, index_at, infix_at,
    infix_from, let_at, list_at, list_from, params_at, params_from, prefix_at, program_from,
    return_at, skip_semicolon, start, stmt_at, Cursor,
};
use crate::token::TokenView;
use vstd::prelude::*;

verus! {

/// A token as the lexer yields it: a name of letters that spell no keyword,
/// an integer within range, a string without a double quote, or any other
/// token.
pub open spec fn token_ok(t: TokenView) -> bool {
    match t {
        TokenView::Ident(s) => word_ok(s),
        TokenView::Int(n) => 0 <= n <= i64::MAX,
        TokenView::String(s) => !s.contains('"'),
        _ => true,
    }
}

/// A cursor on tokens as the lexer yields them.
pub open spec fn cursor_ok(c: Cursor) -> bool {
    &&& token_ok(c.cur)
    &&& token_ok(c.peek)
    &&& forall|i: int| 0 <= i < c.rest.len() ==> token_ok(#[trigger] c.rest[i])
}

/// An expression made of what the lexer can have read.
pub open spec fn sound_expr(e: ExprView) -> bool
    decreases e,
{
    match e {
        ExprView::Ident(s) => word_ok(s),
        ExprView::String(s) => !s.contains('"'),
        ExprView::Int(n) => 0 <= n <= i64::MAX,
        ExprView::Boolean(_) => true,
        ExprView::PrefixExpr { op, right } => sound_expr(*right),
        ExprView::InfixExpr { left, right, op } => sound_expr(*left) && sound_expr(*right),
        ExprView::IndexExpr { left, index } => sound_expr(*left) && sound_expr(*index),
        ExprView::CallExpr { function, args } => sound_expr(*function) && sound_list(args),
        ExprView::ArrayLiteral { elements } => sound_list(elements),
        ExprView::HashLiteral { pairs } => sound_pairs(pairs),
        ExprView::IfExpr { condition, consequence, alternative } => sound_expr(*condition)
            && sound_block(*consequence) && match alternative {
            Some(alt) => sound_block(*alt),
            None => true,
        },
        ExprView::FuncLiteral { parameters, body } => stable_params(parameters) && sound_block(
            *body,
        ),
    }
}

/// Expressions made of what the lexer can have read.
pub open spec fn sound_list(es: Seq<ExprView>) -> bool
    decreases es,
{
    if es.len() == 0 {
        true
    } else {
        sound_list(es.drop_last()) && sound_expr(es.last())
    }
}

/// Key-value pairs made of what the lexer can have read.
pub open spec fn sound_pairs(ps: Seq<(ExprView, ExprView)>) -> bool
    decreases ps,
{
    if ps.len() == 0 {
        true
    } else {
        sound_pairs(ps.drop_last()) && sound_expr(ps.last().0) && sound_expr(ps.last().1)
    }
}

/// A block of statements made of what the lexer can have read.
pub open spec fn sound_block(b: StmtView) -> bool
    decreases b,
{
    match b {
        StmtView::BlockStatement { stmts } => sound_stmts(stmts),
        _ => false,
    }
}

/// Statements made of what the lexer can have read.
pub open spec fn sound_stmts(ss: Seq<StmtView>) -> bool
    decreases ss,
{
    forall|i: int| 0 <= i < ss.len() ==> sound_stmt(#[trigger] ss[i])
}

/// A statement made of what the lexer can have read: a `let` statement
/// that binds a name, a `return` statement or an expression statement.
pub open spec fn sound_stmt(s: StmtView) -> bool
    decreases s,
{
    match s {
        StmtView::LetStatement { ident, value } => ident is Ident && word_ok(ident->Ident_0)
            && sound_expr(value),
        StmtView::ReturnStatement { value } => sound_expr(value),
        StmtView::ExpressionStatement { expr } => sound_expr(expr),
        StmtView::BlockStatement { .. } => false,
    }
}

/// The result of a parse is an error or an expression made of what the
/// lexer can have read.
pub open spec fn yields_expr(r: Result<ExprView, ErrorView>) -> bool {
    r is Ok ==> sound_expr(r->Ok_0)
}

/// The result of a parse is an error or a statement made of what the lexer
/// can have read.
pub open spec fn yields_stmt(r: Result<StmtView, ErrorView>) -> bool {
    r is Ok ==> sound_stmt(r->Ok_0)
}

/// The result of a parse is an error or a block made of what the lexer can
/// have read.
pub open spec fn yields_block(r: Result<StmtView, ErrorView>) -> bool {
    r is Ok ==> sound_block(r->Ok_0)
}

/// The result of a parse is an error or a list made of what the lexer can
/// have read.
pub open spec fn yields_list(r: Result<Seq<ExprView>, ErrorView>) -> bool {
    r is Ok ==> sound_list(r->Ok_0)
}

/// The lexer yields names of letters that spell no keyword, integers within
/// range, and strings without a double quote.
pub proof fn lemma_token_ok(input: Seq<char>, pos: int)
    requires
        0 <= pos <= input.len(),
    ensures
        token_ok(token_at(input, pos).0),
{
    lemma_skip_spaces_bounds(input, pos);
    let p = skip_spaces(input, pos);
    if p < input.len() {
        lemma_letters_end_bounds(input, p);
        lemma_letters_end_bounds(input, p + 1);
        lemma_digits_end_bounds(input, p);
        lemma_string_end_bounds(input, p + 1);
        let tok = token_at(input, pos).0;
        match tok {
            TokenView::Ident(s) => {
                assert forall|i: int| 0 <= i < s.len() implies crate::lexer::is_letter_char(
                    #[trigger] s[i],
                ) by {
                    assert(s[i] == input[p + i]);
                }
            },
            TokenView::String(s) => {
                if s.contains('"') {
                    let i = choose|i: int| 0 <= i < s.len() && s[i] == '"';
                    assert(s[i] == input[p + 1 + i]);
                }
            },
            _ => {},
        }
    }
}

/// All tokens of a text are as [`token_ok`] says.
pub proof fn lemma_tokens_ok(input: Seq<char>, pos: int)
    requires
        0 <= pos <= input.len(),
    ensures
        forall|i: int|
            0 <= i < tokens_from(input, pos).len() ==> token_ok(
                #[trigger] tokens_from(input, pos)[i],
            ),
    decreases input.len() - pos,
{
    lemma_token_at_progress(input, pos);
    lemma_token_ok(input, pos);
    if pos < input.len() {
        let (tok, next) = token_at(input, pos);
        if !(tok is Eof) {
            lemma_tokens_ok(input, next);
            let ts = tokens_from(input, pos);
            let later = tokens_from(input, next);
            assert(ts == seq![tok] + later);
            assert forall|i: int| 0 <= i < ts.len() implies token_ok(#[trigger] ts[i]) by {
                if i > 0 {
                    assert(ts[i] == later[i - 1]);
                }
            }
        }
    }
}

/// Moving on keeps a cursor on tokens as the lexer yields them.
pub proof fn lemma_advance_ok(c: Cursor)
    requires
        cursor_ok(c),
    ensures
        cursor_ok(c.advance()),
{
    if c.rest.len() > 0 {
        let next = c.advance();
        assert(c.rest[0] == next.peek);
        assert forall|i: int| 0 <= i < next.rest.len() implies token_ok(#[trigger] next.rest[i]) by {
            assert(next.rest[i] == c.rest[i + 1]);
        }
    }
}

/// A parser starts on tokens as the lexer yields them.
pub proof fn lemma_start_ok(input: Seq<char>)
    ensures
        cursor_ok(start(tokens_from(input, 0))),
{
    let ts = tokens_from(input, 0);
    lemma_tokens_ok(input, 0);
    let c = Cursor {
        cur: TokenView::Illegal(seq!['\0']),
        peek: TokenView::Illegal(seq!['\0']),
        rest: ts,
    };
    lemma_advance_ok(c);
    lemma_advance_ok(c.advance());
}

proof fn lemma_expect_ok(c: Cursor, tok: TokenView)
    requires
        cursor_ok(c),
    ensures
        cursor_ok(expect(c, tok).0),
{
    lemma_advance_ok(c);
}

proof fn lemma_semicolon_ok(c: Cursor)
    requires
        cursor_ok(c),
    ensures
        cursor_ok(skip_semicolon(c)),
{
    lemma_advance_ok(c);
}

proof fn lemma_push_stmt(acc: Seq<StmtView>, s: StmtView)
    requires
        sound_stmts(acc),
        sound_stmt(s),
    ensures
        sound_stmts(acc.push(s)),
{
    let ss = acc.push(s);
    assert forall|i: int| 0 <= i < ss.len() implies sound_stmt(#[trigger] ss[i]) by {
        if i < acc.len() {
            assert(ss[i] == acc[i]);
        }
    }
}

proof fn lemma_push_expr(acc: Seq<ExprView>, e: ExprView)
    requires
        sound_list(acc),
        sound_expr(e),
    ensures
        sound_list(acc.push(e)),
{
    assert(acc.push(e).drop_last() =~= acc);
}

proof fn lemma_push_pair(acc: Seq<(ExprView, ExprView)>, key: ExprView, value: ExprView)
    requires
        sound_pairs(acc),
        sound_expr(key),
        sound_expr(value),
    ensures
        sound_pairs(acc.push((key, value))),
{
    assert(acc.push((key, value)).drop_last() =~= acc);
}

proof fn lemma_push_param(acc: Seq<ExprView>, name: Seq<char>)
    requires
        stable_params(acc),
        word_ok(name),
    ensures
        stable_params(acc.push(ExprView::Ident(name))),
{
    let ps = acc.push(ExprView::Ident(name));
    assert forall|i: int| 0 <= i < ps.len() implies (#[trigger] ps[i]) is Ident && word_ok(
        ps[i]->Ident_0,
    ) by {
        if i < acc.len() {
            assert(ps[i] == acc[i]);
        }
    }
}

pub proof fn lemma_program_sound(c: Cursor, acc: Seq<StmtView>)
    requires
        cursor_ok(c),
        sound_stmts(acc),
    ensures
        cursor_ok(program_from(c, acc).0),
        program_from(c, acc).1 is Ok ==> sound_stmts(program_from(c, acc).1->Ok_0),
    decreases c.budget(), 12nat,
{
    if !(c.cur is Eof) {
        lemma_stmt_sound(c);
        let (c1, r) = stmt_at(c);
        if let Ok(stmt) = r {
            lemma_advance_ok(c1);
            lemma_push_stmt(acc, stmt);
            if c1.advance().budget() < c.budget() {
                lemma_program_sound(c1.advance(), acc.push(stmt));
            }
        }
    }
}

pub proof fn lemma_stmt_sound(c: Cursor)
    requires
        cursor_ok(c),
    ensures
        cursor_ok(stmt_at(c).0),
        yields_stmt(stmt_at(c).1),
    decreases c.budget(), 9nat,
{
    match c.cur {
        TokenView::Let => lemma_let_sound(c),
        TokenView::Return => lemma_return_sound(c),
        _ => lemma_expr_stmt_sound(c),
    }
}

proof fn lemma_expr_next_sound(c: Cursor, next: Cursor, precedence: Precedence)
    requires
        cursor_ok(next),
    ensures
        cursor_ok(expr_next(c, next, precedence).0),
        yields_expr(expr_next(c, next, precedence).1),
    decreases c.budget(), 0nat,
{
    if next.budget() < c.budget() {
        lemma_expr_sound(next, precedence);
    }
}

proof fn lemma_let_sound(c: Cursor)
    requires
        cursor_ok(c),
    ensures
        cursor_ok(let_at(c).0),
        yields_stmt(let_at(c).1),
    decreases c.budget(), 8nat,
{
    let c1 = c.advance();
    lemma_advance_ok(c);
    lemma_expect_ok(c1, TokenView::Assign);
    let (c2, r) = expect(c1, TokenView::Assign);
    lemma_advance_ok(c2);
    lemma_expr_next_sound(c, c2.advance(), Precedence::Lowest);
    lemma_semicolon_ok(expr_next(c, c2.advance(), Precedence::Lowest).0);
}

proof fn lemma_return_sound(c: Cursor)
    requires
        cursor_ok(c),
    ensures
        cursor_ok(return_at(c).0),
        yields_stmt(return_at(c).1),
    decreases c.budget(), 8nat,
{
    lemma_advance_ok(c);
    lemma_expr_next_sound(c, c.advance(), Precedence::Lowest);
    lemma_semicolon_ok(expr_next(c, c.advance(), Precedence::Lowest).0);
}

proof fn lemma_expr_stmt_sound(c: Cursor)
    requires
        cursor_ok(c),
    ensures
        cursor_ok(expr_stmt_at(c).0),
        yields_stmt(expr_stmt_at(c).1),
    decreases c.budget(), 8nat,
{
    lemma_expr_sound(c, Precedence::Lowest);
    lemma_semicolon_ok(expr_at(c, Precedence::Lowest).0);
}

proof fn lemma_block_sound(c: Cursor)
    requires
        cursor_ok(c),
    ensures
        cursor_ok(block_at(c).0),
        yields_block(block_at(c).1),
    decreases c.budget(), 4nat,
{
    lemma_expect_ok(c, TokenView::LBrace);
    let (c1, r) = expect(c, TokenView::LBrace);
    lemma_advance_ok(c1);
    if r is Ok && c1.advance().budget() < c.budget() {
        lemma_block_from_sound(c1.advance(), Seq::empty());
    }
}

proof fn lemma_block_from_sound(c: Cursor, acc: Seq<StmtView>)
    requires
        cursor_ok(c),
        sound_stmts(acc),
    ensures
        cursor_ok(block_from(c, acc).0),
        yields_block(block_from(c, acc).1),
    decreases c.budget(), 11nat,
{
    if !(c.cur is RBrace) && !(c.cur is Eof) {
        lemma_stmt_sound(c);
        let (c1, r) = stmt_at(c);
        if let Ok(stmt) = r {
            lemma_advance_ok(c1);
            lemma_push_stmt(acc, stmt);
            if c1.advance().budget() < c.budget() {
                lemma_block_from_sound(c1.advance(), acc.push(stmt));
            }
        }
    }
}

proof fn lemma_block_next_sound(c: Cursor, next: Cursor)
    requires
        cursor_ok(next),
    ensures
        cursor_ok(block_next(c, next).0),
        yields_block(block_next(c, next).1),
    decreases c.budget(), 0nat,
{
    if next.budget() < c.budget() {
        lemma_block_sound(next);
    }
}

proof fn lemma_head_sound(c: Cursor)
    requires
        cursor_ok(c),
    ensures
        cursor_ok(head_at(c).0),
        yields_expr(head_at(c).1),
    decreases c.budget(), 6nat,
{
    match c.cur {
        TokenView::Minus => lemma_prefix_sound(c),
        TokenView::Bang => lemma_prefix_sound(c),
        TokenView::LParen => lemma_group_sound(c),
        TokenView::If => lemma_if_sound(c),
        TokenView::Function => lemma_func_sound(c),
        TokenView::LBrace => lemma_hash_sound(c),
        TokenView::LBracket => lemma_array_sound(c),
        _ => {},
    }
}

pub proof fn lemma_expr_sound(c: Cursor, precedence: Precedence)
    requires
        cursor_ok(c),
    ensures
        cursor_ok(expr_at(c, precedence).0),
        yields_expr(expr_at(c, precedence).1),
    decreases c.budget(), 7nat,
{
    lemma_head_sound(c);
    let (c1, l) = head_at(c);
    if let Ok(left) = l {
        if c1.budget() <= c.budget() {
            lemma_infix_from_sound(c1, left, precedence);
        }
    }
}

proof fn lemma_infix_from_sound(c: Cursor, left: ExprView, precedence: Precedence)
    requires
        cursor_ok(c),
        sound_expr(left),
    ensures
        cursor_ok(infix_from(c, left, precedence).0),
        yields_expr(infix_from(c, left, precedence).1),
    decreases c.budget(), 5nat,
{
    lemma_advance_ok(c);
    if !(c.cur is Semicolon) && precedence.order() < crate::token::precedence_of(c.peek).order() {
        let c1 = c.advance();
        if c1.budget() <= c.budget() {
            match c1.cur {
                TokenView::LParen => lemma_call_sound(c1, left),
                TokenView::LBracket => lemma_index_sound(c1, left),
                _ => lemma_infix_at_sound(c1, left),
            }
            let (c2, r) = match c1.cur {
                TokenView::LParen => call_at(c1, left),
                TokenView::LBracket => index_at(c1, left),
                _ => infix_at(c1, left),
            };
            if let Ok(extended) = r {
                if c2.budget() < c.budget() {
                    lemma_infix_from_sound(c2, extended, precedence);
                }
            }
        }
    }
}

proof fn lemma_prefix_sound(c: Cursor)
    requires
        cursor_ok(c),
    ensures
        cursor_ok(prefix_at(c).0),
        yields_expr(prefix_at(c).1),
    decreases c.budget(), 4nat,
{
    lemma_advance_ok(c);
    lemma_expr_next_sound(c, c.advance(), Precedence::Prefix);
}

proof fn lemma_infix_at_sound(c: Cursor, left: ExprView)
    requires
        cursor_ok(c),
        sound_expr(left),
    ensures
        cursor_ok(infix_at(c, left).0),
        yields_expr(infix_at(c, left).1),
    decreases c.budget(), 4nat,
{
    lemma_advance_ok(c);
    lemma_expr_next_sound(c, c.advance(), crate::token::precedence_of(c.cur));
}

proof fn lemma_group_sound(c: Cursor)
    requires
        cursor_ok(c),
    ensures
        cursor_ok(group_at(c).0),
        yields_expr(group_at(c).1),
    decreases c.budget(), 4nat,
{
    lemma_advance_ok(c);
    lemma_expr_next_sound(c, c.advance(), Precedence::Lowest);
    lemma_expect_ok(expr_next(c, c.advance(), Precedence::Lowest).0, TokenView::RParen);
}

proof fn lemma_index_sound(c: Cursor, left: ExprView)
    requires
        cursor_ok(c),
        sound_expr(left),
    ensures
        cursor_ok(index_at(c, left).0),
        yields_expr(index_at(c, left).1),
    decreases c.budget(), 4nat,
{
    lemma_advance_ok(c);
    lemma_expr_next_sound(c, c.advance(), Precedence::Lowest);
    lemma_expect_ok(expr_next(c, c.advance(), Precedence::Lowest).0, TokenView::RBracket);
}

proof fn lemma_else_sound(c: Cursor, after: Cursor)
    requires
        cursor_ok(after),
    ensures
        cursor_ok(else_at(c, after).0),
        else_at(c, after).1 is Ok ==> match else_at(c, after).1->Ok_0 {
            Some(alt) => sound_block(*alt),
            None => true,
        },
    decreases c.budget(), 1nat,
{
    lemma_advance_ok(after);
    if after.peek is Else {
        lemma_block_next_sound(c, after.advance());
    }
}

proof fn lemma_if_sound(c: Cursor)
    requires
        cursor_ok(c),
    ensures
        cursor_ok(if_at(c).0),
        yields_expr(if_at(c).1),
    decreases c.budget(), 4nat,
{
    lemma_expect_ok(c, TokenView::LParen);
    let (c1, e1) = expect(c, TokenView::LParen);
    lemma_advance_ok(c1);
    lemma_expr_next_sound(c, c1.advance(), Precedence::Lowest);
    let (c2, r) = expr_next(c, c1.advance(), Precedence::Lowest);
    lemma_expect_ok(c2, TokenView::RParen);
    let (c3, e2) = expect(c2, TokenView::RParen);
    lemma_block_next_sound(c, c3);
    let (c4, b1) = block_next(c, c3);
    lemma_else_sound(c, c4);
}

proof fn lemma_func_sound(c: Cursor)
    requires
        cursor_ok(c),
    ensures
        cursor_ok(func_at(c).0),
        yields_expr(func_at(c).1),
    decreases c.budget(), 4nat,
{
    lemma_params_sound(c);
    let (c1, p) = params_at(c);
    lemma_block_next_sound(c, c1);
}

proof fn lemma_params_sound(c: Cursor)
    requires
        cursor_ok(c),
    ensures
        cursor_ok(params_at(c).0),
        params_at(c).1 is Ok ==> stable_params(params_at(c).1->Ok_0),
    decreases c.budget(), 3nat,
{
    lemma_expect_ok(c, TokenView::LParen);
    let (c1, e) = expect(c, TokenView::LParen);
    lemma_advance_ok(c1);
    let c2 = c1.advance();
    if e is Ok && !(c1.peek is RParen) {
        if let TokenView::Ident(ident) = c2.cur {
            lemma_push_param(Seq::empty(), ident);
            assert(Seq::<ExprView>::empty().push(ExprView::Ident(ident)) =~= seq![
                ExprView::Ident(ident),
            ]);
            if c2.budget() < c.budget() {
                lemma_params_from_sound(c2, seq![ExprView::Ident(ident)]);
            }
        }
    }
}

proof fn lemma_params_from_sound(c: Cursor, acc: Seq<ExprView>)
    requires
        cursor_ok(c),
        stable_params(acc),
    ensures
        cursor_ok(params_from(c, acc).0),
        params_from(c, acc).1 is Ok ==> stable_params(params_from(c, acc).1->Ok_0),
    decreases c.budget(), 2nat,
{
    lemma_advance_ok(c);
    lemma_advance_ok(c.advance());
    if c.peek is Comma {
        let c2 = c.advance().advance();
        if let TokenView::Ident(ident) = c2.cur {
            lemma_push_param(acc, ident);
            if c2.budget() < c.budget() {
                lemma_params_from_sound(c2, acc.push(ExprView::Ident(ident)));
            }
        }
    } else {
        lemma_expect_ok(c, TokenView::RParen);
    }
}

proof fn lemma_call_sound(c: Cursor, function: ExprView)
    requires
        cursor_ok(c),
        sound_expr(function),
    ensures
        cursor_ok(call_at(c, function).0),
        yields_expr(call_at(c, function).1),
    decreases c.budget(), 4nat,
{
    lemma_list_sound(c, TokenView::RParen);
}

proof fn lemma_array_sound(c: Cursor)
    requires
        cursor_ok(c),
    ensures
        cursor_ok(array_at(c).0),
        yields_expr(array_at(c).1),
    decreases c.budget(), 4nat,
{
    lemma_list_sound(c, TokenView::RBracket);
}

proof fn lemma_list_sound(c: Cursor, end: TokenView)
    requires
        cursor_ok(c),
    ensures
        cursor_ok(list_at(c, end).0),
        yields_list(list_at(c, end).1),
    decreases c.budget(), 3nat,
{
    lemma_advance_ok(c);
    if c.peek != end {
        lemma_expr_next_sound(c, c.advance(), Precedence::Lowest);
        let (c1, r) = expr_next(c, c.advance(), Precedence::Lowest);
        if let Ok(first) = r {
            lemma_push_expr(Seq::empty(), first);
            assert(Seq::<ExprView>::empty().push(first) =~= seq![first]);
            if c1.budget() < c.budget() {
                lemma_list_from_sound(c1, seq![first], end);
            }
        }
    }
}

proof fn lemma_list_from_sound(c: Cursor, acc: Seq<ExprView>, end: TokenView)
    requires
        cursor_ok(c),
        sound_list(acc),
    ensures
        cursor_ok(list_from(c, acc, end).0),
        yields_list(list_from(c, acc, end).1),
    decreases c.budget(), 2nat,
{
    lemma_advance_ok(c);
    lemma_advance_ok(c.advance());
    if c.peek is Comma {
        lemma_expr_next_sound(c, c.advance().advance(), Precedence::Lowest);
        let (c1, r) = expr_next(c, c.advance().advance(), Precedence::Lowest);
        if let Ok(arg) = r {
            lemma_push_expr(acc, arg);
            if c1.budget() < c.budget() {
                lemma_list_from_sound(c1, acc.push(arg), end);
            }
        }
    } else {
        lemma_expect_ok(c, end);
    }
}

proof fn lemma_hash_sound(c: Cursor)
    requires
        cursor_ok(c),
    ensures
        cursor_ok(hash_at(c).0),
        yields_expr(hash_at(c).1),
    decreases c.budget(), 4nat,
{
    lemma_hash_from_sound(c, Seq::empty());
}

proof fn lemma_hash_from_sound(c: Cursor, acc: Seq<(ExprView, ExprView)>)
    requires
        cursor_ok(c),
        sound_pairs(acc),
    ensures
        cursor_ok(hash_from(c, acc).0),
        yields_expr(hash_from(c, acc).1),
    decreases c.budget(), 3nat,
{
    lemma_advance_ok(c);
    if !(c.peek is RBrace) {
        lemma_expr_next_sound(c, c.advance(), Precedence::Lowest);
        let (c1, k) = expr_next(c, c.advance(), Precedence::Lowest);
        if let Ok(key) = k {
            lemma_expect_ok(c1, TokenView::Colon);
            let (c2, e) = expect(c1, TokenView::Colon);
            if e is Ok {
                lemma_advance_ok(c2);
                lemma_expr_next_sound(c, c2.advance(), Precedence::Lowest);
                let (c3, v) = expr_next(c, c2.advance(), Precedence::Lowest);
                if let Ok(value) = v {
                    lemma_expect_ok(c3, TokenView::Comma);
                    let (c4, e2) = if c3.peek is RBrace {
                        (c3, Ok::<bool, ErrorView>(true))
                    } else {
                        expect(c3, TokenView::Comma)
                    };
                    lemma_push_pair(acc, key, value);
                    if e2 is Ok && c4.budget() < c.budget() {
                        lemma_hash_from_sound(c4, acc.push((key, value)));
                    }
                }
            }
        }
    }
}

/// What the parser yields from a source text is made of what the lexer can
/// have read.
pub proof fn lemma_parsed_is_sound(source: Seq<char>)
    ensures
        crate::parse_text(source) is Ok ==> sound_stmts(crate::parse_text(source)->Ok_0),
{
    lemma_start_ok(source);
    lemma_program_sound(start(tokens_from(source, 0)), Seq::empty());
}

/// An expression that is made of what the lexer can have read and whose
/// canonical text reads in one way only is one that `stable_expr` admits.
pub proof fn lemma_stable_expr(e: ExprView)
    requires
        sound_expr(e),
        clear_expr(e),
    ensures
        stable_expr(e),
    decreases e,
{
    match e {
        ExprView::PrefixExpr { op, right } => {
            lemma_stable_expr(*right);
        },
        ExprView::InfixExpr { left, right, op } => {
            lemma_stable_expr(*left);
            lemma_stable_expr(*right);
        },
        ExprView::IndexExpr { left, index } => {
            lemma_stable_expr(*left);
            lemma_stable_expr(*index);
        },
        ExprView::CallExpr { function, args } => {
            lemma_stable_expr(*function);
            lemma_stable_list(args);
        },
        ExprView::ArrayLiteral { elements } => {
            lemma_stable_list(elements);
        },
        ExprView::HashLiteral { pairs } => {
            lemma_stable_pairs(pairs);
        },
        ExprView::IfExpr { condition, consequence, alternative } => {
            lemma_stable_expr(*condition);
            lemma_stable_block(*consequence);
            match alternative {
                Some(alt) => {
                    lemma_stable_block(*alt);
                },
                None => {},
            }
        },
        ExprView::FuncLiteral { parameters, body } => {
            lemma_stable_block(*body);
        },
        _ => {},
    }
}

proof fn lemma_stable_list(es: Seq<ExprView>)
    requires
        sound_list(es),
        clear_list(es),
    ensures
        stable_list(es),
    decreases es,
{
    if es.len() > 0 {
        lemma_stable_list(es.drop_last());
        lemma_stable_expr(es.last());
    }
}

proof fn lemma_stable_pairs(ps: Seq<(ExprView, ExprView)>)
    requires
        sound_pairs(ps),
        clear_pairs(ps),
    ensures
        stable_pairs(ps),
    decreases ps,
{
    if ps.len() > 0 {
        lemma_stable_pairs(ps.drop_last());
        lemma_stable_expr(ps.last().0);
        lemma_stable_expr(ps.last().1);
    }
}

proof fn lemma_stable_block(b: StmtView)
    requires
        sound_block(b),
        clear_block(b),
    ensures
        stable_block(b),
    decreases b,
{
    match b {
        StmtView::BlockStatement { stmts } => {
            lemma_stable_stmts(stmts);
        },
        _ => {},
    }
}

/// Statements that are made of what the lexer can have read and of which
/// each reads in one way only are statements that `stable_stmt` admits.
pub proof fn lemma_stable_stmts(ss: Seq<StmtView>)
    requires
        sound_stmts(ss),
        clear_stmts(ss),
    ensures
        all_stable(ss),
    decreases ss,
{
    assert forall|i: int| 0 <= i < ss.len() implies stable_stmt(#[trigger] ss[i]) by {
        lemma_stable_stmt(ss[i]);
    }
}

proof fn lemma_stable_stmt(s: StmtView)
    requires
        sound_stmt(s),
        clear_stmt(s),
    ensures
        stable_stmt(s),
    decreases s,
{
    match s {
        StmtView::LetStatement { ident, value } => {
            lemma_stable_expr(value);
        },
        StmtView::ReturnStatement { value } => {
            lemma_stable_expr(value);
        },
        StmtView::ExpressionStatement { expr } => {
            lemma_stable_expr(expr);
        },
        StmtView::BlockStatement { .. } => {},
    }
}

} // verus!
