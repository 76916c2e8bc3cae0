//! The steps of the parser through blocks, `if` expressions, function
//! literals and parameter lists, and the places of the tokens of those.

use crate::ast::{ExprView, StmtView};
use crate::canon::{block_tokens, expr_tokens, list_tokens, stable_params};
use crate::canon::parsing::{
    at,
    holds,
    lemma_at,
    lemma_holds_one,
    lemma_holds_split,
    lemma_list_split,
    lemma_next,
    no_eof,
    tail_tokens,
    token_or_eof,
};
use crate::error::ErrorView;
use crate::operator::Precedence;
use crate::parser::{
    block_at,
    block_from,
    block_next,
    expr_at,
    func_at,
    head_at,
    if_at,
    params_at,
    params_from,
    program_from,
    stmt_at,
};
use crate::token::TokenView;
use vstd::prelude::*;

verus! {

/// After a statement of a program the parser moves one token on.
pub proof fn lemma_program_more(
    ts: Seq<TokenView>,
    i: int,
    acc: Seq<StmtView>,
    m: int,
    s: StmtView,
)
    requires
        no_eof(ts),
        0 <= i <= m,
        i < ts.len(),
        stmt_at(at(ts, i)) == (at(ts, m), Ok::<StmtView, ErrorView>(s)),
    ensures
        program_from(at(ts, i), acc) == program_from(at(ts, m + 1), acc.push(s)),
{
    lemma_at(ts, i);
    lemma_at(ts, m);
    lemma_at(ts, m + 1);
}

/// A program ends at the end of its tokens.
pub proof fn lemma_program_end(ts: Seq<TokenView>, i: int, acc: Seq<StmtView>)
    requires
        ts.len() <= i,
    ensures
        program_from(at(ts, i), acc) == (at(ts, i), Ok::<Seq<StmtView>, ErrorView>(acc)),
{
}

/// The block whose opening brace is the next token.
pub proof fn lemma_block_step(ts: Seq<TokenView>, j: int, stop: int, stmts: Seq<StmtView>)
    requires
        no_eof(ts),
        1 <= j < ts.len(),
        j + 1 <= stop,
        ts[j] is LBrace,
        block_from(at(ts, j + 1), Seq::empty()) == (
            at(ts, stop),
            Ok::<StmtView, ErrorView>(StmtView::BlockStatement { stmts }),
        ),
    ensures
        block_at(at(ts, j - 1)) == (
            at(ts, stop),
            Ok::<StmtView, ErrorView>(StmtView::BlockStatement { stmts }),
        ),
{
    lemma_at(ts, j - 1);
    lemma_at(ts, j);
    lemma_at(ts, j + 1);
}

/// A block ends at its closing brace.
pub proof fn lemma_block_end(ts: Seq<TokenView>, i: int, acc: Seq<StmtView>)
    requires
        0 <= i < ts.len(),
        ts[i] is RBrace,
    ensures
        block_from(at(ts, i), acc) == (
            at(ts, i),
            Ok::<StmtView, ErrorView>(StmtView::BlockStatement { stmts: acc }),
        ),
{
}

/// After a statement of a block the parser moves one token on.
pub proof fn lemma_block_more(
    ts: Seq<TokenView>,
    i: int,
    acc: Seq<StmtView>,
    m: int,
    s: StmtView,
)
    requires
        no_eof(ts),
        0 <= i <= m,
        i < ts.len(),
        !(ts[i] is RBrace),
        stmt_at(at(ts, i)) == (at(ts, m), Ok::<StmtView, ErrorView>(s)),
    ensures
        block_from(at(ts, i), acc) == block_from(at(ts, m + 1), acc.push(s)),
{
    lemma_at(ts, i);
    lemma_at(ts, m);
    lemma_at(ts, m + 1);
}

/// An `if` expression without `else`, from its parts.
pub proof fn lemma_if_step(
    ts: Seq<TokenView>,
    i: int,
    nc: int,
    condition: ExprView,
    consequence: StmtView,
    stop: int,
)
    requires
        no_eof(ts),
        0 <= i,
        1 <= nc,
        i + 3 + nc < ts.len(),
        i + 3 + nc < stop,
        ts[i] is If,
        ts[i + 1] is LParen,
        ts[i + 2 + nc] is RParen,
        expr_at(at(ts, i + 2), Precedence::Lowest) == (
            at(ts, i + 1 + nc),
            Ok::<ExprView, ErrorView>(condition),
        ),
        block_at(at(ts, i + 2 + nc)) == (at(ts, stop), Ok::<StmtView, ErrorView>(consequence)),
        !(token_or_eof(ts, stop + 1) is Else),
    ensures
        head_at(at(ts, i)) == (
            at(ts, stop),
            Ok::<ExprView, ErrorView>(
                ExprView::IfExpr {
                    condition: Box::new(condition),
                    consequence: Box::new(consequence),
                    alternative: None,
                },
            ),
        ),
{
    lemma_at(ts, i);
    lemma_at(ts, i + 1);
    lemma_at(ts, i + 1 + nc);
    lemma_at(ts, i + 2 + nc);
    lemma_at(ts, stop);
    lemma_next(ts, i, i + 2, Precedence::Lowest);
    let c = at(ts, i);
    assert(block_next(c, at(ts, i + 2 + nc)) == block_at(at(ts, i + 2 + nc)));
    assert(if_at(c) == (
        at(ts, stop),
        Ok::<ExprView, ErrorView>(
            ExprView::IfExpr {
                condition: Box::new(condition),
                consequence: Box::new(consequence),
                alternative: None,
            },
        ),
    ));
}

/// An `if` expression with `else`, from its parts.
pub proof fn lemma_if_else_step(
    ts: Seq<TokenView>,
    i: int,
    nc: int,
    condition: ExprView,
    consequence: StmtView,
    turn: int,
    alt: StmtView,
    stop: int,
)
    requires
        no_eof(ts),
        0 <= i,
        1 <= nc,
        i + 4 + nc <= turn,
        turn < ts.len(),
        turn < stop,
        ts[i] is If,
        ts[i + 1] is LParen,
        ts[i + 2 + nc] is RParen,
        ts[turn] is Else,
        expr_at(at(ts, i + 2), Precedence::Lowest) == (
            at(ts, i + 1 + nc),
            Ok::<ExprView, ErrorView>(condition),
        ),
        block_at(at(ts, i + 2 + nc)) == (
            at(ts, turn - 1),
            Ok::<StmtView, ErrorView>(consequence),
        ),
        block_at(at(ts, turn)) == (at(ts, stop), Ok::<StmtView, ErrorView>(alt)),
    ensures
        head_at(at(ts, i)) == (
            at(ts, stop),
            Ok::<ExprView, ErrorView>(
                ExprView::IfExpr {
                    condition: Box::new(condition),
                    consequence: Box::new(consequence),
                    alternative: Some(Box::new(alt)),
                },
            ),
        ),
{
    lemma_at(ts, i);
    lemma_at(ts, i + 1);
    lemma_at(ts, i + 1 + nc);
    lemma_at(ts, i + 2 + nc);
    lemma_at(ts, turn - 1);
    lemma_at(ts, turn);
    lemma_at(ts, stop);
    lemma_next(ts, i, i + 2, Precedence::Lowest);
    let c = at(ts, i);
    assert(block_next(c, at(ts, i + 2 + nc)) == block_at(at(ts, i + 2 + nc)));
    assert(block_next(c, at(ts, turn)) == block_at(at(ts, turn)));
    assert(if_at(c) == (
        at(ts, stop),
        Ok::<ExprView, ErrorView>(
            ExprView::IfExpr {
                condition: Box::new(condition),
                consequence: Box::new(consequence),
                alternative: Some(Box::new(alt)),
            },
        ),
    ));
}

/// A function literal, from its parts.
pub proof fn lemma_func_step(
    ts: Seq<TokenView>,
    i: int,
    r: int,
    parameters: Seq<ExprView>,
    body: StmtView,
    stop: int,
)
    requires
        no_eof(ts),
        0 <= i < r,
        r < stop,
        i < ts.len(),
        ts[i] is Function,
        params_at(at(ts, i)) == (at(ts, r), Ok::<Seq<ExprView>, ErrorView>(parameters)),
        block_at(at(ts, r)) == (at(ts, stop), Ok::<StmtView, ErrorView>(body)),
    ensures
        head_at(at(ts, i)) == (
            at(ts, stop),
            Ok::<ExprView, ErrorView>(ExprView::FuncLiteral { parameters, body: Box::new(body) }),
        ),
{
    lemma_at(ts, i);
    lemma_at(ts, r);
    lemma_at(ts, stop);
    let c = at(ts, i);
    assert(block_next(c, at(ts, r)) == block_at(at(ts, r)));
    assert(func_at(c) == (
        at(ts, stop),
        Ok::<ExprView, ErrorView>(ExprView::FuncLiteral { parameters, body: Box::new(body) }),
    ));
}

proof fn lemma_params_empty(ts: Seq<TokenView>, i: int)
    requires
        no_eof(ts),
        0 <= i,
        i + 2 < ts.len(),
        ts[i + 1] is LParen,
        ts[i + 2] is RParen,
    ensures
        params_at(at(ts, i)) == (
            at(ts, i + 2),
            Ok::<Seq<ExprView>, ErrorView>(Seq::empty()),
        ),
{
    lemma_at(ts, i);
    lemma_at(ts, i + 1);
}

proof fn lemma_params_first(ts: Seq<TokenView>, i: int, name: Seq<char>)
    requires
        no_eof(ts),
        0 <= i,
        i + 2 < ts.len(),
        ts[i + 1] is LParen,
        ts[i + 2] == TokenView::Ident(name),
    ensures
        params_at(at(ts, i)) == params_from(at(ts, i + 2), seq![ExprView::Ident(name)]),
{
    lemma_at(ts, i);
    lemma_at(ts, i + 1);
    lemma_at(ts, i + 2);
}

proof fn lemma_params_more(ts: Seq<TokenView>, j: int, acc: Seq<ExprView>, name: Seq<char>)
    requires
        no_eof(ts),
        0 <= j,
        j + 2 < ts.len(),
        ts[j + 1] is Comma,
        ts[j + 2] == TokenView::Ident(name),
    ensures
        params_from(at(ts, j), acc) == params_from(
            at(ts, j + 2),
            acc.push(ExprView::Ident(name)),
        ),
{
    lemma_at(ts, j);
    lemma_at(ts, j + 1);
    lemma_at(ts, j + 2);
}

proof fn lemma_params_end(ts: Seq<TokenView>, j: int, acc: Seq<ExprView>)
    requires
        no_eof(ts),
        0 <= j,
        j + 1 < ts.len(),
        ts[j + 1] is RParen,
    ensures
        params_from(at(ts, j), acc) == (at(ts, j + 1), Ok::<Seq<ExprView>, ErrorView>(acc)),
{
    lemma_at(ts, j);
}

/// The parser reads the tokens of the rest of a parameter list as the rest
/// of the list, and stops at the closing parenthesis.
proof fn lemma_parse_params_from(ps: Seq<ExprView>, k: int, ts: Seq<TokenView>, j: int)
    requires
        no_eof(ts),
        stable_params(ps),
        1 <= k <= ps.len(),
        0 <= j,
        holds(ts, j + 1, tail_tokens(ps, k)),
        j + 1 + tail_tokens(ps, k).len() < ts.len(),
        ts[j + 1 + tail_tokens(ps, k).len()] is RParen,
    ensures
        params_from(at(ts, j), ps.take(k)) == (
            at(ts, j + 1 + tail_tokens(ps, k).len()),
            Ok::<Seq<ExprView>, ErrorView>(ps),
        ),
    decreases ps.len() - k,
{
    if k == ps.len() {
        lemma_params_end(ts, j, ps.take(k));
        assert(ps.take(k) =~= ps);
    } else {
        let name = ps[k]->Ident_0;
        assert(ps[k] == ExprView::Ident(name));
        let c = seq![TokenView::Comma];
        let t = expr_tokens(ps[k]);
        let r = tail_tokens(ps, k + 1);
        lemma_holds_split(ts, j + 1, c + t, r);
        lemma_holds_split(ts, j + 1, c, t);
        lemma_holds_one(ts, j + 1, TokenView::Comma);
        lemma_holds_one(ts, j + 2, TokenView::Ident(name));
        lemma_params_more(ts, j, ps.take(k), name);
        assert(ps.take(k).push(ps[k]) =~= ps.take(k + 1));
        lemma_parse_params_from(ps, k + 1, ts, j + 2);
    }
}

/// The parser reads the tokens of a parameter list as the list, where the
/// next token is the opening parenthesis.
pub proof fn lemma_parse_params(ps: Seq<ExprView>, ts: Seq<TokenView>, i: int)
    requires
        no_eof(ts),
        stable_params(ps),
        0 <= i,
        i + 1 < ts.len(),
        ts[i + 1] is LParen,
        holds(ts, i + 2, list_tokens(ps)),
        i + 2 + list_tokens(ps).len() < ts.len(),
        ts[i + 2 + list_tokens(ps).len()] is RParen,
    ensures
        params_at(at(ts, i)) == (
            at(ts, i + 2 + list_tokens(ps).len()),
            Ok::<Seq<ExprView>, ErrorView>(ps),
        ),
{
    if ps.len() == 0 {
        lemma_params_empty(ts, i);
        assert(ps =~= Seq::<ExprView>::empty());
    } else {
        let name = ps[0]->Ident_0;
        assert(ps[0] == ExprView::Ident(name));
        lemma_list_split(ps, 1);
        assert(ps.take(1).drop_last() =~= Seq::<ExprView>::empty());
        assert(ps.take(1)[0] == ps[0]);
        lemma_holds_split(ts, i + 2, expr_tokens(ps[0]), tail_tokens(ps, 1));
        lemma_holds_one(ts, i + 2, TokenView::Ident(name));
        lemma_params_first(ts, i, name);
        assert(seq![ps[0]] =~= ps.take(1));
        lemma_parse_params_from(ps, 1, ts, i + 2);
    }
}

pub proof fn lemma_layout_if(condition: ExprView, consequence: StmtView, ts: Seq<TokenView>, i: int)
    requires
        holds(
            ts,
            i,
            expr_tokens(
                ExprView::IfExpr {
                    condition: Box::new(condition),
                    consequence: Box::new(consequence),
                    alternative: None,
                },
            ),
        ),
    ensures
        expr_tokens(
            ExprView::IfExpr {
                condition: Box::new(condition),
                consequence: Box::new(consequence),
                alternative: None,
            },
        ).len() == expr_tokens(condition).len() + block_tokens(consequence).len() + 5,
        0 <= i,
        i + expr_tokens(condition).len() + block_tokens(consequence).len() + 5 <= ts.len(),
        ts[i] is If,
        ts[i + 1] is LParen,
        holds(ts, i + 2, expr_tokens(condition)),
        ts[i + 2 + expr_tokens(condition).len()] is RParen,
        ts[i + 3 + expr_tokens(condition).len()] is LBrace,
        holds(ts, i + 4 + expr_tokens(condition).len(), block_tokens(consequence)),
        ts[i + 4 + expr_tokens(condition).len() + block_tokens(consequence).len()] is RBrace,
{
    let tc = expr_tokens(condition);
    let tb = block_tokens(consequence);
    let nc = tc.len() as int;
    let nb = tb.len() as int;
    let open = seq![TokenView::If, TokenView::LParen];
    let mid = seq![TokenView::RParen, TokenView::LBrace];
    lemma_holds_split(ts, i, ((open + tc) + mid) + tb, seq![TokenView::RBrace]);
    lemma_holds_split(ts, i, (open + tc) + mid, tb);
    lemma_holds_split(ts, i, open + tc, mid);
    lemma_holds_split(ts, i, open, tc);
    lemma_holds_one(ts, i + 4 + nc + nb, TokenView::RBrace);
    assert(ts.subrange(i, i + 2)[0] == ts[i]);
    assert(ts.subrange(i, i + 2)[1] == ts[i + 1]);
    assert(ts.subrange(i + 2 + nc, i + 4 + nc)[0] == ts[i + 2 + nc]);
    assert(ts.subrange(i + 2 + nc, i + 4 + nc)[1] == ts[i + 3 + nc]);
}

pub proof fn lemma_layout_if_else(
    condition: ExprView,
    consequence: StmtView,
    alt: StmtView,
    ts: Seq<TokenView>,
    i: int,
)
    requires
        holds(
            ts,
            i,
            expr_tokens(
                ExprView::IfExpr {
                    condition: Box::new(condition),
                    consequence: Box::new(consequence),
                    alternative: Some(Box::new(alt)),
                },
            ),
        ),
    ensures
        expr_tokens(
            ExprView::IfExpr {
                condition: Box::new(condition),
                consequence: Box::new(consequence),
                alternative: Some(Box::new(alt)),
            },
        ).len() == expr_tokens(condition).len() + block_tokens(consequence).len() + block_tokens(
            alt,
        ).len() + 8,
        0 <= i,
        i + expr_tokens(condition).len() + block_tokens(consequence).len() + block_tokens(
            alt,
        ).len() + 8 <= ts.len(),
        ts[i] is If,
        ts[i + 1] is LParen,
        holds(ts, i + 2, expr_tokens(condition)),
        ts[i + 2 + expr_tokens(condition).len()] is RParen,
        ts[i + 3 + expr_tokens(condition).len()] is LBrace,
        holds(ts, i + 4 + expr_tokens(condition).len(), block_tokens(consequence)),
        ts[i + 4 + expr_tokens(condition).len() + block_tokens(consequence).len()] is RBrace,
        ts[i + 5 + expr_tokens(condition).len() + block_tokens(consequence).len()] is Else,
        ts[i + 6 + expr_tokens(condition).len() + block_tokens(consequence).len()] is LBrace,
        holds(
            ts,
            i + 7 + expr_tokens(condition).len() + block_tokens(consequence).len(),
            block_tokens(alt),
        ),
        ts[i + 7 + expr_tokens(condition).len() + block_tokens(consequence).len() + block_tokens(
            alt,
        ).len()] is RBrace,
{
    let tc = expr_tokens(condition);
    let tb = block_tokens(consequence);
    let ta = block_tokens(alt);
    let nc = tc.len() as int;
    let nb = tb.len() as int;
    let na = ta.len() as int;
    let open = seq![TokenView::If, TokenView::LParen];
    let mid = seq![TokenView::RParen, TokenView::LBrace];
    let turn = seq![TokenView::RBrace, TokenView::Else, TokenView::LBrace];
    lemma_holds_split(ts, i, ((((open + tc) + mid) + tb) + turn) + ta, seq![TokenView::RBrace]);
    lemma_holds_split(ts, i, (((open + tc) + mid) + tb) + turn, ta);
    lemma_holds_split(ts, i, ((open + tc) + mid) + tb, turn);
    lemma_holds_split(ts, i, (open + tc) + mid, tb);
    lemma_holds_split(ts, i, open + tc, mid);
    lemma_holds_split(ts, i, open, tc);
    lemma_holds_one(ts, i + 7 + nc + nb + na, TokenView::RBrace);
    assert(ts.subrange(i, i + 2)[0] == ts[i]);
    assert(ts.subrange(i, i + 2)[1] == ts[i + 1]);
    assert(ts.subrange(i + 2 + nc, i + 4 + nc)[0] == ts[i + 2 + nc]);
    assert(ts.subrange(i + 2 + nc, i + 4 + nc)[1] == ts[i + 3 + nc]);
    assert(ts.subrange(i + 4 + nc + nb, i + 7 + nc + nb)[0] == ts[i + 4 + nc + nb]);
    assert(ts.subrange(i + 4 + nc + nb, i + 7 + nc + nb)[1] == ts[i + 5 + nc + nb]);
    assert(ts.subrange(i + 4 + nc + nb, i + 7 + nc + nb)[2] == ts[i + 6 + nc + nb]);
}

pub proof fn lemma_layout_func(parameters: Seq<ExprView>, body: StmtView, ts: Seq<TokenView>, i: int)
    requires
        holds(ts, i, expr_tokens(ExprView::FuncLiteral { parameters, body: Box::new(body) })),
    ensures
        expr_tokens(ExprView::FuncLiteral { parameters, body: Box::new(body) }).len()
            == list_tokens(parameters).len() + block_tokens(body).len() + 5,
        0 <= i,
        i + list_tokens(parameters).len() + block_tokens(body).len() + 5 <= ts.len(),
        ts[i] is Function,
        ts[i + 1] is LParen,
        holds(ts, i + 2, list_tokens(parameters)),
        ts[i + 2 + list_tokens(parameters).len()] is RParen,
        ts[i + 3 + list_tokens(parameters).len()] is LBrace,
        holds(ts, i + 4 + list_tokens(parameters).len(), block_tokens(body)),
        ts[i + 4 + list_tokens(parameters).len() + block_tokens(body).len()] is RBrace,
{
    let tp = list_tokens(parameters);
    let tb = block_tokens(body);
    let np = tp.len() as int;
    let nb = tb.len() as int;
    let open = seq![TokenView::Function, TokenView::LParen];
    let mid = seq![TokenView::RParen, TokenView::LBrace];
    lemma_holds_split(ts, i, ((open + tp) + mid) + tb, seq![TokenView::RBrace]);
    lemma_holds_split(ts, i, (open + tp) + mid, tb);
    lemma_holds_split(ts, i, open + tp, mid);
    lemma_holds_split(ts, i, open, tp);
    lemma_holds_one(ts, i + 4 + np + nb, TokenView::RBrace);
    assert(ts.subrange(i, i + 2)[0] == ts[i]);
    assert(ts.subrange(i, i + 2)[1] == ts[i + 1]);
    assert(ts.subrange(i + 2 + np, i + 4 + np)[0] == ts[i + 2 + np]);
    assert(ts.subrange(i + 2 + np, i + 4 + np)[1] == ts[i + 3 + np]);
}

} // verus!
