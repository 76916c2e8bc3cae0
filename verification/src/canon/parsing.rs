//! The parser reads the tokens of an expression, a statement, a block or a
//! program as that expression, statement, block or program.

use crate::ast::{ExprView, StmtView};
use crate::canon::{
    all_stable,
    begins_plainly,
    block_tokens,
    expr_tokens,
    infix_token,
    lemma_assoc,
    lemma_stable_index,
    list_tokens,
    pair_tokens,
    pairs_tokens,
    plain_start,
    prefix_token,
    program_tokens,
    stable_block,
    stable_expr,
    stable_list,
    stable_pairs,
    stable_params,
    stable_stmt,
    stmt_tokens,
};
use crate::canon::blocks::{
    lemma_block_end,
    lemma_block_more,
    lemma_block_step,
    lemma_func_step,
    lemma_if_else_step,
    lemma_if_step,
    lemma_layout_func,
    lemma_layout_if,
    lemma_layout_if_else,
    lemma_parse_params,
    lemma_program_end,
    lemma_program_more,
};
use crate::error::ErrorView;
use crate::operator::{Infix, Precedence, Prefix};
use crate::parser::{
    Cursor,
    array_at,
    block_at,
    block_from,
    call_at,
    expr_at,
    expr_next,
    expr_stmt_at,
    group_at,
    hash_at,
    hash_from,
    head_at,
    index_at,
    infix_at,
    infix_from,
    infix_of,
    let_at,
    list_at,
    list_from,
    prefix_at,
    prefix_of,
    program_from,
    return_at,
    start,
    stmt_at,
};
use crate::token::{TokenView, precedence_of};
use vstd::prelude::*;

verus! {

/// The token at index `i` of `ts`, or `Eof` beyond the end.
pub open spec fn token_or_eof(ts: Seq<TokenView>, i: int) -> TokenView {
    if 0 <= i < ts.len() {
        ts[i]
    } else {
        TokenView::Eof
    }
}

/// The cursor whose current token is the one at index `i` of `ts`.
pub open spec fn at(ts: Seq<TokenView>, i: int) -> Cursor {
    Cursor {
        cur: token_or_eof(ts, i),
        peek: token_or_eof(ts, i + 1),
        rest: if 0 <= i + 2 <= ts.len() {
            ts.skip(i + 2)
        } else {
            Seq::empty()
        },
    }
}

/// Tokens among which there is no `Eof`.
pub open spec fn no_eof(ts: Seq<TokenView>) -> bool {
    forall|i: int| 0 <= i < ts.len() ==> !(#[trigger] ts[i] is Eof)
}

/// Whether `ts` holds the tokens `sub` from index `i` on.
pub open spec fn holds(ts: Seq<TokenView>, i: int, sub: Seq<TokenView>) -> bool {
    0 <= i && i + sub.len() <= ts.len() && ts.subrange(i, i + sub.len()) == sub
}

/// A cursor on tokens without `Eof` is well-formed; moving it on takes it
/// to the next index, and its budget is the number of tokens left.
pub proof fn lemma_at(ts: Seq<TokenView>, i: int)
    requires
        no_eof(ts),
        0 <= i,
    ensures
        at(ts, i).wf(),
        at(ts, i).advance() == at(ts, i + 1),
        at(ts, i).budget() == if i < ts.len() {
            ts.len() - i
        } else {
            0
        },
{
    reveal(Cursor::wf);
    reveal(Cursor::budget);
    let c = at(ts, i);
    if i + 2 <= ts.len() {
        assert forall|j: int| 0 <= j < c.rest.len() implies !(#[trigger] c.rest[j] is Eof) by {
            assert(c.rest[j] == ts[i + 2 + j]);
        }
        if i + 2 < ts.len() {
            assert(c.rest[0] == ts[i + 2]);
            assert(c.rest.drop_first() =~= ts.skip(i + 3));
        } else {
            assert(c.rest =~= Seq::<TokenView>::empty());
        }
    }
    assert(at(ts, i).advance().rest =~= at(ts, i + 1).rest);
}

/// A parser starts at index 0 of its tokens.
pub proof fn lemma_start_at(ts: Seq<TokenView>)
    ensures
        start(ts) == at(ts, 0),
{
    let c0 = Cursor {
        cur: TokenView::Illegal(seq!['\0']),
        peek: TokenView::Illegal(seq!['\0']),
        rest: ts,
    };
    let c1 = c0.advance();
    let c2 = c1.advance();
    if ts.len() > 0 {
        assert(c1.rest == ts.drop_first());
        if ts.len() > 1 {
            assert(c1.rest[0] == ts[1]);
            assert(c2.rest =~= ts.skip(2));
        } else {
            assert(c2.rest =~= Seq::<TokenView>::empty());
        }
    }
    assert(c2.rest =~= at(ts, 0).rest);
}

/// Where `ts` holds two runs of tokens joined, it holds the one and then
/// the other.
pub proof fn lemma_holds_split(ts: Seq<TokenView>, i: int, a: Seq<TokenView>, b: Seq<TokenView>)
    requires
        holds(ts, i, a + b),
    ensures
        holds(ts, i, a),
        holds(ts, i + a.len(), b),
{
    let ab = a + b;
    let sub = ts.subrange(i, i + ab.len());
    assert(ts.subrange(i, i + a.len()) =~= sub.subrange(0, a.len() as int));
    assert(ab.subrange(0, a.len() as int) =~= a);
    assert(ts.subrange(i + a.len(), i + a.len() + b.len()) =~= sub.subrange(
        a.len() as int,
        ab.len() as int,
    ));
    assert(ab.subrange(a.len() as int, ab.len() as int) =~= b);
}

/// Where `ts` holds one token at an index, that is the token at the index.
pub proof fn lemma_holds_one(ts: Seq<TokenView>, i: int, t: TokenView)
    requires
        holds(ts, i, seq![t]),
    ensures
        0 <= i < ts.len(),
        ts[i] == t,
{
    assert(ts.subrange(i, i + 1)[0] == ts[i]);
}

/// The loop that extends an expression ends where the next token does not
/// bind more tightly than the bound.
pub proof fn lemma_infix_stop(c: Cursor, left: ExprView, precedence: Precedence)
    requires
        precedence_of(c.peek).order() <= precedence.order(),
    ensures
        infix_from(c, left, precedence) == (c, Ok::<ExprView, ErrorView>(left)),
{
}

/// An expression is its head, extended to the right.
pub proof fn lemma_expr_of_head(ts: Seq<TokenView>, i: int, k: int, e: ExprView, precedence: Precedence)
    requires
        no_eof(ts),
        0 <= i <= k,
        head_at(at(ts, i)) == (at(ts, k), Ok::<ExprView, ErrorView>(e)),
    ensures
        expr_at(at(ts, i), precedence) == infix_from(at(ts, k), e, precedence),
{
    lemma_at(ts, i);
    lemma_at(ts, k);
}

/// The expression after a token that is not `Eof`.
pub proof fn lemma_next(ts: Seq<TokenView>, i: int, j: int, precedence: Precedence)
    requires
        no_eof(ts),
        0 <= i < j,
        i < ts.len(),
    ensures
        expr_next(at(ts, i), at(ts, j), precedence) == expr_at(at(ts, j), precedence),
{
    lemma_at(ts, i);
    lemma_at(ts, j);
}

/// A token with which the canonical text of an expression can start.
pub open spec fn opens(t: TokenView) -> bool {
    t is Ident || t is String || t is Int || t is True || t is False || t is LParen || t
        is LBracket || t is LBrace || t is If || t is Function
}

/// A token with which the canonical text of a statement can start.
pub open spec fn starts(t: TokenView) -> bool {
    opens(t) || t is Let || t is Return
}

/// Whether a token can follow an expression that is parsed up to the bound
/// `precedence`: it does not bind more tightly, and it is no `else`.
pub open spec fn ends(t: TokenView, precedence: Precedence) -> bool {
    precedence_of(t).order() <= precedence.order() && !(t is Else)
}

/// A token with which the canonical text of an expression can end.
pub open spec fn closes(t: TokenView) -> bool {
    t is Ident || t is String || t is Int || t is True || t is False || t is RParen || t
        is RBracket || t is RBrace
}

/// The tokens of an expression start and end with tokens of a few kinds.
pub proof fn lemma_tokens_shape(e: ExprView)
    requires
        stable_expr(e),
    ensures
        expr_tokens(e).len() > 0,
        opens(expr_tokens(e)[0]),
        closes(expr_tokens(e).last()),
    decreases e,
{
    match e {
        ExprView::CallExpr { function, args } => {
            lemma_tokens_shape(*function);
        },
        ExprView::IfExpr { condition, consequence, alternative } => {
            let open = seq![TokenView::If, TokenView::LParen];
            assert((open + expr_tokens(*condition))[0] == TokenView::If);
        },
        ExprView::FuncLiteral { parameters, body } => {
            let open = seq![TokenView::Function, TokenView::LParen];
            assert((open + list_tokens(parameters))[0] == TokenView::Function);
        },
        _ => {},
    }
}

proof fn lemma_group_head(ts: Seq<TokenView>, i: int, k: int, e: ExprView)
    requires
        no_eof(ts),
        0 <= i < k,
        k + 1 < ts.len(),
        ts[i] is LParen,
        ts[k + 1] is RParen,
        expr_at(at(ts, i + 1), Precedence::Lowest) == (at(ts, k), Ok::<ExprView, ErrorView>(e)),
    ensures
        head_at(at(ts, i)) == (at(ts, k + 1), Ok::<ExprView, ErrorView>(e)),
{
    lemma_at(ts, i);
    lemma_at(ts, k);
    lemma_next(ts, i, i + 1, Precedence::Lowest);
    let c = at(ts, i);
    assert(group_at(c) == (at(ts, k + 1), Ok::<ExprView, ErrorView>(e)));
}

proof fn lemma_prefix_head(ts: Seq<TokenView>, i: int, k: int, op: Prefix, right: ExprView)
    requires
        no_eof(ts),
        0 <= i < k,
        i < ts.len(),
        ts[i] == prefix_token(op),
        expr_at(at(ts, i + 1), Precedence::Prefix) == (
            at(ts, k),
            Ok::<ExprView, ErrorView>(right),
        ),
    ensures
        head_at(at(ts, i)) == (
            at(ts, k),
            Ok::<ExprView, ErrorView>(ExprView::PrefixExpr { op, right: Box::new(right) }),
        ),
{
    lemma_at(ts, i);
    lemma_next(ts, i, i + 1, Precedence::Prefix);
    let c = at(ts, i);
    assert(prefix_of(c.cur) == Some(op));
    assert(prefix_at(c) == (
        at(ts, k),
        Ok::<ExprView, ErrorView>(ExprView::PrefixExpr { op, right: Box::new(right) }),
    ));
}

proof fn lemma_infix_step(
    ts: Seq<TokenView>,
    k: int,
    left: ExprView,
    op: Infix,
    j: int,
    right: ExprView,
    precedence: Precedence,
)
    requires
        no_eof(ts),
        0 <= k,
        k + 1 < ts.len(),
        k + 2 <= j,
        !(ts[k] is Semicolon),
        ts[k + 1] == infix_token(op),
        precedence.order() <= Precedence::Prefix.order(),
        precedence.order() < precedence_of(infix_token(op)).order(),
        expr_at(at(ts, k + 2), precedence_of(infix_token(op))) == (
            at(ts, j),
            Ok::<ExprView, ErrorView>(right),
        ),
    ensures
        infix_from(at(ts, k), left, precedence) == infix_from(
            at(ts, j),
            ExprView::InfixExpr { left: Box::new(left), right: Box::new(right), op },
            precedence,
        ),
{
    lemma_at(ts, k);
    lemma_at(ts, k + 1);
    lemma_at(ts, j);
    lemma_next(ts, k + 1, k + 2, precedence_of(infix_token(op)));
    let c1 = at(ts, k + 1);
    assert(infix_of(c1.cur) == Some(op));
    assert(infix_at(c1, left) == (
        at(ts, j),
        Ok::<ExprView, ErrorView>(
            ExprView::InfixExpr { left: Box::new(left), right: Box::new(right), op },
        ),
    ));
}

proof fn lemma_index_step(
    ts: Seq<TokenView>,
    k: int,
    left: ExprView,
    j: int,
    index: ExprView,
    precedence: Precedence,
)
    requires
        no_eof(ts),
        0 <= k,
        k + 2 <= j,
        j + 1 < ts.len(),
        !(ts[k] is Semicolon),
        ts[k + 1] is LBracket,
        ts[j + 1] is RBracket,
        precedence.order() <= Precedence::Prefix.order(),
        expr_at(at(ts, k + 2), Precedence::Lowest) == (
            at(ts, j),
            Ok::<ExprView, ErrorView>(index),
        ),
    ensures
        infix_from(at(ts, k), left, precedence) == infix_from(
            at(ts, j + 1),
            ExprView::IndexExpr { left: Box::new(left), index: Box::new(index) },
            precedence,
        ),
{
    lemma_at(ts, k);
    lemma_at(ts, k + 1);
    lemma_at(ts, j);
    lemma_at(ts, j + 1);
    lemma_next(ts, k + 1, k + 2, Precedence::Lowest);
    let c1 = at(ts, k + 1);
    assert(index_at(c1, left) == (
        at(ts, j + 1),
        Ok::<ExprView, ErrorView>(
            ExprView::IndexExpr { left: Box::new(left), index: Box::new(index) },
        ),
    ));
}

proof fn lemma_call_step(
    ts: Seq<TokenView>,
    k: int,
    function: ExprView,
    j: int,
    args: Seq<ExprView>,
    precedence: Precedence,
)
    requires
        no_eof(ts),
        0 <= k,
        k + 1 < j,
        k + 1 < ts.len(),
        !(ts[k] is Semicolon),
        ts[k + 1] is LParen,
        precedence.order() <= Precedence::Prefix.order(),
        list_at(at(ts, k + 1), TokenView::RParen) == (
            at(ts, j),
            Ok::<Seq<ExprView>, ErrorView>(args),
        ),
    ensures
        infix_from(at(ts, k), function, precedence) == infix_from(
            at(ts, j),
            ExprView::CallExpr { function: Box::new(function), args },
            precedence,
        ),
{
    lemma_at(ts, k);
    lemma_at(ts, k + 1);
    lemma_at(ts, j);
    let c1 = at(ts, k + 1);
    assert(call_at(c1, function) == (
        at(ts, j),
        Ok::<ExprView, ErrorView>(ExprView::CallExpr { function: Box::new(function), args }),
    ));
}

proof fn lemma_array_head(ts: Seq<TokenView>, i: int, j: int, elements: Seq<ExprView>)
    requires
        no_eof(ts),
        0 <= i < ts.len(),
        ts[i] is LBracket,
        list_at(at(ts, i), TokenView::RBracket) == (
            at(ts, j),
            Ok::<Seq<ExprView>, ErrorView>(elements),
        ),
    ensures
        head_at(at(ts, i)) == (
            at(ts, j),
            Ok::<ExprView, ErrorView>(ExprView::ArrayLiteral { elements }),
        ),
{
    let c = at(ts, i);
    assert(array_at(c) == (
        at(ts, j),
        Ok::<ExprView, ErrorView>(ExprView::ArrayLiteral { elements }),
    ));
}

proof fn lemma_list_empty(ts: Seq<TokenView>, i: int, end: TokenView)
    requires
        no_eof(ts),
        0 <= i,
        i + 1 < ts.len(),
        ts[i + 1] == end,
    ensures
        list_at(at(ts, i), end) == (
            at(ts, i + 1),
            Ok::<Seq<ExprView>, ErrorView>(Seq::empty()),
        ),
{
    lemma_at(ts, i);
}

proof fn lemma_list_first(ts: Seq<TokenView>, i: int, j: int, first: ExprView, end: TokenView)
    requires
        no_eof(ts),
        0 <= i < j,
        i + 1 < ts.len(),
        ts[i + 1] != end,
        expr_at(at(ts, i + 1), Precedence::Lowest) == (
            at(ts, j),
            Ok::<ExprView, ErrorView>(first),
        ),
    ensures
        list_at(at(ts, i), end) == list_from(at(ts, j), seq![first], end),
{
    lemma_at(ts, i);
    lemma_at(ts, j);
    lemma_next(ts, i, i + 1, Precedence::Lowest);
}

proof fn lemma_list_more(
    ts: Seq<TokenView>,
    j: int,
    acc: Seq<ExprView>,
    m: int,
    arg: ExprView,
    end: TokenView,
)
    requires
        no_eof(ts),
        0 <= j,
        j + 2 <= m,
        j + 1 < ts.len(),
        ts[j + 1] is Comma,
        expr_at(at(ts, j + 2), Precedence::Lowest) == (at(ts, m), Ok::<ExprView, ErrorView>(arg)),
    ensures
        list_from(at(ts, j), acc, end) == list_from(at(ts, m), acc.push(arg), end),
{
    lemma_at(ts, j);
    lemma_at(ts, j + 1);
    lemma_at(ts, m);
    lemma_next(ts, j, j + 2, Precedence::Lowest);
}

proof fn lemma_list_end(ts: Seq<TokenView>, j: int, acc: Seq<ExprView>, end: TokenView)
    requires
        no_eof(ts),
        0 <= j,
        j + 1 < ts.len(),
        ts[j + 1] == end,
        !(end is Comma),
    ensures
        list_from(at(ts, j), acc, end) == (at(ts, j + 1), Ok::<Seq<ExprView>, ErrorView>(acc)),
{
    lemma_at(ts, j);
}

/// The tokens of the expressions of a list from index `k` on, each after a
/// comma.
pub open spec fn tail_tokens(es: Seq<ExprView>, k: int) -> Seq<TokenView>
    decreases es.len() - k,
{
    if k < 0 || k >= es.len() {
        Seq::empty()
    } else {
        seq![TokenView::Comma] + expr_tokens(es[k]) + tail_tokens(es, k + 1)
    }
}

/// The tokens of a list are those of its first `k` expressions and then
/// those of the rest.
pub proof fn lemma_list_split(es: Seq<ExprView>, k: int)
    requires
        1 <= k <= es.len(),
    ensures
        list_tokens(es) == list_tokens(es.take(k)) + tail_tokens(es, k),
    decreases es.len() - k,
{
    if k == es.len() {
        assert(es.take(k) =~= es);
        assert(list_tokens(es) + tail_tokens(es, k) =~= list_tokens(es));
    } else {
        lemma_list_split(es, k + 1);
        let longer = es.take(k + 1);
        assert(longer.drop_last() =~= es.take(k));
        assert(longer.last() == es[k]);
        let a = list_tokens(es.take(k));
        let c = seq![TokenView::Comma];
        let t = expr_tokens(es[k]);
        let r = tail_tokens(es, k + 1);
        assert(list_tokens(longer) == (a + c) + t);
        assert(tail_tokens(es, k) == (c + t) + r);
        lemma_assoc(a + c, t, r);
        lemma_assoc(a, c, t + r);
        lemma_assoc(c, t, r);
        lemma_assoc(a, c + t, r);
    }
}

/// The token after the expression at index `k` of a list: a comma, or the
/// token that ends the list.
proof fn lemma_after_element(
    ts: Seq<TokenView>,
    es: Seq<ExprView>,
    k: int,
    from: int,
    end: TokenView,
)
    requires
        0 <= k < es.len(),
        holds(ts, from, tail_tokens(es, k + 1)),
        from + tail_tokens(es, k + 1).len() < ts.len(),
        ts[from + tail_tokens(es, k + 1).len()] == end,
        end is RParen || end is RBracket,
    ensures
        ends(ts[from], Precedence::Lowest),
{
    if k + 1 < es.len() {
        let c = seq![TokenView::Comma];
        let t = expr_tokens(es[k + 1]);
        let r = tail_tokens(es, k + 2);
        lemma_assoc(c, t, r);
        lemma_holds_split(ts, from, c, t + r);
        lemma_holds_one(ts, from, TokenView::Comma);
    }
}

proof fn lemma_layout_prefix(op: Prefix, right: ExprView, ts: Seq<TokenView>, i: int)
    requires
        stable_expr(right),
        holds(ts, i, expr_tokens(ExprView::PrefixExpr { op, right: Box::new(right) })),
    ensures
        expr_tokens(ExprView::PrefixExpr { op, right: Box::new(right) }).len() == expr_tokens(
            right,
        ).len() + 3,
        0 <= i,
        i + expr_tokens(right).len() + 3 <= ts.len(),
        ts[i] is LParen,
        ts[i + 1] == prefix_token(op),
        holds(ts, i + 2, expr_tokens(right)),
        ts[i + 2 + expr_tokens(right).len()] is RParen,
{
    let tr = expr_tokens(right);
    let nr = tr.len() as int;
    let a = seq![TokenView::LParen, prefix_token(op)];
    lemma_holds_split(ts, i, a + tr, seq![TokenView::RParen]);
    lemma_holds_split(ts, i, a, tr);
    lemma_holds_one(ts, i + 2 + nr, TokenView::RParen);
    assert(ts.subrange(i, i + 2)[0] == ts[i]);
    assert(ts.subrange(i, i + 2)[1] == ts[i + 1]);
}

proof fn lemma_build_prefix(
    op: Prefix,
    right: ExprView,
    ts: Seq<TokenView>,
    i: int,
    precedence: Precedence,
)
    requires
        no_eof(ts),
        0 <= i,
        i + expr_tokens(right).len() + 3 <= ts.len(),
        expr_tokens(right).len() > 0,
        ts[i] is LParen,
        ts[i + 1] == prefix_token(op),
        ts[i + 2 + expr_tokens(right).len()] is RParen,
        expr_at(at(ts, i + 2), Precedence::Prefix) == (
            at(ts, i + 1 + expr_tokens(right).len()),
            Ok::<ExprView, ErrorView>(right),
        ),
    ensures
        expr_at(at(ts, i), precedence) == infix_from(
            at(ts, i + 2 + expr_tokens(right).len()),
            ExprView::PrefixExpr { op, right: Box::new(right) },
            precedence,
        ),
{
    let e = ExprView::PrefixExpr { op, right: Box::new(right) };
    let nr = expr_tokens(right).len() as int;
    lemma_prefix_head(ts, i + 1, i + 1 + nr, op, right);
    lemma_expr_of_head(ts, i + 1, i + 1 + nr, e, Precedence::Lowest);
    lemma_infix_stop(at(ts, i + 1 + nr), e, Precedence::Lowest);
    lemma_group_head(ts, i, i + 1 + nr, e);
    lemma_expr_of_head(ts, i, i + 2 + nr, e, precedence);
}

proof fn lemma_layout_binary(
    left: ExprView,
    right: ExprView,
    op: Infix,
    ts: Seq<TokenView>,
    i: int,
)
    requires
        stable_expr(left),
        stable_expr(right),
        holds(
            ts,
            i,
            expr_tokens(ExprView::InfixExpr { left: Box::new(left), right: Box::new(right), op }),
        ),
    ensures
        expr_tokens(
            ExprView::InfixExpr { left: Box::new(left), right: Box::new(right), op },
        ).len() == expr_tokens(left).len() + expr_tokens(right).len() + 3,
        0 <= i,
        i + expr_tokens(left).len() + expr_tokens(right).len() + 3 <= ts.len(),
        expr_tokens(left).len() > 0,
        ts[i] is LParen,
        holds(ts, i + 1, expr_tokens(left)),
        closes(ts[i + expr_tokens(left).len()]),
        ts[i + 1 + expr_tokens(left).len()] == infix_token(op),
        holds(ts, i + 2 + expr_tokens(left).len(), expr_tokens(right)),
        ts[i + 2 + expr_tokens(left).len() + expr_tokens(right).len()] is RParen,
{
    let tl = expr_tokens(left);
    let tr = expr_tokens(right);
    let nl = tl.len() as int;
    let nr = tr.len() as int;
    let lp = seq![TokenView::LParen];
    let o = seq![infix_token(op)];
    lemma_holds_split(ts, i, ((lp + tl) + o) + tr, seq![TokenView::RParen]);
    lemma_holds_split(ts, i, (lp + tl) + o, tr);
    lemma_holds_split(ts, i, lp + tl, o);
    lemma_holds_split(ts, i, lp, tl);
    lemma_holds_one(ts, i, TokenView::LParen);
    lemma_holds_one(ts, i + 1 + nl, infix_token(op));
    lemma_holds_one(ts, i + 2 + nl + nr, TokenView::RParen);
    lemma_tokens_shape(left);
    assert(ts.subrange(i + 1, i + 1 + nl)[nl - 1] == ts[i + nl]);
}

proof fn lemma_build_binary(
    left: ExprView,
    right: ExprView,
    op: Infix,
    ts: Seq<TokenView>,
    i: int,
    precedence: Precedence,
)
    requires
        no_eof(ts),
        0 <= i,
        i + expr_tokens(left).len() + expr_tokens(right).len() + 3 <= ts.len(),
        expr_tokens(left).len() > 0,
        expr_tokens(right).len() > 0,
        ts[i] is LParen,
        closes(ts[i + expr_tokens(left).len()]),
        ts[i + 1 + expr_tokens(left).len()] == infix_token(op),
        ts[i + 2 + expr_tokens(left).len() + expr_tokens(right).len()] is RParen,
        expr_at(at(ts, i + 1), Precedence::Lowest) == infix_from(
            at(ts, i + expr_tokens(left).len()),
            left,
            Precedence::Lowest,
        ),
        expr_at(at(ts, i + 2 + expr_tokens(left).len()), precedence_of(infix_token(op))) == (
            at(ts, i + 1 + expr_tokens(left).len() + expr_tokens(right).len()),
            Ok::<ExprView, ErrorView>(right),
        ),
    ensures
        expr_at(at(ts, i), precedence) == infix_from(
            at(ts, i + 2 + expr_tokens(left).len() + expr_tokens(right).len()),
            ExprView::InfixExpr { left: Box::new(left), right: Box::new(right), op },
            precedence,
        ),
{
    let e = ExprView::InfixExpr { left: Box::new(left), right: Box::new(right), op };
    let nl = expr_tokens(left).len() as int;
    let nr = expr_tokens(right).len() as int;
    lemma_infix_step(ts, i + nl, left, op, i + 1 + nl + nr, right, Precedence::Lowest);
    lemma_infix_stop(at(ts, i + 1 + nl + nr), e, Precedence::Lowest);
    lemma_group_head(ts, i, i + 1 + nl + nr, e);
    lemma_expr_of_head(ts, i, i + 2 + nl + nr, e, precedence);
}

proof fn lemma_layout_index(left: ExprView, index: ExprView, ts: Seq<TokenView>, i: int)
    requires
        stable_expr(left),
        stable_expr(index),
        holds(
            ts,
            i,
            expr_tokens(ExprView::IndexExpr { left: Box::new(left), index: Box::new(index) }),
        ),
    ensures
        expr_tokens(
            ExprView::IndexExpr { left: Box::new(left), index: Box::new(index) },
        ).len() == expr_tokens(left).len() + expr_tokens(index).len() + 4,
        0 <= i,
        i + expr_tokens(left).len() + expr_tokens(index).len() + 4 <= ts.len(),
        expr_tokens(left).len() > 0,
        ts[i] is LParen,
        holds(ts, i + 1, expr_tokens(left)),
        closes(ts[i + expr_tokens(left).len()]),
        ts[i + 1 + expr_tokens(left).len()] is LBracket,
        holds(ts, i + 2 + expr_tokens(left).len(), expr_tokens(index)),
        ts[i + 2 + expr_tokens(left).len() + expr_tokens(index).len()] is RBracket,
        ts[i + 3 + expr_tokens(left).len() + expr_tokens(index).len()] is RParen,
{
    let tl = expr_tokens(left);
    let ti = expr_tokens(index);
    let nl = tl.len() as int;
    let ni = ti.len() as int;
    let lp = seq![TokenView::LParen];
    let lb = seq![TokenView::LBracket];
    let close = seq![TokenView::RBracket, TokenView::RParen];
    lemma_holds_split(ts, i, ((lp + tl) + lb) + ti, close);
    lemma_holds_split(ts, i, (lp + tl) + lb, ti);
    lemma_holds_split(ts, i, lp + tl, lb);
    lemma_holds_split(ts, i, lp, tl);
    lemma_holds_one(ts, i, TokenView::LParen);
    lemma_holds_one(ts, i + 1 + nl, TokenView::LBracket);
    assert(ts.subrange(i + 2 + nl + ni, i + 4 + nl + ni)[0] == ts[i + 2 + nl + ni]);
    assert(ts.subrange(i + 2 + nl + ni, i + 4 + nl + ni)[1] == ts[i + 3 + nl + ni]);
    lemma_tokens_shape(left);
    assert(ts.subrange(i + 1, i + 1 + nl)[nl - 1] == ts[i + nl]);
}

proof fn lemma_build_index(
    left: ExprView,
    index: ExprView,
    ts: Seq<TokenView>,
    i: int,
    precedence: Precedence,
)
    requires
        no_eof(ts),
        0 <= i,
        i + expr_tokens(left).len() + expr_tokens(index).len() + 4 <= ts.len(),
        expr_tokens(left).len() > 0,
        expr_tokens(index).len() > 0,
        ts[i] is LParen,
        closes(ts[i + expr_tokens(left).len()]),
        ts[i + 1 + expr_tokens(left).len()] is LBracket,
        ts[i + 2 + expr_tokens(left).len() + expr_tokens(index).len()] is RBracket,
        ts[i + 3 + expr_tokens(left).len() + expr_tokens(index).len()] is RParen,
        expr_at(at(ts, i + 1), Precedence::Lowest) == infix_from(
            at(ts, i + expr_tokens(left).len()),
            left,
            Precedence::Lowest,
        ),
        expr_at(at(ts, i + 2 + expr_tokens(left).len()), Precedence::Lowest) == (
            at(ts, i + 1 + expr_tokens(left).len() + expr_tokens(index).len()),
            Ok::<ExprView, ErrorView>(index),
        ),
    ensures
        expr_at(at(ts, i), precedence) == infix_from(
            at(ts, i + 3 + expr_tokens(left).len() + expr_tokens(index).len()),
            ExprView::IndexExpr { left: Box::new(left), index: Box::new(index) },
            precedence,
        ),
{
    let e = ExprView::IndexExpr { left: Box::new(left), index: Box::new(index) };
    let nl = expr_tokens(left).len() as int;
    let ni = expr_tokens(index).len() as int;
    lemma_index_step(ts, i + nl, left, i + 1 + nl + ni, index, Precedence::Lowest);
    lemma_infix_stop(at(ts, i + 2 + nl + ni), e, Precedence::Lowest);
    lemma_group_head(ts, i, i + 2 + nl + ni, e);
    lemma_expr_of_head(ts, i, i + 3 + nl + ni, e, precedence);
}

proof fn lemma_layout_call(function: ExprView, args: Seq<ExprView>, ts: Seq<TokenView>, i: int)
    requires
        stable_expr(function),
        holds(ts, i, expr_tokens(ExprView::CallExpr { function: Box::new(function), args })),
    ensures
        expr_tokens(ExprView::CallExpr { function: Box::new(function), args }).len()
            == expr_tokens(function).len() + list_tokens(args).len() + 2,
        0 <= i,
        i + expr_tokens(function).len() + list_tokens(args).len() + 2 <= ts.len(),
        expr_tokens(function).len() > 0,
        holds(ts, i, expr_tokens(function)),
        closes(ts[i + expr_tokens(function).len() - 1]),
        ts[i + expr_tokens(function).len()] is LParen,
        holds(ts, i + expr_tokens(function).len() + 1, list_tokens(args)),
        ts[i + expr_tokens(function).len() + 1 + list_tokens(args).len()] == TokenView::RParen,
{
    let tf = expr_tokens(function);
    let ta = list_tokens(args);
    let nf = tf.len() as int;
    let na = ta.len() as int;
    let lp = seq![TokenView::LParen];
    lemma_holds_split(ts, i, (tf + lp) + ta, seq![TokenView::RParen]);
    lemma_holds_split(ts, i, tf + lp, ta);
    lemma_holds_split(ts, i, tf, lp);
    lemma_holds_one(ts, i + nf, TokenView::LParen);
    lemma_holds_one(ts, i + nf + 1 + na, TokenView::RParen);
    lemma_tokens_shape(function);
    assert(ts.subrange(i, i + nf)[nf - 1] == ts[i + nf - 1]);
}

proof fn lemma_layout_array(elements: Seq<ExprView>, ts: Seq<TokenView>, i: int)
    requires
        holds(ts, i, expr_tokens(ExprView::ArrayLiteral { elements })),
    ensures
        expr_tokens(ExprView::ArrayLiteral { elements }).len() == list_tokens(elements).len()
            + 2,
        0 <= i,
        i + list_tokens(elements).len() + 2 <= ts.len(),
        ts[i] is LBracket,
        holds(ts, i + 1, list_tokens(elements)),
        ts[i + 1 + list_tokens(elements).len()] == TokenView::RBracket,
{
    let ta = list_tokens(elements);
    let na = ta.len() as int;
    let lb = seq![TokenView::LBracket];
    lemma_holds_split(ts, i, lb + ta, seq![TokenView::RBracket]);
    lemma_holds_split(ts, i, lb, ta);
    lemma_holds_one(ts, i, TokenView::LBracket);
    lemma_holds_one(ts, i + 1 + na, TokenView::RBracket);
}

proof fn lemma_parse_atom(e: ExprView, ts: Seq<TokenView>, i: int, precedence: Precedence)
    requires
        no_eof(ts),
        stable_expr(e),
        e is Ident || e is String || e is Int || e is Boolean,
        holds(ts, i, expr_tokens(e)),
    ensures
        expr_at(at(ts, i), precedence) == infix_from(at(ts, i), e, precedence),
{
    lemma_holds_one(ts, i, expr_tokens(e)[0]);
    assert(head_at(at(ts, i)) == (at(ts, i), Ok::<ExprView, ErrorView>(e)));
    lemma_expr_of_head(ts, i, i, e, precedence);
}

proof fn lemma_parse_prefix(
    op: Prefix,
    right: ExprView,
    ts: Seq<TokenView>,
    i: int,
    precedence: Precedence,
)
    requires
        no_eof(ts),
        stable_expr(right),
        holds(ts, i, expr_tokens(ExprView::PrefixExpr { op, right: Box::new(right) })),
        precedence.order() <= Precedence::Prefix.order(),
    ensures
        expr_at(at(ts, i), precedence) == infix_from(
            at(ts, i + 2 + expr_tokens(right).len()),
            ExprView::PrefixExpr { op, right: Box::new(right) },
            precedence,
        ),
    decreases right, 2nat, 0nat,
{
    lemma_layout_prefix(op, right, ts, i);
    lemma_tokens_shape(right);
    lemma_parse_expr_stop(right, ts, i + 2, Precedence::Prefix);
    lemma_build_prefix(op, right, ts, i, precedence);
}

proof fn lemma_parse_binary(
    left: ExprView,
    right: ExprView,
    op: Infix,
    ts: Seq<TokenView>,
    i: int,
    precedence: Precedence,
)
    requires
        no_eof(ts),
        stable_expr(left),
        stable_expr(right),
        holds(
            ts,
            i,
            expr_tokens(ExprView::InfixExpr { left: Box::new(left), right: Box::new(right), op }),
        ),
        precedence.order() <= Precedence::Prefix.order(),
    ensures
        expr_at(at(ts, i), precedence) == infix_from(
            at(ts, i + 2 + expr_tokens(left).len() + expr_tokens(right).len()),
            ExprView::InfixExpr { left: Box::new(left), right: Box::new(right), op },
            precedence,
        ),
    decreases (ExprView::InfixExpr { left: Box::new(left), right: Box::new(right), op }), 0nat, 0nat,
{
    lemma_layout_binary(left, right, op, ts, i);
    lemma_tokens_shape(right);
    lemma_parse_expr(left, ts, i + 1, Precedence::Lowest);
    lemma_parse_expr_stop(
        right,
        ts,
        i + 2 + expr_tokens(left).len(),
        precedence_of(infix_token(op)),
    );
    lemma_build_binary(left, right, op, ts, i, precedence);
}

proof fn lemma_parse_index(
    left: ExprView,
    index: ExprView,
    ts: Seq<TokenView>,
    i: int,
    precedence: Precedence,
)
    requires
        no_eof(ts),
        stable_expr(left),
        stable_expr(index),
        holds(
            ts,
            i,
            expr_tokens(ExprView::IndexExpr { left: Box::new(left), index: Box::new(index) }),
        ),
        precedence.order() <= Precedence::Prefix.order(),
    ensures
        expr_at(at(ts, i), precedence) == infix_from(
            at(ts, i + 3 + expr_tokens(left).len() + expr_tokens(index).len()),
            ExprView::IndexExpr { left: Box::new(left), index: Box::new(index) },
            precedence,
        ),
    decreases (ExprView::IndexExpr { left: Box::new(left), index: Box::new(index) }), 0nat, 0nat,
{
    lemma_layout_index(left, index, ts, i);
    lemma_tokens_shape(index);
    lemma_parse_expr(left, ts, i + 1, Precedence::Lowest);
    lemma_parse_expr_stop(index, ts, i + 2 + expr_tokens(left).len(), Precedence::Lowest);
    lemma_build_index(left, index, ts, i, precedence);
}

proof fn lemma_parse_call(
    function: ExprView,
    args: Seq<ExprView>,
    ts: Seq<TokenView>,
    i: int,
    precedence: Precedence,
)
    requires
        no_eof(ts),
        stable_expr(function),
        stable_list(args),
        holds(ts, i, expr_tokens(ExprView::CallExpr { function: Box::new(function), args })),
        precedence.order() <= Precedence::Prefix.order(),
    ensures
        expr_at(at(ts, i), precedence) == infix_from(
            at(ts, i + 1 + expr_tokens(function).len() + list_tokens(args).len()),
            ExprView::CallExpr { function: Box::new(function), args },
            precedence,
        ),
    decreases (ExprView::CallExpr { function: Box::new(function), args }), 0nat, 0nat,
{
    lemma_layout_call(function, args, ts, i);
    let nf = expr_tokens(function).len() as int;
    let na = list_tokens(args).len() as int;
    lemma_parse_expr(function, ts, i, precedence);
    lemma_parse_list(args, ts, i + nf, TokenView::RParen);
    lemma_call_step(ts, i + nf - 1, function, i + nf + 1 + na, args, precedence);
}

proof fn lemma_parse_array(
    elements: Seq<ExprView>,
    ts: Seq<TokenView>,
    i: int,
    precedence: Precedence,
)
    requires
        no_eof(ts),
        stable_list(elements),
        holds(ts, i, expr_tokens(ExprView::ArrayLiteral { elements })),
        precedence.order() <= Precedence::Prefix.order(),
    ensures
        expr_at(at(ts, i), precedence) == infix_from(
            at(ts, i + 1 + list_tokens(elements).len()),
            ExprView::ArrayLiteral { elements },
            precedence,
        ),
    decreases (ExprView::ArrayLiteral { elements }), 0nat, 0nat,
{
    lemma_layout_array(elements, ts, i);
    let na = list_tokens(elements).len() as int;
    lemma_parse_list(elements, ts, i, TokenView::RBracket);
    lemma_array_head(ts, i, i + 1 + na, elements);
    lemma_expr_of_head(ts, i, i + 1 + na, ExprView::ArrayLiteral { elements }, precedence);
}

/// The tokens of the key-value pairs of a hash literal from index `k` on,
/// with commas between them.
pub open spec fn pairs_rest(ps: Seq<(ExprView, ExprView)>, k: int) -> Seq<TokenView>
    decreases ps.len() - k,
{
    if k < 0 || k >= ps.len() {
        Seq::empty()
    } else if k + 1 == ps.len() {
        pair_tokens(ps[k])
    } else {
        pair_tokens(ps[k]) + seq![TokenView::Comma] + pairs_rest(ps, k + 1)
    }
}

proof fn lemma_pairs_rest_last(ps: Seq<(ExprView, ExprView)>, k: int)
    requires
        0 <= k < ps.len() - 1,
    ensures
        pairs_rest(ps, k) == pairs_rest(ps.drop_last(), k) + seq![TokenView::Comma] + pair_tokens(
            ps.last(),
        ),
    decreases ps.len() - k,
{
    let init = ps.drop_last();
    let c = seq![TokenView::Comma];
    let head = pair_tokens(ps[k]) + c;
    let last = pair_tokens(ps.last());
    assert(init[k] == ps[k]);
    assert(pairs_rest(ps, k) == head + pairs_rest(ps, k + 1));
    if k + 2 == ps.len() {
        assert(ps[k + 1] == ps.last());
        assert(pairs_rest(ps, k + 1) == last);
        assert(pairs_rest(init, k) == pair_tokens(init[k]));
    } else {
        lemma_pairs_rest_last(ps, k + 1);
        let inner = pairs_rest(init, k + 1);
        assert(pairs_rest(init, k) == head + inner);
        lemma_assoc(head + inner, c, last);
        lemma_assoc(head, inner, c + last);
        lemma_assoc(inner, c, last);
    }
}

/// The tokens of key-value pairs are those of the first pair and then
/// those of the rest.
proof fn lemma_pairs_front(ps: Seq<(ExprView, ExprView)>)
    ensures
        pairs_tokens(ps) == pairs_rest(ps, 0),
    decreases ps.len(),
{
    if ps.len() >= 2 {
        lemma_pairs_front(ps.drop_last());
        lemma_pairs_rest_last(ps, 0);
    }
}

proof fn lemma_stable_pair(ps: Seq<(ExprView, ExprView)>, k: int)
    requires
        stable_pairs(ps),
        0 <= k < ps.len(),
    ensures
        stable_expr(ps[k].0),
        stable_expr(ps[k].1),
    decreases ps.len(),
{
    if k < ps.len() - 1 {
        lemma_stable_pair(ps.drop_last(), k);
    }
}

proof fn lemma_hash_end(ts: Seq<TokenView>, j: int, acc: Seq<(ExprView, ExprView)>)
    requires
        no_eof(ts),
        0 <= j,
        j + 1 < ts.len(),
        ts[j + 1] is RBrace,
    ensures
        hash_from(at(ts, j), acc) == (
            at(ts, j + 1),
            Ok::<ExprView, ErrorView>(ExprView::HashLiteral { pairs: acc }),
        ),
{
    lemma_at(ts, j);
}

proof fn lemma_hash_more(
    ts: Seq<TokenView>,
    j: int,
    acc: Seq<(ExprView, ExprView)>,
    nk: int,
    nv: int,
    key: ExprView,
    value: ExprView,
)
    requires
        no_eof(ts),
        0 <= j,
        1 <= nk,
        1 <= nv,
        j + nk + nv + 2 < ts.len(),
        !(ts[j + 1] is RBrace),
        ts[j + nk + 1] is Colon,
        expr_at(at(ts, j + 1), Precedence::Lowest) == (
            at(ts, j + nk),
            Ok::<ExprView, ErrorView>(key),
        ),
        expr_at(at(ts, j + nk + 2), Precedence::Lowest) == (
            at(ts, j + nk + 1 + nv),
            Ok::<ExprView, ErrorView>(value),
        ),
        ts[j + nk + nv + 2] is RBrace || ts[j + nk + nv + 2] is Comma,
    ensures
        ts[j + nk + nv + 2] is RBrace ==> hash_from(at(ts, j), acc) == hash_from(
            at(ts, j + nk + nv + 1),
            acc.push((key, value)),
        ),
        ts[j + nk + nv + 2] is Comma ==> hash_from(at(ts, j), acc) == hash_from(
            at(ts, j + nk + nv + 2),
            acc.push((key, value)),
        ),
{
    lemma_at(ts, j);
    lemma_at(ts, j + nk);
    lemma_at(ts, j + nk + 1);
    lemma_at(ts, j + nk + 1 + nv);
    lemma_at(ts, j + nk + 2 + nv);
    lemma_next(ts, j, j + 1, Precedence::Lowest);
    lemma_next(ts, j, j + nk + 2, Precedence::Lowest);
}

/// The tokens of a key-value pair in their places.
proof fn lemma_layout_pair(key: ExprView, value: ExprView, ts: Seq<TokenView>, i: int)
    requires
        stable_expr(key),
        stable_expr(value),
        holds(ts, i, pair_tokens((key, value))),
    ensures
        pair_tokens((key, value)).len() == expr_tokens(key).len() + expr_tokens(value).len() + 1,
        expr_tokens(key).len() > 0,
        expr_tokens(value).len() > 0,
        holds(ts, i, expr_tokens(key)),
        opens(ts[i]),
        ts[i + expr_tokens(key).len()] is Colon,
        holds(ts, i + expr_tokens(key).len() + 1, expr_tokens(value)),
{
    let tk = expr_tokens(key);
    let tv = expr_tokens(value);
    lemma_holds_split(ts, i, tk + seq![TokenView::Colon], tv);
    lemma_holds_split(ts, i, tk, seq![TokenView::Colon]);
    lemma_holds_one(ts, i + tk.len(), TokenView::Colon);
    lemma_tokens_shape(key);
    lemma_tokens_shape(value);
    assert(ts.subrange(i, i + tk.len())[0] == ts[i]);
}

/// The parser reads the tokens of the rest of the pairs of a hash literal
/// as the rest of the pairs, up to the closing brace.
#[verifier::rlimit(40)]
proof fn lemma_parse_hash_from(
    ps: Seq<(ExprView, ExprView)>,
    k: int,
    ts: Seq<TokenView>,
    j: int,
)
    requires
        no_eof(ts),
        stable_pairs(ps),
        0 <= k <= ps.len(),
        0 <= j,
        holds(ts, j + 1, pairs_rest(ps, k)),
        j + 1 + pairs_rest(ps, k).len() < ts.len(),
        ts[j + 1 + pairs_rest(ps, k).len()] is RBrace,
    ensures
        hash_from(at(ts, j), ps.take(k)) == (
            at(ts, j + 1 + pairs_rest(ps, k).len()),
            Ok::<ExprView, ErrorView>(ExprView::HashLiteral { pairs: ps }),
        ),
    decreases ps, ps.len() - k, 0nat,
{
    if k == ps.len() {
        lemma_hash_end(ts, j, ps.take(k));
        assert(ps.take(k) =~= ps);
    } else {
        let key = ps[k].0;
        let value = ps[k].1;
        let nk = expr_tokens(key).len() as int;
        let nv = expr_tokens(value).len() as int;
        let pair = pair_tokens(ps[k]);
        lemma_stable_pair(ps, k);
        assert(ps[k] == (key, value));
        if k + 1 == ps.len() {
            lemma_layout_pair(key, value, ts, j + 1);
        } else {
            let c = seq![TokenView::Comma];
            lemma_holds_split(ts, j + 1, pair + c, pairs_rest(ps, k + 1));
            lemma_holds_split(ts, j + 1, pair, c);
            lemma_holds_one(ts, j + 1 + pair.len(), TokenView::Comma);
            lemma_layout_pair(key, value, ts, j + 1);
        }
        lemma_parse_expr_stop(key, ts, j + 1, Precedence::Lowest);
        lemma_parse_expr_stop(value, ts, j + nk + 2, Precedence::Lowest);
        lemma_hash_more(ts, j, ps.take(k), nk, nv, key, value);
        assert(ps.take(k).push((key, value)) =~= ps.take(k + 1));
        if k + 1 == ps.len() {
            assert(ts.subrange(j + nk + nv + 2, j + nk + nv + 2) =~= Seq::<TokenView>::empty());
            lemma_parse_hash_from(ps, k + 1, ts, j + nk + nv + 1);
        } else {
            lemma_parse_hash_from(ps, k + 1, ts, j + nk + nv + 2);
        }
    }
}

proof fn lemma_parse_hash(
    pairs: Seq<(ExprView, ExprView)>,
    ts: Seq<TokenView>,
    i: int,
    precedence: Precedence,
)
    requires
        no_eof(ts),
        stable_pairs(pairs),
        holds(ts, i, expr_tokens(ExprView::HashLiteral { pairs })),
        precedence.order() <= Precedence::Prefix.order(),
    ensures
        expr_at(at(ts, i), precedence) == infix_from(
            at(ts, i + 1 + pairs_tokens(pairs).len()),
            ExprView::HashLiteral { pairs },
            precedence,
        ),
    decreases (ExprView::HashLiteral { pairs }), 0nat, 0nat,
{
    let e = ExprView::HashLiteral { pairs };
    let tp = pairs_tokens(pairs);
    let np = tp.len() as int;
    lemma_holds_split(ts, i, seq![TokenView::LBrace] + tp, seq![TokenView::RBrace]);
    lemma_holds_split(ts, i, seq![TokenView::LBrace], tp);
    lemma_holds_one(ts, i, TokenView::LBrace);
    lemma_holds_one(ts, i + 1 + np, TokenView::RBrace);
    lemma_pairs_front(pairs);
    lemma_parse_hash_from(pairs, 0, ts, i);
    assert(pairs.take(0) =~= Seq::<(ExprView, ExprView)>::empty());
    let c = at(ts, i);
    assert(head_at(c) == hash_at(c));
    lemma_expr_of_head(ts, i, i + 1 + np, e, precedence);
}

/// The parser reads the tokens of an expression as the expression, so far
/// as the head of the expression and what extends it go.
#[verifier::rlimit(40)]
pub proof fn lemma_parse_expr(e: ExprView, ts: Seq<TokenView>, i: int, precedence: Precedence)
    requires
        no_eof(ts),
        stable_expr(e),
        holds(ts, i, expr_tokens(e)),
        precedence.order() <= Precedence::Prefix.order(),
        !(token_or_eof(ts, i + expr_tokens(e).len()) is Else),
    ensures
        expr_at(at(ts, i), precedence) == infix_from(
            at(ts, i + expr_tokens(e).len() - 1),
            e,
            precedence,
        ),
    decreases e, 0nat, 1nat,
{
    match e {
        ExprView::PrefixExpr { op, right } => {
            lemma_layout_prefix(op, *right, ts, i);
            lemma_parse_prefix(op, *right, ts, i, precedence);
        },
        ExprView::InfixExpr { left, right, op } => {
            lemma_layout_binary(*left, *right, op, ts, i);
            lemma_parse_binary(*left, *right, op, ts, i, precedence);
        },
        ExprView::IndexExpr { left, index } => {
            lemma_layout_index(*left, *index, ts, i);
            lemma_parse_index(*left, *index, ts, i, precedence);
        },
        ExprView::CallExpr { function, args } => {
            lemma_layout_call(*function, args, ts, i);
            lemma_parse_call(*function, args, ts, i, precedence);
        },
        ExprView::ArrayLiteral { elements } => {
            lemma_layout_array(elements, ts, i);
            lemma_parse_array(elements, ts, i, precedence);
        },
        ExprView::HashLiteral { pairs } => {
            lemma_parse_hash(pairs, ts, i, precedence);
        },
        ExprView::IfExpr { condition, consequence, alternative } => {
            match alternative {
                None => {
                    lemma_layout_if(*condition, *consequence, ts, i);
                    lemma_parse_if(*condition, *consequence, ts, i, precedence);
                },
                Some(alt) => {
                    lemma_layout_if_else(*condition, *consequence, *alt, ts, i);
                    lemma_parse_if_else(*condition, *consequence, *alt, ts, i, precedence);
                },
            }
        },
        ExprView::FuncLiteral { parameters, body } => {
            lemma_layout_func(parameters, *body, ts, i);
            lemma_parse_func(parameters, *body, ts, i, precedence);
        },
        _ => {
            lemma_parse_atom(e, ts, i, precedence);
        },
    }
}

proof fn lemma_parse_if(
    condition: ExprView,
    consequence: StmtView,
    ts: Seq<TokenView>,
    i: int,
    precedence: Precedence,
)
    requires
        no_eof(ts),
        stable_expr(condition),
        stable_block(consequence),
        holds(
            ts,
            i,
            expr_tokens(
                ExprView::IfExpr {
                    condition: Box::new(condition),
                    consequence: Box::new(consequence),
                    alternative: None,
                },
            ),
        ),
        !(token_or_eof(ts, i + expr_tokens(condition).len() + block_tokens(consequence).len() + 5)
            is Else),
    ensures
        expr_at(at(ts, i), precedence) == infix_from(
            at(ts, i + expr_tokens(condition).len() + block_tokens(consequence).len() + 4),
            ExprView::IfExpr {
                condition: Box::new(condition),
                consequence: Box::new(consequence),
                alternative: None,
            },
            precedence,
        ),
    decreases
        (ExprView::IfExpr {
            condition: Box::new(condition),
            consequence: Box::new(consequence),
            alternative: None,
        }),
        0nat,
        0nat,
{
    let e = ExprView::IfExpr {
        condition: Box::new(condition),
        consequence: Box::new(consequence),
        alternative: None,
    };
    let nc = expr_tokens(condition).len() as int;
    let nb = block_tokens(consequence).len() as int;
    lemma_layout_if(condition, consequence, ts, i);
    lemma_tokens_shape(condition);
    lemma_parse_expr_stop(condition, ts, i + 2, Precedence::Lowest);
    lemma_parse_block(consequence, ts, i + 3 + nc);
    lemma_if_step(ts, i, nc, condition, consequence, i + 4 + nc + nb);
    lemma_expr_of_head(ts, i, i + 4 + nc + nb, e, precedence);
}

proof fn lemma_parse_if_else(
    condition: ExprView,
    consequence: StmtView,
    alt: StmtView,
    ts: Seq<TokenView>,
    i: int,
    precedence: Precedence,
)
    requires
        no_eof(ts),
        stable_expr(condition),
        stable_block(consequence),
        stable_block(alt),
        holds(
            ts,
            i,
            expr_tokens(
                ExprView::IfExpr {
                    condition: Box::new(condition),
                    consequence: Box::new(consequence),
                    alternative: Some(Box::new(alt)),
                },
            ),
        ),
    ensures
        expr_at(at(ts, i), precedence) == infix_from(
            at(
                ts,
                i + expr_tokens(condition).len() + block_tokens(consequence).len() + block_tokens(
                    alt,
                ).len() + 7,
            ),
            ExprView::IfExpr {
                condition: Box::new(condition),
                consequence: Box::new(consequence),
                alternative: Some(Box::new(alt)),
            },
            precedence,
        ),
    decreases
        (ExprView::IfExpr {
            condition: Box::new(condition),
            consequence: Box::new(consequence),
            alternative: Some(Box::new(alt)),
        }),
        0nat,
        0nat,
{
    let e = ExprView::IfExpr {
        condition: Box::new(condition),
        consequence: Box::new(consequence),
        alternative: Some(Box::new(alt)),
    };
    let nc = expr_tokens(condition).len() as int;
    let nb = block_tokens(consequence).len() as int;
    let na = block_tokens(alt).len() as int;
    let turn = i + 5 + nc + nb;
    lemma_layout_if_else(condition, consequence, alt, ts, i);
    lemma_tokens_shape(condition);
    lemma_parse_expr_stop(condition, ts, i + 2, Precedence::Lowest);
    lemma_parse_block(consequence, ts, i + 3 + nc);
    lemma_parse_block(alt, ts, turn + 1);
    lemma_if_else_step(ts, i, nc, condition, consequence, turn, alt, turn + 2 + na);
    lemma_expr_of_head(ts, i, turn + 2 + na, e, precedence);
}

proof fn lemma_parse_func(
    parameters: Seq<ExprView>,
    body: StmtView,
    ts: Seq<TokenView>,
    i: int,
    precedence: Precedence,
)
    requires
        no_eof(ts),
        stable_params(parameters),
        stable_block(body),
        holds(ts, i, expr_tokens(ExprView::FuncLiteral { parameters, body: Box::new(body) })),
    ensures
        expr_at(at(ts, i), precedence) == infix_from(
            at(ts, i + list_tokens(parameters).len() + block_tokens(body).len() + 4),
            ExprView::FuncLiteral { parameters, body: Box::new(body) },
            precedence,
        ),
    decreases (ExprView::FuncLiteral { parameters, body: Box::new(body) }), 0nat, 0nat,
{
    let e = ExprView::FuncLiteral { parameters, body: Box::new(body) };
    let np = list_tokens(parameters).len() as int;
    let nb = block_tokens(body).len() as int;
    lemma_layout_func(parameters, body, ts, i);
    lemma_parse_params(parameters, ts, i);
    lemma_parse_block(body, ts, i + 3 + np);
    lemma_func_step(ts, i, i + 2 + np, parameters, body, i + 4 + np + nb);
    lemma_expr_of_head(ts, i, i + 4 + np + nb, e, precedence);
}

/// The parser reads the tokens of a block as the block, where the token
/// before them is the opening brace at index `j`, and stops at the closing
/// brace.
pub proof fn lemma_parse_block(b: StmtView, ts: Seq<TokenView>, j: int)
    requires
        no_eof(ts),
        stable_block(b),
        1 <= j < ts.len(),
        ts[j] is LBrace,
        holds(ts, j + 1, block_tokens(b)),
        j + 1 + block_tokens(b).len() < ts.len(),
        ts[j + 1 + block_tokens(b).len()] is RBrace,
    ensures
        block_at(at(ts, j - 1)) == (
            at(ts, j + 1 + block_tokens(b).len()),
            Ok::<StmtView, ErrorView>(b),
        ),
    decreases b, 0nat, 0nat,
{
    match b {
        StmtView::BlockStatement { stmts } => {
            lemma_parse_body(stmts, ts, j + 1, Seq::empty());
            assert(Seq::<StmtView>::empty() + stmts =~= stmts);
            lemma_block_step(ts, j, j + 1 + block_tokens(b).len(), stmts);
        },
        _ => {},
    }
}

/// The parser reads the tokens of the statements of a block as those
/// statements, and stops at the closing brace after them.
#[verifier::rlimit(40)]
pub proof fn lemma_parse_body(
    ss: Seq<StmtView>,
    ts: Seq<TokenView>,
    i: int,
    acc: Seq<StmtView>,
)
    requires
        no_eof(ts),
        all_stable(ss),
        forall|k: int| 1 <= k < ss.len() ==> begins_plainly(#[trigger] ss[k]),
        holds(ts, i, program_tokens(ss)),
        i + program_tokens(ss).len() < ts.len(),
        ts[i + program_tokens(ss).len()] is RBrace,
    ensures
        block_from(at(ts, i), acc) == (
            at(ts, i + program_tokens(ss).len()),
            Ok::<StmtView, ErrorView>(StmtView::BlockStatement { stmts: acc + ss }),
        ),
    decreases ss, 0nat, 0nat,
{
    if ss.len() == 0 {
        lemma_block_end(ts, i, acc);
        assert(acc + ss =~= acc);
    } else {
        let s = ss[0];
        let rest = ss.drop_first();
        let k = stmt_tokens(s).len() as int;
        lemma_after_first(ss, ts, i);
        lemma_parse_stmt(s, ts, i);
        lemma_block_more(ts, i, acc, i + k - 1, s);
        lemma_parse_body(rest, ts, i + k, acc.push(s));
        assert(acc.push(s) + rest =~= acc + ss);
    }
}

/// The parser reads the tokens of an expression as the expression, where
/// the token after them does not bind more tightly than the bound.
pub proof fn lemma_parse_expr_stop(
    e: ExprView,
    ts: Seq<TokenView>,
    i: int,
    precedence: Precedence,
)
    requires
        no_eof(ts),
        stable_expr(e),
        holds(ts, i, expr_tokens(e)),
        precedence.order() <= Precedence::Prefix.order(),
        ends(token_or_eof(ts, i + expr_tokens(e).len()), precedence),
    ensures
        expr_at(at(ts, i), precedence) == (
            at(ts, i + expr_tokens(e).len() - 1),
            Ok::<ExprView, ErrorView>(e),
        ),
    decreases e, 1nat, 0nat,
{
    lemma_parse_expr(e, ts, i, precedence);
    lemma_infix_stop(at(ts, i + expr_tokens(e).len() - 1), e, precedence);
}

/// The parser reads the tokens of a list as the list, where the current
/// token is the delimiter that opens it.
#[verifier::rlimit(40)]
pub proof fn lemma_parse_list(es: Seq<ExprView>, ts: Seq<TokenView>, i: int, end: TokenView)
    requires
        no_eof(ts),
        stable_list(es),
        0 <= i,
        holds(ts, i + 1, list_tokens(es)),
        i + 1 + list_tokens(es).len() < ts.len(),
        ts[i + 1 + list_tokens(es).len()] == end,
        end is RParen || end is RBracket,
    ensures
        list_at(at(ts, i), end) == (
            at(ts, i + 1 + list_tokens(es).len()),
            Ok::<Seq<ExprView>, ErrorView>(es),
        ),
    decreases es, es.len() + 1, 0nat,
{
    if es.len() == 0 {
        lemma_list_empty(ts, i, end);
        assert(es =~= Seq::<ExprView>::empty());
    } else {
        lemma_list_split(es, 1);
        assert(es.take(1).drop_last() =~= Seq::<ExprView>::empty());
        assert(es.take(1)[0] == es[0]);
        let first = expr_tokens(es[0]);
        lemma_holds_split(ts, i + 1, first, tail_tokens(es, 1));
        lemma_stable_index(es, 0);
        lemma_tokens_shape(es[0]);
        assert(ts[i + 1] == first[0]) by {
            assert(ts.subrange(i + 1, i + 1 + first.len())[0] == ts[i + 1]);
        }
        lemma_after_element(ts, es, 0, i + 1 + first.len(), end);
        lemma_parse_expr_stop(es[0], ts, i + 1, Precedence::Lowest);
        lemma_list_first(ts, i, i + first.len(), es[0], end);
        assert(seq![es[0]] =~= es.take(1));
        lemma_parse_list_from(es, 1, ts, i + first.len(), end);
    }
}

/// The parser reads the tokens of the rest of a list as the rest of the
/// list.
#[verifier::rlimit(40)]
pub proof fn lemma_parse_list_from(
    es: Seq<ExprView>,
    k: int,
    ts: Seq<TokenView>,
    j: int,
    end: TokenView,
)
    requires
        no_eof(ts),
        stable_list(es),
        1 <= k <= es.len(),
        0 <= j,
        holds(ts, j + 1, tail_tokens(es, k)),
        j + 1 + tail_tokens(es, k).len() < ts.len(),
        ts[j + 1 + tail_tokens(es, k).len()] == end,
        end is RParen || end is RBracket,
    ensures
        list_from(at(ts, j), es.take(k), end) == (
            at(ts, j + 1 + tail_tokens(es, k).len()),
            Ok::<Seq<ExprView>, ErrorView>(es),
        ),
    decreases es, es.len() - k, 0nat,
{
    if k == es.len() {
        lemma_list_end(ts, j, es.take(k), end);
        assert(es.take(k) =~= es);
    } else {
        let c = seq![TokenView::Comma];
        let t = expr_tokens(es[k]);
        let r = tail_tokens(es, k + 1);
        lemma_holds_split(ts, j + 1, c + t, r);
        lemma_holds_split(ts, j + 1, c, t);
        lemma_holds_one(ts, j + 1, TokenView::Comma);
        lemma_stable_index(es, k);
        lemma_after_element(ts, es, k, j + 2 + t.len(), end);
        lemma_parse_expr_stop(es[k], ts, j + 2, Precedence::Lowest);
        lemma_list_more(ts, j, es.take(k), j + 1 + t.len(), es[k], end);
        assert(es.take(k).push(es[k]) =~= es.take(k + 1));
        lemma_parse_list_from(es, k + 1, ts, j + 1 + t.len(), end);
    }
}

/// An expression that starts with a name, a literal or a keyword starts
/// with a token that extends no expression before it.
pub proof fn lemma_plain_start(e: ExprView)
    requires
        stable_expr(e),
        plain_start(e),
    ensures
        expr_tokens(e).len() > 0,
        ends(expr_tokens(e)[0], Precedence::Lowest),
        !(expr_tokens(e)[0] is Semicolon),
    decreases e,
{
    lemma_tokens_shape(e);
    match e {
        ExprView::CallExpr { function, args } => {
            lemma_plain_start(*function);
        },
        ExprView::IfExpr { condition, consequence, alternative } => {
            let open = seq![TokenView::If, TokenView::LParen];
            assert((open + expr_tokens(*condition))[0] == TokenView::If);
        },
        ExprView::FuncLiteral { parameters, body } => {
            let open = seq![TokenView::Function, TokenView::LParen];
            assert((open + list_tokens(parameters))[0] == TokenView::Function);
        },
        _ => {},
    }
}

/// A statement has tokens, and the first of them is one with which a
/// statement can start.
pub proof fn lemma_stmt_shape(s: StmtView)
    requires
        stable_stmt(s),
    ensures
        stmt_tokens(s).len() > 0,
        starts(stmt_tokens(s)[0]),
{
    match s {
        StmtView::ExpressionStatement { expr } => {
            lemma_tokens_shape(expr);
        },
        _ => {},
    }
}

/// A statement that starts plainly starts with a token that can follow a
/// statement.
pub proof fn lemma_begins(s: StmtView)
    requires
        stable_stmt(s),
        begins_plainly(s),
    ensures
        stmt_tokens(s).len() > 0,
        ends(stmt_tokens(s)[0], Precedence::Lowest),
        !(stmt_tokens(s)[0] is Semicolon),
{
    match s {
        StmtView::ExpressionStatement { expr } => {
            lemma_plain_start(expr);
        },
        _ => {},
    }
}

/// What holds of the statements of a program or a block holds of all but
/// the first of them too.
pub proof fn lemma_rest_of(ss: Seq<StmtView>)
    requires
        ss.len() >= 1,
        all_stable(ss),
        forall|k: int| 1 <= k < ss.len() ==> begins_plainly(#[trigger] ss[k]),
    ensures
        stable_stmt(ss[0]),
        all_stable(ss.drop_first()),
        forall|k: int|
            1 <= k < ss.drop_first().len() ==> begins_plainly(#[trigger] ss.drop_first()[k]),
        ss.drop_first().len() > 0 ==> begins_plainly(ss.drop_first()[0]),
        program_tokens(ss) == stmt_tokens(ss[0]) + program_tokens(ss.drop_first()),
{
    let rest = ss.drop_first();
    lemma_program_front(ss);
    assert forall|j: int| 0 <= j < rest.len() implies stable_stmt(#[trigger] rest[j]) by {
        assert(rest[j] == ss[j + 1]);
    }
    assert forall|j: int| 1 <= j < rest.len() implies begins_plainly(#[trigger] rest[j]) by {
        assert(rest[j] == ss[j + 1]);
    }
    if rest.len() > 0 {
        assert(rest[0] == ss[1]);
    }
}

/// The first token of statements is that of the first statement.
pub proof fn lemma_first_token(ss: Seq<StmtView>, ts: Seq<TokenView>, i: int)
    requires
        ss.len() >= 1,
        stable_stmt(ss[0]),
        holds(ts, i, program_tokens(ss)),
    ensures
        0 <= i < ts.len(),
        stmt_tokens(ss[0]).len() > 0,
        ts[i] == stmt_tokens(ss[0])[0],
        starts(ts[i]),
{
    lemma_program_front(ss);
    lemma_stmt_shape(ss[0]);
    lemma_holds_split(ts, i, stmt_tokens(ss[0]), program_tokens(ss.drop_first()));
    assert(ts.subrange(i, i + stmt_tokens(ss[0]).len())[0] == ts[i]);
}

/// The first of the statements of a program or a block, in its place, and
/// what comes after it.
#[verifier::rlimit(40)]
pub proof fn lemma_after_first(ss: Seq<StmtView>, ts: Seq<TokenView>, i: int)
    requires
        ss.len() >= 1,
        all_stable(ss),
        forall|k: int| 1 <= k < ss.len() ==> begins_plainly(#[trigger] ss[k]),
        holds(ts, i, program_tokens(ss)),
        i + program_tokens(ss).len() == ts.len() || (i + program_tokens(ss).len() < ts.len()
            && ts[i + program_tokens(ss).len()] is RBrace),
    ensures
        0 <= i < ts.len(),
        stable_stmt(ss[0]),
        stmt_tokens(ss[0]).len() > 0,
        starts(ts[i]),
        holds(ts, i, stmt_tokens(ss[0])),
        ends(token_or_eof(ts, i + stmt_tokens(ss[0]).len()), Precedence::Lowest),
        !(token_or_eof(ts, i + stmt_tokens(ss[0]).len()) is Semicolon),
        all_stable(ss.drop_first()),
        forall|k: int|
            1 <= k < ss.drop_first().len() ==> begins_plainly(#[trigger] ss.drop_first()[k]),
        holds(ts, i + stmt_tokens(ss[0]).len(), program_tokens(ss.drop_first())),
        program_tokens(ss).len() == stmt_tokens(ss[0]).len() + program_tokens(
            ss.drop_first(),
        ).len(),
{
    let s = ss[0];
    let rest = ss.drop_first();
    let k = stmt_tokens(s).len() as int;
    lemma_rest_of(ss);
    lemma_first_token(ss, ts, i);
    lemma_holds_split(ts, i, stmt_tokens(s), program_tokens(rest));
    if rest.len() > 0 {
        lemma_first_token(rest, ts, i + k);
        lemma_begins(rest[0]);
    } else {
        assert(program_tokens(rest).len() == 0);
    }
}

proof fn lemma_parse_let(name: Seq<char>, value: ExprView, ts: Seq<TokenView>, i: int)
    requires
        no_eof(ts),
        stable_expr(value),
        holds(
            ts,
            i,
            stmt_tokens(StmtView::LetStatement { ident: ExprView::Ident(name), value }),
        ),
        ends(token_or_eof(ts, i + 3 + expr_tokens(value).len()), Precedence::Lowest),
        !(token_or_eof(ts, i + 3 + expr_tokens(value).len()) is Semicolon),
    ensures
        stmt_at(at(ts, i)) == (
            at(ts, i + 2 + expr_tokens(value).len()),
            Ok::<StmtView, ErrorView>(
                StmtView::LetStatement { ident: ExprView::Ident(name), value },
            ),
        ),
    decreases value, 2nat, 0nat,
{
    let tv = expr_tokens(value);
    let head = seq![TokenView::Let, TokenView::Ident(name), TokenView::Assign];
    lemma_holds_split(ts, i, head, tv);
    assert(ts.subrange(i, i + 3)[0] == ts[i]);
    assert(ts.subrange(i, i + 3)[1] == ts[i + 1]);
    assert(ts.subrange(i, i + 3)[2] == ts[i + 2]);
    lemma_tokens_shape(value);
    lemma_parse_expr_stop(value, ts, i + 3, Precedence::Lowest);
    lemma_at(ts, i);
    lemma_at(ts, i + 1);
    lemma_at(ts, i + 2);
    lemma_at(ts, i + 2 + tv.len());
    lemma_next(ts, i, i + 3, Precedence::Lowest);
    let c = at(ts, i);
    assert(let_at(c) == (
        at(ts, i + 2 + tv.len()),
        Ok::<StmtView, ErrorView>(StmtView::LetStatement { ident: ExprView::Ident(name), value }),
    ));
}

proof fn lemma_parse_return(value: ExprView, ts: Seq<TokenView>, i: int)
    requires
        no_eof(ts),
        stable_expr(value),
        holds(ts, i, stmt_tokens(StmtView::ReturnStatement { value })),
        ends(token_or_eof(ts, i + 1 + expr_tokens(value).len()), Precedence::Lowest),
        !(token_or_eof(ts, i + 1 + expr_tokens(value).len()) is Semicolon),
    ensures
        stmt_at(at(ts, i)) == (
            at(ts, i + expr_tokens(value).len()),
            Ok::<StmtView, ErrorView>(StmtView::ReturnStatement { value }),
        ),
    decreases value, 2nat, 0nat,
{
    let tv = expr_tokens(value);
    lemma_holds_split(ts, i, seq![TokenView::Return], tv);
    lemma_holds_one(ts, i, TokenView::Return);
    lemma_tokens_shape(value);
    lemma_parse_expr_stop(value, ts, i + 1, Precedence::Lowest);
    lemma_at(ts, i);
    lemma_at(ts, i + tv.len());
    lemma_next(ts, i, i + 1, Precedence::Lowest);
    let c = at(ts, i);
    assert(return_at(c) == (
        at(ts, i + tv.len()),
        Ok::<StmtView, ErrorView>(StmtView::ReturnStatement { value }),
    ));
}

proof fn lemma_parse_expr_stmt(expr: ExprView, ts: Seq<TokenView>, i: int)
    requires
        no_eof(ts),
        stable_expr(expr),
        holds(ts, i, expr_tokens(expr)),
        ends(token_or_eof(ts, i + expr_tokens(expr).len()), Precedence::Lowest),
        !(token_or_eof(ts, i + expr_tokens(expr).len()) is Semicolon),
    ensures
        stmt_at(at(ts, i)) == (
            at(ts, i + expr_tokens(expr).len() - 1),
            Ok::<StmtView, ErrorView>(StmtView::ExpressionStatement { expr }),
        ),
    decreases expr, 2nat, 0nat,
{
    let te = expr_tokens(expr);
    lemma_tokens_shape(expr);
    assert(ts.subrange(i, i + te.len())[0] == ts[i]);
    lemma_parse_expr_stop(expr, ts, i, Precedence::Lowest);
    lemma_at(ts, i + te.len() - 1);
    let c = at(ts, i);
    assert(expr_stmt_at(c) == (
        at(ts, i + te.len() - 1),
        Ok::<StmtView, ErrorView>(StmtView::ExpressionStatement { expr }),
    ));
}

/// The parser reads the tokens of a statement as the statement, where the
/// token after them can follow a statement.
pub proof fn lemma_parse_stmt(s: StmtView, ts: Seq<TokenView>, i: int)
    requires
        no_eof(ts),
        stable_stmt(s),
        holds(ts, i, stmt_tokens(s)),
        ends(token_or_eof(ts, i + stmt_tokens(s).len()), Precedence::Lowest),
        !(token_or_eof(ts, i + stmt_tokens(s).len()) is Semicolon),
    ensures
        stmt_at(at(ts, i)) == (
            at(ts, i + stmt_tokens(s).len() - 1),
            Ok::<StmtView, ErrorView>(s),
        ),
    decreases s, 0nat, 0nat,
{
    match s {
        StmtView::LetStatement { ident, value } => {
            lemma_parse_let(ident->Ident_0, value, ts, i);
        },
        StmtView::ReturnStatement { value } => {
            lemma_parse_return(value, ts, i);
        },
        StmtView::ExpressionStatement { expr } => {
            lemma_parse_expr_stmt(expr, ts, i);
        },
        StmtView::BlockStatement { .. } => {},
    }
}

/// The parser reads the tokens of a program as the program.
#[verifier::rlimit(40)]
pub proof fn lemma_parse_program(
    ss: Seq<StmtView>,
    ts: Seq<TokenView>,
    i: int,
    acc: Seq<StmtView>,
)
    requires
        no_eof(ts),
        all_stable(ss),
        forall|k: int| 1 <= k < ss.len() ==> begins_plainly(#[trigger] ss[k]),
        holds(ts, i, program_tokens(ss)),
        i + program_tokens(ss).len() == ts.len(),
    ensures
        program_from(at(ts, i), acc).1 == Ok::<Seq<StmtView>, ErrorView>(acc + ss),
    decreases ss.len(),
{
    if ss.len() == 0 {
        lemma_program_end(ts, i, acc);
        assert(acc + ss =~= acc);
    } else {
        let s = ss[0];
        let rest = ss.drop_first();
        let k = stmt_tokens(s).len() as int;
        lemma_after_first(ss, ts, i);
        lemma_parse_stmt(s, ts, i);
        lemma_program_more(ts, i, acc, i + k - 1, s);
        lemma_parse_program(rest, ts, i + k, acc.push(s));
        assert(acc.push(s) + rest =~= acc + ss);
    }
}

/// The tokens of a program are those of its first statement and then
/// those of the rest.
pub proof fn lemma_program_front(ss: Seq<StmtView>)
    requires
        ss.len() > 0,
    ensures
        program_tokens(ss) == stmt_tokens(ss[0]) + program_tokens(ss.drop_first()),
    decreases ss.len(),
{
    if ss.len() == 1 {
        assert(ss.drop_last() =~= Seq::<StmtView>::empty());
        assert(ss.drop_first() =~= Seq::<StmtView>::empty());
        assert(program_tokens(ss.drop_last()) + stmt_tokens(ss.last()) =~= stmt_tokens(ss[0])
            + program_tokens(ss.drop_first()));
    } else {
        lemma_program_front(ss.drop_last());
        assert(ss.drop_last().drop_first() =~= ss.drop_first().drop_last());
        assert(ss.drop_first().last() == ss.last());
        assert(ss.drop_last()[0] == ss[0]);
        lemma_assoc(
            stmt_tokens(ss[0]),
            program_tokens(ss.drop_first().drop_last()),
            stmt_tokens(ss.last()),
        );
    }
}

} // verus!
