//! A returned value is never held inside another value.
//!
//! Evaluation wraps the value of a `return` statement to carry it out of
//! the enclosing blocks. The lemmas here show that the wrapper stays where
//! it belongs: as long as the scopes hold plain values, evaluation binds
//! only plain values, puts only plain values into arrays and hands only
//! plain values to functions, and what a statement or an expression yields
//! is a plain value or one returned value around a plain value. A call
//! and a program yield plain values.

use crate::ast::{ExprView, StmtView};
use crate::builtin::{call_builtin, BuiltInFunction};
use crate::environment::{bind, enclose, lookup, ScopeView};
use crate::error::ErrorView;
use crate::evaluator::{
    bind_params, block_outcome, call_outcome, expr_outcome, expr_steps, index_value, infix_value,
    list_outcome, pending, prefix_value, program_outcome, stmt_outcome, stmt_steps, World,
};
use crate::object::ObjectView;
use crate::operator::{Infix, Prefix};
use vstd::prelude::*;

verus! {

/// A value that is no returned value and holds none.
pub open spec fn plain(o: ObjectView) -> bool
    decreases o,
{
    match o {
        ObjectView::ReturnValue(_) => false,
        ObjectView::Array { elements } => forall|i: int|
            0 <= i < elements.len() ==> plain(#[trigger] elements[i]),
        _ => true,
    }
}

/// A plain value, or a returned value around a plain value.
pub open spec fn settled(o: ObjectView) -> bool {
    match o {
        ObjectView::ReturnValue(inner) => plain(*inner),
        _ => plain(o),
    }
}

/// Plain values only.
pub open spec fn all_plain(vals: Seq<ObjectView>) -> bool {
    forall|i: int| 0 <= i < vals.len() ==> plain(#[trigger] vals[i])
}

/// Scopes that bind plain values only.
pub open spec fn plain_scopes(scopes: Seq<ScopeView>) -> bool {
    forall|i: int, key: Seq<char>|
        0 <= i < scopes.len() && scopes[i].store.contains_key(key) ==> plain(
            #[trigger] scopes[i].store[key],
        )
}

/// A result that is an error or a settled value.
pub open spec fn yields_settled(r: Result<ObjectView, ErrorView>) -> bool {
    r is Ok ==> settled(r->Ok_0)
}

/// A result that is an error or a plain value.
pub open spec fn yields_plain(r: Result<ObjectView, ErrorView>) -> bool {
    r is Ok ==> plain(r->Ok_0)
}

/// A list of values as the evaluation of a list of expressions yields it:
/// plain values, of which the last may instead be a returned value.
pub open spec fn settled_list(vals: Seq<ObjectView>) -> bool {
    if pending(vals) {
        all_plain(vals.drop_last()) && settled(vals.last())
    } else {
        all_plain(vals)
    }
}

/// What plain scopes bind a name to is a plain value.
pub proof fn lemma_lookup_plain(scopes: Seq<ScopeView>, scope: nat, key: Seq<char>)
    requires
        plain_scopes(scopes),
    ensures
        lookup(scopes, scope, key) is Some ==> plain(lookup(scopes, scope, key)->Some_0),
    decreases scope,
{
    if scope < scopes.len() && !scopes[scope as int].store.contains_key(key) {
        match scopes[scope as int].outer {
            Some(o) => {
                if o < scope {
                    lemma_lookup_plain(scopes, o, key);
                }
            },
            None => {},
        }
    }
}

/// Binding a plain value leaves the scopes plain.
pub proof fn lemma_bind_plain(scopes: Seq<ScopeView>, scope: nat, key: Seq<char>, val: ObjectView)
    requires
        plain_scopes(scopes),
        plain(val),
    ensures
        plain_scopes(bind(scopes, scope, key, val)),
{
    let after = bind(scopes, scope, key, val);
    assert forall|i: int, k: Seq<char>|
        0 <= i < after.len() && after[i].store.contains_key(k) implies plain(
        #[trigger] after[i].store[k],
    ) by {
        if i == scope && k == key {
        } else {
            assert(scopes[i].store.contains_key(k));
            assert(after[i].store[k] == scopes[i].store[k]);
        }
    }
}

/// Adding an empty scope leaves the scopes plain.
pub proof fn lemma_enclose_plain(scopes: Seq<ScopeView>, outer: nat)
    requires
        plain_scopes(scopes),
    ensures
        plain_scopes(enclose(scopes, outer)),
{
    let after = enclose(scopes, outer);
    assert forall|i: int, k: Seq<char>|
        0 <= i < after.len() && after[i].store.contains_key(k) implies plain(
        #[trigger] after[i].store[k],
    ) by {
        if i < scopes.len() {
            assert(after[i] == scopes[i]);
        }
    }
}

/// Binding parameters to plain arguments leaves the scopes plain.
pub proof fn lemma_bind_params_plain(
    scopes: Seq<ScopeView>,
    scope: nat,
    params: Seq<ExprView>,
    args: Seq<ObjectView>,
    i: nat,
)
    requires
        plain_scopes(scopes),
        all_plain(args),
    ensures
        plain_scopes(bind_params(scopes, scope, params, args, i)),
    decreases params.len() - i,
{
    if i < params.len() && i < args.len() {
        match params[i as int] {
            ExprView::Ident(name) => {
                lemma_bind_plain(scopes, scope, name, args[i as int]);
                lemma_bind_params_plain(
                    bind(scopes, scope, name, args[i as int]),
                    scope,
                    params,
                    args,
                    i + 1,
                );
            },
            _ => {
                lemma_bind_params_plain(scopes, scope, params, args, i + 1);
            },
        }
    }
}

/// A prefix operator yields a plain value.
pub proof fn lemma_prefix_plain(op: Prefix, right: ObjectView)
    ensures
        yields_plain(prefix_value(op, right)),
{
}

/// An infix operator yields a plain value.
pub proof fn lemma_infix_plain(left: ObjectView, right: ObjectView, op: Infix)
    ensures
        yields_plain(infix_value(left, right, op)),
{
}

/// An element of a plain array is a plain value.
pub proof fn lemma_index_plain(left: ObjectView, index: ObjectView)
    requires
        plain(left),
    ensures
        yields_plain(index_value(left, index)),
{
}

/// A native function yields a plain value from plain arguments.
pub proof fn lemma_builtin_plain(f: BuiltInFunction, args: Seq<ObjectView>, out: Seq<Seq<char>>)
    requires
        all_plain(args),
    ensures
        yields_plain(call_builtin(f, args, out).1),
{
    if args.len() > 0 {
        assert(plain(args[0]));
        match args[0] {
            ObjectView::Array { elements } => {
                if elements.len() > 0 {
                    assert(plain(elements[0]));
                    assert(plain(elements.last()));
                    let tail = elements.drop_first();
                    assert forall|i: int| 0 <= i < tail.len() implies plain(
                        #[trigger] tail[i],
                    ) by {
                        assert(tail[i] == elements[i + 1]);
                    }
                }
                if args.len() == 2 {
                    assert(plain(args[1]));
                    let longer = elements.push(args[1]);
                    assert forall|i: int| 0 <= i < longer.len() implies plain(
                        #[trigger] longer[i],
                    ) by {
                        if i < elements.len() {
                            assert(longer[i] == elements[i]);
                        }
                    }
                }
            },
            _ => {},
        }
    }
}

/// A settled list that ends in no returned value is a list of plain
/// values, and one that does ends in a settled value.
proof fn lemma_settled_list(vals: Seq<ObjectView>)
    requires
        settled_list(vals),
    ensures
        pending(vals) ==> settled(vals.last()),
        !pending(vals) ==> all_plain(vals),
{
}

proof fn lemma_push_plain(acc: Seq<ObjectView>, val: ObjectView)
    requires
        all_plain(acc),
        settled(val),
    ensures
        settled_list(acc.push(val)),
        !(val is ReturnValue) ==> all_plain(acc.push(val)),
{
    let vals = acc.push(val);
    assert(vals.drop_last() =~= acc);
    assert(vals.last() == val);
    if !(val is ReturnValue) {
        assert forall|i: int| 0 <= i < vals.len() implies plain(#[trigger] vals[i]) by {
            if i < acc.len() {
                assert(vals[i] == acc[i]);
            }
        }
    }
}

/// An expression yields a settled value, and leaves the scopes plain.
pub proof fn lemma_expr_settled(e: ExprView, w: World, env: nat, depth: nat)
    requires
        plain_scopes(w.scopes),
    ensures
        plain_scopes(expr_outcome(e, w, env, depth).0.scopes),
        yields_settled(expr_outcome(e, w, env, depth).1),
    decreases depth, 0nat, 0nat,
{
    if depth > 0 {
        lemma_expr_steps_settled(e, w, env, (depth - 1) as nat);
    }
}

/// An expression yields a settled value, and leaves the scopes plain, once
/// a unit of depth is taken for it.
pub proof fn lemma_expr_steps_settled(e: ExprView, w: World, env: nat, depth: nat)
    requires
        plain_scopes(w.scopes),
    ensures
        plain_scopes(expr_steps(e, w, env, depth).0.scopes),
        yields_settled(expr_steps(e, w, env, depth).1),
    decreases depth, 2nat, 0nat,
{
    match e {
        ExprView::Ident(ident) => {
            lemma_lookup_plain(w.scopes, env, ident);
        },
        ExprView::PrefixExpr { op, right } => {
            lemma_expr_settled(*right, w, env, depth);
            let (w1, r) = expr_outcome(*right, w, env, depth);
            if let Ok(val) = r {
                lemma_prefix_plain(op, val);
            }
        },
        ExprView::InfixExpr { left, right, op } => {
            lemma_expr_settled(*left, w, env, depth);
            let (w1, l) = expr_outcome(*left, w, env, depth);
            if let Ok(lv) = l {
                if !(lv is ReturnValue) {
                    lemma_expr_settled(*right, w1, env, depth);
                    let (w2, r) = expr_outcome(*right, w1, env, depth);
                    if let Ok(rv) = r {
                        lemma_infix_plain(lv, rv, op);
                    }
                }
            }
        },
        ExprView::IfExpr { condition, consequence, alternative } => {
            lemma_expr_settled(*condition, w, env, depth);
            let (w1, c) = expr_outcome(*condition, w, env, depth);
            if let Ok(cond) = c {
                if !(cond is ReturnValue) {
                    lemma_stmt_settled(*consequence, w1, env, depth);
                    match alternative {
                        Some(alt) => {
                            lemma_stmt_settled(*alt, w1, env, depth);
                        },
                        None => {},
                    }
                }
            }
        },
        ExprView::CallExpr { function, args } => {
            lemma_call_expr_settled(*function, args, w, env, depth);
        },
        ExprView::ArrayLiteral { elements } => {
            lemma_list_settled(elements, 0, Seq::empty(), w, env, depth);
            let (w1, a) = list_outcome(elements, 0, Seq::empty(), w, env, depth);
            if let Ok(vals) = a {
                lemma_settled_list(vals);
            }
        },
        ExprView::IndexExpr { left, index } => {
            lemma_expr_settled(*left, w, env, depth);
            let (w1, l) = expr_outcome(*left, w, env, depth);
            if let Ok(lv) = l {
                if !(lv is ReturnValue) {
                    lemma_expr_settled(*index, w1, env, depth);
                    let (w2, i) = expr_outcome(*index, w1, env, depth);
                    if let Ok(iv) = i {
                        lemma_index_plain(lv, iv);
                    }
                }
            }
        },
        _ => {},
    }
}

proof fn lemma_call_expr_settled(
    function: ExprView,
    args: Seq<ExprView>,
    w: World,
    env: nat,
    depth: nat,
)
    requires
        plain_scopes(w.scopes),
    ensures
        ({
            let e = ExprView::CallExpr { function: Box::new(function), args };
            &&& plain_scopes(expr_steps(e, w, env, depth).0.scopes)
            &&& yields_settled(expr_steps(e, w, env, depth).1)
        }),
    decreases depth, 1nat, args.len() + 1,
{
    match crate::evaluator::native_callee(function) {
        Some(f) => {
            lemma_list_settled(args, 0, Seq::empty(), w, env, depth);
            let (w1, a) = list_outcome(args, 0, Seq::empty(), w, env, depth);
            if let Ok(vals) = a {
                lemma_settled_list(vals);
                if !pending(vals) {
                    lemma_builtin_plain(f, vals, w1.output);
                }
            }
        },
        None => {
            lemma_expr_settled(function, w, env, depth);
            let (w1, c) = expr_outcome(function, w, env, depth);
            if let Ok(func) = c {
                if !(func is ReturnValue) {
                    lemma_list_settled(args, 0, Seq::empty(), w1, env, depth);
                    let (w2, a) = list_outcome(args, 0, Seq::empty(), w1, env, depth);
                    if let Ok(vals) = a {
                        lemma_settled_list(vals);
                        if !pending(vals) {
                            lemma_call_plain(func, vals, w2, depth);
                        }
                    }
                }
            }
        },
    }
}

/// A list of expressions yields a settled list, and leaves the scopes
/// plain.
pub proof fn lemma_list_settled(
    es: Seq<ExprView>,
    i: nat,
    acc: Seq<ObjectView>,
    w: World,
    env: nat,
    depth: nat,
)
    requires
        plain_scopes(w.scopes),
        all_plain(acc),
    ensures
        plain_scopes(list_outcome(es, i, acc, w, env, depth).0.scopes),
        list_outcome(es, i, acc, w, env, depth).1 is Ok ==> settled_list(
            list_outcome(es, i, acc, w, env, depth).1->Ok_0,
        ),
    decreases depth, 1nat, es.len() - i,
{
    if i < es.len() {
        lemma_expr_settled(es[i as int], w, env, depth);
        let (w1, r) = expr_outcome(es[i as int], w, env, depth);
        if let Ok(val) = r {
            lemma_push_plain(acc, val);
            if !(val is ReturnValue) {
                lemma_list_settled(es, i + 1, acc.push(val), w1, env, depth);
            }
        }
    } else {
        if acc.len() > 0 {
            assert(plain(acc.last()));
        }
    }
}

/// A call yields a plain value, and leaves the scopes plain.
pub proof fn lemma_call_plain(function: ObjectView, args: Seq<ObjectView>, w: World, depth: nat)
    requires
        plain_scopes(w.scopes),
        all_plain(args),
    ensures
        plain_scopes(call_outcome(function, args, w, depth).0.scopes),
        yields_plain(call_outcome(function, args, w, depth).1),
    decreases depth, 1nat, 0nat,
{
    match function {
        ObjectView::FunctionLiteral { params, body, env } => {
            let scope = w.scopes.len();
            lemma_enclose_plain(w.scopes, env);
            lemma_bind_params_plain(enclose(w.scopes, env), scope, params, args, 0);
            let scopes = bind_params(enclose(w.scopes, env), scope, params, args, 0);
            lemma_stmt_settled(body, World { scopes: scopes, output: w.output }, scope, depth);
        },
        ObjectView::BuiltIn(f) => {
            lemma_builtin_plain(f, args, w.output);
        },
        _ => {},
    }
}

/// A statement yields a settled value, and leaves the scopes plain.
pub proof fn lemma_stmt_settled(s: StmtView, w: World, env: nat, depth: nat)
    requires
        plain_scopes(w.scopes),
    ensures
        plain_scopes(stmt_outcome(s, w, env, depth).0.scopes),
        yields_settled(stmt_outcome(s, w, env, depth).1),
    decreases depth, 0nat, 0nat,
{
    if depth > 0 {
        lemma_stmt_steps_settled(s, w, env, (depth - 1) as nat);
    }
}

/// A statement yields a settled value, and leaves the scopes plain, once a
/// unit of depth is taken for it.
pub proof fn lemma_stmt_steps_settled(s: StmtView, w: World, env: nat, depth: nat)
    requires
        plain_scopes(w.scopes),
    ensures
        plain_scopes(stmt_steps(s, w, env, depth).0.scopes),
        yields_settled(stmt_steps(s, w, env, depth).1),
    decreases depth, 2nat, 0nat,
{
    match s {
        StmtView::LetStatement { ident, value } => {
            lemma_expr_settled(value, w, env, depth);
            let (w1, r) = expr_outcome(value, w, env, depth);
            if let Ok(val) = r {
                if !(val is ReturnValue) {
                    lemma_bind_plain(w1.scopes, env, crate::ast::expr_text(ident), val);
                }
            }
        },
        StmtView::ReturnStatement { value } => {
            lemma_expr_settled(value, w, env, depth);
        },
        StmtView::ExpressionStatement { expr } => {
            lemma_expr_settled(expr, w, env, depth);
        },
        StmtView::BlockStatement { stmts } => {
            lemma_block_settled(stmts, 0, ObjectView::Null, w, env, depth);
        },
    }
}

/// The statements of a block yield a settled value, and leave the scopes
/// plain.
pub proof fn lemma_block_settled(
    stmts: Seq<StmtView>,
    i: nat,
    last: ObjectView,
    w: World,
    env: nat,
    depth: nat,
)
    requires
        plain_scopes(w.scopes),
        plain(last),
    ensures
        plain_scopes(block_outcome(stmts, i, last, w, env, depth).0.scopes),
        yields_settled(block_outcome(stmts, i, last, w, env, depth).1),
    decreases depth, 1nat, stmts.len() - i,
{
    if i < stmts.len() {
        lemma_stmt_settled(stmts[i as int], w, env, depth);
        let (w1, r) = stmt_outcome(stmts[i as int], w, env, depth);
        if let Ok(val) = r {
            if !(val is ReturnValue) {
                lemma_block_settled(stmts, i + 1, val, w1, env, depth);
            }
        }
    }
}

/// A program yields a plain value, and leaves the scopes plain.
pub proof fn lemma_program_plain(stmts: Seq<StmtView>, w: World, env: nat, depth: nat)
    requires
        plain_scopes(w.scopes),
    ensures
        plain_scopes(program_outcome(stmts, w, env, depth).0.scopes),
        yields_plain(program_outcome(stmts, w, env, depth).1),
{
    lemma_block_settled(stmts, 0, ObjectView::Null, w, env, depth);
}

} // verus!
