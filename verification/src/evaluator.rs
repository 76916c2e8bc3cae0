//! The evaluator: runs a syntax tree against the scopes of an environment.
//!
//! Evaluation is specified by the functions `expr_outcome`, `stmt_outcome`
//! and their companions, which say for each tree what value or error it
//! yields and how it changes the scopes and the output. The methods of
//! [`Evaluator`] compute exactly that.
//!
//! Every nested evaluation of a statement or an expression uses up one unit
//! of the evaluator's `depth`. Where none is left, evaluation fails with an
//! error instead of exhausting the call stack.
//!
//! Integer arithmetic that leaves the range of 64-bit signed integers is an
//! error, and so is division by zero. An index beyond the ends of an array
//! yields `Null`. A hash literal does not evaluate: it is an error.
//!
//! Where the callee of a call is a name that the registry of native
//! functions holds, the call evaluates the arguments and calls the native
//! function. Otherwise it evaluates the callee, then the arguments from
//! left to right, and applies the closure: in a new scope, enclosed by the
//! scope in which the closure was made, the parameters are bound to the
//! arguments by position. A parameter without an argument stays unbound,
//! and an argument without a parameter is dropped. Blocks open no scope of
//! their own.
//!
//! The value of a `return` statement is wrapped on its way out of the
//! enclosing blocks. Where an operand, an argument or an element evaluates
//! to such a wrapped value, the expression around it yields that value at
//! once; a call and a program unwrap it.

use crate::ast::{clone_exprs, expr_text, exprs_view, Expr, ExprView, Program, Stmt, StmtView};
use crate::builtin::{builtin_named, call, call_builtin, lines_view, lookup, BuiltInFunction};
use crate::environment::{bind, enclose, option_view, Environment, ScopeView};
use crate::error::{result_view, ErrorView, MonkeyError};
use crate::object::{kind_name, objects_view, truthy, Object, ObjectView};
use crate::operator::{Infix, Prefix};
use vstd::prelude::*;

verus! {

/// What evaluation reads and changes: the scopes, and the lines written by
/// `puts`.
pub struct World {
    pub scopes: Seq<ScopeView>,
    pub output: Seq<Seq<char>>,
}

/// The depth that a new evaluator has. It keeps evaluation within a call
/// stack of a few megabytes; an evaluator that runs on a larger stack can
/// be given a larger depth.
pub const DEFAULT_DEPTH: usize = 500;

/// The error of an evaluation that nests more deeply than the evaluator
/// allows.
pub open spec fn depth_error() -> ErrorView {
    ErrorView::Custom("evaluation nests too deeply"@)
}

/// The error of arithmetic whose result is no 64-bit signed integer.
pub open spec fn overflow_error() -> ErrorView {
    ErrorView::Custom("integer overflow"@)
}

/// The error of a division by zero.
pub open spec fn division_error() -> ErrorView {
    ErrorView::Custom("division by zero"@)
}

/// The error of an index expression on anything but an array and an
/// integer.
pub open spec fn index_error() -> ErrorView {
    ErrorView::Custom("index operator not supported"@)
}

/// The error of evaluating a hash literal, which the parser reads and the
/// evaluator does not support.
pub open spec fn hash_error() -> ErrorView {
    ErrorView::Custom("hash literals are not supported"@)
}

/// The error of a call of a value that is no function.
pub open spec fn callee_error(f: ObjectView) -> ErrorView {
    ErrorView::Custom("not a function: "@ + kind_name(f))
}

/// The integer `n` as a value; an error where it is no 64-bit signed
/// integer.
pub open spec fn integer(n: int) -> Result<ObjectView, ErrorView> {
    if i64::MIN <= n <= i64::MAX {
        Ok(ObjectView::Integer(n))
    } else {
        Err(overflow_error())
    }
}

/// The quotient of `a` by `b`, rounded toward zero.
pub open spec fn quotient(a: int, b: int) -> int {
    if a >= 0 && b > 0 {
        a / b
    } else if a < 0 && b < 0 {
        (-a) / (-b)
    } else if a < 0 {
        -((-a) / b)
    } else {
        -(a / (-b))
    }
}

/// The value of the prefix operator `op` on `right`.
pub open spec fn prefix_value(op: Prefix, right: ObjectView) -> Result<ObjectView, ErrorView> {
    match op {
        Prefix::Bang => Ok(ObjectView::Boolean(!truthy(right))),
        Prefix::Minus => match right {
            ObjectView::Integer(val) => integer(-val),
            _ => Err(ErrorView::UnknownPrefix(op, kind_name(right))),
        },
    }
}

/// The value of the infix operator `op` on `left` and `right`.
pub open spec fn infix_value(left: ObjectView, right: ObjectView, op: Infix) -> Result<
    ObjectView,
    ErrorView,
> {
    match (left, right) {
        (ObjectView::Integer(a), ObjectView::Integer(b)) => match op {
            Infix::Plus => integer(a + b),
            Infix::Minus => integer(a - b),
            Infix::Asterisk => integer(a * b),
            Infix::Slash => if b == 0 {
                Err(division_error())
            } else {
                integer(quotient(a, b))
            },
            Infix::LessThan => Ok(ObjectView::Boolean(a < b)),
            Infix::GreaterThan => Ok(ObjectView::Boolean(a > b)),
            Infix::Eq => Ok(ObjectView::Boolean(a == b)),
            Infix::NotEq => Ok(ObjectView::Boolean(a != b)),
        },
        (ObjectView::Boolean(a), ObjectView::Boolean(b)) => match op {
            Infix::Eq => Ok(ObjectView::Boolean(a == b)),
            Infix::NotEq => Ok(ObjectView::Boolean(a != b)),
            _ => Err(ErrorView::UnknownOperator(kind_name(left), kind_name(right), op)),
        },
        (ObjectView::String(a), ObjectView::String(b)) => match op {
            Infix::Plus => Ok(ObjectView::String(a + b)),
            _ => Err(ErrorView::UnknownOperator(kind_name(left), kind_name(right), op)),
        },
        _ => Err(ErrorView::TypeMismatch(kind_name(left), kind_name(right), op)),
    }
}

/// The value of `left[index]`: the element of an array at an integer
/// index, and `Null` where the array has no such index.
pub open spec fn index_value(left: ObjectView, index: ObjectView) -> Result<
    ObjectView,
    ErrorView,
> {
    match (left, index) {
        (ObjectView::Array { elements }, ObjectView::Integer(i)) => if 0 <= i < elements.len() {
            Ok(elements[i])
        } else {
            Ok(ObjectView::Null)
        },
        _ => Err(index_error()),
    }
}

/// The native function that a callee names, if it is an identifier that
/// the registry holds.
pub open spec fn native_callee(function: ExprView) -> Option<BuiltInFunction> {
    match function {
        ExprView::Ident(name) => match builtin_named(name) {
            Some(ObjectView::BuiltIn(f)) => Some(f),
            _ => None,
        },
        _ => None,
    }
}

/// Whether a list of values ends in a returned value that is on its way
/// out.
pub open spec fn pending(vals: Seq<ObjectView>) -> bool {
    vals.len() > 0 && vals.last() is ReturnValue
}

/// A result with a returned value unwrapped by one level.
pub open spec fn unwrapped(r: Result<ObjectView, ErrorView>) -> Result<ObjectView, ErrorView> {
    match r {
        Ok(ObjectView::ReturnValue(val)) => Ok(*val),
        _ => r,
    }
}

/// The scopes after the parameters from index `i` on are bound, in
/// `scope`, to the arguments at the same indices. A parameter without an
/// argument stays unbound, an argument without a parameter is dropped, and
/// so is the argument of a parameter that is no identifier.
pub open spec fn bind_params(
    scopes: Seq<ScopeView>,
    scope: nat,
    params: Seq<ExprView>,
    args: Seq<ObjectView>,
    i: nat,
) -> Seq<ScopeView>
    decreases params.len() - i,
{
    if i >= params.len() || i >= args.len() {
        scopes
    } else {
        let next = match params[i as int] {
            ExprView::Ident(name) => bind(scopes, scope, name, args[i as int]),
            _ => scopes,
        };
        bind_params(next, scope, params, args, i + 1)
    }
}

/// The outcome of an expression evaluated in the scope `env` with `depth`
/// units of nesting left: the world after it, and its value or error.
///
/// Where an operand evaluates to a returned value on its way out, the
/// expression yields that value at once, and nothing after it is
/// evaluated.
pub open spec fn expr_outcome(e: ExprView, w: World, env: nat, depth: nat) -> (
    World,
    Result<ObjectView, ErrorView>,
)
    decreases depth, 0nat, 0nat,
{
    if depth == 0 {
        (w, Err(depth_error()))
    } else {
        expr_steps(e, w, env, (depth - 1) as nat)
    }
}

/// The outcome of an expression once a unit of depth is taken for it.
pub open spec fn expr_steps(e: ExprView, w: World, env: nat, depth: nat) -> (
    World,
    Result<ObjectView, ErrorView>,
)
    decreases depth, 2nat, 0nat,
{
    match e {
        ExprView::Ident(ident) => match crate::environment::lookup(w.scopes, env, ident) {
            Some(val) => (w, Ok(val)),
            None => (w, Err(ErrorView::UncaughtRef(ident))),
        },
        ExprView::String(val) => (w, Ok(ObjectView::String(val))),
        ExprView::Int(val) => (w, Ok(ObjectView::Integer(val))),
        ExprView::Boolean(val) => (w, Ok(ObjectView::Boolean(val))),
        ExprView::PrefixExpr { op, right } => {
            let (w1, r) = expr_outcome(*right, w, env, depth);
            match r {
                Err(err) => (w1, Err(err)),
                Ok(right) => if right is ReturnValue {
                    (w1, Ok(right))
                } else {
                    (w1, prefix_value(op, right))
                },
            }
        },
        ExprView::InfixExpr { left, right, op } => {
            let (w1, l) = expr_outcome(*left, w, env, depth);
            match l {
                Err(err) => (w1, Err(err)),
                Ok(left) => if left is ReturnValue {
                    (w1, Ok(left))
                } else {
                    let (w2, r) = expr_outcome(*right, w1, env, depth);
                    match r {
                        Err(err) => (w2, Err(err)),
                        Ok(right) => if right is ReturnValue {
                            (w2, Ok(right))
                        } else {
                            (w2, infix_value(left, right, op))
                        },
                    }
                },
            }
        },
        ExprView::IfExpr { condition, consequence, alternative } => {
            let (w1, c) = expr_outcome(*condition, w, env, depth);
            match c {
                Err(err) => (w1, Err(err)),
                Ok(cond) => if cond is ReturnValue {
                    (w1, Ok(cond))
                } else if truthy(cond) {
                    stmt_outcome(*consequence, w1, env, depth)
                } else {
                    match alternative {
                        Some(alt) => stmt_outcome(*alt, w1, env, depth),
                        None => (w1, Ok(ObjectView::Null)),
                    }
                },
            }
        },
        ExprView::FuncLiteral { parameters, body } => (
            w,
            Ok(ObjectView::FunctionLiteral { params: parameters, body: *body, env }),
        ),
        ExprView::CallExpr { function, args } => match native_callee(*function) {
            Some(f) => {
                let (w1, a) = list_outcome(args, 0, Seq::empty(), w, env, depth);
                match a {
                    Err(err) => (w1, Err(err)),
                    Ok(vals) => if pending(vals) {
                        (w1, Ok(vals.last()))
                    } else {
                        let (out, r) = call_builtin(f, vals, w1.output);
                        (World { scopes: w1.scopes, output: out }, r)
                    },
                }
            },
            None => {
                let (w1, c) = expr_outcome(*function, w, env, depth);
                match c {
                    Err(err) => (w1, Err(err)),
                    Ok(func) => if func is ReturnValue {
                        (w1, Ok(func))
                    } else {
                        let (w2, a) = list_outcome(args, 0, Seq::empty(), w1, env, depth);
                        match a {
                            Err(err) => (w2, Err(err)),
                            Ok(vals) => if pending(vals) {
                                (w2, Ok(vals.last()))
                            } else {
                                call_outcome(func, vals, w2, depth)
                            },
                        }
                    },
                }
            },
        },
        ExprView::ArrayLiteral { elements } => {
            let (w1, a) = list_outcome(elements, 0, Seq::empty(), w, env, depth);
            match a {
                Err(err) => (w1, Err(err)),
                Ok(vals) => if pending(vals) {
                    (w1, Ok(vals.last()))
                } else {
                    (w1, Ok(ObjectView::Array { elements: vals }))
                },
            }
        },
        ExprView::IndexExpr { left, index } => {
            let (w1, l) = expr_outcome(*left, w, env, depth);
            match l {
                Err(err) => (w1, Err(err)),
                Ok(left) => if left is ReturnValue {
                    (w1, Ok(left))
                } else {
                    let (w2, i) = expr_outcome(*index, w1, env, depth);
                    match i {
                        Err(err) => (w2, Err(err)),
                        Ok(index) => if index is ReturnValue {
                            (w2, Ok(index))
                        } else {
                            (w2, index_value(left, index))
                        },
                    }
                },
            }
        },
        ExprView::HashLiteral { pairs } => (w, Err(hash_error())),
    }
}

/// The outcome of the expressions `es[i..]` evaluated from left to right,
/// given the values `acc` of those before them: the values of all of them,
/// or those up to and with the first returned value on its way out.
pub open spec fn list_outcome(
    es: Seq<ExprView>,
    i: nat,
    acc: Seq<ObjectView>,
    w: World,
    env: nat,
    depth: nat,
) -> (World, Result<Seq<ObjectView>, ErrorView>)
    decreases depth, 1nat, es.len() - i,
{
    if i >= es.len() {
        (w, Ok(acc))
    } else {
        let (w1, r) = expr_outcome(es[i as int], w, env, depth);
        match r {
            Err(err) => (w1, Err(err)),
            Ok(val) => if val is ReturnValue {
                (w1, Ok(acc.push(val)))
            } else {
                list_outcome(es, i + 1, acc.push(val), w1, env, depth)
            },
        }
    }
}

/// The outcome of the call of the function value `function` on `args`. A
/// closure runs its body in a new scope, enclosed by the scope in which the
/// closure was made, with its parameters bound there; a value that its body
/// returns is unwrapped.
pub open spec fn call_outcome(function: ObjectView, args: Seq<ObjectView>, w: World, depth: nat)
    -> (World, Result<ObjectView, ErrorView>)
    decreases depth, 1nat, 0nat,
{
    match function {
        ObjectView::FunctionLiteral { params, body, env } => {
            let scope = w.scopes.len();
            let scopes = bind_params(enclose(w.scopes, env), scope, params, args, 0);
            let (w1, r) = stmt_outcome(
                body,
                World { scopes: scopes, output: w.output },
                scope,
                depth,
            );
            (w1, unwrapped(r))
        },
        ObjectView::BuiltIn(f) => {
            let (out, r) = call_builtin(f, args, w.output);
            (World { scopes: w.scopes, output: out }, r)
        },
        _ => (w, Err(callee_error(function))),
    }
}

/// The outcome of a statement evaluated in the scope `env` with `depth`
/// units of nesting left.
pub open spec fn stmt_outcome(s: StmtView, w: World, env: nat, depth: nat) -> (
    World,
    Result<ObjectView, ErrorView>,
)
    decreases depth, 0nat, 0nat,
{
    if depth == 0 {
        (w, Err(depth_error()))
    } else {
        stmt_steps(s, w, env, (depth - 1) as nat)
    }
}

/// The outcome of a statement once a unit of depth is taken for it.
pub open spec fn stmt_steps(s: StmtView, w: World, env: nat, depth: nat) -> (
    World,
    Result<ObjectView, ErrorView>,
)
    decreases depth, 2nat, 0nat,
{
    match s {
        StmtView::LetStatement { ident, value } => {
            let (w1, r) = expr_outcome(value, w, env, depth);
            match r {
                Err(err) => (w1, Err(err)),
                Ok(val) => if val is ReturnValue {
                    (w1, Ok(val))
                } else {
                    (
                        World {
                            scopes: bind(w1.scopes, env, expr_text(ident), val),
                            output: w1.output,
                        },
                        Ok(ObjectView::Null),
                    )
                },
            }
        },
        StmtView::ReturnStatement { value } => {
            let (w1, r) = expr_outcome(value, w, env, depth);
            match r {
                Err(err) => (w1, Err(err)),
                Ok(val) => if val is ReturnValue {
                    (w1, Ok(val))
                } else {
                    (w1, Ok(ObjectView::ReturnValue(Box::new(val))))
                },
            }
        },
        StmtView::ExpressionStatement { expr } => expr_outcome(expr, w, env, depth),
        StmtView::BlockStatement { stmts } => block_outcome(
            stmts,
            0,
            ObjectView::Null,
            w,
            env,
            depth,
        ),
    }
}

/// The outcome of the statements `stmts[i..]` evaluated in order, given the
/// value `last` of the statement before them: the value of the last
/// statement, or the first returned value, still wrapped, after which no
/// statement is evaluated.
pub open spec fn block_outcome(
    stmts: Seq<StmtView>,
    i: nat,
    last: ObjectView,
    w: World,
    env: nat,
    depth: nat,
) -> (World, Result<ObjectView, ErrorView>)
    decreases depth, 1nat, stmts.len() - i,
{
    if i >= stmts.len() {
        (w, Ok(last))
    } else {
        let (w1, r) = stmt_outcome(stmts[i as int], w, env, depth);
        match r {
            Err(err) => (w1, Err(err)),
            Ok(val) => if val is ReturnValue {
                (w1, Ok(val))
            } else {
                block_outcome(stmts, i + 1, val, w1, env, depth)
            },
        }
    }
}

/// The outcome of a program: that of its statements in order, with a
/// returned value unwrapped.
pub open spec fn program_outcome(stmts: Seq<StmtView>, w: World, env: nat, depth: nat) -> (
    World,
    Result<ObjectView, ErrorView>,
) {
    let (w1, r) = block_outcome(stmts, 0, ObjectView::Null, w, env, depth);
    (w1, unwrapped(r))
}

/// The view of the result of evaluating a list of expressions.
pub open spec fn list_view(r: Result<Vec<Object>, MonkeyError>) -> Result<
    Seq<ObjectView>,
    ErrorView,
> {
    match r {
        Ok(vals) => Ok(objects_view(vals@)),
        Err(err) => Err(err@),
    }
}

fn custom(msg: &str) -> (e: MonkeyError)
    ensures
        e@ == ErrorView::Custom(msg@),
{
    MonkeyError::Custom(String::from_str(msg))
}

fn checked(n: Option<i64>) -> (r: Result<Object, MonkeyError>)
    ensures
        result_view(r) == match n {
            Some(val) => Ok::<ObjectView, ErrorView>(ObjectView::Integer(val as int)),
            None => Err(overflow_error()),
        },
{
    match n {
        Some(val) => Ok(Object::Integer(val)),
        None => Err(custom("integer overflow")),
    }
}

fn native_of(function: &Expr) -> (r: Option<BuiltInFunction>)
    ensures
        r == native_callee(function@),
{
    match function {
        Expr::Ident(name) => match lookup(name.as_str()) {
            Some(Object::BuiltIn(f)) => Some(f),
            _ => None,
        },
        _ => None,
    }
}

fn is_pending(vals: &Vec<Object>) -> (r: bool)
    ensures
        r == pending(objects_view(vals@)),
{
    vals.len() > 0 && vals[vals.len() - 1].is_return()
}

fn take_last(vals: Vec<Object>) -> (r: Object)
    requires
        vals.len() > 0,
    ensures
        r@ == objects_view(vals@).last(),
{
    let mut vals = vals;
    match vals.pop() {
        Some(val) => val,
        None => Object::Null,
    }
}

fn unwrap_return(r: Result<Object, MonkeyError>) -> (u: Result<Object, MonkeyError>)
    ensures
        result_view(u) == unwrapped(result_view(r)),
{
    match r {
        Ok(Object::ReturnValue(val)) => Ok(*val),
        obj => obj,
    }
}

/// Evaluates the element of `elements` at `index`: `Null` where there is
/// none.
fn element_at(elements: &Vec<Object>, index: i64) -> (r: Object)
    ensures
        Ok::<ObjectView, ErrorView>(r@) == index_value(
            ObjectView::Array { elements: objects_view(elements@) },
            ObjectView::Integer(index as int),
        ),
{
    if index < 0 {
        return Object::Null;
    }
    let wide: u64 = index as u64;
    if wide < elements.len() as u64 {
        let i: usize = wide as usize;
        assert(objects_view(elements@)[i as int] == elements[i as int]@);
        elements[i].clone()
    } else {
        Object::Null
    }
}

/// An evaluator: the scopes of a program, the scope in which it evaluates,
/// the nesting depth that it allows, and the lines that `puts` has written
/// and the caller has not yet taken.
#[derive(Debug)]
pub struct Evaluator {
    pub env: Environment,
    pub scope: usize,
    pub depth: usize,
    pub output: Vec<String>,
}

impl Evaluator {
    /// What the evaluator reads and changes when it evaluates.
    pub open spec fn world(&self) -> World {
        World { scopes: self.env@, output: lines_view(self.output@) }
    }

    /// An evaluator on a new environment, in its top-level scope.
    pub fn new() -> (r: Self)
        ensures
            r.env@ == seq![ScopeView { store: Map::empty(), outer: None }],
            r.output@ == Seq::<String>::empty(),
            r.scope == 0,
            r.depth == DEFAULT_DEPTH,
    {
        Evaluator { env: Environment::new(), scope: 0, depth: DEFAULT_DEPTH, output: Vec::new() }
    }

    /// An evaluator on `env`, in its scope 0.
    pub fn from(env: Environment) -> (r: Self)
        ensures
            r.env == env,
            r.output@ == Seq::<String>::empty(),
            r.scope == 0,
            r.depth == DEFAULT_DEPTH,
    {
        Evaluator { env, scope: 0, depth: DEFAULT_DEPTH, output: Vec::new() }
    }

    /// Binds `key` to `val` in the current scope.
    pub fn set(&mut self, key: String, val: Object)
        ensures
            final(self).env@ == bind(old(self).env@, old(self).scope as nat, key@, val@),
            final(self).output == old(self).output,
            final(self).scope == old(self).scope,
            final(self).depth == old(self).depth,
    {
        self.env.set(self.scope, key, val);
    }

    /// The value of `key` as seen from the current scope.
    pub fn get(&self, key: &str) -> (r: Option<Object>)
        ensures
            option_view(r) == crate::environment::lookup(self.env@, self.scope as nat, key@),
    {
        self.env.get(self.scope, String::from_str(key))
    }

    /// Takes the lines that `puts` has written since they were last taken.
    pub fn take_output(&mut self) -> (lines: Vec<String>)
        ensures
            lines == old(self).output,
            final(self).output@ == Seq::<String>::empty(),
            final(self).env == old(self).env,
            final(self).scope == old(self).scope,
            final(self).depth == old(self).depth,
    {
        let mut lines: Vec<String> = Vec::new();
        std::mem::swap(&mut lines, &mut self.output);
        lines
    }

    /// Evaluates a program: its statements in order, up to the first
    /// `return`, whose value is the program's.
    pub fn eval(&mut self, node: Program) -> (r: Result<Object, MonkeyError>)
        ensures
            (final(self).world(), result_view(r)) == program_outcome(
                node@,
                old(self).world(),
                old(self).scope as nat,
                old(self).depth as nat,
            ),
            final(self).scope == old(self).scope,
            final(self).depth == old(self).depth,
    {
        let r = self.eval_block_stmt(node.stmts.as_slice());
        unwrap_return(r)
    }

    /// Evaluates a statement. A `let` statement binds a name in the current
    /// scope and yields `Null`; a `return` statement yields its value wrapped
    /// as a returned value.
    pub fn eval_stmt(&mut self, stmt: &Stmt) -> (r: Result<Object, MonkeyError>)
        ensures
            (final(self).world(), result_view(r)) == stmt_outcome(
                stmt@,
                old(self).world(),
                old(self).scope as nat,
                old(self).depth as nat,
            ),
            final(self).scope == old(self).scope,
            final(self).depth == old(self).depth,
        decreases old(self).depth, 0nat, 0nat,
    {
        if self.depth == 0 {
            return Err(custom("evaluation nests too deeply"));
        }
        self.depth = self.depth - 1;
        let r = self.stmt_steps(stmt);
        self.depth = self.depth + 1;
        r
    }

    fn stmt_steps(&mut self, stmt: &Stmt) -> (r: Result<Object, MonkeyError>)
        ensures
            (final(self).world(), result_view(r)) == stmt_steps(
                stmt@,
                old(self).world(),
                old(self).scope as nat,
                old(self).depth as nat,
            ),
            final(self).scope == old(self).scope,
            final(self).depth == old(self).depth,
        decreases old(self).depth, 2nat, 0nat,
    {
        match stmt {
            Stmt::LetStatement { ident, value } => {
                match self.eval_expr(value) {
                    Err(err) => Err(err),
                    Ok(val) => {
                        if val.is_return() {
                            Ok(val)
                        } else {
                            self.env.set(self.scope, ident.to_string(), val);
                            Ok(Object::Null)
                        }
                    },
                }
            },
            Stmt::ReturnStatement { value } => {
                match self.eval_expr(value) {
                    Err(err) => Err(err),
                    Ok(right) => {
                        if right.is_return() {
                            Ok(right)
                        } else {
                            Ok(Object::ReturnValue(Box::new(right)))
                        }
                    },
                }
            },
            Stmt::ExpressionStatement { expr } => self.eval_expr(expr),
            Stmt::BlockStatement { stmts } => self.eval_block_stmt(stmts.as_slice()),
        }
    }

    /// Evaluates the statements of a block in order. A returned value ends
    /// the block and stays wrapped, so that it ends the enclosing blocks
    /// too.
    pub fn eval_block_stmt(&mut self, stmts: &[Stmt]) -> (r: Result<Object, MonkeyError>)
        ensures
            (final(self).world(), result_view(r)) == block_outcome(
                crate::ast::stmts_view(stmts@),
                0,
                ObjectView::Null,
                old(self).world(),
                old(self).scope as nat,
                old(self).depth as nat,
            ),
            final(self).scope == old(self).scope,
            final(self).depth == old(self).depth,
        decreases old(self).depth, 1nat, stmts@.len(),
    {
        let mut result = Object::Null;
        let mut i: usize = 0;
        while i < stmts.len()
            invariant
                0 <= i <= stmts.len(),
                self.scope == old(self).scope,
                self.depth == old(self).depth,
                !(result@ is ReturnValue),
                block_outcome(
                    crate::ast::stmts_view(stmts@),
                    i as nat,
                    result@,
                    self.world(),
                    self.scope as nat,
                    self.depth as nat,
                ) == block_outcome(
                    crate::ast::stmts_view(stmts@),
                    0,
                    ObjectView::Null,
                    old(self).world(),
                    old(self).scope as nat,
                    old(self).depth as nat,
                ),
            decreases stmts.len() - i,
        {
            assert(crate::ast::stmts_view(stmts@)[i as int] == stmts[i as int]@);
            match self.eval_stmt(&stmts[i]) {
                Err(err) => {
                    return Err(err);
                },
                Ok(val) => {
                    if val.is_return() {
                        return Ok(val);
                    }
                    result = val;
                },
            }
            i += 1;
        }
        Ok(result)
    }

    /// Evaluates an expression.
    pub fn eval_expr(&mut self, expr: &Expr) -> (r: Result<Object, MonkeyError>)
        ensures
            (final(self).world(), result_view(r)) == expr_outcome(
                expr@,
                old(self).world(),
                old(self).scope as nat,
                old(self).depth as nat,
            ),
            final(self).scope == old(self).scope,
            final(self).depth == old(self).depth,
        decreases old(self).depth, 0nat, 0nat,
    {
        if self.depth == 0 {
            return Err(custom("evaluation nests too deeply"));
        }
        self.depth = self.depth - 1;
        let r = self.expr_steps(expr);
        self.depth = self.depth + 1;
        r
    }

    fn expr_steps(&mut self, expr: &Expr) -> (r: Result<Object, MonkeyError>)
        ensures
            (final(self).world(), result_view(r)) == expr_steps(
                expr@,
                old(self).world(),
                old(self).scope as nat,
                old(self).depth as nat,
            ),
            final(self).scope == old(self).scope,
            final(self).depth == old(self).depth,
        decreases old(self).depth, 2nat, 0nat,
    {
        match expr {
            Expr::Ident(ident) => match self.env.get(self.scope, ident.clone()) {
                Some(val) => Ok(val),
                None => Err(MonkeyError::UncaughtRef(ident.clone())),
            },
            Expr::String(val) => Ok(Object::String(val.clone())),
            Expr::Int(val) => Ok(Object::Integer(*val)),
            Expr::Boolean(val) => Ok(Object::Boolean(*val)),
            Expr::PrefixExpr { op, right } => {
                match self.eval_expr(right) {
                    Err(err) => Err(err),
                    Ok(right) => {
                        if right.is_return() {
                            Ok(right)
                        } else {
                            self.eval_prefix_expr(op, right)
                        }
                    },
                }
            },
            Expr::InfixExpr { left, right, op } => {
                match self.eval_expr(left) {
                    Err(err) => Err(err),
                    Ok(left) => {
                        if left.is_return() {
                            Ok(left)
                        } else {
                            match self.eval_expr(right) {
                                Err(err) => Err(err),
                                Ok(right) => {
                                    if right.is_return() {
                                        Ok(right)
                                    } else {
                                        self.eval_infix_expr(left, right, op)
                                    }
                                },
                            }
                        }
                    },
                }
            },
            Expr::IfExpr { condition, consequence, alternative } => {
                match self.eval_expr(condition) {
                    Err(err) => Err(err),
                    Ok(cond) => {
                        if cond.is_return() {
                            Ok(cond)
                        } else if cond.is_truthy() {
                            self.eval_stmt(consequence)
                        } else {
                            match alternative {
                                Some(alt) => self.eval_stmt(alt),
                                None => Ok(Object::Null),
                            }
                        }
                    },
                }
            },
            Expr::FuncLiteral { parameters, body } => Ok(
                Object::FunctionLiteral {
                    params: clone_exprs(parameters),
                    body: (**body).clone(),
                    env: self.scope,
                },
            ),
            Expr::CallExpr { function, args } => {
                match native_of(function) {
                    Some(f) => {
                        match self.eval_call_expr(args) {
                            Err(err) => Err(err),
                            Ok(vals) => {
                                if is_pending(&vals) {
                                    Ok(take_last(vals))
                                } else {
                                    call(f, vals, &mut self.output)
                                }
                            },
                        }
                    },
                    None => {
                        match self.eval_expr(function) {
                            Err(err) => Err(err),
                            Ok(func) => {
                                if func.is_return() {
                                    Ok(func)
                                } else {
                                    match self.eval_call_expr(args) {
                                        Err(err) => Err(err),
                                        Ok(vals) => {
                                            if is_pending(&vals) {
                                                Ok(take_last(vals))
                                            } else {
                                                self.apply_function(func, vals)
                                            }
                                        },
                                    }
                                }
                            },
                        }
                    },
                }
            },
            Expr::ArrayLiteral { elements } => {
                match self.eval_call_expr(elements) {
                    Err(err) => Err(err),
                    Ok(vals) => {
                        if is_pending(&vals) {
                            Ok(take_last(vals))
                        } else {
                            Ok(Object::Array { elements: vals })
                        }
                    },
                }
            },
            Expr::IndexExpr { left, index } => {
                match self.eval_expr(left) {
                    Err(err) => Err(err),
                    Ok(left) => {
                        if left.is_return() {
                            Ok(left)
                        } else {
                            match self.eval_expr(index) {
                                Err(err) => Err(err),
                                Ok(index) => {
                                    if index.is_return() {
                                        Ok(index)
                                    } else {
                                        match (&left, &index) {
                                            (Object::Array { elements }, Object::Integer(i)) => Ok(
                                                element_at(elements, *i),
                                            ),
                                            _ => Err(custom("index operator not supported")),
                                        }
                                    }
                                },
                            }
                        }
                    },
                }
            },
            Expr::HashLiteral { .. } => Err(custom("hash literals are not supported")),
        }
    }

    /// Applies a prefix operator to a value.
    pub fn eval_prefix_expr(&mut self, op: &Prefix, right: Object) -> (r: Result<
        Object,
        MonkeyError,
    >)
        ensures
            result_view(r) == prefix_value(*op, right@),
            *final(self) == *old(self),
    {
        match op {
            Prefix::Bang => Ok(Object::Boolean(!right.is_truthy())),
            Prefix::Minus => match right {
                Object::Integer(val) => checked(0i64.checked_sub(val)),
                _ => Err(MonkeyError::UnknownPrefix(*op, right.obj_type())),
            },
        }
    }

    /// Applies an infix operator to two values.
    pub fn eval_infix_expr(&mut self, left: Object, right: Object, op: &Infix) -> (r: Result<
        Object,
        MonkeyError,
    >)
        ensures
            result_view(r) == infix_value(left@, right@, *op),
            *final(self) == *old(self),
    {
        match (&left, &right) {
            (Object::Integer(left), Object::Integer(right)) => match op {
                Infix::Plus => checked(left.checked_add(*right)),
                Infix::Minus => checked(left.checked_sub(*right)),
                Infix::Asterisk => checked(left.checked_mul(*right)),
                Infix::Slash => {
                    if *right == 0 {
                        Err(custom("division by zero"))
                    } else {
                        checked(left.checked_div(*right))
                    }
                },
                Infix::LessThan => Ok(Object::Boolean(*left < *right)),
                Infix::GreaterThan => Ok(Object::Boolean(*left > *right)),
                Infix::Eq => Ok(Object::Boolean(*left == *right)),
                Infix::NotEq => Ok(Object::Boolean(*left != *right)),
            },
            (Object::Boolean(l), Object::Boolean(r)) => match op {
                Infix::Eq => Ok(Object::Boolean(*l == *r)),
                Infix::NotEq => Ok(Object::Boolean(*l != *r)),
                _ => Err(MonkeyError::UnknownOperator(left.obj_type(), right.obj_type(), *op)),
            },
            (Object::String(l), Object::String(r)) => match op {
                Infix::Plus => Ok(Object::String(l.clone().concat(r.as_str()))),
                _ => Err(MonkeyError::UnknownOperator(left.obj_type(), right.obj_type(), *op)),
            },
            _ => Err(MonkeyError::TypeMismatch(left.obj_type(), right.obj_type(), *op)),
        }
    }

    /// Evaluates the arguments of a call, or the elements of an array,
    /// from left to right. Where one of them yields a returned value on its
    /// way out, the list ends with that value and the rest is not
    /// evaluated.
    pub fn eval_call_expr(&mut self, params: &Vec<Expr>) -> (r: Result<Vec<Object>, MonkeyError>)
        ensures
            (final(self).world(), list_view(r)) == list_outcome(
                exprs_view(params@),
                0,
                Seq::empty(),
                old(self).world(),
                old(self).scope as nat,
                old(self).depth as nat,
            ),
            final(self).scope == old(self).scope,
            final(self).depth == old(self).depth,
        decreases old(self).depth, 1nat, params@.len(),
    {
        let mut result: Vec<Object> = Vec::new();
        let mut i: usize = 0;
        assert(objects_view(result@) =~= Seq::<ObjectView>::empty());
        while i < params.len()
            invariant
                0 <= i <= params.len(),
                self.scope == old(self).scope,
                self.depth == old(self).depth,
                list_outcome(
                    exprs_view(params@),
                    i as nat,
                    objects_view(result@),
                    self.world(),
                    self.scope as nat,
                    self.depth as nat,
                ) == list_outcome(
                    exprs_view(params@),
                    0,
                    Seq::empty(),
                    old(self).world(),
                    old(self).scope as nat,
                    old(self).depth as nat,
                ),
            decreases params.len() - i,
        {
            assert(exprs_view(params@)[i as int] == params[i as int]@);
            let ghost before = objects_view(result@);
            match self.eval_expr(&params[i]) {
                Err(err) => {
                    return Err(err);
                },
                Ok(evaluated) => {
                    let stop = evaluated.is_return();
                    let ghost val = evaluated@;
                    result.push(evaluated);
                    assert(objects_view(result@) =~= before.push(val));
                    if stop {
                        return Ok(result);
                    }
                },
            }
            i += 1;
        }
        Ok(result)
    }

    /// Calls a function value on arguments.
    pub fn apply_function(&mut self, function: Object, args: Vec<Object>) -> (r: Result<
        Object,
        MonkeyError,
    >)
        ensures
            (final(self).world(), result_view(r)) == call_outcome(
                function@,
                objects_view(args@),
                old(self).world(),
                old(self).depth as nat,
            ),
            final(self).scope == old(self).scope,
            final(self).depth == old(self).depth,
        decreases old(self).depth, 1nat, 0nat,
    {
        match function {
            Object::FunctionLiteral { params, body, env } => {
                let caller: usize = self.scope;
                let scope: usize = self.env.new_enclosed_env(env);
                let mut i: usize = 0;
                while i < params.len() && i < args.len()
                    invariant
                        0 <= i <= params.len(),
                        self.depth == old(self).depth,
                        self.output == old(self).output,
                        self.scope == caller,
                        scope == old(self).env@.len(),
                        bind_params(
                            self.env@,
                            scope as nat,
                            exprs_view(params@),
                            objects_view(args@),
                            i as nat,
                        ) == bind_params(
                            enclose(old(self).env@, env as nat),
                            scope as nat,
                            exprs_view(params@),
                            objects_view(args@),
                            0,
                        ),
                    decreases params.len() - i,
                {
                    assert(exprs_view(params@)[i as int] == params[i as int]@);
                    assert(objects_view(args@)[i as int] == args[i as int]@);
                    match &params[i] {
                        Expr::Ident(ident) => {
                            self.env.set(scope, ident.clone(), args[i].clone());
                        },
                        _ => {},
                    }
                    i += 1;
                }
                self.scope = scope;
                let r = self.eval_stmt(&body);
                self.scope = caller;
                unwrap_return(r)
            },
            Object::BuiltIn(f) => call(f, args, &mut self.output),
            other => {
                let mut msg = String::from_str("not a function: ");
                msg.append(other.obj_type().as_str());
                Err(MonkeyError::Custom(msg))
            },
        }
    }
}

impl Default for Evaluator {
    fn default() -> (r: Self)
        ensures
            r.env@ == seq![ScopeView { store: Map::empty(), outer: None }],
            r.output@ == Seq::<String>::empty(),
            r.scope == 0,
            r.depth == DEFAULT_DEPTH,
    {
        Evaluator::new()
    }
}

} // verus!
