//! The syntax tree of a program, and its canonical text.

use crate::operator::{Infix, Prefix};
use crate::text::{i64_to_string, int_text};
use vstd::prelude::*;

verus! {

/// A program: statements in the order in which they run.
#[derive(Debug)]
pub struct Program {
    pub stmts: Vec<Stmt>,
}

/// A statement.
#[derive(Debug, PartialEq, Eq)]
pub enum Stmt {
    LetStatement { ident: Expr, value: Expr },
    ReturnStatement { value: Expr },
    ExpressionStatement { expr: Expr },
    BlockStatement { stmts: Vec<Stmt> },
}

/// An expression. An expression owns its parts: the tree has no sharing
/// and no cycles.
#[derive(Debug, PartialEq, Eq)]
#[allow(inconsistent_fields)]
pub enum Expr {
    Ident(String),
    String(String),
    Int(i64),
    Boolean(bool),
    PrefixExpr { op: Prefix, right: Box<Expr> },
    InfixExpr { left: Box<Expr>, right: Box<Expr>, op: Infix },
    IfExpr { condition: Box<Expr>, consequence: Box<Stmt>, alternative: Option<Box<Stmt>> },
    FuncLiteral { parameters: Vec<Expr>, body: Box<Stmt> },
    CallExpr { function: Box<Expr>, args: Vec<Expr> },
    ArrayLiteral { elements: Vec<Expr> },
    IndexExpr { left: Box<Expr>, index: Box<Expr> },
    HashLiteral { pairs: Vec<(Expr, Expr)> },
}

/// The mathematical value of a [`Stmt`].
pub enum StmtView {
    LetStatement { ident: ExprView, value: ExprView },
    ReturnStatement { value: ExprView },
    ExpressionStatement { expr: ExprView },
    BlockStatement { stmts: Seq<StmtView> },
}

/// The mathematical value of an [`Expr`].
#[allow(inconsistent_fields)]
pub enum ExprView {
    Ident(Seq<char>),
    String(Seq<char>),
    Int(int),
    Boolean(bool),
    PrefixExpr { op: Prefix, right: Box<ExprView> },
    InfixExpr { left: Box<ExprView>, right: Box<ExprView>, op: Infix },
    IfExpr { condition: Box<ExprView>, consequence: Box<StmtView>, alternative: Option<Box<StmtView>> },
    FuncLiteral { parameters: Seq<ExprView>, body: Box<StmtView> },
    CallExpr { function: Box<ExprView>, args: Seq<ExprView> },
    ArrayLiteral { elements: Seq<ExprView> },
    IndexExpr { left: Box<ExprView>, index: Box<ExprView> },
    HashLiteral { pairs: Seq<(ExprView, ExprView)> },
}

/// The mathematical values of the statements `v`.
pub open spec fn stmts_view(v: Seq<Stmt>) -> Seq<StmtView>
    decreases v,
{
    Seq::new(
        v.len(),
        |i: int|
            if 0 <= i < v.len() {
                stmt_view(v[i])
            } else {
                arbitrary()
            },
    )
}

/// The mathematical values of the expressions `v`.
pub open spec fn exprs_view(v: Seq<Expr>) -> Seq<ExprView>
    decreases v,
{
    Seq::new(
        v.len(),
        |i: int|
            if 0 <= i < v.len() {
                expr_view(v[i])
            } else {
                arbitrary()
            },
    )
}

/// The mathematical values of the key-value pairs `v`.
pub open spec fn pairs_view(v: Seq<(Expr, Expr)>) -> Seq<(ExprView, ExprView)>
    decreases v,
{
    Seq::new(
        v.len(),
        |i: int|
            if 0 <= i < v.len() {
                (expr_view(v[i].0), expr_view(v[i].1))
            } else {
                arbitrary()
            },
    )
}

/// The mathematical value of a statement.
pub open spec fn stmt_view(s: Stmt) -> StmtView
    decreases s,
{
    match s {
        Stmt::LetStatement { ident, value } => StmtView::LetStatement {
            ident: expr_view(ident),
            value: expr_view(value),
        },
        Stmt::ReturnStatement { value } => StmtView::ReturnStatement { value: expr_view(value) },
        Stmt::ExpressionStatement { expr } => StmtView::ExpressionStatement {
            expr: expr_view(expr),
        },
        Stmt::BlockStatement { stmts } => StmtView::BlockStatement { stmts: stmts_view(stmts@) },
    }
}

/// The mathematical value of an expression.
pub open spec fn expr_view(e: Expr) -> ExprView
    decreases e,
{
    match e {
        Expr::Ident(s) => ExprView::Ident(s@),
        Expr::String(s) => ExprView::String(s@),
        Expr::Int(n) => ExprView::Int(n as int),
        Expr::Boolean(b) => ExprView::Boolean(b),
        Expr::PrefixExpr { op, right } => ExprView::PrefixExpr {
            op,
            right: Box::new(expr_view(*right)),
        },
        Expr::InfixExpr { left, right, op } => ExprView::InfixExpr {
            left: Box::new(expr_view(*left)),
            right: Box::new(expr_view(*right)),
            op,
        },
        Expr::IfExpr { condition, consequence, alternative } => ExprView::IfExpr {
            condition: Box::new(expr_view(*condition)),
            consequence: Box::new(stmt_view(*consequence)),
            alternative: match alternative {
                Some(alt) => Some(Box::new(stmt_view(*alt))),
                None => None,
            },
        },
        Expr::FuncLiteral { parameters, body } => ExprView::FuncLiteral {
            parameters: exprs_view(parameters@),
            body: Box::new(stmt_view(*body)),
        },
        Expr::CallExpr { function, args } => ExprView::CallExpr {
            function: Box::new(expr_view(*function)),
            args: exprs_view(args@),
        },
        Expr::ArrayLiteral { elements } => ExprView::ArrayLiteral {
            elements: exprs_view(elements@),
        },
        Expr::IndexExpr { left, index } => ExprView::IndexExpr {
            left: Box::new(expr_view(*left)),
            index: Box::new(expr_view(*index)),
        },
        Expr::HashLiteral { pairs } => ExprView::HashLiteral { pairs: pairs_view(pairs@) },
    }
}

impl View for Stmt {
    type V = StmtView;

    open spec fn view(&self) -> StmtView {
        stmt_view(*self)
    }
}

impl View for Expr {
    type V = ExprView;

    open spec fn view(&self) -> ExprView {
        expr_view(*self)
    }
}

impl View for Program {
    type V = Seq<StmtView>;

    open spec fn view(&self) -> Seq<StmtView> {
        stmts_view(self.stmts@)
    }
}

/// The canonical text of the expressions `es`, with `sep` between them.
pub open spec fn join_text(es: Seq<ExprView>, sep: Seq<char>) -> Seq<char>
    decreases es,
{
    if es.len() == 0 {
        Seq::empty()
    } else if es.len() == 1 {
        expr_text(es[0])
    } else {
        join_text(es.drop_last(), sep) + sep + expr_text(es.last())
    }
}

/// The canonical text of the key-value pairs `ps`: each as `key: value`,
/// with `, ` between them.
pub open spec fn pairs_text(ps: Seq<(ExprView, ExprView)>) -> Seq<char>
    decreases ps,
{
    if ps.len() == 0 {
        Seq::empty()
    } else if ps.len() == 1 {
        expr_text(ps[0].0) + ": "@ + expr_text(ps[0].1)
    } else {
        pairs_text(ps.drop_last()) + ", "@ + expr_text(ps.last().0) + ": "@ + expr_text(
            ps.last().1,
        )
    }
}

/// The canonical text of the statements `ss`, one after the other with
/// nothing between them.
pub open spec fn block_text(ss: Seq<StmtView>) -> Seq<char>
    decreases ss,
{
    if ss.len() == 0 {
        Seq::empty()
    } else {
        block_text(ss.drop_last()) + stmt_text(ss.last())
    }
}

/// The canonical text of a statement.
pub open spec fn stmt_text(s: StmtView) -> Seq<char>
    decreases s,
{
    match s {
        StmtView::LetStatement { ident, value } => "let "@ + expr_text(ident) + " = "@ + expr_text(
            value,
        ),
        StmtView::ReturnStatement { value } => "return "@ + expr_text(value),
        StmtView::ExpressionStatement { expr } => expr_text(expr),
        StmtView::BlockStatement { stmts } => block_text(stmts),
    }
}

/// The canonical text of an expression. Prefix, infix and index expressions
/// are fully parenthesised, and string literals are quoted.
pub open spec fn expr_text(e: ExprView) -> Seq<char>
    decreases e,
{
    match e {
        ExprView::Ident(s) => s,
        ExprView::String(s) => "\""@ + s + "\""@,
        ExprView::Int(n) => int_text(n),
        ExprView::Boolean(b) => if b {
            "true"@
        } else {
            "false"@
        },
        ExprView::PrefixExpr { op, right } => "("@ + op.symbol() + expr_text(*right) + ")"@,
        ExprView::InfixExpr { left, right, op } => "("@ + expr_text(*left) + " "@ + op.symbol()
            + " "@ + expr_text(*right) + ")"@,
        ExprView::IfExpr { condition, consequence, alternative } => match alternative {
            Some(alt) => "if("@ + expr_text(*condition) + "){"@ + stmt_text(*consequence)
                + "}else{"@ + stmt_text(*alt) + "}"@,
            None => "if("@ + expr_text(*condition) + "){"@ + stmt_text(*consequence) + "}"@,
        },
        ExprView::FuncLiteral { parameters, body } => "fn("@ + join_text(parameters, ","@)
            + "){"@ + stmt_text(*body) + "}"@,
        ExprView::CallExpr { function, args } => expr_text(*function) + "("@ + join_text(
            args,
            ", "@,
        ) + ")"@,
        ExprView::ArrayLiteral { elements } => "["@ + join_text(elements, ", "@) + "]"@,
        ExprView::IndexExpr { left, index } => "("@ + expr_text(*left) + "["@ + expr_text(*index)
            + "])"@,
        ExprView::HashLiteral { pairs } => "{"@ + pairs_text(pairs) + "}"@,
    }
}

/// The canonical text of a program: each statement followed by a line
/// feed.
pub open spec fn program_text(ss: Seq<StmtView>) -> Seq<char>
    decreases ss.len(),
{
    if ss.len() == 0 {
        Seq::empty()
    } else {
        program_text(ss.drop_last()) + stmt_text(ss.last()) + "\n"@
    }
}

/// Writes the expressions `items` with `sep` between them.
pub fn join_to_string(items: &Vec<Expr>, sep: &str) -> (r: String)
    ensures
        r@ == join_text(exprs_view(items@), sep@),
    decreases items,
{
    let mut out = String::new();
    let mut i: usize = 0;
    while i < items.len()
        invariant
            0 <= i <= items.len(),
            out@ == join_text(exprs_view(items@).take(i as int), sep@),
        decreases items.len() - i,
    {
        if i > 0 {
            out.append(sep);
        }
        assert(decreases_to!(items => items[i as int]));
        let t = items[i].to_string();
        out.append(t.as_str());
        proof {
            let all = exprs_view(items@);
            assert(all.take(i + 1).drop_last() =~= all.take(i as int));
            assert(all.take(i + 1).last() == items[i as int]@);
        }
        i += 1;
    }
    assert(exprs_view(items@).take(items.len() as int) =~= exprs_view(items@));
    out
}

fn pairs_to_string(items: &Vec<(Expr, Expr)>) -> (r: String)
    ensures
        r@ == pairs_text(pairs_view(items@)),
    decreases items,
{
    let mut out = String::new();
    let mut i: usize = 0;
    while i < items.len()
        invariant
            0 <= i <= items.len(),
            out@ == pairs_text(pairs_view(items@).take(i as int)),
        decreases items.len() - i,
    {
        if i > 0 {
            out.append(", ");
        }
        assert(decreases_to!(items => items[i as int]));
        let k = items[i].0.to_string();
        out.append(k.as_str());
        out.append(": ");
        let v = items[i].1.to_string();
        out.append(v.as_str());
        proof {
            let all = pairs_view(items@);
            assert(all.take(i + 1).drop_last() =~= all.take(i as int));
            assert(all.take(i + 1).last() == (items[i as int].0@, items[i as int].1@));
        }
        i += 1;
    }
    assert(pairs_view(items@).take(items.len() as int) =~= pairs_view(items@));
    out
}

fn block_to_string(items: &Vec<Stmt>) -> (r: String)
    ensures
        r@ == block_text(stmts_view(items@)),
    decreases items,
{
    let mut out = String::new();
    let mut i: usize = 0;
    while i < items.len()
        invariant
            0 <= i <= items.len(),
            out@ == block_text(stmts_view(items@).take(i as int)),
        decreases items.len() - i,
    {
        assert(decreases_to!(items => items[i as int]));
        let t = items[i].to_string();
        out.append(t.as_str());
        proof {
            let all = stmts_view(items@);
            assert(all.take(i + 1).drop_last() =~= all.take(i as int));
            assert(all.take(i + 1).last() == items[i as int]@);
        }
        i += 1;
    }
    assert(stmts_view(items@).take(items.len() as int) =~= stmts_view(items@));
    out
}

impl Stmt {
    /// The canonical text of the statement.
    pub fn to_string(&self) -> (r: String)
        ensures
            r@ == stmt_text(self@),
        decreases self,
    {
        match self {
            Stmt::LetStatement { ident, value } => {
                let mut out = String::from_str("let ");
                let i = ident.to_string();
                out.append(i.as_str());
                out.append(" = ");
                let v = value.to_string();
                out.append(v.as_str());
                out
            },
            Stmt::ReturnStatement { value } => {
                let mut out = String::from_str("return ");
                let v = value.to_string();
                out.append(v.as_str());
                out
            },
            Stmt::ExpressionStatement { expr } => expr.to_string(),
            Stmt::BlockStatement { stmts } => block_to_string(stmts),
        }
    }
}

impl Expr {
    /// The canonical text of the expression.
    pub fn to_string(&self) -> (r: String)
        ensures
            r@ == expr_text(self@),
        decreases self,
    {
        match self {
            Expr::Ident(ident) => ident.clone(),
            Expr::String(val) => {
                let mut out = String::from_str("\"");
                out.append(val.as_str());
                out.append("\"");
                out
            },
            Expr::Int(val) => i64_to_string(*val),
            Expr::Boolean(val) => {
                if *val {
                    String::from_str("true")
                } else {
                    String::from_str("false")
                }
            },
            Expr::PrefixExpr { op, right } => {
                let mut out = String::from_str("(");
                out.append(op.to_string().as_str());
                let r = right.to_string();
                out.append(r.as_str());
                out.append(")");
                out
            },
            Expr::InfixExpr { left, right, op } => {
                let mut out = String::from_str("(");
                let l = left.to_string();
                out.append(l.as_str());
                out.append(" ");
                out.append(op.to_string().as_str());
                out.append(" ");
                let r = right.to_string();
                out.append(r.as_str());
                out.append(")");
                out
            },
            Expr::IfExpr { condition, consequence, alternative } => {
                let mut out = String::from_str("if(");
                let c = condition.to_string();
                out.append(c.as_str());
                out.append("){");
                let t = consequence.to_string();
                out.append(t.as_str());
                match alternative {
                    Some(alt) => {
                        out.append("}else{");
                        let a = alt.to_string();
                        out.append(a.as_str());
                        out.append("}");
                    },
                    None => {
                        out.append("}");
                    },
                }
                out
            },
            Expr::FuncLiteral { parameters, body } => {
                let mut out = String::from_str("fn(");
                let p = join_to_string(parameters, ",");
                out.append(p.as_str());
                out.append("){");
                let b = body.to_string();
                out.append(b.as_str());
                out.append("}");
                out
            },
            Expr::CallExpr { function, args } => {
                let mut out = function.to_string();
                out.append("(");
                let a = join_to_string(args, ", ");
                out.append(a.as_str());
                out.append(")");
                out
            },
            Expr::ArrayLiteral { elements } => {
                let mut out = String::from_str("[");
                let e = join_to_string(elements, ", ");
                out.append(e.as_str());
                out.append("]");
                out
            },
            Expr::IndexExpr { left, index } => {
                let mut out = String::from_str("(");
                let l = left.to_string();
                out.append(l.as_str());
                out.append("[");
                let i = index.to_string();
                out.append(i.as_str());
                out.append("])");
                out
            },
            Expr::HashLiteral { pairs } => {
                let mut out = String::from_str("{");
                let p = pairs_to_string(pairs);
                out.append(p.as_str());
                out.append("}");
                out
            },
        }
    }
}

impl Program {
    /// A program without statements.
    pub fn new() -> (r: Self)
        ensures
            r@ == Seq::<StmtView>::empty(),
    {
        let r = Program { stmts: Vec::new() };
        assert(r@ =~= Seq::<StmtView>::empty());
        r
    }

    /// The canonical text of the program.
    pub fn to_string(&self) -> (r: String)
        ensures
            r@ == program_text(self@),
    {
        let mut out = String::new();
        let mut i: usize = 0;
        while i < self.stmts.len()
            invariant
                0 <= i <= self.stmts.len(),
                out@ == program_text(self@.take(i as int)),
            decreases self.stmts.len() - i,
        {
            let t = self.stmts[i].to_string();
            out.append(t.as_str());
            out.append("\n");
            proof {
                assert(self@.take(i + 1).drop_last() =~= self@.take(i as int));
                assert(self@.take(i + 1).last() == self.stmts[i as int]@);
            }
            i += 1;
        }
        assert(self@.take(self.stmts.len() as int) =~= self@);
        out
    }
}

impl Default for Program {
    fn default() -> (r: Self)
        ensures
            r@ == Seq::<StmtView>::empty(),
    {
        Program::new()
    }
}

/// A copy of the expressions `items`.
pub fn clone_exprs(items: &Vec<Expr>) -> (r: Vec<Expr>)
    ensures
        exprs_view(r@) == exprs_view(items@),
    decreases items,
{
    let mut out: Vec<Expr> = Vec::new();
    let mut i: usize = 0;
    while i < items.len()
        invariant
            0 <= i <= items.len(),
            out.len() == i,
            forall|j: int| 0 <= j < i ==> out[j]@ == items[j]@,
        decreases items.len() - i,
    {
        assert(decreases_to!(items => items[i as int]));
        let e = items[i].clone();
        out.push(e);
        i += 1;
    }
    assert(exprs_view(out@) =~= exprs_view(items@));
    out
}

fn clone_pairs(items: &Vec<(Expr, Expr)>) -> (r: Vec<(Expr, Expr)>)
    ensures
        pairs_view(r@) == pairs_view(items@),
    decreases items,
{
    let mut out: Vec<(Expr, Expr)> = Vec::new();
    let mut i: usize = 0;
    while i < items.len()
        invariant
            0 <= i <= items.len(),
            out.len() == i,
            forall|j: int| 0 <= j < i ==> out[j].0@ == items[j].0@ && out[j].1@ == items[j].1@,
        decreases items.len() - i,
    {
        assert(decreases_to!(items => items[i as int]));
        let k = items[i].0.clone();
        let v = items[i].1.clone();
        out.push((k, v));
        i += 1;
    }
    assert(pairs_view(out@) =~= pairs_view(items@));
    out
}

fn clone_stmts(items: &Vec<Stmt>) -> (r: Vec<Stmt>)
    ensures
        stmts_view(r@) == stmts_view(items@),
    decreases items,
{
    let mut out: Vec<Stmt> = Vec::new();
    let mut i: usize = 0;
    while i < items.len()
        invariant
            0 <= i <= items.len(),
            out.len() == i,
            forall|j: int| 0 <= j < i ==> out[j]@ == items[j]@,
        decreases items.len() - i,
    {
        assert(decreases_to!(items => items[i as int]));
        let e = items[i].clone();
        out.push(e);
        i += 1;
    }
    assert(stmts_view(out@) =~= stmts_view(items@));
    out
}

impl Clone for Stmt {
    fn clone(&self) -> (r: Self)
        ensures
            r@ == self@,
        decreases self,
    {
        match self {
            Stmt::LetStatement { ident, value } => Stmt::LetStatement {
                ident: ident.clone(),
                value: value.clone(),
            },
            Stmt::ReturnStatement { value } => Stmt::ReturnStatement { value: value.clone() },
            Stmt::ExpressionStatement { expr } => Stmt::ExpressionStatement { expr: expr.clone() },
            Stmt::BlockStatement { stmts } => Stmt::BlockStatement { stmts: clone_stmts(stmts) },
        }
    }
}

impl Clone for Expr {
    fn clone(&self) -> (r: Self)
        ensures
            r@ == self@,
        decreases self,
    {
        match self {
            Expr::Ident(s) => Expr::Ident(s.clone()),
            Expr::String(s) => Expr::String(s.clone()),
            Expr::Int(n) => Expr::Int(*n),
            Expr::Boolean(b) => Expr::Boolean(*b),
            Expr::PrefixExpr { op, right } => Expr::PrefixExpr {
                op: *op,
                right: Box::new((**right).clone()),
            },
            Expr::InfixExpr { left, right, op } => Expr::InfixExpr {
                left: Box::new((**left).clone()),
                right: Box::new((**right).clone()),
                op: *op,
            },
            Expr::IfExpr { condition, consequence, alternative } => {
                let alt = match alternative {
                    Some(a) => Some(Box::new((**a).clone())),
                    None => None,
                };
                Expr::IfExpr {
                    condition: Box::new((**condition).clone()),
                    consequence: Box::new((**consequence).clone()),
                    alternative: alt,
                }
            },
            Expr::FuncLiteral { parameters, body } => Expr::FuncLiteral {
                parameters: clone_exprs(parameters),
                body: Box::new((**body).clone()),
            },
            Expr::CallExpr { function, args } => Expr::CallExpr {
                function: Box::new((**function).clone()),
                args: clone_exprs(args),
            },
            Expr::ArrayLiteral { elements } => Expr::ArrayLiteral {
                elements: clone_exprs(elements),
            },
            Expr::IndexExpr { left, index } => Expr::IndexExpr {
                left: Box::new((**left).clone()),
                index: Box::new((**index).clone()),
            },
            Expr::HashLiteral { pairs } => Expr::HashLiteral { pairs: clone_pairs(pairs) },
        }
    }
}

} // verus!
