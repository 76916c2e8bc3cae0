//! The values that evaluation produces.

use crate::ast::{
    clone_exprs,
    exprs_view,
    join_text,
    join_to_string,
    stmt_text,
    Expr,
    ExprView,
    Stmt,
    StmtView,
};
use crate::builtin::BuiltInFunction;
use crate::text::{i64_to_string, int_text};
use vstd::prelude::*;

verus! {

/// A runtime value.
#[derive(Debug)]
pub enum Object {
    Integer(i64),
    Boolean(bool),
    String(String),
    Null,
    /// The value of a `return` statement on its way out of the enclosing
    /// blocks. It is unwrapped where a function call or the program ends,
    /// and is never held inside another value.
    ReturnValue(Box<Object>),
    /// A function value: its parameters, its body, and the scope in which
    /// it was made, as an index into the environment.
    FunctionLiteral { params: Vec<Expr>, body: Stmt, env: usize },
    /// A native function.
    BuiltIn(BuiltInFunction),
    Array { elements: Vec<Object> },
}

/// The mathematical value of an [`Object`].
pub enum ObjectView {
    Integer(int),
    Boolean(bool),
    String(Seq<char>),
    Null,
    ReturnValue(Box<ObjectView>),
    FunctionLiteral { params: Seq<ExprView>, body: StmtView, env: nat },
    BuiltIn(BuiltInFunction),
    Array { elements: Seq<ObjectView> },
}

/// The mathematical values of the values `v`.
pub open spec fn objects_view(v: Seq<Object>) -> Seq<ObjectView>
    decreases v,
{
    Seq::new(
        v.len(),
        |i: int|
            if 0 <= i < v.len() {
                object_view(v[i])
            } else {
                arbitrary()
            },
    )
}

/// The mathematical value of a value.
pub open spec fn object_view(o: Object) -> ObjectView
    decreases o,
{
    match o {
        Object::Integer(n) => ObjectView::Integer(n as int),
        Object::Boolean(b) => ObjectView::Boolean(b),
        Object::String(s) => ObjectView::String(s@),
        Object::Null => ObjectView::Null,
        Object::ReturnValue(inner) => ObjectView::ReturnValue(Box::new(object_view(*inner))),
        Object::FunctionLiteral { params, body, env } => ObjectView::FunctionLiteral {
            params: exprs_view(params@),
            body: body@,
            env: env as nat,
        },
        Object::BuiltIn(f) => ObjectView::BuiltIn(f),
        Object::Array { elements } => ObjectView::Array { elements: objects_view(elements@) },
    }
}

impl View for Object {
    type V = ObjectView;

    open spec fn view(&self) -> ObjectView {
        object_view(*self)
    }
}

/// The canonical text of the values `os`, with `, ` between them.
pub open spec fn objects_text(os: Seq<ObjectView>) -> Seq<char>
    decreases os,
{
    if os.len() == 0 {
        Seq::empty()
    } else if os.len() == 1 {
        object_text(os[0])
    } else {
        objects_text(os.drop_last()) + ", "@ + object_text(os.last())
    }
}

/// The canonical text of a value. A returned value reads as the value it
/// wraps.
pub open spec fn object_text(o: ObjectView) -> Seq<char>
    decreases o,
{
    match o {
        ObjectView::Integer(n) => int_text(n),
        ObjectView::String(s) => "\""@ + s + "\""@,
        ObjectView::Boolean(b) => if b {
            "true"@
        } else {
            "false"@
        },
        ObjectView::Null => "null"@,
        ObjectView::ReturnValue(inner) => object_text(*inner),
        ObjectView::FunctionLiteral { params, body, env } => "fn("@ + join_text(params, ", "@)
            + "){"@ + stmt_text(body) + "}"@,
        ObjectView::BuiltIn(_) => "builtin function"@,
        ObjectView::Array { elements } => "["@ + objects_text(elements) + "]"@,
    }
}

/// The name of a value's type, as error messages show it.
pub open spec fn kind_name(o: ObjectView) -> Seq<char> {
    match o {
        ObjectView::Integer(_) => "INTEGER"@,
        ObjectView::Boolean(_) => "BOOLEAN"@,
        ObjectView::String(_) => "STRING"@,
        ObjectView::Null => "NULL"@,
        ObjectView::ReturnValue(_) => "RETURN_VALUE"@,
        ObjectView::FunctionLiteral { .. } => "FunctionLiteral"@,
        ObjectView::BuiltIn(_) => "BUILTIN"@,
        ObjectView::Array { .. } => "ARRAY"@,
    }
}

/// Whether a value counts as true in a condition: `false` and `null` do
/// not, every other value does.
pub open spec fn truthy(o: ObjectView) -> bool {
    match o {
        ObjectView::Null => false,
        ObjectView::Boolean(b) => b,
        _ => true,
    }
}

/// A copy of the values `items`.
pub fn clone_objects(items: &Vec<Object>) -> (r: Vec<Object>)
    ensures
        objects_view(r@) == objects_view(items@),
    decreases items,
{
    let mut out: Vec<Object> = Vec::new();
    let mut i: usize = 0;
    while i < items.len()
        invariant
            0 <= i <= items.len(),
            out.len() == i,
            forall|j: int| 0 <= j < i ==> out[j]@ == items[j]@,
        decreases items.len() - i,
    {
        assert(decreases_to!(items => items[i as int]));
        let e = items[i].clone();
        out.push(e);
        i += 1;
    }
    assert(objects_view(out@) =~= objects_view(items@));
    out
}

impl Clone for Object {
    fn clone(&self) -> (r: Self)
        ensures
            r@ == self@,
        decreases self,
    {
        match self {
            Object::Integer(n) => Object::Integer(*n),
            Object::Boolean(b) => Object::Boolean(*b),
            Object::String(s) => Object::String(s.clone()),
            Object::Null => Object::Null,
            Object::ReturnValue(inner) => Object::ReturnValue(Box::new((**inner).clone())),
            Object::FunctionLiteral { params, body, env } => Object::FunctionLiteral {
                params: clone_exprs(params),
                body: body.clone(),
                env: *env,
            },
            Object::BuiltIn(f) => Object::BuiltIn(*f),
            Object::Array { elements } => Object::Array { elements: clone_objects(elements) },
        }
    }
}

fn objects_to_string(items: &Vec<Object>) -> (r: String)
    ensures
        r@ == objects_text(objects_view(items@)),
    decreases items,
{
    let mut out = String::new();
    let mut i: usize = 0;
    while i < items.len()
        invariant
            0 <= i <= items.len(),
            out@ == objects_text(objects_view(items@).take(i as int)),
        decreases items.len() - i,
    {
        if i > 0 {
            out.append(", ");
        }
        assert(decreases_to!(items => items[i as int]));
        let t = items[i].to_string();
        out.append(t.as_str());
        proof {
            let all = objects_view(items@);
            assert(all.take(i + 1).drop_last() =~= all.take(i as int));
            assert(all.take(i + 1).last() == items[i as int]@);
        }
        i += 1;
    }
    assert(objects_view(items@).take(items.len() as int) =~= objects_view(items@));
    out
}

impl Object {
    /// The canonical text of the value.
    pub fn to_string(&self) -> (r: String)
        ensures
            r@ == object_text(self@),
        decreases self,
    {
        match self {
            Object::Integer(val) => i64_to_string(*val),
            Object::String(val) => {
                let mut out = String::from_str("\"");
                out.append(val.as_str());
                out.append("\"");
                out
            },
            Object::Boolean(val) => {
                if *val {
                    String::from_str("true")
                } else {
                    String::from_str("false")
                }
            },
            Object::Null => String::from_str("null"),
            Object::ReturnValue(obj) => obj.to_string(),
            Object::FunctionLiteral { params, body, .. } => {
                let mut out = String::from_str("fn(");
                let p = join_to_string(params, ", ");
                out.append(p.as_str());
                out.append("){");
                let b = body.to_string();
                out.append(b.as_str());
                out.append("}");
                out
            },
            Object::BuiltIn(_) => String::from_str("builtin function"),
            Object::Array { elements } => {
                let mut out = String::from_str("[");
                let e = objects_to_string(elements);
                out.append(e.as_str());
                out.append("]");
                out
            },
        }
    }

    /// The name of the value's type.
    pub fn obj_type(&self) -> (r: String)
        ensures
            r@ == kind_name(self@),
    {
        match self {
            Object::Integer(_) => String::from_str("INTEGER"),
            Object::Boolean(_) => String::from_str("BOOLEAN"),
            Object::String(_) => String::from_str("STRING"),
            Object::Null => String::from_str("NULL"),
            Object::ReturnValue(_) => String::from_str("RETURN_VALUE"),
            Object::FunctionLiteral { .. } => String::from_str("FunctionLiteral"),
            Object::BuiltIn(_) => String::from_str("BUILTIN"),
            Object::Array { .. } => String::from_str("ARRAY"),
        }
    }

    /// Whether the value counts as true in a condition.
    pub fn is_truthy(&self) -> (r: bool)
        ensures
            r == truthy(self@),
    {
        match self {
            Object::Null => false,
            Object::Boolean(val) => *val,
            _ => true,
        }
    }

    /// Whether the value is the wrapper around a returned value.
    pub fn is_return(&self) -> (r: bool)
        ensures
            r == (self@ is ReturnValue),
    {
        match self {
            Object::ReturnValue(_) => true,
            _ => false,
        }
    }
}

} // verus!
