//! The native functions of the language, and the registry that finds them
//! by name.

use crate::environment::option_view;
use crate::error::{result_view, ErrorView, MonkeyError};
use crate::object::{clone_objects, kind_name, object_text, objects_view, Object, ObjectView};
use crate::text::{nat_text, usize_to_string};
use vstd::prelude::*;

verus! {

/// The native functions.
#[derive(Debug, Clone, Copy, PartialEq, Eq, Structural)]
pub enum BuiltInFunction {
    Len,
    First,
    Last,
    Rest,
    Push,
    Puts,
}

/// An entry of the registry: a name, and the native function as a value.
#[derive(Debug)]
pub struct BuiltIn {
    pub name: &'static str,
    pub builtin: Object,
}

impl View for BuiltIn {
    type V = (Seq<char>, ObjectView);

    open spec fn view(&self) -> (Seq<char>, ObjectView) {
        (self.name@, self.builtin@)
    }
}

/// The registry: the names of the native functions, in a fixed order.
pub open spec fn registry() -> Seq<(Seq<char>, ObjectView)> {
    seq![
        ("len"@, ObjectView::BuiltIn(BuiltInFunction::Len)),
        ("first"@, ObjectView::BuiltIn(BuiltInFunction::First)),
        ("last"@, ObjectView::BuiltIn(BuiltInFunction::Last)),
        ("rest"@, ObjectView::BuiltIn(BuiltInFunction::Rest)),
        ("push"@, ObjectView::BuiltIn(BuiltInFunction::Push)),
        ("puts"@, ObjectView::BuiltIn(BuiltInFunction::Puts)),
    ]
}

/// The value of the first entry of `table`, from index `from` on, whose
/// name is `name`.
pub open spec fn find_entry(table: Seq<(Seq<char>, ObjectView)>, from: int, name: Seq<char>)
    -> Option<ObjectView>
    decreases table.len() - from,
{
    if from < 0 || from >= table.len() {
        None
    } else if table[from].0 == name {
        Some(table[from].1)
    } else {
        find_entry(table, from + 1, name)
    }
}

/// The native function that the registry holds under `name`.
pub open spec fn builtin_named(name: Seq<char>) -> Option<ObjectView> {
    find_entry(registry(), 0, name)
}

/// The registry as a table.
pub fn builtins() -> (r: Vec<BuiltIn>)
    ensures
        r@.map_values(|b: BuiltIn| b@) == registry(),
{
    let mut table: Vec<BuiltIn> = Vec::new();
    table.push(BuiltIn { name: "len", builtin: Object::BuiltIn(BuiltInFunction::Len) });
    table.push(BuiltIn { name: "first", builtin: Object::BuiltIn(BuiltInFunction::First) });
    table.push(BuiltIn { name: "last", builtin: Object::BuiltIn(BuiltInFunction::Last) });
    table.push(BuiltIn { name: "rest", builtin: Object::BuiltIn(BuiltInFunction::Rest) });
    table.push(BuiltIn { name: "push", builtin: Object::BuiltIn(BuiltInFunction::Push) });
    table.push(BuiltIn { name: "puts", builtin: Object::BuiltIn(BuiltInFunction::Puts) });
    assert(table@.map_values(|b: BuiltIn| b@) =~= registry());
    table
}

/// The native function of the given name, as a value, or `None` where the
/// registry holds none under that name.
pub fn lookup(name: &str) -> (r: Option<Object>)
    ensures
        option_view(r) == builtin_named(name@),
{
    let table = builtins();
    let wanted = String::from_str(name);
    let ghost views = table@.map_values(|b: BuiltIn| b@);
    let mut i: usize = 0;
    while i < table.len()
        invariant
            0 <= i <= table.len(),
            views == table@.map_values(|b: BuiltIn| b@),
            views == registry(),
            wanted@ == name@,
            find_entry(views, i as int, name@) == builtin_named(name@),
        decreases table.len() - i,
    {
        assert(views[i as int] == table[i as int]@);
        if String::from_str(table[i].name) == wanted {
            return Some(table[i].builtin.clone());
        }
        i += 1;
    }
    None
}

/// The error of a call with `got` arguments where `want` are needed.
pub open spec fn wrong_arity(got: nat, want: nat) -> ErrorView {
    ErrorView::Custom(
        "wrong number of arguments. got="@ + nat_text(got) + ", want="@ + nat_text(want),
    )
}

/// The error of a call of the native function `name` on a value that it
/// does not take.
pub open spec fn unsupported_arg(name: Seq<char>, arg: ObjectView) -> ErrorView {
    ErrorView::Custom("arg to `"@ + name + "` not supported, got "@ + kind_name(arg))
}

/// The error of taking an element of an empty array.
pub open spec fn empty_array() -> ErrorView {
    ErrorView::Custom("this array is empty"@)
}

/// A length as an integer value; an error where it does not fit.
pub open spec fn length_value(n: nat) -> Result<ObjectView, ErrorView> {
    if n <= i64::MAX {
        Ok(ObjectView::Integer(n as int))
    } else {
        Err(ErrorView::UnsupportedNumError)
    }
}

/// `len(x)`: the number of characters of a string, or of elements of an
/// array.
pub open spec fn len_of(args: Seq<ObjectView>) -> Result<ObjectView, ErrorView> {
    if args.len() != 1 {
        Err(wrong_arity(args.len(), 1))
    } else {
        match args[0] {
            ObjectView::String(val) => length_value(val.len()),
            ObjectView::Array { elements } => length_value(elements.len()),
            arg => Err(unsupported_arg("len"@, arg)),
        }
    }
}

/// `first(arr)`: the first element of an array.
pub open spec fn first_of(args: Seq<ObjectView>) -> Result<ObjectView, ErrorView> {
    if args.len() != 1 {
        Err(wrong_arity(args.len(), 1))
    } else {
        match args[0] {
            ObjectView::Array { elements } => if elements.len() == 0 {
                Err(empty_array())
            } else {
                Ok(elements[0])
            },
            arg => Err(unsupported_arg("first"@, arg)),
        }
    }
}

/// `last(arr)`: the last element of an array.
pub open spec fn last_of(args: Seq<ObjectView>) -> Result<ObjectView, ErrorView> {
    if args.len() != 1 {
        Err(wrong_arity(args.len(), 1))
    } else {
        match args[0] {
            ObjectView::Array { elements } => if elements.len() == 0 {
                Err(empty_array())
            } else {
                Ok(elements.last())
            },
            arg => Err(unsupported_arg("last"@, arg)),
        }
    }
}

/// `rest(arr)`: a new array of all elements but the first.
pub open spec fn rest_of(args: Seq<ObjectView>) -> Result<ObjectView, ErrorView> {
    if args.len() != 1 {
        Err(wrong_arity(args.len(), 1))
    } else {
        match args[0] {
            ObjectView::Array { elements } => if elements.len() == 0 {
                Err(empty_array())
            } else {
                Ok(ObjectView::Array { elements: elements.drop_first() })
            },
            arg => Err(unsupported_arg("rest"@, arg)),
        }
    }
}

/// `push(arr, val)`: a new array of the elements of `arr` and then `val`.
pub open spec fn push_of(args: Seq<ObjectView>) -> Result<ObjectView, ErrorView> {
    if args.len() != 2 {
        Err(wrong_arity(args.len(), 2))
    } else {
        match args[0] {
            ObjectView::Array { elements } => Ok(
                ObjectView::Array { elements: elements.push(args[1]) },
            ),
            arg => Err(unsupported_arg("push"@, arg)),
        }
    }
}

/// The lines that `puts` writes: the canonical text of each argument.
pub open spec fn puts_lines(args: Seq<ObjectView>) -> Seq<Seq<char>> {
    args.map_values(|o: ObjectView| object_text(o))
}

/// What a call of the native function `f` on `args` does: the output
/// lines after it, given those before it, and its result.
pub open spec fn call_builtin(f: BuiltInFunction, args: Seq<ObjectView>, output: Seq<Seq<char>>)
    -> (Seq<Seq<char>>, Result<ObjectView, ErrorView>) {
    match f {
        BuiltInFunction::Len => (output, len_of(args)),
        BuiltInFunction::First => (output, first_of(args)),
        BuiltInFunction::Last => (output, last_of(args)),
        BuiltInFunction::Rest => (output, rest_of(args)),
        BuiltInFunction::Push => (output, push_of(args)),
        BuiltInFunction::Puts => (output + puts_lines(args), Ok(ObjectView::Null)),
    }
}

fn arity_error(got: usize, want: usize) -> (e: MonkeyError)
    ensures
        e@ == wrong_arity(got as nat, want as nat),
{
    let mut msg = String::from_str("wrong number of arguments. got=");
    msg.append(usize_to_string(got).as_str());
    msg.append(", want=");
    msg.append(usize_to_string(want).as_str());
    MonkeyError::Custom(msg)
}

fn argument_error(name: &str, arg: &Object) -> (e: MonkeyError)
    ensures
        e@ == unsupported_arg(name@, arg@),
{
    let mut msg = String::from_str("arg to `");
    msg.append(name);
    msg.append("` not supported, got ");
    msg.append(arg.obj_type().as_str());
    MonkeyError::Custom(msg)
}

fn length_object(n: usize) -> (r: Result<Object, MonkeyError>)
    ensures
        result_view(r) == length_value(n as nat),
{
    let wide: u64 = n as u64;
    if wide <= 0x7fff_ffff_ffff_ffff {
        Ok(Object::Integer(wide as i64))
    } else {
        Err(MonkeyError::UnsupportedNumError)
    }
}

/// `len(x)`: the number of characters of a string, or of elements of an
/// array.
pub fn len(args: Vec<Object>) -> (r: Result<Object, MonkeyError>)
    ensures
        result_view(r) == len_of(objects_view(args@)),
{
    if args.len() != 1 {
        return Err(arity_error(args.len(), 1));
    }
    assert(objects_view(args@)[0] == args[0]@);
    match &args[0] {
        Object::String(val) => {
            assert(args[0]@ == ObjectView::String(val@));
            length_object(val.as_str().unicode_len())
        },
        Object::Array { elements } => {
            assert(args[0]@ == ObjectView::Array { elements: objects_view(elements@) });
            assert(objects_view(elements@).len() == elements.len());
            length_object(elements.len())
        },
        arg => {
            assert(!(arg@ is String));
            assert(!(arg@ is Array));
            Err(argument_error("len", arg))
        },
    }
}

/// `first(arr)`: the first element of an array.
pub fn first(args: Vec<Object>) -> (r: Result<Object, MonkeyError>)
    ensures
        result_view(r) == first_of(objects_view(args@)),
{
    if args.len() != 1 {
        return Err(arity_error(args.len(), 1));
    }
    assert(objects_view(args@)[0] == args[0]@);
    match &args[0] {
        Object::Array { elements } => {
            assert(args[0]@ == ObjectView::Array { elements: objects_view(elements@) });
            if elements.len() == 0 {
                return Err(MonkeyError::Custom(String::from_str("this array is empty")));
            }
            Ok(elements[0].clone())
        },
        arg => {
            assert(!(arg@ is Array));
            Err(argument_error("first", arg))
        },
    }
}

/// `last(arr)`: the last element of an array.
pub fn last(args: Vec<Object>) -> (r: Result<Object, MonkeyError>)
    ensures
        result_view(r) == last_of(objects_view(args@)),
{
    if args.len() != 1 {
        return Err(arity_error(args.len(), 1));
    }
    assert(objects_view(args@)[0] == args[0]@);
    match &args[0] {
        Object::Array { elements } => {
            assert(args[0]@ == ObjectView::Array { elements: objects_view(elements@) });
            if elements.len() == 0 {
                return Err(MonkeyError::Custom(String::from_str("this array is empty")));
            }
            let last_index: usize = elements.len() - 1;
            Ok(elements[last_index].clone())
        },
        arg => {
            assert(!(arg@ is Array));
            Err(argument_error("last", arg))
        },
    }
}

/// `rest(arr)`: a new array of all elements but the first.
pub fn rest(args: Vec<Object>) -> (r: Result<Object, MonkeyError>)
    ensures
        result_view(r) == rest_of(objects_view(args@)),
{
    if args.len() != 1 {
        return Err(arity_error(args.len(), 1));
    }
    assert(objects_view(args@)[0] == args[0]@);
    match &args[0] {
        Object::Array { elements } => {
            assert(args[0]@ == ObjectView::Array { elements: objects_view(elements@) });
            if elements.len() == 0 {
                return Err(MonkeyError::Custom(String::from_str("this array is empty")));
            }
            let mut tail: Vec<Object> = Vec::new();
            let mut i: usize = 1;
            while i < elements.len()
                invariant
                    1 <= i <= elements.len(),
                    tail.len() == i - 1,
                    forall|j: int| 0 <= j < i - 1 ==> tail[j]@ == elements[j + 1]@,
                decreases elements.len() - i,
            {
                tail.push(elements[i].clone());
                i += 1;
            }
            assert(objects_view(tail@) =~= objects_view(elements@).drop_first());
            Ok(Object::Array { elements: tail })
        },
        arg => {
            assert(!(arg@ is Array));
            Err(argument_error("rest", arg))
        },
    }
}

/// `push(arr, val)`: a new array of the elements of `arr` and then `val`.
pub fn push(args: Vec<Object>) -> (r: Result<Object, MonkeyError>)
    ensures
        result_view(r) == push_of(objects_view(args@)),
{
    if args.len() != 2 {
        return Err(arity_error(args.len(), 2));
    }
    assert(objects_view(args@)[0] == args[0]@);
    assert(objects_view(args@)[1] == args[1]@);
    match &args[0] {
        Object::Array { elements } => {
            assert(args[0]@ == ObjectView::Array { elements: objects_view(elements@) });
            let mut new_ele = clone_objects(elements);
            new_ele.push(args[1].clone());
            assert(objects_view(new_ele@) =~= objects_view(elements@).push(args[1]@)) by {
                assert(objects_view(new_ele@.drop_last()) =~= objects_view(elements@));
            }
            Ok(Object::Array { elements: new_ele })
        },
        arg => {
            assert(!(arg@ is Array));
            Err(argument_error("push", arg))
        },
    }
}

/// Appends the canonical text of each argument to `output`, one line per
/// argument, and returns `Null`. Printing the lines is left to the caller.
pub fn puts(args: Vec<Object>, output: &mut Vec<String>) -> (r: Result<Object, MonkeyError>)
    ensures
        result_view(r) == Ok::<ObjectView, ErrorView>(ObjectView::Null),
        lines_view(final(output)@) == lines_view(old(output)@) + puts_lines(objects_view(args@)),
{
    let mut i: usize = 0;
    while i < args.len()
        invariant
            0 <= i <= args.len(),
            lines_view(output@) == lines_view(old(output)@) + puts_lines(
                objects_view(args@),
            ).take(i as int),
        decreases args.len() - i,
    {
        let line = args[i].to_string();
        let ghost before = output@;
        let ghost text = line@;
        output.push(line);
        proof {
            let all = puts_lines(objects_view(args@));
            assert(all[i as int] == text);
            assert(all.take(i + 1) =~= all.take(i as int).push(text));
            assert(lines_view(output@) =~= lines_view(before).push(text));
            assert(lines_view(output@) =~= lines_view(old(output)@) + all.take(i + 1));
        }
        i += 1;
    }
    proof {
        let all = puts_lines(objects_view(args@));
        assert(all.take(args.len() as int) =~= all);
    }
    Ok(Object::Null)
}

/// The lines of an output buffer.
pub open spec fn lines_view(lines: Seq<String>) -> Seq<Seq<char>> {
    lines.map_values(|s: String| s@)
}

/// Calls the native function `f` on `args`. What `puts` writes is appended
/// to `output`.
pub fn call(f: BuiltInFunction, args: Vec<Object>, output: &mut Vec<String>) -> (r: Result<
    Object,
    MonkeyError,
>)
    ensures
        (lines_view(final(output)@), result_view(r)) == call_builtin(
            f,
            objects_view(args@),
            lines_view(old(output)@),
        ),
{
    match f {
        BuiltInFunction::Len => len(args),
        BuiltInFunction::First => first(args),
        BuiltInFunction::Last => last(args),
        BuiltInFunction::Rest => rest(args),
        BuiltInFunction::Push => push(args),
        BuiltInFunction::Puts => puts(args, output),
    }
}

} // verus!
