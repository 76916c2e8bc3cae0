use rmonkey::ast::{Expr, Program, Stmt};
use rmonkey::builtin::{self, BuiltInFunction};
use rmonkey::environment::Environment;
use rmonkey::error::MonkeyError;
use rmonkey::evaluate;
use rmonkey::evaluator::{Evaluator, DEFAULT_DEPTH};
use rmonkey::object::Object;
use rmonkey::operator::{Infix, Prefix};
use rmonkey::token::Token;

fn run(source: &str) -> String {
    evaluate(source, &mut Evaluator::new())
}

#[test]
fn arithmetic() {
    assert_eq!(run("5 + 5 + 5 + 5 - 10"), "10");
    assert_eq!(run("2 * (5 + 10)"), "30");
    assert_eq!(run("7 / 2"), "3");
    assert_eq!(run("-7 / 2"), "-3");
    assert_eq!(run("7 / -2"), "-3");
    assert_eq!(run("-7 / -2"), "3");
    assert_eq!(run("0 / 5"), "0");
    assert_eq!(run("0 - 9223372036854775807 - 1"), "-9223372036854775808");
}

#[test]
fn truthiness() {
    assert_eq!(run("!5"), "false");
    assert_eq!(run("!!5"), "true");
    assert_eq!(run("if (false) { 10 }"), "null");
    assert_eq!(run("if (0) { 1 } else { 2 }"), "1");
    assert_eq!(run("if (\"\") { 1 } else { 2 }"), "1");
    assert_eq!(run("let n = if (false) { 1 }; if (n) { 1 } else { 2 }"), "2");
    assert_eq!(run("!if (false) { 1 }"), "true");
    assert_eq!(run("![]"), "false");
}

#[test]
fn closures_capture_their_scope() {
    assert_eq!(
        run("let newAdder = fn(x){ fn(y){ x + y }; }; let addTwo = newAdder(2); addTwo(3);"),
        "5"
    );
}

#[test]
fn a_closure_sees_later_bindings_of_its_scope() {
    assert_eq!(run("let f = fn() { later }; let later = 7; f()"), "7");
    assert_eq!(run("let f = fn() { v }; let v = 1; let v = 2; f()"), "2");
}

#[test]
fn a_call_binds_in_a_scope_of_its_own() {
    assert_eq!(run("let x = 1; let f = fn(x) { let y = x; y }; f(5); x"), "1");
    assert_eq!(
        run("let f = fn(x) { let y = x; y }; f(5); y"),
        "Uncaught ReferenceError: y is not defined"
    );
}

#[test]
fn recursion() {
    assert_eq!(
        run("let fact = fn(n) { if (n < 2) { 1 } else { n * fact(n - 1) }; }; fact(10)"),
        "3628800"
    );
}

#[test]
fn error_messages() {
    assert_eq!(run("5 + true"), "type mismatch: INTEGER + BOOLEAN");
    assert_eq!(run("foobar"), "Uncaught ReferenceError: foobar is not defined");
    assert_eq!(run("\"a\" == \"a\""), "unknown operator: STRING == STRING");
    assert_eq!(run("true < false"), "unknown operator: BOOLEAN < BOOLEAN");
    assert_eq!(run("[1] + [2]"), "type mismatch: ARRAY + ARRAY");
    assert_eq!(run("1 + \"a\""), "type mismatch: INTEGER + STRING");
    assert_eq!(run("let f = fn(x){x}; f == 1; 2"), "type mismatch: FunctionLiteral == INTEGER");
    assert_eq!(run("-\"a\""), "unknown prefix: -STRING");
    assert_eq!(run("-if (false) { 1 }"), "unknown prefix: -NULL");
}

#[test]
fn built_ins() {
    assert_eq!(run("len(\"four\")"), "4");
    assert_eq!(run("len(1)"), "arg to `len` not supported, got INTEGER");
    assert_eq!(run("push([1,2,3,4], 5)"), "[1, 2, 3, 4, 5]");
    assert_eq!(run("rest([])"), "this array is empty");
    assert_eq!(run("rest(1)"), "arg to `rest` not supported, got INTEGER");
    assert_eq!(run("first(true)"), "arg to `first` not supported, got BOOLEAN");
    assert_eq!(run("last(\"a\")"), "arg to `last` not supported, got STRING");
    assert_eq!(run("len()"), "wrong number of arguments. got=0, want=1");
    assert_eq!(run("push([1])"), "wrong number of arguments. got=1, want=2");
    assert_eq!(run("rest([1])"), "[]");
    assert_eq!(run("last([1, [2, 3]])"), "[2, 3]");
    assert_eq!(run("len(\"h\u{e9}llo\")"), "5");
}

#[test]
fn push_leaves_its_argument_as_it_was() {
    assert_eq!(run("let a = [1]; let b = push(a, 2); a"), "[1]");
    assert_eq!(run("let a = [1]; let b = push(a, 2); b"), "[1, 2]");
}

#[test]
fn a_built_in_name_is_found_before_a_binding() {
    assert_eq!(run("let len = fn(x) { 0 }; len(\"abc\")"), "3");
    assert_eq!(run("len"), "Uncaught ReferenceError: len is not defined");
}

#[test]
fn return_ends_the_enclosing_blocks() {
    assert_eq!(run("if (10 > 1) { if (10 > 1) { return 10; } return 1; }"), "10");
    assert_eq!(run("1; return 2; 3"), "2");
    assert_eq!(run("let f = fn() { if (true) { return 1; }; 2 }; f() + 10"), "11");
    assert_eq!(run("let f = fn() { return 1; 2 }; let g = fn() { f(); 3 }; g()"), "3");
}

#[test]
fn a_returned_value_passes_through_an_operand() {
    assert_eq!(run("1 + if (true) { return 5 }; 9"), "5");
    assert_eq!(run("let a = if (true) { return 5 }; 9"), "5");
    assert_eq!(run("return if (true) { return 5 }; 9"), "5");
    assert_eq!(run("-if (true) { return 5 }; 9"), "5");
    assert_eq!(run("if (if (true) { return 5 }) { 6 }; 9"), "5");
    assert_eq!(run("[1, if (true) { return 5 }, missing]; 9"), "5");
    assert_eq!(run("len(if (true) { return 5 }); 9"), "5");

    let returns = |n: i64| Expr::IfExpr {
        condition: Box::new(Expr::Boolean(true)),
        consequence: Box::new(Stmt::BlockStatement {
            stmts: vec![Stmt::ReturnStatement { value: Expr::Int(n) }],
        }),
        alternative: None,
    };
    let missing = || Expr::Ident("missing".to_string());
    let cases = vec![
        Expr::ArrayLiteral { elements: vec![Expr::Int(1), returns(5), missing()] },
        Expr::CallExpr {
            function: Box::new(Expr::Ident("len".to_string())),
            args: vec![returns(5), missing()],
        },
        Expr::CallExpr { function: Box::new(returns(5)), args: vec![missing()] },
        Expr::CallExpr {
            function: Box::new(Expr::FuncLiteral {
                parameters: vec![],
                body: Box::new(Stmt::BlockStatement { stmts: vec![] }),
            }),
            args: vec![returns(5), missing()],
        },
        Expr::IndexExpr { left: Box::new(returns(5)), index: Box::new(missing()) },
        Expr::IndexExpr {
            left: Box::new(Expr::ArrayLiteral { elements: vec![] }),
            index: Box::new(returns(5)),
        },
        Expr::InfixExpr {
            left: Box::new(returns(5)),
            right: Box::new(missing()),
            op: Infix::Plus,
        },
    ];
    for expr in cases.iter() {
        let mut e = Evaluator::new();
        let r = e.eval_expr(expr).unwrap();
        assert!(r.is_return(), "{}", expr.to_string());
        assert_eq!(r.to_string(), "5", "{}", expr.to_string());
    }
    let mut e = Evaluator::new();
    let program = Program {
        stmts: vec![Stmt::ExpressionStatement { expr: cases[0].clone() }, Stmt::ExpressionStatement { expr: Expr::Int(9) }],
    };
    let r = e.eval(program).unwrap();
    assert!(!r.is_return());
    assert_eq!(r.to_string(), "5");
}

#[test]
fn a_block_keeps_a_returned_value_wrapped() {
    let mut e = Evaluator::new();
    let stmts = vec![
        Stmt::ExpressionStatement { expr: Expr::Int(1) },
        Stmt::ReturnStatement { value: Expr::Int(2) },
        Stmt::ExpressionStatement { expr: Expr::Ident("missing".to_string()) },
    ];
    let r = e.eval_block_stmt(&stmts).unwrap();
    assert!(r.is_return());
    assert_eq!(r.to_string(), "2");
    let r = e.eval_stmt(&Stmt::BlockStatement { stmts: vec![] }).unwrap();
    assert_eq!(r.to_string(), "null");
    let vals = e.eval_call_expr(&vec![Expr::Int(1), Expr::Boolean(false)]).unwrap();
    assert_eq!(vals.len(), 2);
    assert_eq!(vals[1].to_string(), "false");
    let closure = e
        .eval_expr(&Expr::FuncLiteral {
            parameters: vec![Expr::Ident("x".to_string())],
            body: Box::new(Stmt::ReturnStatement { value: Expr::Ident("x".to_string()) }),
        })
        .unwrap();
    let r = e.apply_function(closure, vec![Object::Integer(4)]).unwrap();
    assert!(!r.is_return());
    assert_eq!(r.to_string(), "4");
    assert_eq!(e.env.scopes.len(), 2);
    assert_eq!(e.scope, 0);
}

#[test]
fn indexing() {
    assert_eq!(run("[1, 2, 3][0]"), "1");
    assert_eq!(run("[1, 2, 3][2]"), "3");
    assert_eq!(run("[1, 2, 3][3]"), "null");
    assert_eq!(run("[1, 2, 3][0 - 1]"), "null");
    assert_eq!(run("[][0]"), "null");
    assert_eq!(run("1[0]"), "index operator not supported");
    assert_eq!(run("[1][true]"), "index operator not supported");
    assert_eq!(run("\"abc\"[0]"), "index operator not supported");
}

#[test]
fn overflow_and_division_by_zero_are_errors() {
    assert_eq!(run("9223372036854775807 + 1"), "integer overflow");
    assert_eq!(run("0 - 9223372036854775807 - 2"), "integer overflow");
    assert_eq!(run("4611686018427387904 * 2"), "integer overflow");
    assert_eq!(run("(0 - 9223372036854775807 - 1) / (0 - 1)"), "integer overflow");
    assert_eq!(run("-(0 - 9223372036854775807 - 1)"), "integer overflow");
    assert_eq!(run("1 / 0"), "division by zero");
    assert_eq!(run("9223372036854775807 + 0"), "9223372036854775807");
}

#[test]
fn hash_literals_do_not_evaluate() {
    assert_eq!(run("{\"a\": 1}"), "hash literals are not supported");
    assert_eq!(run("{}"), "hash literals are not supported");
}

#[test]
fn calling_what_is_no_function() {
    assert_eq!(run("let a = 1; a(2)"), "not a function: INTEGER");
    assert_eq!(run("\"f\"()"), "not a function: STRING");
}

#[test]
fn parameters_and_arguments_pair_up_by_position() {
    assert_eq!(run("let f = fn(a, b) { a }; f(1)"), "1");
    assert_eq!(
        run("let f = fn(a, b) { b }; f(1)"),
        "Uncaught ReferenceError: b is not defined"
    );
    assert_eq!(run("let f = fn(a) { a }; f(1, 2)"), "1");
    let mut e = Evaluator::new();
    let closure = Object::FunctionLiteral {
        params: vec![Expr::Int(1), Expr::Ident("b".to_string())],
        body: Stmt::ExpressionStatement { expr: Expr::Ident("b".to_string()) },
        env: 0,
    };
    let r = e.apply_function(closure, vec![Object::Integer(7), Object::Integer(8)]).unwrap();
    assert_eq!(r.to_string(), "8");
}

#[test]
fn blocks_without_semicolons_after_them() {
    assert_eq!(run("fn(x) { x }(5)"), "5");
    assert_eq!(run("if (true) { 1 } 2"), "2");
    assert_eq!(run("let f = fn(n) { if (n < 2) { return 1 } n * f(n - 1) } f(5)"), "120");
    assert_eq!(run("let twice = fn(g, x) { g(g(x)) }; twice(fn(y) { y * 3 }, 2)"), "18");
    assert_eq!(run("if (10 > 1) { if (10 > 1) { return 10; } return 1; }"), "10");
    assert_eq!(run("if (10 > 1) { if (1 > 10) { return 10; } return 1; }"), "1");
}

#[test]
fn the_callee_is_evaluated_before_the_arguments() {
    assert_eq!(run("nothing(1 + true)"), "Uncaught ReferenceError: nothing is not defined");
    assert_eq!(run("let f = fn(a, b) { a }; f(missing, 1 + true)"), "Uncaught ReferenceError: missing is not defined");
}

#[test]
fn values_render() {
    assert_eq!(run("fn(x, y) { x + y }"), "fn(x, y){(x + y)}");
    assert_eq!(run("[1, \"a\", true, [2]]"), "[1, \"a\", true, [2]]");
    assert_eq!(run(""), "null");
    assert_eq!(run("let a = 1"), "null");
    assert_eq!(Object::BuiltIn(BuiltInFunction::Len).to_string(), "builtin function");
    assert_eq!(Object::ReturnValue(Box::new(Object::Integer(-3))).to_string(), "-3");
    assert_eq!(Object::Integer(i64::MIN).to_string(), "-9223372036854775808");
    assert_eq!(Object::Integer(i64::MAX).to_string(), "9223372036854775807");
    assert_eq!(Object::Integer(0).to_string(), "0");
}

#[test]
fn type_names() {
    assert_eq!(Object::Integer(1).obj_type(), "INTEGER");
    assert_eq!(Object::Boolean(true).obj_type(), "BOOLEAN");
    assert_eq!(Object::String(String::new()).obj_type(), "STRING");
    assert_eq!(Object::Null.obj_type(), "NULL");
    assert_eq!(Object::Array { elements: vec![] }.obj_type(), "ARRAY");
    assert_eq!(Object::BuiltIn(BuiltInFunction::Puts).obj_type(), "BUILTIN");
    assert_eq!(Object::ReturnValue(Box::new(Object::Null)).obj_type(), "RETURN_VALUE");
    assert!(Object::Integer(0).is_truthy());
    assert!(!Object::Null.is_truthy());
    assert!(!Object::Boolean(false).is_truthy());
    assert!(Object::ReturnValue(Box::new(Object::Null)).is_return());
    assert!(!Object::Null.is_return());
}

#[test]
fn a_parse_error_is_the_result() {
    assert_eq!(run("let 5"), "stmt error: expected Ident(\"\"), but got Int(5)");
    assert_eq!(run("1 +"), "stmt error: Eof");
    assert_eq!(run("\"a\nb\" +"), "stmt error: Eof");
    assert_eq!(run("let x \"q\nr\""), "stmt error: expected Assign, but got String(\"q\\nr\")");
}

#[test]
fn bindings_persist_from_one_evaluation_to_the_next() {
    let mut e = Evaluator::new();
    assert_eq!(evaluate("let a = 5;", &mut e), "null");
    assert_eq!(evaluate("let add = fn(x) { x + a };", &mut e), "null");
    assert_eq!(evaluate("add(1)", &mut e), "6");
    assert_eq!(evaluate("5 + true", &mut e), "type mismatch: INTEGER + BOOLEAN");
    assert_eq!(evaluate("let a = 10; add(1)", &mut e), "11");
    assert_eq!(e.depth, DEFAULT_DEPTH);
    assert_eq!(e.scope, 0);
}

#[test]
fn puts_writes_to_the_output() {
    let mut e = Evaluator::new();
    assert_eq!(evaluate("puts(1, \"two\", [3])", &mut e), "null");
    assert_eq!(evaluate("puts()", &mut e), "null");
    assert_eq!(evaluate("puts(puts(4))", &mut e), "null");
    assert_eq!(e.take_output(), vec!["1", "\"two\"", "[3]", "4", "null"]);
    assert!(e.take_output().is_empty());
    assert_eq!(evaluate("puts(5); foobar", &mut e), "Uncaught ReferenceError: foobar is not defined");
    assert_eq!(e.take_output(), vec!["5"]);
}

#[test]
fn deep_nesting_is_an_error() {
    let mut e = Evaluator::new();
    assert_eq!(evaluate("let f = fn(n) { f(n + 1) }; f(0)", &mut e), "evaluation nests too deeply");
    assert_eq!(e.depth, DEFAULT_DEPTH);
    assert_eq!(e.scope, 0);
    assert_eq!(evaluate("1 + 1", &mut e), "2");
    let mut nested = String::new();
    for _ in 0..DEFAULT_DEPTH {
        nested.push('-');
    }
    nested.push('1');
    assert_eq!(evaluate(&nested, &mut e), "evaluation nests too deeply");
}

#[test]
fn the_depth_counts_nested_evaluations() {
    let mut e = Evaluator::new();
    e.depth = 2;
    assert_eq!(evaluate("1", &mut e), "1");
    assert_eq!(evaluate("1 + 1", &mut e), "evaluation nests too deeply");
    e.depth = 3;
    assert_eq!(evaluate("1 + 1", &mut e), "2");
    assert_eq!(evaluate("1 + (2 + 3)", &mut e), "evaluation nests too deeply");
    e.depth = 0;
    assert_eq!(evaluate("", &mut e), "null");
    assert_eq!(evaluate("1", &mut e), "evaluation nests too deeply");
}

#[test]
fn evaluator_bindings() {
    let mut e = Evaluator::new();
    assert!(e.get("a").is_none());
    e.set("a".to_string(), Object::Integer(3));
    assert_eq!(e.get("a").unwrap().to_string(), "3");
    assert_eq!(evaluate("a * a", &mut e), "9");
    e.set("native".to_string(), Object::BuiltIn(BuiltInFunction::Len));
    assert_eq!(evaluate("native(\"abc\")", &mut e), "3");
    let mut env = Environment::new();
    env.set(0, "b".to_string(), Object::Boolean(true));
    let mut e = Evaluator::from(env);
    assert_eq!(evaluate("!b", &mut e), "false");
    let mut e = Evaluator::default();
    assert_eq!(evaluate("b", &mut e), "Uncaught ReferenceError: b is not defined");
}

#[test]
fn prefix_and_infix_on_values() {
    let mut e = Evaluator::new();
    let r = e.eval_prefix_expr(&Prefix::Minus, Object::Integer(5)).unwrap();
    assert_eq!(r.to_string(), "-5");
    let r = e.eval_prefix_expr(&Prefix::Bang, Object::Null).unwrap();
    assert_eq!(r.to_string(), "true");
    match e.eval_prefix_expr(&Prefix::Minus, Object::Null) {
        Err(MonkeyError::UnknownPrefix(Prefix::Minus, kind)) => assert_eq!(kind, "NULL"),
        other => panic!("unexpected result: {:?}", other),
    }
    let r = e
        .eval_infix_expr(Object::String("a".to_string()), Object::String("b".to_string()), &Infix::Plus)
        .unwrap();
    assert_eq!(r.to_string(), "\"ab\"");
    match e.eval_infix_expr(Object::Integer(1), Object::Null, &Infix::Slash) {
        Err(MonkeyError::TypeMismatch(left, right, Infix::Slash)) => {
            assert_eq!(left, "INTEGER");
            assert_eq!(right, "NULL");
        }
        other => panic!("unexpected result: {:?}", other),
    }
    match e.eval_infix_expr(Object::Boolean(true), Object::Boolean(true), &Infix::Asterisk) {
        Err(MonkeyError::UnknownOperator(left, right, Infix::Asterisk)) => {
            assert_eq!(left, "BOOLEAN");
            assert_eq!(right, "BOOLEAN");
        }
        other => panic!("unexpected result: {:?}", other),
    }
}

#[test]
fn every_error_has_its_message() {
    assert_eq!(MonkeyError::Custom("as given".to_string()).to_string(), "as given");
    assert_eq!(
        MonkeyError::UnsupportedNumError.to_string(),
        "UnsupportedNumError: Monkey only supports integer numbers"
    );
    assert_eq!(
        MonkeyError::UnexpectedToken(Token::RParen, Token::Ident("a\"b".to_string())).to_string(),
        "expected RParen, but got Ident(\"a\\\"b\")"
    );
    assert_eq!(
        MonkeyError::TypeMismatch("A".to_string(), "B".to_string(), Infix::NotEq).to_string(),
        "type mismatch: A != B"
    );
    assert_eq!(
        MonkeyError::UnknownOperator("A".to_string(), "B".to_string(), Infix::GreaterThan).to_string(),
        "unknown operator: A > B"
    );
    assert_eq!(
        MonkeyError::UnknownPrefix(Prefix::Bang, "A".to_string()).to_string(),
        "unknown prefix: !A"
    );
    assert_eq!(
        MonkeyError::UncaughtRef("a".to_string()).to_string(),
        "Uncaught ReferenceError: a is not defined"
    );
}

#[test]
fn tokens_in_debug_notation() {
    assert_eq!(Token::Eof.debug_string(), "Eof");
    assert_eq!(Token::Int(-12).debug_string(), "Int(-12)");
    assert_eq!(Token::Ident("ab".to_string()).debug_string(), "Ident(\"ab\")");
    assert_eq!(Token::String("a\tb".to_string()).debug_string(), "String(\"a\\tb\")");
    assert_eq!(Token::Illegal("'".to_string()).debug_string(), "Illegal(\"'\")");
    for tok in [
        Token::Illegal("x\ny".to_string()),
        Token::Eof,
        Token::Ident("name".to_string()),
        Token::Int(i64::MIN),
        Token::String("\u{1}\"\\".to_string()),
        Token::Assign,
        Token::Plus,
        Token::Minus,
        Token::Asterisk,
        Token::Slash,
        Token::LessThan,
        Token::GreaterThan,
        Token::Comma,
        Token::Semicolon,
        Token::Colon,
        Token::LParen,
        Token::RParen,
        Token::LBrace,
        Token::RBrace,
        Token::LBracket,
        Token::RBracket,
        Token::Bang,
        Token::Eq,
        Token::NotEq,
        Token::Function,
        Token::Let,
        Token::True,
        Token::False,
        Token::If,
        Token::Else,
        Token::Return,
    ] {
        assert_eq!(tok.debug_string(), format!("{:?}", tok));
        assert!(tok.same(&tok.clone()));
        assert_eq!(tok.clone(), tok);
    }
    assert!(!Token::Int(1).same(&Token::Int(2)));
    assert!(!Token::Ident("a".to_string()).same(&Token::String("a".to_string())));
    assert!(!Token::Plus.same(&Token::Minus));
}

#[test]
fn the_registry_of_built_ins() {
    let names: Vec<&str> = builtin::builtins().iter().map(|b| b.name).collect();
    assert_eq!(names, vec!["len", "first", "last", "rest", "push", "puts"]);
    for entry in builtin::builtins() {
        let found = builtin::lookup(entry.name).unwrap();
        assert_eq!(format!("{:?}", found), format!("{:?}", entry.builtin));
    }
    assert!(matches!(builtin::lookup("len"), Some(Object::BuiltIn(BuiltInFunction::Len))));
    assert!(matches!(builtin::lookup("puts"), Some(Object::BuiltIn(BuiltInFunction::Puts))));
    assert!(builtin::lookup("length").is_none());
    assert!(builtin::lookup("").is_none());
}

#[test]
fn built_ins_on_values() {
    let array = || Object::Array { elements: vec![Object::Integer(1), Object::Integer(2)] };
    assert_eq!(builtin::len(vec![array()]).unwrap().to_string(), "2");
    assert_eq!(builtin::first(vec![array()]).unwrap().to_string(), "1");
    assert_eq!(builtin::last(vec![array()]).unwrap().to_string(), "2");
    assert_eq!(builtin::rest(vec![array()]).unwrap().to_string(), "[2]");
    assert_eq!(builtin::push(vec![array(), Object::Null]).unwrap().to_string(), "[1, 2, null]");
    let mut out = vec!["before".to_string()];
    assert_eq!(builtin::puts(vec![array(), Object::Null], &mut out).unwrap().to_string(), "null");
    assert_eq!(out, vec!["before", "[1, 2]", "null"]);
    let r = builtin::call(BuiltInFunction::Rest, vec![array()], &mut out).unwrap();
    assert_eq!(r.to_string(), "[2]");
    assert_eq!(out.len(), 3);
    let r = builtin::call(BuiltInFunction::Puts, vec![Object::Integer(7)], &mut out).unwrap();
    assert_eq!(r.to_string(), "null");
    assert_eq!(out.len(), 4);
    assert_eq!(
        builtin::len(vec![]).unwrap_err().to_string(),
        "wrong number of arguments. got=0, want=1"
    );
}

#[test]
fn scopes_enclose_each_other() {
    let mut env = Environment::new();
    env.set(0, "a".to_string(), Object::Integer(1));
    env.set(0, "b".to_string(), Object::Integer(2));
    let inner = env.new_enclosed_env(0);
    assert_eq!(inner, 1);
    env.set(inner, "a".to_string(), Object::Integer(10));
    let sibling = env.new_enclosed_env(0);
    assert_eq!(sibling, 2);
    let innermost = env.new_enclosed_env(inner);
    assert_eq!(env.get(inner, "a".to_string()).unwrap().to_string(), "10");
    assert_eq!(env.get(inner, "b".to_string()).unwrap().to_string(), "2");
    assert_eq!(env.get(0, "a".to_string()).unwrap().to_string(), "1");
    assert_eq!(env.get(sibling, "a".to_string()).unwrap().to_string(), "1");
    assert_eq!(env.get(innermost, "a".to_string()).unwrap().to_string(), "10");
    assert!(env.get(innermost, "c".to_string()).is_none());
    env.set(0, "c".to_string(), Object::Integer(3));
    assert_eq!(env.get(innermost, "c".to_string()).unwrap().to_string(), "3");
    env.set(0, "a".to_string(), Object::Integer(4));
    assert_eq!(env.get(0, "a".to_string()).unwrap().to_string(), "4");
    assert_eq!(env.get(inner, "a".to_string()).unwrap().to_string(), "10");
}

#[test]
fn scopes_that_do_not_exist() {
    let mut env = Environment::default();
    assert!(env.get(5, "a".to_string()).is_none());
    env.set(5, "a".to_string(), Object::Null);
    assert_eq!(env.scopes.len(), 1);
    assert!(env.get(0, "a".to_string()).is_none());
    let orphan = env.new_enclosed_env(9);
    env.set(0, "a".to_string(), Object::Null);
    assert!(env.get(orphan, "a".to_string()).is_none());
    env.set(orphan, "b".to_string(), Object::Integer(1));
    assert_eq!(env.get(orphan, "b".to_string()).unwrap().to_string(), "1");
}

#[test]
fn decimal_notation() {
    assert_eq!(rmonkey::text::i64_to_string(0), "0");
    assert_eq!(rmonkey::text::i64_to_string(-1), "-1");
    assert_eq!(rmonkey::text::i64_to_string(1203), "1203");
    assert_eq!(rmonkey::text::u64_to_string(u64::MAX), "18446744073709551615");
    assert_eq!(rmonkey::text::usize_to_string(10), "10");
    assert_eq!(rmonkey::text::chars_of("a\u{e9}"), vec!['a', '\u{e9}']);
    let chars = vec!['a', 'b', 'c', 'd'];
    assert_eq!(rmonkey::text::string_of(&chars, 1, 3), "bc");
    assert_eq!(rmonkey::text::string_of(&chars, 2, 2), "");
    assert_eq!(rmonkey::lexer::parse_digits(&vec!['0', '4', '2'], 0, 3), Some(42));
    assert_eq!(rmonkey::lexer::parse_digits(&vec!['0', '4', '2'], 1, 1), Some(0));
}

#[test]
fn operators_render() {
    assert_eq!(Prefix::Minus.to_string(), "-");
    assert_eq!(Prefix::Bang.to_string(), "!");
    assert_eq!(Infix::Eq.to_string(), "==");
    assert_eq!(Infix::NotEq.to_string(), "!=");
    assert_eq!(Infix::LessThan.to_string(), "<");
    assert_eq!(Infix::GreaterThan.to_string(), ">");
    assert_eq!(Infix::Plus.to_string(), "+");
    assert_eq!(Infix::Minus.to_string(), "-");
    assert_eq!(Infix::Slash.to_string(), "/");
    assert_eq!(Infix::Asterisk.to_string(), "*");
}
