use rmonkey::evaluator::Evaluator;
use rmonkey::lexer::Lexer;
use rmonkey::parser::Parser;

#[test]
fn test_integer_ope() {
    let case = [
        ("5", "5"),
        ("10", "10"),
        ("-5", "-5"),
        ("-10", "-10"),
        ("5 + 5 + 5 + 5 - 10", "10"),
        ("2 * 2 * 2 * 2 * 2", "32"),
        ("-50 + 100 - 50", "0"),
        ("5 * 2 + 10", "20"),
        ("5 + 2 * 10", "25"),
        ("50 / 2 * 2 + 10", "60"),
        ("2 * (5 + 10)", "30"),
        ("3 * 3 * 3 + 10", "37"),
        ("3 * (3 * 3) + 10", "37"),
        ("(5 + 10 * 2 + 15 / 3) * 2 + -10", "50"),
    ];

    for (input, expected) in case.iter() {
        let mut e = Evaluator::new();
        let l = Lexer::new(input);
        let mut p = Parser::new(l);
        let program = p.parse_program().unwrap();
        let r = e.eval(program).unwrap();
        assert_eq!(r.to_string(), *expected)
    }
}

#[test]
fn test_bang_ope() {
    let case = [
        ("!false", "true"),
        ("!5", "false"),
        ("!!true", "true"),
        ("!!false", "false"),
        ("!!5", "true"),
    ];
    for (input, expected) in case.iter() {
        let mut e = Evaluator::new();
        let l = Lexer::new(input);
        let mut p = Parser::new(l);
        let program = p.parse_program().unwrap();
        let r = e.eval(program).unwrap();
        assert_eq!(r.to_string(), *expected);
    }
}

#[test]
fn test_boolean_expr() {
    let case = [
        ("1 < 2", "true"),
        ("1 > 2", "false"),
        ("1 < 1", "false"),
        ("1 > 1", "false"),
        ("1 == 1", "true"),
        ("1 != 1", "false"),
        ("1 == 2", "false"),
        ("1 != 2", "true"),
        ("true == true", "true"),
        ("false == false", "true"),
        ("(1 < 2) == true", "true"),
        ("(1 < 2) == false", "false"),
        ("(1 > 2) == true", "false"),
        ("(1 > 2) == false", "true"),
    ];

    for (input, expected) in case {
        let mut e = Evaluator::new();
        let l = Lexer::new(input);
        let mut p = Parser::new(l);
        let program = p.parse_program().unwrap();
        let r = e.eval(program).unwrap();
        assert_eq!(r.to_string(), expected)
    }
}

#[test]
fn evaluator_test_string() {
    let case = [
        (r#""foobar""#, r#""foobar""#),
        (r#""Hello" + " " + "World""#, r#""Hello World""#),
    ];
    for (input, expected) in case.iter() {
        let mut e = Evaluator::new();
        let l = Lexer::new(input);
        let mut p = Parser::new(l);
        let program = p.parse_program().unwrap();
        let r = e.eval(program).unwrap();
        assert_eq!(r.to_string(), *expected)
    }
}

#[test]
fn evaluator_test_array() {
    let case = [("[1, 2 * 2, 3 + 3]", "[1, 4, 6]")];
    for (input, expected) in case.iter() {
        let mut e = Evaluator::new();
        let l = Lexer::new(input);
        let mut p = Parser::new(l);
        let program = p.parse_program().unwrap();
        let r = e.eval(program).unwrap();
        assert_eq!(r.to_string(), *expected)
    }
}

#[test]
fn test_if_else_expr() {
    let case = [("if(true){10}", "10"), ("if (false) { 10 }", "null")];
    for (input, expected) in case.iter() {
        let mut e = Evaluator::new();
        let l = Lexer::new(input);
        let mut p = Parser::new(l);
        let program = p.parse_program().unwrap();
        let r = e.eval(program).unwrap();
        assert_eq!(r.to_string(), *expected)
    }
}

#[test]
fn evaluator_test_return_stmt() {
    let case = [
        ("return 10", "10"),
        ("return 2 * 5", "10"),
        (
            "if (10 > 1) { if (10 > 1) {
            return 10; }
            return 1; }",
            "10",
        ),
    ];
    for (input, expected) in case.iter() {
        let mut e = Evaluator::new();
        let l = Lexer::new(input);
        let mut p = Parser::new(l);
        let program = p.parse_program().unwrap();
        let r = e.eval(program).unwrap();
        assert_eq!(r.to_string(), *expected)
    }
}

#[test]
fn test_error() {
    let case = [
        ("5 + true", "type mismatch: INTEGER + BOOLEAN"),
        ("5 + true; 5;", "type mismatch: INTEGER + BOOLEAN"),
        ("-true", "unknown prefix: -BOOLEAN"),
        ("true + false", "unknown operator: BOOLEAN + BOOLEAN"),
        ("5; true + false; 5", "unknown operator: BOOLEAN + BOOLEAN"),
        (
            "if(10 > 1) { true + false; }",
            "unknown operator: BOOLEAN + BOOLEAN",
        ),
        (
            "if (10 > 1) { if (10 > 1) { return true + false} return 1;}",
            "unknown operator: BOOLEAN + BOOLEAN",
        ),
        ("foobar", "Uncaught ReferenceError: foobar is not defined"),
        (r#""Hello" - "World""#, "unknown operator: STRING - STRING"),
    ];
    for (input, expected) in case.iter() {
        let mut e = Evaluator::new();
        let l = Lexer::new(input);
        let mut p = Parser::new(l);
        let program = p.parse_program().unwrap();
        let r = e.eval(program);
        assert_eq!(r.unwrap_err().to_string(), *expected);
    }
}

#[test]
fn test_let_statement() {
    let case = [
        ("let a = 5; a;", "5"),
        ("let a = 5 * 5; a;", "25"),
        ("let a = 5; let b = a; b;", "5"),
        ("let a = 5; let b = a; let c = a + b + 5; c;", "15"),
    ];
    for (input, expected) in case.iter() {
        let mut e = Evaluator::new();
        let l = Lexer::new(input);
        let mut p = Parser::new(l);
        let program = p.parse_program().unwrap();
        let r = e.eval(program).unwrap();
        assert_eq!(r.to_string(), *expected)
    }
}

#[test]
fn evaluator_test_function_literal() {
    let case = [
        ("let identity = fn(x){ x; }; identity(5);", "5"),
        ("let identity = fn(x){ return x; }; identity(5);", "5"),
        ("let double = fn(x) { x * 2; }; double(5);", "10"),
        ("let add = fn(x, y){ x + y;}; add(5, 5);", "10"),
        ("let add = fn(x, y){ x + y;}; add(5 + 5, add(5, 5));", "20"),
    ];
    for (input, expected) in case.iter() {
        let mut e = Evaluator::new();
        let l = Lexer::new(input);
        let mut p = Parser::new(l);
        let program = p.parse_program().unwrap();
        let r = e.eval(program).unwrap();
        assert_eq!(r.to_string(), *expected)
    }
}

#[test]
fn test_buildin_string_len() {
    let case = [
        (r#"len("")"#, "0"),
        (r#"len("four")"#, "4"),
        (r#"len("hello world")"#, "11"),
        (r#"len(1)"#, "arg to `len` not supported, got INTEGER"),
        (
            r#"len("one", "two")"#,
            "wrong number of arguments. got=2, want=1",
        ),
    ];
    for (input, expected) in case.iter() {
        let mut e = Evaluator::new();
        let l = Lexer::new(input);
        let mut p = Parser::new(l);
        let program = p.parse_program().unwrap();
        match e.eval(program) {
            Ok(r) => assert_eq!(r.to_string(), *expected),
            Err(e) => assert_eq!(e.to_string(), *expected),
        }
    }
}

#[test]
fn test_buildin_array_len() {
    let case = [
        (r#"len([])"#, "0"),
        (r#"len([1,2,3,4])"#, "4"),
        (r#"len(["1","2","3","4"])"#, "4"),
        (r#"len([1,"2",3,"4"])"#, "4"),
        (
            r#"len(["one"], ["two"])"#,
            "wrong number of arguments. got=2, want=1",
        ),
    ];
    for (input, expected) in case.iter() {
        let mut e = Evaluator::new();
        let l = Lexer::new(input);
        let mut p = Parser::new(l);
        let program = p.parse_program().unwrap();
        match e.eval(program) {
            Ok(r) => assert_eq!(r.to_string(), *expected),
            Err(e) => assert_eq!(e.to_string(), *expected),
        }
    }
}

#[test]
fn test_buildin_array_first() {
    let case = [
        (r#"first([])"#, "this array is empty"),
        (r#"first([1,2,3,4])"#, "1"),
        (r#"first(["1","2","3","4"])"#, r#""1""#),
        (
            r#"first(["one"], ["two"])"#,
            "wrong number of arguments. got=2, want=1",
        ),
    ];
    for (input, expected) in case.iter() {
        let mut e = Evaluator::new();
        let l = Lexer::new(input);
        let mut p = Parser::new(l);
        let program = p.parse_program().unwrap();
        match e.eval(program) {
            Ok(r) => assert_eq!(r.to_string(), *expected),
            Err(e) => assert_eq!(e.to_string(), *expected),
        }
    }
}

#[test]
fn test_buildin_array_last() {
    let case = [
        (r#"last([])"#, "this array is empty"),
        (r#"last([1,2,3,4])"#, "4"),
        (r#"last(["1","2","3","4"])"#, r#""4""#),
        (
            r#"last(["one"], ["two"])"#,
            "wrong number of arguments. got=2, want=1",
        ),
    ];
    for (input, expected) in case.iter() {
        let mut e = Evaluator::new();
        let l = Lexer::new(input);
        let mut p = Parser::new(l);
        let program = p.parse_program().unwrap();
        match e.eval(program) {
            Ok(r) => assert_eq!(r.to_string(), *expected),
            Err(e) => assert_eq!(e.to_string(), *expected),
        }
    }
}

#[test]
fn test_buildin_array_rest() {
    let case = [
        (r#"rest([])"#, "this array is empty"),
        (r#"rest([1,2,3,4])"#, "[2, 3, 4]"),
        (r#"rest(["1","2","3","4"])"#, r#"["2", "3", "4"]"#),
        (
            r#"rest(["one"], ["two"])"#,
            "wrong number of arguments. got=2, want=1",
        ),
    ];
    for (input, expected) in case.iter() {
        let mut e = Evaluator::new();
        let l = Lexer::new(input);
        let mut p = Parser::new(l);
        let program = p.parse_program().unwrap();
        match e.eval(program) {
            Ok(r) => assert_eq!(r.to_string(), *expected),
            Err(e) => assert_eq!(e.to_string(), *expected),
        }
    }
}

#[test]
fn test_buildin_array_push() {
    let case = [
        (r#"push([], 0)"#, "[0]"),
        (r#"push([1,2,3,4], 5)"#, "[1, 2, 3, 4, 5]"),
        (
            r#"push(["1","2","3","4"], "5")"#,
            r#"["1", "2", "3", "4", "5"]"#,
        ),
        (
            r#"push(["one"], ["two"], ["three"])"#,
            "wrong number of arguments. got=3, want=2",
        ),
        (
            r#"push("one", "two")"#,
            "arg to `push` not supported, got STRING",
        ),
    ];
    for (input, expected) in case.iter() {
        let mut e = Evaluator::new();
        let l = Lexer::new(input);
        let mut p = Parser::new(l);
        let program = p.parse_program().unwrap();
        match e.eval(program) {
            Ok(r) => assert_eq!(r.to_string(), *expected),
            Err(e) => assert_eq!(e.to_string(), *expected),
        }
    }
}
