use rmonkey::ast::{Expr, Stmt};
use rmonkey::error::MonkeyError;
use rmonkey::lexer::Lexer;
use rmonkey::operator::{Infix, Precedence, Prefix};
use rmonkey::parser::Parser;
use rmonkey::token::Token;

fn rendered(input: &str) -> Vec<String> {
    let l = Lexer::new(input);
    let mut p = Parser::new(l);
    let program = p.parse_program().unwrap();
    program.stmts.iter().map(|s| s.to_string()).collect()
}

fn parse_error(input: &str) -> String {
    let l = Lexer::new(input);
    let mut p = Parser::new(l);
    p.parse_program().unwrap_err().to_string()
}

#[test]
fn parser_test_let_stmt() {
    let input = r#"let x = 5;
let y = 10;
let foobar = 838383;
let foo = "bar"
"#;
    let expected = vec![
        "let x = 5",
        "let y = 10",
        "let foobar = 838383",
        r#"let foo = "bar""#,
    ];
    let l = Lexer::new(input);
    let mut p = Parser::new(l);
    let program = p.parse_program().unwrap();
    assert_eq!(program.stmts.len(), expected.len());

    for (i, stmt) in program.stmts.iter().enumerate() {
        assert_eq!(stmt.to_string(), expected[i])
    }
}

#[test]
fn parser_test_return_stmt() {
    let input = r#"return 5;
return 10;
return "10"
"#;
    let expected = vec!["return 5", "return 10", r#"return "10""#];
    let l = Lexer::new(input);
    let mut p = Parser::new(l);
    let program = p.parse_program().unwrap();
    assert_eq!(program.stmts.len(), expected.len());
    for (i, stmt) in program.stmts.iter().enumerate() {
        assert_eq!(stmt.to_string(), expected[i])
    }
}

#[test]
fn test_ident_expression() {
    let input = r#"let foobar = "foo""#;
    let expected = vec![r#"let foobar = "foo""#];
    let l = Lexer::new(input);
    let mut p = Parser::new(l);
    let program = p.parse_program().unwrap();
    assert_eq!(program.stmts.len(), expected.len());
    for (i, stmt) in program.stmts.iter().enumerate() {
        assert_eq!(stmt.to_string(), expected[i])
    }
}

#[test]
fn test_int_expression() {
    let input = "5";
    let expected = vec!["5"];
    let l = Lexer::new(input);
    let mut p = Parser::new(l);
    let program = p.parse_program().unwrap();
    assert_eq!(program.stmts.len(), expected.len());
    for (i, stmt) in program.stmts.iter().enumerate() {
        assert_eq!(stmt.to_string(), expected[i])
    }
}

#[test]
fn test_prefix_expression() {
    let input = "-5;
!5;";
    let expected = vec!["(-5)", "(!5)"];
    let l = Lexer::new(input);
    let mut p = Parser::new(l);
    let program = p.parse_program().unwrap();
    assert_eq!(program.stmts.len(), expected.len());
    for (i, stmt) in program.stmts.iter().enumerate() {
        assert_eq!(stmt.to_string(), expected[i])
    }
}

#[test]
fn test_infix_expression() {
    let input = "5 + 5;
        5 - 5;
        5 * 5;
        5 / 5;
        5 + 5 * 5;
        5 * 5 - 5 * 5 + 1;
        -a * b;
        !-a;
        a + b * c + d / e - f;
        5 > 4 == 3 < 4;
        5 < 4 != 3 > 4;
        3 + 4 * 5 == 3 * 1 + 4 * 5;
        ";
    let expected = vec![
        "(5 + 5)",
        "(5 - 5)",
        "(5 * 5)",
        "(5 / 5)",
        "(5 + (5 * 5))",
        "(((5 * 5) - (5 * 5)) + 1)",
        "((-a) * b)",
        "(!(-a))",
        "(((a + (b * c)) + (d / e)) - f)",
        "((5 > 4) == (3 < 4))",
        "((5 < 4) != (3 > 4))",
        "((3 + (4 * 5)) == ((3 * 1) + (4 * 5)))",
    ];
    let l = Lexer::new(input);
    let mut p = Parser::new(l);
    let program = p.parse_program().unwrap();
    assert_eq!(program.stmts.len(), expected.len());
    for (i, p) in program.stmts.iter().enumerate() {
        assert_eq!(p.to_string(), expected[i]);
    }
}

#[test]
fn parser_test_boolean() {
    let input = "true;
        false;
        3 > 5 == false;
        3 < 5 == true;
        !true
        ";
    let expected = vec![
        "true",
        "false",
        "((3 > 5) == false)",
        "((3 < 5) == true)",
        "(!true)",
    ];
    let l = Lexer::new(input);
    let mut p = Parser::new(l);
    let program = p.parse_program().unwrap();
    assert_eq!(program.stmts.len(), expected.len());
    for (i, p) in program.stmts.iter().enumerate() {
        assert_eq!(p.to_string(), expected[i]);
    }
}

#[test]
fn parser_test_array() {
    let input = "[1, 2 * 2, 3 + 3];
        a * [1, 2, 3, 4][b * c] * d;
        add(a * b[2], b[1], 2 * [1, 2][1]);
        ";
    let expected = vec![
        "[1, (2 * 2), (3 + 3)]",
        "((a * ([1, 2, 3, 4][(b * c)])) * d)",
        "add((a * (b[2])), (b[1]), (2 * ([1, 2][1])))",
    ];
    let l = Lexer::new(input);
    let mut p = Parser::new(l);
    let program = p.parse_program().unwrap();
    assert_eq!(program.stmts.len(), expected.len());
    for (i, p) in program.stmts.iter().enumerate() {
        assert_eq!(p.to_string(), expected[i]);
    }
}

#[test]
fn test_group() {
    let input = "1 + (2 + 3) + 4;
        (5 + 5) * 2;
        2 / (5 + 5);
        -(5 + 5);
        !(true == true);
        ";
    let expected = vec![
        "((1 + (2 + 3)) + 4)",
        "((5 + 5) * 2)",
        "(2 / (5 + 5))",
        "(-(5 + 5))",
        "(!(true == true))",
    ];
    let l = Lexer::new(input);
    let mut p = Parser::new(l);
    let program = p.parse_program().unwrap();
    assert_eq!(program.stmts.len(), expected.len());
    for (i, p) in program.stmts.iter().enumerate() {
        assert_eq!(p.to_string(), expected[i]);
    }
}

#[test]
fn parser_test_string() {
    let input = r#""foobar""#;
    let expected = vec![r#""foobar""#];
    let l = Lexer::new(input);
    let mut p = Parser::new(l);
    let program = p.parse_program().unwrap();
    assert_eq!(program.stmts.len(), expected.len());
    for (i, p) in program.stmts.iter().enumerate() {
        assert_eq!(p.to_string(), expected[i]);
    }
}

#[test]
fn test_if_expression() {
    let input = r#"if(x < y){x};
        if(a<b){a}else{b};"#;
    let expected = vec!["if((x < y)){x}", "if((a < b)){a}else{b}"];
    let l = Lexer::new(input);
    let mut p = Parser::new(l);
    let program = p.parse_program().unwrap();
    assert_eq!(program.stmts.len(), expected.len());
    for (i, p) in program.stmts.iter().enumerate() {
        assert_eq!(p.to_string(), expected[i]);
    }
}

#[test]
fn parser_test_function_literal() {
    let input = r#"fn(x,y){x+y};
        fn(){1+1};"#;
    let expected = vec!["fn(x,y){(x + y)}", "fn(){(1 + 1)}"];
    let l = Lexer::new(input);
    let mut p = Parser::new(l);
    let program = p.parse_program().unwrap();
    assert_eq!(program.stmts.len(), expected.len());
    for (i, p) in program.stmts.iter().enumerate() {
        assert_eq!(p.to_string(), expected[i]);
    }
}

#[test]
fn test_call_expr() {
    let input = r#"add(1, 2 * 3, 4 + 5);"#;
    let expected = vec!["add(1, (2 * 3), (4 + 5))"];
    let l = Lexer::new(input);
    let mut p = Parser::new(l);
    let program = p.parse_program().unwrap();
    assert_eq!(program.stmts.len(), expected.len());
    for (i, p) in program.stmts.iter().enumerate() {
        assert_eq!(p.to_string(), expected[i]);
    }
}

#[test]
fn test_hash_literal() {
    let input = r#"{"one": 1, "two": 2, "three": 3};
        {};
        {"one": 0 + 1, "two": 10 - 8, "three": 15 / 5};
        "#;
    let expected = vec![
        r#"{"one": 1, "two": 2, "three": 3}"#,
        "{}",
        r#"{"one": (0 + 1), "two": (10 - 8), "three": (15 / 5)}"#,
    ];
    let l = Lexer::new(input);
    let mut p = Parser::new(l);
    let program = p.parse_program().unwrap();
    assert_eq!(program.stmts.len(), expected.len());
    for (i, p) in program.stmts.iter().enumerate() {
        assert_eq!(p.to_string(), expected[i]);
    }
}

#[test]
fn program_text_ends_each_statement_with_a_line_feed() {
    let program = rmonkey::parse("let a = 1; a + 2").unwrap();
    assert_eq!(program.to_string(), "let a = 1\n(a + 2)\n");
    assert_eq!(rmonkey::parse("").unwrap().to_string(), "");
}

#[test]
fn syntax_tree_of_a_let_statement() {
    let program = rmonkey::parse("let x = -1 + y;").unwrap();
    assert_eq!(
        program.stmts,
        vec![Stmt::LetStatement {
            ident: Expr::Ident("x".to_string()),
            value: Expr::InfixExpr {
                left: Box::new(Expr::PrefixExpr {
                    op: Prefix::Minus,
                    right: Box::new(Expr::Int(1)),
                }),
                right: Box::new(Expr::Ident("y".to_string())),
                op: Infix::Plus,
            },
        }]
    );
}

#[test]
fn operators_of_one_precedence_associate_to_the_left() {
    assert_eq!(rendered("a - b - c"), vec!["((a - b) - c)"]);
    assert_eq!(rendered("a / b * c"), vec!["((a / b) * c)"]);
    assert_eq!(rendered("a == b != c"), vec!["((a == b) != c)"]);
}

#[test]
fn calls_and_indices_bind_most_tightly() {
    assert_eq!(rendered("-f(x)"), vec!["(-f(x))"]);
    assert_eq!(rendered("!a[0]"), vec!["(!(a[0]))"]);
    assert_eq!(rendered("a + f(b)[c]"), vec!["(a + (f(b)[c]))"]);
    assert_eq!(rendered("f()"), vec!["f()"]);
    assert_eq!(rendered("[]"), vec!["[]"]);
}

#[test]
fn precedence_levels_are_ordered() {
    let levels = [
        Precedence::Lowest,
        Precedence::Equals,
        Precedence::Relational,
        Precedence::Sum,
        Precedence::Product,
        Precedence::Prefix,
        Precedence::Call,
        Precedence::Index,
    ];
    for i in 0..levels.len() {
        assert_eq!(levels[i].level() as usize, i);
        for j in 0..levels.len() {
            assert_eq!(levels[i].below(&levels[j]), i < j);
        }
    }
    assert_eq!(Token::precedence(Token::Eq), Precedence::Equals);
    assert_eq!(Token::precedence(Token::NotEq), Precedence::Equals);
    assert_eq!(Token::precedence(Token::LessThan), Precedence::Relational);
    assert_eq!(Token::precedence(Token::GreaterThan), Precedence::Relational);
    assert_eq!(Token::precedence(Token::Plus), Precedence::Sum);
    assert_eq!(Token::precedence(Token::Minus), Precedence::Sum);
    assert_eq!(Token::precedence(Token::Asterisk), Precedence::Product);
    assert_eq!(Token::precedence(Token::Slash), Precedence::Product);
    assert_eq!(Token::precedence(Token::LParen), Precedence::Call);
    assert_eq!(Token::precedence(Token::LBracket), Precedence::Index);
    assert_eq!(Token::precedence(Token::Semicolon), Precedence::Lowest);
    assert_eq!(Token::precedence(Token::Bang), Precedence::Lowest);
    assert!(Precedence::Lowest < Precedence::Equals);
    assert!(Precedence::Call < Precedence::Index);
    assert_eq!(Precedence::Sum.max(Precedence::Product), Precedence::Product);
}

#[test]
fn unexpected_token_names_the_expected_and_the_actual_token() {
    assert_eq!(parse_error("let 5"), r#"stmt error: expected Ident(""), but got Int(5)"#);
    assert_eq!(parse_error("let x 5"), "stmt error: expected Assign, but got Int(5)");
    assert_eq!(parse_error("(1 + 2"), "stmt error: expected RParen, but got Eof");
    assert_eq!(parse_error("a[1"), "stmt error: expected RBracket, but got Eof");
    assert_eq!(parse_error("if x"), r#"stmt error: expected LParen, but got Ident("x")"#);
    assert_eq!(parse_error("fn x"), r#"stmt error: expected LParen, but got Ident("x")"#);
    assert_eq!(parse_error("f(1 2)"), "stmt error: expected RParen, but got Int(2)");
    assert_eq!(parse_error("{1 2}"), "stmt error: expected Colon, but got Int(2)");
    assert_eq!(parse_error("{1: 2 3}"), "stmt error: expected Comma, but got Int(3)");
    assert_eq!(
        parse_error("if (x) y"),
        r#"stmt error: expected LBrace, but got Ident("y")"#
    );
}

#[test]
fn a_token_that_starts_no_expression_is_an_error() {
    assert_eq!(parse_error(")"), "stmt error: RParen");
    assert_eq!(parse_error("1 + "), "stmt error: Eof");
    assert_eq!(parse_error("@"), r#"stmt error: Illegal("@")"#);
    assert_eq!(parse_error("let x = ;"), "stmt error: Semicolon");
    assert_eq!(
        parse_error("99999999999999999999"),
        r#"stmt error: Illegal("99999999999999999999")"#
    );
    assert_eq!(parse_error("1; \u{0}"), r#"stmt error: Illegal("\0")"#);
    assert_eq!(parse_error("\"a\" + \\"), r#"stmt error: Illegal("\\")"#);
}

#[test]
fn an_error_inside_a_block_keeps_its_message() {
    assert_eq!(parse_error("if (x) { let 5 }"), r#"stmt error: expected Ident(""), but got Int(5)"#);
    assert_eq!(parse_error("fn() { ) }"), "stmt error: RParen");
}

#[test]
fn parse_error_is_a_custom_error() {
    let l = Lexer::new("let");
    let mut p = Parser::new(l);
    match p.parse_program() {
        Err(MonkeyError::Custom(msg)) => {
            assert_eq!(msg, r#"stmt error: expected Ident(""), but got Eof"#)
        }
        other => panic!("unexpected result: {:?}", other),
    }
}

#[test]
fn parse_stmt_gives_the_error_itself() {
    let l = Lexer::new("let 5");
    let mut p = Parser::new(l);
    match p.parse_stmt() {
        Err(MonkeyError::UnexpectedToken(expected, actual)) => {
            assert_eq!(expected, Token::Ident(String::new()));
            assert_eq!(actual, Token::Int(5));
        }
        other => panic!("unexpected result: {:?}", other),
    }
}

#[test]
fn a_block_ends_at_the_end_of_the_input() {
    assert_eq!(rendered("if (a) { b"), vec!["if(a){b}"]);
    assert_eq!(rendered("fn(x) { x; y"), vec!["fn(x){xy}"]);
}

#[test]
fn statements_after_a_block() {
    assert_eq!(rendered("if (a) { b } c d"), vec!["if(a){b}", "c", "d"]);
    assert_eq!(rendered("if (a) { b }; c"), vec!["if(a){b}", "c"]);
    assert_eq!(rendered("if (a) { b } else { c } d"), vec!["if(a){b}else{c}", "d"]);
    assert_eq!(rendered("let f = fn(x) { x }; f(1)"), vec!["let f = fn(x){x}", "f(1)"]);
    assert_eq!(rendered("fn() { if (a) { b } c }"), vec!["fn(){if(a){b}c}"]);
}

#[test]
fn blocks_inside_expressions() {
    assert_eq!(rendered("fn(x) { x }(5)"), vec!["fn(x){x}(5)"]);
    assert_eq!(rendered("f(fn(x){x}, 1)"), vec!["f(fn(x){x}, 1)"]);
    assert_eq!(rendered("[if (a) { b }, c]"), vec!["[if(a){b}, c]"]);
    assert_eq!(rendered("if (a) { b } + c"), vec!["(if(a){b} + c)"]);
    assert_eq!(rendered("-if (a) { b } else { c }"), vec!["(-if(a){b}else{c})"]);
    assert_eq!(rendered("if (if (a) { b }) { c }"), vec!["if(if(a){b}){c}"]);
}

#[test]
fn parameters_are_names_with_commas_between_them() {
    assert_eq!(rendered("fn(x, y, z){}"), vec!["fn(x,y,z){}"]);
    assert_eq!(rendered("fn(){}"), vec!["fn(){}"]);
    assert_eq!(parse_error("fn(x y){}"), r#"stmt error: expected RParen, but got Ident("y")"#);
    assert_eq!(parse_error("fn(a + b, 1){}"), "stmt error: expected RParen, but got Plus");
    assert_eq!(parse_error("fn(1){}"), r#"stmt error: expected Ident(""), but got Int(1)"#);
    assert_eq!(parse_error("fn(x,){}"), r#"stmt error: expected Ident(""), but got RParen"#);
    assert_eq!(parse_error("fn(x, 2){}"), r#"stmt error: expected Ident(""), but got Int(2)"#);
    assert_eq!(parse_error("fn(x"), "stmt error: expected RParen, but got Eof");
}

#[test]
fn array_and_hash_literals_at_the_end_of_the_input() {
    let mut p = Parser::new(Lexer::new(""));
    assert_eq!(p.parse_array_literal().unwrap_err().to_string(), "Eof");
    assert_eq!(p.parse_hash_literal().unwrap_err().to_string(), "Eof");
    let mut p = Parser::new(Lexer::new("[1, 2]"));
    assert_eq!(p.parse_array_literal().unwrap().to_string(), "[1, 2]");
    let mut p = Parser::new(Lexer::new("{1: 2}"));
    assert_eq!(p.parse_hash_literal().unwrap().to_string(), "{1: 2}");
}

#[test]
fn next_token_moves_the_parser_on() {
    let mut p = Parser::new(Lexer::new("a b c"));
    assert_eq!(p.cur_token, Token::Ident("a".to_string()));
    assert_eq!(p.peek_token, Token::Ident("b".to_string()));
    p.next_token();
    assert_eq!(p.cur_token, Token::Ident("b".to_string()));
    assert_eq!(p.peek_token, Token::Ident("c".to_string()));
    p.next_token();
    p.next_token();
    assert_eq!(p.cur_token, Token::Eof);
    assert_eq!(p.peek_token, Token::Eof);
}

fn reads_back(source: &str) -> bool {
    let first = rmonkey::parse(source).unwrap();
    let text = first.to_string();
    match rmonkey::parse(&text) {
        Ok(second) => second.stmts == first.stmts && second.to_string() == text,
        Err(_) => false,
    }
}

#[test]
fn rendering_a_parsed_expression_and_parsing_it_again() {
    for source in [
        "",
        "a + b * c",
        "-a * (b + 1)",
        "!(x == y)",
        "f(a, b + c)[2]",
        "f(1)(2)(3)",
        "[1, 2, x][0]",
        "[]",
        "f()",
        "\"str\" + s",
        "true != false",
        "9223372036854775807",
        "let v = a < b != c > d",
        "return -1",
        "let a = 1; let b = a; f(a, b); return b;",
        "(a + b); c; \"d\"; 5; true",
        "[a]; b",
        "if (a < b) { a } else { b }",
        "if (a) { }",
        "fn(x, y) { x + y }",
        "fn() { }",
        "if (a) { b }; c",
        "let f = fn(x) { x }; f(1)",
        "fn(x) { x }(5)",
        "f(fn(x){x}, if (a) { b })[0]",
        "if (a) { b } + -fn() { c }",
        "if (if (a) { b } else { c }) { if (d) { e } f } else { g }; h",
        "let g = fn(a) { if (a) { return 1 } let b = f(a); b }; g(2)",
        "let f = fn(x) { if (x) { y } else { return fn(z) { z } } }",
        "a; return if (b) { let c = fn() { if (d) { e } } }",
        "let a = 1; if (a) { fn(b) { if (b) { a } else { if (c) { } } } }",
        "{}",
        "{\"a\": 1, b: [c], (d + e): {f: g}}",
        "f({1: 2})[{3: 4}]",
        "x; {1: 2}; y",
        "fn() { {a: b} }",
        "fn(x) { let a = f(x); a }",
        "fn(x) { let a = 1; a }",
        "if (a) { f(a); return [a] } else { \"s\"; 1; x; 2 }",
        "let f = fn(a, b) { let c = (a + b); let d = c[0]; if (d) { 1; return d } }",
    ] {
        assert!(reads_back(source), "{}", source);
    }
}

#[test]
fn canonical_text_that_reads_differently() {
    for source in [
        "a; (b + c)",
        "a; [b]",
        "if (a) { b }; (c + d)",
        "fn(x) { let y = x; y }",
        "fn() { 1; 2 }",
        "fn() { a; (b) }",
        "a; -b",
    ] {
        assert!(!reads_back(source), "{}", source);
    }
}
