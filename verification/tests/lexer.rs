use rmonkey::lexer::Lexer;
use rmonkey::token::Token;

fn assert_tokens(input: &str, expected: Vec<Token>) {
    let mut l = Lexer::new(input);
    for token in expected.iter() {
        assert_eq!(l.next_token(), *token);
    }
}

#[test]
fn test_next_token() {
    let input = "=+(){},!-/*5;";
    let expected = vec![
        Token::Assign,
        Token::Plus,
        Token::LParen,
        Token::RParen,
        Token::LBrace,
        Token::RBrace,
        Token::Comma,
        Token::Bang,
        Token::Minus,
        Token::Slash,
        Token::Asterisk,
        Token::Int(5),
        Token::Semicolon,
        Token::Eof,
    ];
    assert_tokens(input, expected);
}

#[test]
fn lexer_test_let_stmt() {
    let input = "let five = 5;";
    let expected = vec![
        Token::Let,
        Token::Ident("five".to_string()),
        Token::Assign,
        Token::Int(5),
        Token::Semicolon,
        Token::Eof,
    ];
    assert_tokens(input, expected);
}

#[test]
fn test_func() {
    let input = "let add = fn(x, y){x + y};";
    let expected = vec![
        Token::Let,
        Token::Ident("add".to_string()),
        Token::Assign,
        Token::Function,
        Token::LParen,
        Token::Ident("x".to_string()),
        Token::Comma,
        Token::Ident("y".to_string()),
        Token::RParen,
        Token::LBrace,
        Token::Ident("x".to_string()),
        Token::Plus,
        Token::Ident("y".to_string()),
        Token::RBrace,
        Token::Semicolon,
        Token::Eof,
    ];
    assert_tokens(input, expected);
}

#[test]
fn test_gt_le() {
    let input = "5 < 10 > 5";
    let expected = vec![
        Token::Int(5),
        Token::LessThan,
        Token::Int(10),
        Token::GreaterThan,
        Token::Int(5),
        Token::Eof,
    ];
    assert_tokens(input, expected);
}

#[test]
fn test_if_stmt() {
    let input = "if(5 < 10){return true} else {return false};";
    let expected = vec![
        Token::If,
        Token::LParen,
        Token::Int(5),
        Token::LessThan,
        Token::Int(10),
        Token::RParen,
        Token::LBrace,
        Token::Return,
        Token::True,
        Token::RBrace,
        Token::Else,
        Token::LBrace,
        Token::Return,
        Token::False,
        Token::RBrace,
        Token::Semicolon,
        Token::Eof,
    ];
    assert_tokens(input, expected);
}

#[test]
fn test_eq() {
    let input = "10 == 10; 10 != 9";
    let expected = vec![
        Token::Int(10),
        Token::Eq,
        Token::Int(10),
        Token::Semicolon,
        Token::Int(10),
        Token::NotEq,
        Token::Int(9),
        Token::Eof,
    ];
    assert_tokens(input, expected);
}

#[test]
fn eof_is_repeated_at_the_end() {
    let mut l = Lexer::new("a ");
    assert_eq!(l.next_token(), Token::Ident("a".to_string()));
    assert_eq!(l.next_token(), Token::Eof);
    assert_eq!(l.next_token(), Token::Eof);
    assert_eq!(l.next_token(), Token::Eof);
}

#[test]
fn strings_brackets_and_colon() {
    assert_tokens(
        "[\"a b\", 1]: \"\"",
        vec![
            Token::LBracket,
            Token::String("a b".to_string()),
            Token::Comma,
            Token::Int(1),
            Token::RBracket,
            Token::Colon,
            Token::String("".to_string()),
            Token::Eof,
        ],
    );
}

#[test]
fn unterminated_string_ends_with_the_input() {
    assert_tokens("\"abc", vec![Token::String("abc".to_string()), Token::Eof]);
    assert_tokens("\"", vec![Token::String("".to_string()), Token::Eof]);
}

#[test]
fn keywords_and_identifiers() {
    assert_tokens(
        "fn let true false if else return fnx Let",
        vec![
            Token::Function,
            Token::Let,
            Token::True,
            Token::False,
            Token::If,
            Token::Else,
            Token::Return,
            Token::Ident("fnx".to_string()),
            Token::Ident("Let".to_string()),
            Token::Eof,
        ],
    );
}

#[test]
fn identifier_ends_at_a_digit() {
    assert_tokens(
        "ab12cd",
        vec![
            Token::Ident("ab".to_string()),
            Token::Int(12),
            Token::Ident("cd".to_string()),
            Token::Eof,
        ],
    );
}

#[test]
fn integer_limits() {
    assert_tokens("9223372036854775807", vec![Token::Int(i64::MAX), Token::Eof]);
    assert_tokens(
        "9223372036854775808",
        vec![Token::Illegal("9223372036854775808".to_string()), Token::Eof],
    );
    assert_tokens(
        "99999999999999999999999999",
        vec![Token::Illegal("99999999999999999999999999".to_string()), Token::Eof],
    );
    assert_tokens("0007", vec![Token::Int(7), Token::Eof]);
    assert_tokens("0", vec![Token::Int(0), Token::Eof]);
}

#[test]
fn illegal_characters_are_tokens() {
    assert_tokens(
        "a @ b",
        vec![
            Token::Ident("a".to_string()),
            Token::Illegal("@".to_string()),
            Token::Ident("b".to_string()),
            Token::Eof,
        ],
    );
    assert_tokens(
        "1\u{0}2",
        vec![Token::Int(1), Token::Illegal("\u{0}".to_string()), Token::Int(2), Token::Eof],
    );
    assert_tokens("_", vec![Token::Illegal("_".to_string()), Token::Eof]);
}

#[test]
fn two_character_operators() {
    assert_tokens(
        "= == ! != =! ===",
        vec![
            Token::Assign,
            Token::Eq,
            Token::Bang,
            Token::NotEq,
            Token::Assign,
            Token::Bang,
            Token::Eq,
            Token::Assign,
            Token::Eof,
        ],
    );
}

#[test]
fn unicode_white_space_is_skipped() {
    assert_tokens(
        "\t1\u{a0}\n\r2\u{3000}\u{2003}3\u{85}",
        vec![Token::Int(1), Token::Int(2), Token::Int(3), Token::Eof],
    );
    assert_tokens(
        "1\u{200b}2",
        vec![Token::Int(1), Token::Illegal("\u{200b}".to_string()), Token::Int(2), Token::Eof],
    );
}

#[test]
fn white_space_agrees_with_the_standard_library() {
    let mut code: u32 = 0;
    while code <= 0x10ffff {
        if let Some(c) = char::from_u32(code) {
            assert_eq!(rmonkey::lexer::is_whitespace(c), c.is_whitespace(), "U+{:X}", code);
        }
        code += 1;
    }
}

#[test]
fn keyword_lookup() {
    assert_eq!(Token::keyword("fn"), Some(Token::Function));
    assert_eq!(Token::keyword("let"), Some(Token::Let));
    assert_eq!(Token::keyword("true"), Some(Token::True));
    assert_eq!(Token::keyword("false"), Some(Token::False));
    assert_eq!(Token::keyword("if"), Some(Token::If));
    assert_eq!(Token::keyword("else"), Some(Token::Else));
    assert_eq!(Token::keyword("return"), Some(Token::Return));
    assert_eq!(Token::keyword("function"), None);
    assert_eq!(Token::keyword(""), None);
}
