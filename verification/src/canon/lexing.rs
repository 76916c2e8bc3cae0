//! The lexer reads canonical text as the tokens of the tree that the text
//! was written from.

use crate::ast::{
    ExprView,
    StmtView,
    block_text,
    expr_text,
    join_text,
    pairs_text,
    program_text,
    stmt_text,
};
use crate::canon::{
    all_stable,
    begins_plainly,
    block_tokens,
    chain,
    expr_tokens,
    fits,
    infix_token,
    lemma_assoc,
    lemma_stable_params,
    list_tokens,
    pair_tokens,
    pairs_tokens,
    prefix_token,
    program_tokens,
    stable_block,
    stable_expr,
    stable_list,
    stable_pairs,
    stable_stmt,
    stmt_fits,
    stmt_tokens,
    word_ok,
};
use crate::lexer::{
    char_at,
    digits_end,
    is_digit_char,
    is_letter_char,
    is_space_char,
    lemma_digits_end_bounds,
    lemma_letters_end_bounds,
    lemma_skip_spaces_bounds,
    lemma_string_end_bounds,
    lemma_token_at_progress,
    letters_end,
    number_token,
    skip_spaces,
    string_end,
    token_at,
    tokens_from,
    word_token,
};
use crate::operator::{Infix, Prefix};
use crate::text::{digit_char, digits_value, nat_text};
use crate::token::TokenView;
use vstd::prelude::*;

verus! {

/// The tokens of a text.
pub open spec fn lex(s: Seq<char>) -> Seq<TokenView> {
    tokens_from(s, 0)
}

proof fn lemma_skip_spaces_shift(input: Seq<char>, pos: int, j: int)
    requires
        0 <= pos,
        0 <= j,
        pos + j <= input.len(),
    ensures
        skip_spaces(input, pos + j) == pos + skip_spaces(input.skip(pos), j),
    decreases input.len() - pos - j,
{
    let t = input.skip(pos);
    if pos + j < input.len() && is_space_char(input[pos + j]) {
        assert(t[j] == input[pos + j]);
        lemma_skip_spaces_shift(input, pos, j + 1);
    }
}

proof fn lemma_letters_end_shift(input: Seq<char>, pos: int, j: int)
    requires
        0 <= pos,
        0 <= j,
        pos + j <= input.len(),
    ensures
        letters_end(input, pos + j) == pos + letters_end(input.skip(pos), j),
    decreases input.len() - pos - j,
{
    let t = input.skip(pos);
    if pos + j < input.len() && is_letter_char(input[pos + j]) {
        assert(t[j] == input[pos + j]);
        lemma_letters_end_shift(input, pos, j + 1);
    }
}

proof fn lemma_digits_end_shift(input: Seq<char>, pos: int, j: int)
    requires
        0 <= pos,
        0 <= j,
        pos + j <= input.len(),
    ensures
        digits_end(input, pos + j) == pos + digits_end(input.skip(pos), j),
    decreases input.len() - pos - j,
{
    let t = input.skip(pos);
    if pos + j < input.len() && is_digit_char(input[pos + j]) {
        assert(t[j] == input[pos + j]);
        lemma_digits_end_shift(input, pos, j + 1);
    }
}

proof fn lemma_string_end_shift(input: Seq<char>, pos: int, j: int)
    requires
        0 <= pos,
        0 <= j,
        pos + j <= input.len(),
    ensures
        string_end(input, pos + j) == pos + string_end(input.skip(pos), j),
    decreases input.len() - pos - j,
{
    let t = input.skip(pos);
    if pos + j < input.len() && input[pos + j] != '"' {
        assert(t[j] == input[pos + j]);
        lemma_string_end_shift(input, pos, j + 1);
    }
}

/// The token at a position is the token at the start of the text from that
/// position on.
proof fn lemma_token_at_shift(input: Seq<char>, pos: int)
    requires
        0 <= pos <= input.len(),
    ensures
        token_at(input, pos).0 == token_at(input.skip(pos), 0).0,
        token_at(input, pos).1 == pos + token_at(input.skip(pos), 0).1,
{
    let t = input.skip(pos);
    lemma_skip_spaces_shift(input, pos, 0);
    lemma_skip_spaces_bounds(input, pos);
    lemma_skip_spaces_bounds(t, 0);
    let p = skip_spaces(input, pos);
    let q = skip_spaces(t, 0);
    assert(p == pos + q);
    assert(char_at(input, p) == char_at(t, q));
    assert(char_at(input, p + 1) == char_at(t, q + 1));
    if p < input.len() {
        lemma_letters_end_shift(input, pos, q);
        lemma_digits_end_shift(input, pos, q);
        lemma_string_end_shift(input, pos, q + 1);
        lemma_letters_end_bounds(input, p);
        lemma_digits_end_bounds(input, p);
        lemma_string_end_bounds(input, p + 1);
        lemma_letters_end_bounds(t, q);
        lemma_digits_end_bounds(t, q);
        lemma_string_end_bounds(t, q + 1);
        let le = letters_end(input, p);
        assert(input.subrange(p, le) =~= t.subrange(q, le - pos));
        let de = digits_end(input, p);
        assert(input.subrange(p, de) =~= t.subrange(q, de - pos));
        let se = string_end(input, p + 1);
        assert(input.subrange(p + 1, se) =~= t.subrange(q + 1, se - pos));
    }
}

/// The tokens from a position on are the tokens of the text from that
/// position on.
pub proof fn lemma_lex_suffix(input: Seq<char>, pos: int)
    requires
        0 <= pos <= input.len(),
    ensures
        tokens_from(input, pos) == lex(input.skip(pos)),
    decreases input.len() - pos,
{
    let t = input.skip(pos);
    if pos < input.len() {
        lemma_token_at_shift(input, pos);
        lemma_token_at_progress(input, pos);
        lemma_token_at_progress(t, 0);
        let (tok, next) = token_at(input, pos);
        let n = token_at(t, 0).1;
        if !(tok is Eof) {
            lemma_lex_suffix(input, next);
            lemma_lex_suffix(t, n);
            assert(input.skip(next) =~= t.skip(n));
        }
    } else {
        assert(t.len() == 0);
    }
}

/// The tokens of a text: its first token, and then the tokens of what
/// comes after that.
pub proof fn lemma_lex_step(s: Seq<char>)
    ensures
        s.len() == 0 ==> lex(s) == Seq::<TokenView>::empty(),
        s.len() > 0 && token_at(s, 0).0 is Eof ==> lex(s) == Seq::<TokenView>::empty(),
        s.len() > 0 && !(token_at(s, 0).0 is Eof) ==> lex(s) == seq![token_at(s, 0).0] + lex(
            s.skip(token_at(s, 0).1),
        ),
{
    if s.len() > 0 {
        lemma_token_at_progress(s, 0);
        lemma_lex_suffix(s, token_at(s, 0).1);
    }
}

/// White space before a text does not change its tokens.
pub proof fn lemma_lex_space(c: char, rest: Seq<char>)
    requires
        is_space_char(c),
    ensures
        lex(seq![c] + rest) == lex(rest),
{
    let s = seq![c] + rest;
    assert(s[0] == c);
    assert(s.skip(1) =~= rest);
    lemma_lex_suffix(s, 1);
    assert(skip_spaces(s, 0) == skip_spaces(s, 1));
    assert(token_at(s, 0) == token_at(s, 1));
    lemma_token_at_progress(s, 1);
}

/// The token that a character is by itself, where it is one: the
/// delimiters and the operators of one character. For `=` and `!` it is
/// the token where no `=` follows.
pub open spec fn single_token(c: char) -> Option<TokenView> {
    if c == '=' {
        Some(TokenView::Assign)
    } else if c == '!' {
        Some(TokenView::Bang)
    } else if c == ';' {
        Some(TokenView::Semicolon)
    } else if c == ':' {
        Some(TokenView::Colon)
    } else if c == ',' {
        Some(TokenView::Comma)
    } else if c == '(' {
        Some(TokenView::LParen)
    } else if c == ')' {
        Some(TokenView::RParen)
    } else if c == '{' {
        Some(TokenView::LBrace)
    } else if c == '}' {
        Some(TokenView::RBrace)
    } else if c == '[' {
        Some(TokenView::LBracket)
    } else if c == ']' {
        Some(TokenView::RBracket)
    } else if c == '+' {
        Some(TokenView::Plus)
    } else if c == '-' {
        Some(TokenView::Minus)
    } else if c == '*' {
        Some(TokenView::Asterisk)
    } else if c == '/' {
        Some(TokenView::Slash)
    } else if c == '<' {
        Some(TokenView::LessThan)
    } else if c == '>' {
        Some(TokenView::GreaterThan)
    } else {
        None
    }
}

/// A delimiter or an operator of one character is a token by itself.
pub proof fn lemma_lex_single(c: char, rest: Seq<char>)
    requires
        single_token(c) is Some,
        (c == '=' || c == '!') ==> (rest.len() == 0 || rest[0] != '='),
    ensures
        lex(seq![c] + rest) == seq![single_token(c)->Some_0] + lex(rest),
{
    let s = seq![c] + rest;
    assert(s[0] == c);
    assert(s.skip(1) =~= rest);
    if rest.len() > 0 {
        assert(s[1] == rest[0]);
    }
    assert(skip_spaces(s, 0) == 0);
    lemma_lex_step(s);
}

/// `==` and `!=` are one token each.
pub proof fn lemma_lex_double(c: char, rest: Seq<char>)
    requires
        c == '=' || c == '!',
    ensures
        lex(seq![c, '='] + rest) == seq![
            if c == '=' {
                TokenView::Eq
            } else {
                TokenView::NotEq
            },
        ] + lex(rest),
{
    let s = seq![c, '='] + rest;
    assert(s[0] == c);
    assert(s[1] == '=');
    assert(s.skip(2) =~= rest);
    assert(skip_spaces(s, 0) == 0);
    lemma_lex_step(s);
}

/// Text made of letters.
pub open spec fn all_letters(w: Seq<char>) -> bool {
    forall|i: int| 0 <= i < w.len() ==> is_letter_char(#[trigger] w[i])
}

/// Text made of digits.
pub open spec fn all_digits(w: Seq<char>) -> bool {
    forall|i: int| 0 <= i < w.len() ==> is_digit_char(#[trigger] w[i])
}

proof fn lemma_letters_run(w: Seq<char>, rest: Seq<char>, j: int)
    requires
        all_letters(w),
        rest.len() == 0 || !is_letter_char(rest[0]),
        0 <= j <= w.len(),
    ensures
        letters_end(w + rest, j) == w.len(),
    decreases w.len() - j,
{
    let s = w + rest;
    if j < w.len() {
        assert(s[j] == w[j]);
        lemma_letters_run(w, rest, j + 1);
    } else if rest.len() > 0 {
        assert(s[j] == rest[0]);
    }
}

proof fn lemma_digits_run(w: Seq<char>, rest: Seq<char>, j: int)
    requires
        all_digits(w),
        rest.len() == 0 || !is_digit_char(rest[0]),
        0 <= j <= w.len(),
    ensures
        digits_end(w + rest, j) == w.len(),
    decreases w.len() - j,
{
    let s = w + rest;
    if j < w.len() {
        assert(s[j] == w[j]);
        lemma_digits_run(w, rest, j + 1);
    } else if rest.len() > 0 {
        assert(s[j] == rest[0]);
    }
}

proof fn lemma_string_run(w: Seq<char>, rest: Seq<char>, j: int)
    requires
        !w.contains('"'),
        0 <= j <= w.len(),
    ensures
        string_end(seq!['"'] + w + seq!['"'] + rest, j + 1) == w.len() + 1,
    decreases w.len() - j,
{
    let s = seq!['"'] + w + seq!['"'] + rest;
    if j < w.len() {
        assert(s[j + 1] == w[j]);
        assert(w.contains(w[j]));
        lemma_string_run(w, rest, j + 1);
    } else {
        assert(s[j + 1] == '"');
    }
}

/// Letters up to a character that is no letter are one word.
pub proof fn lemma_lex_word(w: Seq<char>, rest: Seq<char>)
    requires
        w.len() > 0,
        all_letters(w),
        rest.len() == 0 || !is_letter_char(rest[0]),
    ensures
        lex(w + rest) == seq![word_token(w)] + lex(rest),
{
    let s = w + rest;
    assert(s[0] == w[0]);
    assert(skip_spaces(s, 0) == 0);
    lemma_letters_run(w, rest, 0);
    assert(s.subrange(0, w.len() as int) =~= w);
    assert(s.skip(w.len() as int) =~= rest);
    assert(token_at(s, 0) == (word_token(w), w.len() as int));
    lemma_lex_step(s);
}

/// Digits up to a character that is no digit are one number.
pub proof fn lemma_lex_number(w: Seq<char>, rest: Seq<char>)
    requires
        w.len() > 0,
        all_digits(w),
        rest.len() == 0 || !is_digit_char(rest[0]),
    ensures
        lex(w + rest) == seq![number_token(w)] + lex(rest),
{
    let s = w + rest;
    assert(s[0] == w[0]);
    assert(skip_spaces(s, 0) == 0);
    lemma_digits_run(w, rest, 0);
    assert(s.subrange(0, w.len() as int) =~= w);
    assert(s.skip(w.len() as int) =~= rest);
    assert(token_at(s, 0) == (number_token(w), w.len() as int));
    lemma_lex_step(s);
}

/// Text without a double quote, between double quotes, is one string.
pub proof fn lemma_lex_string(w: Seq<char>, rest: Seq<char>)
    requires
        !w.contains('"'),
    ensures
        lex(seq!['"'] + w + seq!['"'] + rest) == seq![TokenView::String(w)] + lex(rest),
{
    let s = seq!['"'] + w + seq!['"'] + rest;
    assert(s[0] == '"');
    assert(skip_spaces(s, 0) == 0);
    lemma_string_run(w, rest, 0);
    assert(s.subrange(1, (w.len() + 1) as int) =~= w);
    assert(s.skip((w.len() + 2) as int) =~= rest);
    assert(token_at(s, 0) == (TokenView::String(w), (w.len() + 2) as int));
    lemma_lex_step(s);
}

/// The decimal notation of a natural number is made of digits and denotes
/// the number.
pub proof fn lemma_nat_text(n: nat)
    ensures
        nat_text(n).len() > 0,
        all_digits(nat_text(n)),
        digits_value(nat_text(n)) == n,
    decreases n,
{
    if n < 10 {
        let s = seq![digit_char(n as int)];
        assert(s.drop_last() =~= Seq::<char>::empty());
        assert(digits_value(s.drop_last()) == 0);
        assert(s.last() == digit_char(n as int));
    } else {
        lemma_nat_text(n / 10);
        let s = nat_text(n / 10).push(digit_char((n % 10) as int));
        assert(s.drop_last() =~= nat_text(n / 10));
        assert(s.last() == digit_char((n % 10) as int));
    }
}

/// What the delimiters of the canonical text are made of.
proof fn lemma_literals()
    ensures
        "("@ == seq!['('],
        ")"@ == seq![')'],
        "["@ == seq!['['],
        "]"@ == seq![']'],
        "])"@ == seq![']', ')'],
        " "@ == seq![' '],
        ", "@ == seq![',', ' '],
        "\""@ == seq!['"'],
        "\n"@ == seq!['\n'],
{
    reveal_strlit("(");
    reveal_strlit(")");
    reveal_strlit("[");
    reveal_strlit("]");
    reveal_strlit("])");
    reveal_strlit(" ");
    reveal_strlit(", ");
    reveal_strlit("\"");
    reveal_strlit("\n");
    assert("("@ =~= seq!['(']);
    assert(")"@ =~= seq![')']);
    assert("["@ =~= seq!['[']);
    assert("]"@ =~= seq![']']);
    assert("])"@ =~= seq![']', ')']);
    assert(" "@ =~= seq![' ']);
    assert(", "@ =~= seq![',', ' ']);
    assert("\""@ =~= seq!['"']);
    assert("\n"@ =~= seq!['\n']);
}

/// What the words of the canonical text are made of.
proof fn lemma_word_literals()
    ensures
        "let "@ == seq!['l', 'e', 't', ' '],
        " = "@ == seq![' ', '=', ' '],
        "return "@ == seq!['r', 'e', 't', 'u', 'r', 'n', ' '],
        "true"@ == seq!['t', 'r', 'u', 'e'],
        "false"@ == seq!['f', 'a', 'l', 's', 'e'],
        "fn"@ == seq!['f', 'n'],
        "let"@ == seq!['l', 'e', 't'],
        "if"@ == seq!['i', 'f'],
        "else"@ == seq!['e', 'l', 's', 'e'],
        "return"@ == seq!['r', 'e', 't', 'u', 'r', 'n'],
{
    reveal_strlit("let ");
    reveal_strlit(" = ");
    reveal_strlit("return ");
    reveal_strlit("true");
    reveal_strlit("false");
    reveal_strlit("fn");
    reveal_strlit("let");
    reveal_strlit("if");
    reveal_strlit("else");
    reveal_strlit("return");
    assert("let "@ =~= seq!['l', 'e', 't', ' ']);
    assert(" = "@ =~= seq![' ', '=', ' ']);
    assert("return "@ =~= seq!['r', 'e', 't', 'u', 'r', 'n', ' ']);
    assert("true"@ =~= seq!['t', 'r', 'u', 'e']);
    assert("false"@ =~= seq!['f', 'a', 'l', 's', 'e']);
    assert("fn"@ =~= seq!['f', 'n']);
    assert("let"@ =~= seq!['l', 'e', 't']);
    assert("if"@ =~= seq!['i', 'f']);
    assert("else"@ =~= seq!['e', 'l', 's', 'e']);
    assert("return"@ =~= seq!['r', 'e', 't', 'u', 'r', 'n']);
}

/// What the operators of the canonical text are made of.
proof fn lemma_operator_literals()
    ensures
        "=="@ == seq!['=', '='],
        "!="@ == seq!['!', '='],
        "<"@ == seq!['<'],
        ">"@ == seq!['>'],
        "+"@ == seq!['+'],
        "-"@ == seq!['-'],
        "/"@ == seq!['/'],
        "*"@ == seq!['*'],
        "!"@ == seq!['!'],
{
    reveal_strlit("==");
    reveal_strlit("!=");
    reveal_strlit("<");
    reveal_strlit(">");
    reveal_strlit("+");
    reveal_strlit("-");
    reveal_strlit("/");
    reveal_strlit("*");
    reveal_strlit("!");
    assert("=="@ =~= seq!['=', '=']);
    assert("!="@ =~= seq!['!', '=']);
    assert("<"@ =~= seq!['<']);
    assert(">"@ =~= seq!['>']);
    assert("+"@ =~= seq!['+']);
    assert("-"@ =~= seq!['-']);
    assert("/"@ =~= seq!['/']);
    assert("*"@ =~= seq!['*']);
    assert("!"@ =~= seq!['!']);
}

/// Whether text can follow a name or a number without running into it.
pub open spec fn breaks(rest: Seq<char>) -> bool {
    rest.len() == 0 || !(is_letter_char(rest[0]) || is_digit_char(rest[0]))
}

/// The canonical text of an expression starts with a letter, a digit, a
/// double quote, or an opening parenthesis, bracket or brace.
pub proof fn lemma_text_head(e: ExprView)
    requires
        stable_expr(e),
    ensures
        expr_text(e).len() > 0,
        is_letter_char(expr_text(e)[0]) || is_digit_char(expr_text(e)[0]) || expr_text(e)[0]
            == '"' || expr_text(e)[0] == '(' || expr_text(e)[0] == '[' || expr_text(e)[0]
            == '{',
    decreases e,
{
    lemma_literals();
    lemma_word_literals();
    lemma_block_literals();
    match e {
        ExprView::Int(n) => {
            lemma_nat_text(n as nat);
        },
        ExprView::CallExpr { function, args } => {
            lemma_text_head(*function);
        },
        _ => {},
    }
}

proof fn lemma_lex_infix(op: Infix, rest: Seq<char>)
    requires
        rest.len() > 0,
        rest[0] == ' ',
    ensures
        lex(op.symbol() + rest) == seq![infix_token(op)] + lex(rest),
{
    lemma_operator_literals();
    match op {
        Infix::Eq => {
            lemma_lex_double('=', rest);
        },
        Infix::NotEq => {
            lemma_lex_double('!', rest);
        },
        Infix::LessThan => {
            lemma_lex_single('<', rest);
        },
        Infix::GreaterThan => {
            lemma_lex_single('>', rest);
        },
        Infix::Plus => {
            lemma_lex_single('+', rest);
        },
        Infix::Minus => {
            lemma_lex_single('-', rest);
        },
        Infix::Slash => {
            lemma_lex_single('/', rest);
        },
        Infix::Asterisk => {
            lemma_lex_single('*', rest);
        },
    }
}

proof fn lemma_lex_atom(e: ExprView, rest: Seq<char>)
    requires
        stable_expr(e),
        fits(e, rest),
        e is Ident || e is String || e is Int || e is Boolean,
    ensures
        lex(expr_text(e) + rest) == expr_tokens(e) + lex(rest),
{
    lemma_literals();
    match e {
        ExprView::Ident(s) => {
            lemma_lex_word(s, rest);
        },
        ExprView::String(s) => {
            lemma_lex_string(s, rest);
            assert(expr_text(e) + rest =~= seq!['"'] + s + seq!['"'] + rest);
        },
        ExprView::Int(n) => {
            lemma_nat_text(n as nat);
            lemma_lex_number(nat_text(n as nat), rest);
        },
        ExprView::Boolean(b) => {
            lemma_keywords();
            lemma_word_literals();
            if b {
                lemma_lex_word("true"@, rest);
            } else {
                lemma_lex_word("false"@, rest);
            }
        },
        _ => {},
    }
}

proof fn lemma_lex_prefix(op: Prefix, right: ExprView, rest: Seq<char>)
    requires
        stable_expr(right),
        lex(expr_text(right) + (seq![')'] + rest)) == expr_tokens(right) + lex(
            seq![')'] + rest,
        ),
    ensures
        ({
            let e = ExprView::PrefixExpr { op, right: Box::new(right) };
            lex(expr_text(e) + rest) == expr_tokens(e) + lex(rest)
        }),
{
    lemma_literals();
    lemma_operator_literals();
    let e = ExprView::PrefixExpr { op, right: Box::new(right) };
    let r1 = seq![')'] + rest;
    let r2 = expr_text(right) + r1;
    let opc = if op == Prefix::Minus {
        '-'
    } else {
        '!'
    };
    let r3 = seq![opc] + r2;
    lemma_lex_single(')', rest);
    lemma_text_head(right);
    assert(r2[0] == expr_text(right)[0]);
    lemma_lex_single(opc, r2);
    lemma_lex_single('(', r3);
    let t1 = seq!['('] + seq![opc];
    let t2 = t1 + expr_text(right);
    assert(expr_text(e) == t2 + seq![')']);
    lemma_assoc(t2, seq![')'], rest);
    lemma_assoc(t1, expr_text(right), r1);
    lemma_assoc(seq!['('], seq![opc], r2);
    let k1 = seq![TokenView::LParen] + seq![prefix_token(op)];
    let k2 = k1 + expr_tokens(right);
    assert(seq![TokenView::LParen, prefix_token(op)] =~= k1);
    assert(expr_tokens(e) == k2 + seq![TokenView::RParen]);
    lemma_assoc(k2, seq![TokenView::RParen], lex(rest));
    lemma_assoc(k1, expr_tokens(right), seq![TokenView::RParen] + lex(rest));
    lemma_assoc(
        seq![TokenView::LParen],
        seq![prefix_token(op)],
        expr_tokens(right) + (seq![TokenView::RParen] + lex(rest)),
    );
}

#[verifier::rlimit(40)]
proof fn lemma_lex_binary(left: ExprView, right: ExprView, op: Infix, rest: Seq<char>)
    requires
        lex(expr_text(right) + (seq![')'] + rest)) == expr_tokens(right) + lex(
            seq![')'] + rest,
        ),
        lex(
            expr_text(left) + (seq![' '] + (op.symbol() + (seq![' '] + (expr_text(right) + (seq![
                ')',
            ] + rest))))),
        ) == expr_tokens(left) + lex(
            seq![' '] + (op.symbol() + (seq![' '] + (expr_text(right) + (seq![')'] + rest)))),
        ),
    ensures
        ({
            let e = ExprView::InfixExpr { left: Box::new(left), right: Box::new(right), op };
            lex(expr_text(e) + rest) == expr_tokens(e) + lex(rest)
        }),
{
    lemma_literals();
    let e = ExprView::InfixExpr { left: Box::new(left), right: Box::new(right), op };
    let r1 = seq![')'] + rest;
    let r2 = expr_text(right) + r1;
    let r3 = seq![' '] + r2;
    let r4 = op.symbol() + r3;
    let r5 = seq![' '] + r4;
    let r6 = expr_text(left) + r5;
    lemma_lex_single(')', rest);
    lemma_lex_space(' ', r2);
    lemma_lex_infix(op, r3);
    lemma_lex_space(' ', r4);
    lemma_lex_single('(', r6);
    let t1 = seq!['('] + expr_text(left);
    let t2 = t1 + seq![' '];
    let t3 = t2 + op.symbol();
    let t4 = t3 + seq![' '];
    let t5 = t4 + expr_text(right);
    assert(expr_text(e) == t5 + seq![')']);
    lemma_assoc(t5, seq![')'], rest);
    lemma_assoc(t4, expr_text(right), r1);
    lemma_assoc(t3, seq![' '], r2);
    lemma_assoc(t2, op.symbol(), r3);
    lemma_assoc(t1, seq![' '], r4);
    lemma_assoc(seq!['('], expr_text(left), r5);
    let k1 = seq![TokenView::LParen] + expr_tokens(left);
    let k2 = k1 + seq![infix_token(op)];
    let k3 = k2 + expr_tokens(right);
    let z1 = seq![TokenView::RParen] + lex(rest);
    let z2 = expr_tokens(right) + z1;
    let z3 = seq![infix_token(op)] + z2;
    assert(expr_tokens(e) == k3 + seq![TokenView::RParen]);
    lemma_assoc(k3, seq![TokenView::RParen], lex(rest));
    lemma_assoc(k2, expr_tokens(right), z1);
    lemma_assoc(k1, seq![infix_token(op)], z2);
    lemma_assoc(seq![TokenView::LParen], expr_tokens(left), z3);
}

proof fn lemma_lex_index(left: ExprView, index: ExprView, rest: Seq<char>)
    requires
        lex(expr_text(index) + (seq![']'] + (seq![')'] + rest))) == expr_tokens(index) + lex(
            seq![']'] + (seq![')'] + rest),
        ),
        lex(expr_text(left) + (seq!['['] + (expr_text(index) + (seq![']'] + (seq![')'] + rest)))))
            == expr_tokens(left) + lex(
            seq!['['] + (expr_text(index) + (seq![']'] + (seq![')'] + rest))),
        ),
    ensures
        ({
            let e = ExprView::IndexExpr { left: Box::new(left), index: Box::new(index) };
            lex(expr_text(e) + rest) == expr_tokens(e) + lex(rest)
        }),
{
    lemma_literals();
    let e = ExprView::IndexExpr { left: Box::new(left), index: Box::new(index) };
    let r0 = seq![')'] + rest;
    let r1 = seq![']'] + r0;
    let r2 = expr_text(index) + r1;
    let r3 = seq!['['] + r2;
    let r4 = expr_text(left) + r3;
    lemma_lex_single(')', rest);
    lemma_lex_single(']', r0);
    lemma_lex_single('[', r2);
    lemma_lex_single('(', r4);
    let t1 = seq!['('] + expr_text(left);
    let t2 = t1 + seq!['['];
    let t3 = t2 + expr_text(index);
    assert(seq![']', ')'] =~= seq![']'] + seq![')']);
    assert(expr_text(e) == t3 + (seq![']'] + seq![')']));
    lemma_assoc(seq![']'], seq![')'], rest);
    lemma_assoc(t3, seq![']'] + seq![')'], rest);
    lemma_assoc(t2, expr_text(index), r1);
    lemma_assoc(t1, seq!['['], r2);
    lemma_assoc(seq!['('], expr_text(left), r3);
    let k1 = seq![TokenView::LParen] + expr_tokens(left);
    let k2 = k1 + seq![TokenView::LBracket];
    let k3 = k2 + expr_tokens(index);
    let z0 = seq![TokenView::RParen] + lex(rest);
    let z1 = seq![TokenView::RBracket] + z0;
    let z2 = expr_tokens(index) + z1;
    let z3 = seq![TokenView::LBracket] + z2;
    assert(seq![TokenView::RBracket, TokenView::RParen] =~= seq![TokenView::RBracket] + seq![
        TokenView::RParen,
    ]);
    assert(expr_tokens(e) == k3 + (seq![TokenView::RBracket] + seq![TokenView::RParen]));
    lemma_assoc(seq![TokenView::RBracket], seq![TokenView::RParen], lex(rest));
    lemma_assoc(k3, seq![TokenView::RBracket] + seq![TokenView::RParen], lex(rest));
    lemma_assoc(k2, expr_tokens(index), z1);
    lemma_assoc(k1, seq![TokenView::LBracket], z2);
    lemma_assoc(seq![TokenView::LParen], expr_tokens(left), z3);
}

proof fn lemma_lex_call(function: ExprView, args: Seq<ExprView>, rest: Seq<char>)
    requires
        lex(join_text(args, ", "@) + (seq![')'] + rest)) == list_tokens(args) + lex(
            seq![')'] + rest,
        ),
        lex(expr_text(function) + (seq!['('] + (join_text(args, ", "@) + (seq![')'] + rest))))
            == expr_tokens(function) + lex(
            seq!['('] + (join_text(args, ", "@) + (seq![')'] + rest)),
        ),
    ensures
        ({
            let e = ExprView::CallExpr { function: Box::new(function), args };
            lex(expr_text(e) + rest) == expr_tokens(e) + lex(rest)
        }),
{
    lemma_literals();
    let e = ExprView::CallExpr { function: Box::new(function), args };
    let r1 = seq![')'] + rest;
    let r2 = join_text(args, ", "@) + r1;
    let r3 = seq!['('] + r2;
    lemma_lex_single(')', rest);
    lemma_lex_single('(', r2);
    let t1 = expr_text(function) + seq!['('];
    let t2 = t1 + join_text(args, ", "@);
    assert(expr_text(e) == t2 + seq![')']);
    lemma_assoc(t2, seq![')'], rest);
    lemma_assoc(t1, join_text(args, ", "@), r1);
    lemma_assoc(expr_text(function), seq!['('], r2);
    let k1 = expr_tokens(function) + seq![TokenView::LParen];
    let k2 = k1 + list_tokens(args);
    let z1 = seq![TokenView::RParen] + lex(rest);
    let z2 = list_tokens(args) + z1;
    assert(expr_tokens(e) == k2 + seq![TokenView::RParen]);
    lemma_assoc(k2, seq![TokenView::RParen], lex(rest));
    lemma_assoc(k1, list_tokens(args), z1);
    lemma_assoc(expr_tokens(function), seq![TokenView::LParen], z2);
}

proof fn lemma_lex_array(elements: Seq<ExprView>, rest: Seq<char>)
    requires
        lex(join_text(elements, ", "@) + (seq![']'] + rest)) == list_tokens(elements) + lex(
            seq![']'] + rest,
        ),
    ensures
        ({
            let e = ExprView::ArrayLiteral { elements };
            lex(expr_text(e) + rest) == expr_tokens(e) + lex(rest)
        }),
{
    lemma_literals();
    let e = ExprView::ArrayLiteral { elements };
    let r1 = seq![']'] + rest;
    let r2 = join_text(elements, ", "@) + r1;
    lemma_lex_single(']', rest);
    lemma_lex_single('[', r2);
    let t1 = seq!['['] + join_text(elements, ", "@);
    assert(expr_text(e) == t1 + seq![']']);
    lemma_assoc(t1, seq![']'], rest);
    lemma_assoc(seq!['['], join_text(elements, ", "@), r1);
    let k1 = seq![TokenView::LBracket] + list_tokens(elements);
    let z1 = seq![TokenView::RBracket] + lex(rest);
    assert(expr_tokens(e) == k1 + seq![TokenView::RBracket]);
    lemma_assoc(k1, seq![TokenView::RBracket], lex(rest));
    lemma_assoc(seq![TokenView::LBracket], list_tokens(elements), z1);
}

proof fn lemma_lex_pair(key: ExprView, value: ExprView, rest: Seq<char>)
    requires
        stable_expr(key),
        lex(expr_text(value) + rest) == expr_tokens(value) + lex(rest),
        lex(expr_text(key) + (seq![':'] + (seq![' '] + (expr_text(value) + rest))))
            == expr_tokens(key) + lex(seq![':'] + (seq![' '] + (expr_text(value) + rest))),
    ensures
        lex(((expr_text(key) + ": "@) + expr_text(value)) + rest) == pair_tokens((key, value))
            + lex(rest),
{
    lemma_block_literals();
    let r1 = expr_text(value) + rest;
    let r2 = seq![' '] + r1;
    let r3 = seq![':'] + r2;
    lemma_lex_space(' ', r1);
    lemma_lex_single(':', r2);
    assert(": "@ =~= seq![':'] + seq![' ']);
    lemma_assoc(expr_text(key) + (seq![':'] + seq![' ']), expr_text(value), rest);
    lemma_assoc(expr_text(key), seq![':'] + seq![' '], r1);
    lemma_assoc(seq![':'], seq![' '], r1);
    let z1 = expr_tokens(value) + lex(rest);
    lemma_assoc(expr_tokens(key) + seq![TokenView::Colon], expr_tokens(value), lex(rest));
    lemma_assoc(expr_tokens(key), seq![TokenView::Colon], z1);
}

/// The lexer reads the canonical text of key-value pairs as the pairs'
/// tokens.
#[verifier::rlimit(40)]
pub proof fn lemma_lex_pairs(ps: Seq<(ExprView, ExprView)>, rest: Seq<char>)
    requires
        stable_pairs(ps),
        ps.len() > 0 ==> fits(ps.last().1, rest),
    ensures
        lex(pairs_text(ps) + rest) == pairs_tokens(ps) + lex(rest),
    decreases ps, 0nat,
{
    lemma_literals();
    if ps.len() == 0 {
        assert(pairs_text(ps) + rest =~= rest);
        assert(pairs_tokens(ps) + lex(rest) =~= lex(rest));
    } else {
        let key = ps.last().0;
        let value = ps.last().1;
        let pair_text = (expr_text(key) + ": "@) + expr_text(value);
        lemma_lex_expr(value, rest);
        lemma_lex_expr(key, seq![':'] + (seq![' '] + (expr_text(value) + rest)));
        lemma_lex_pair(key, value, rest);
        if ps.len() == 1 {
            assert(ps.drop_last().len() == 0);
            assert(ps[0] == (key, value));
        } else {
            let r1 = pair_text + rest;
            let r2 = seq![' '] + r1;
            let r3 = seq![','] + r2;
            lemma_lex_space(' ', r1);
            lemma_lex_single(',', r2);
            assert(ps.drop_last().last() == ps[ps.len() - 2]);
            lemma_lex_pairs(ps.drop_last(), r3);
            let head = pairs_text(ps.drop_last());
            let sep = seq![','] + seq![' '];
            assert(", "@ =~= sep);
            assert(pairs_text(ps) == (((head + sep) + expr_text(key)) + ": "@) + expr_text(value));
            lemma_assoc((head + sep) + expr_text(key), ": "@, expr_text(value));
            lemma_assoc(head + sep, expr_text(key), ": "@ + expr_text(value));
            lemma_assoc(expr_text(key), ": "@, expr_text(value));
            lemma_assoc(head + sep, pair_text, rest);
            lemma_assoc(head, sep, r1);
            lemma_assoc(seq![','], seq![' '], r1);
            let k1 = pairs_tokens(ps.drop_last()) + seq![TokenView::Comma];
            let z1 = pair_tokens((key, value)) + lex(rest);
            assert(ps.last() == (key, value));
            lemma_assoc(k1, pair_tokens((key, value)), lex(rest));
            lemma_assoc(pairs_tokens(ps.drop_last()), seq![TokenView::Comma], z1);
        }
    }
}

proof fn lemma_lex_hash(pairs: Seq<(ExprView, ExprView)>, rest: Seq<char>)
    requires
        lex(pairs_text(pairs) + (seq!['}'] + rest)) == pairs_tokens(pairs) + lex(
            seq!['}'] + rest,
        ),
    ensures
        ({
            let e = ExprView::HashLiteral { pairs };
            lex(expr_text(e) + rest) == expr_tokens(e) + lex(rest)
        }),
{
    lemma_block_literals();
    let e = ExprView::HashLiteral { pairs };
    let r1 = seq!['}'] + rest;
    let r2 = pairs_text(pairs) + r1;
    lemma_lex_single('}', rest);
    lemma_lex_single('{', r2);
    let t1 = seq!['{'] + pairs_text(pairs);
    assert(expr_text(e) == t1 + seq!['}']);
    lemma_assoc(t1, seq!['}'], rest);
    lemma_assoc(seq!['{'], pairs_text(pairs), r1);
    let k1 = seq![TokenView::LBrace] + pairs_tokens(pairs);
    let z1 = seq![TokenView::RBrace] + lex(rest);
    assert(expr_tokens(e) == k1 + seq![TokenView::RBrace]);
    lemma_assoc(k1, seq![TokenView::RBrace], lex(rest));
    lemma_assoc(seq![TokenView::LBrace], pairs_tokens(pairs), z1);
}

/// The lexer reads the canonical text of an expression as the expression's
/// tokens, whatever follows it, as long as that does not run into it.
#[verifier::rlimit(40)]
pub proof fn lemma_lex_expr(e: ExprView, rest: Seq<char>)
    requires
        stable_expr(e),
        fits(e, rest),
    ensures
        lex(expr_text(e) + rest) == expr_tokens(e) + lex(rest),
    decreases e, 1nat,
{
    match e {
        ExprView::PrefixExpr { op, right } => {
            lemma_lex_expr(*right, seq![')'] + rest);
            lemma_lex_prefix(op, *right, rest);
        },
        ExprView::InfixExpr { left, right, op } => {
            lemma_lex_expr(*right, seq![')'] + rest);
            lemma_lex_expr(
                *left,
                seq![' '] + (op.symbol() + (seq![' '] + (expr_text(*right) + (seq![')']
                    + rest)))),
            );
            lemma_lex_binary(*left, *right, op, rest);
        },
        ExprView::IndexExpr { left, index } => {
            lemma_lex_expr(*index, seq![']'] + (seq![')'] + rest));
            lemma_lex_expr(
                *left,
                seq!['['] + (expr_text(*index) + (seq![']'] + (seq![')'] + rest))),
            );
            lemma_lex_index(*left, *index, rest);
        },
        ExprView::CallExpr { function, args } => {
            lemma_lex_list(args, seq![')'] + rest);
            lemma_lex_expr(
                *function,
                seq!['('] + (join_text(args, ", "@) + (seq![')'] + rest)),
            );
            lemma_lex_call(*function, args, rest);
        },
        ExprView::ArrayLiteral { elements } => {
            lemma_lex_list(elements, seq![']'] + rest);
            lemma_lex_array(elements, rest);
        },
        ExprView::HashLiteral { pairs } => {
            lemma_lex_pairs(pairs, seq!['}'] + rest);
            lemma_lex_hash(pairs, rest);
        },
        ExprView::IfExpr { condition, consequence, alternative } => {
            match alternative {
                None => {
                    let r1 = seq!['}'] + rest;
                    lemma_lex_block(*consequence, r1);
                    lemma_lex_expr(
                        *condition,
                        seq![')'] + (seq!['{'] + (stmt_text(*consequence) + r1)),
                    );
                    lemma_lex_if(*condition, *consequence, rest);
                },
                Some(alt) => {
                    let r1 = seq!['}'] + rest;
                    let r2 = seq!['}'] + ("else"@ + (seq!['{'] + (stmt_text(*alt) + r1)));
                    lemma_lex_block(*alt, r1);
                    lemma_lex_block(*consequence, r2);
                    lemma_lex_expr(
                        *condition,
                        seq![')'] + (seq!['{'] + (stmt_text(*consequence) + r2)),
                    );
                    lemma_lex_if_else(*condition, *consequence, *alt, rest);
                },
            }
        },
        ExprView::FuncLiteral { parameters, body } => {
            let r1 = seq!['}'] + rest;
            lemma_lex_block(*body, r1);
            lemma_stable_params(parameters);
            lemma_lex_params(parameters, seq![')'] + (seq!['{'] + (stmt_text(*body) + r1)));
            lemma_lex_func(parameters, *body, rest);
        },
        _ => {
            lemma_lex_atom(e, rest);
        },
    }
}

/// The lexer reads the canonical text of a block as the tokens of its
/// statements, where a closing brace follows.
pub proof fn lemma_lex_block(b: StmtView, rest: Seq<char>)
    requires
        stable_block(b),
        breaks(rest),
    ensures
        lex(stmt_text(b) + rest) == block_tokens(b) + lex(rest),
    decreases b, 0nat,
{
    match b {
        StmtView::BlockStatement { stmts } => {
            lemma_lex_body(stmts, rest);
        },
        _ => {},
    }
}

/// The lexer reads the canonical text of a list of expressions as the
/// list's tokens.
pub proof fn lemma_lex_list(es: Seq<ExprView>, rest: Seq<char>)
    requires
        stable_list(es),
        es.len() > 0 ==> fits(es.last(), rest),
    ensures
        lex(join_text(es, ", "@) + rest) == list_tokens(es) + lex(rest),
    decreases es, 0nat,
{
    lemma_literals();
    if es.len() == 0 {
        assert(join_text(es, ", "@) + rest =~= rest);
        assert(list_tokens(es) + lex(rest) =~= lex(rest));
    } else if es.len() == 1 {
        assert(es.drop_last().len() == 0);
        lemma_lex_expr(es[0], rest);
    } else {
        let r1 = expr_text(es.last()) + rest;
        let r2 = seq![' '] + r1;
        let r3 = seq![','] + r2;
        lemma_lex_expr(es.last(), rest);
        lemma_lex_space(' ', r1);
        lemma_lex_single(',', r2);
        lemma_lex_list(es.drop_last(), r3);
        let t1 = join_text(es.drop_last(), ", "@) + (seq![','] + seq![' ']);
        assert(seq![',', ' '] =~= seq![','] + seq![' ']);
        assert(join_text(es, ", "@) == t1 + expr_text(es.last()));
        lemma_assoc(t1, expr_text(es.last()), rest);
        lemma_assoc(seq![','], seq![' '], r1);
        lemma_assoc(join_text(es.drop_last(), ", "@), seq![','] + seq![' '], r1);
        let k1 = list_tokens(es.drop_last()) + seq![TokenView::Comma];
        let z1 = expr_tokens(es.last()) + lex(rest);
        lemma_assoc(k1, expr_tokens(es.last()), lex(rest));
        lemma_assoc(list_tokens(es.drop_last()), seq![TokenView::Comma], z1);
    }
}

/// The keywords of the canonical text, as the lexer reads them.
proof fn lemma_keywords()
    ensures
        all_letters("let"@) && word_token("let"@) == TokenView::Let,
        all_letters("return"@) && word_token("return"@) == TokenView::Return,
        all_letters("true"@) && word_token("true"@) == TokenView::True,
        all_letters("false"@) && word_token("false"@) == TokenView::False,
{
    lemma_word_literals();
}

/// The lexer reads the start of a `let` statement as its first three
/// tokens.
#[verifier::rlimit(40)]
proof fn lemma_lex_let_head(name: Seq<char>, rest: Seq<char>)
    requires
        word_ok(name),
    ensures
        lex((("let "@ + name) + " = "@) + rest) == seq![
            TokenView::Let,
            TokenView::Ident(name),
            TokenView::Assign,
        ] + lex(rest),
{
    lemma_word_literals();
    lemma_keywords();
    let r2 = seq![' '] + rest;
    let r3 = seq!['='] + r2;
    let r4 = seq![' '] + r3;
    let r5 = name + r4;
    let r6 = seq![' '] + r5;
    lemma_lex_space(' ', rest);
    lemma_lex_single('=', r2);
    lemma_lex_space(' ', r3);
    lemma_lex_word(name, r4);
    lemma_lex_space(' ', r5);
    lemma_lex_word("let"@, r6);
    assert("let "@ =~= "let"@ + seq![' ']);
    assert(" = "@ =~= seq![' '] + (seq!['='] + seq![' ']));
    let t1 = ("let"@ + seq![' ']) + name;
    let eq = seq![' '] + (seq!['='] + seq![' ']);
    lemma_assoc(t1, eq, rest);
    lemma_assoc(seq![' '], seq!['='] + seq![' '], rest);
    lemma_assoc(seq!['='], seq![' '], rest);
    lemma_assoc("let"@ + seq![' '], name, r4);
    lemma_assoc("let"@, seq![' '], r5);
    let k0 = seq![TokenView::Let] + (seq![TokenView::Ident(name)] + seq![TokenView::Assign]);
    assert(seq![TokenView::Let, TokenView::Ident(name), TokenView::Assign] =~= k0);
    lemma_assoc(
        seq![TokenView::Let],
        seq![TokenView::Ident(name)] + seq![TokenView::Assign],
        lex(rest),
    );
    lemma_assoc(seq![TokenView::Ident(name)], seq![TokenView::Assign], lex(rest));
}

/// The lexer reads the start of a `return` statement as its first token.
proof fn lemma_lex_return_head(rest: Seq<char>)
    ensures
        lex("return "@ + rest) == seq![TokenView::Return] + lex(rest),
{
    lemma_word_literals();
    lemma_keywords();
    let r2 = seq![' '] + rest;
    lemma_lex_space(' ', rest);
    lemma_lex_word("return"@, r2);
    assert("return "@ =~= "return"@ + seq![' ']);
    lemma_assoc("return"@, seq![' '], rest);
}

proof fn lemma_lex_let(name: Seq<char>, value: ExprView, rest: Seq<char>)
    requires
        word_ok(name),
        lex(expr_text(value) + rest) == expr_tokens(value) + lex(rest),
    ensures
        ({
            let s = StmtView::LetStatement { ident: ExprView::Ident(name), value };
            lex(stmt_text(s) + rest) == stmt_tokens(s) + lex(rest)
        }),
{
    let head = ("let "@ + name) + " = "@;
    let tokens = seq![TokenView::Let, TokenView::Ident(name), TokenView::Assign];
    lemma_lex_let_head(name, expr_text(value) + rest);
    lemma_assoc(head, expr_text(value), rest);
    lemma_assoc(tokens, expr_tokens(value), lex(rest));
}

proof fn lemma_lex_return(value: ExprView, rest: Seq<char>)
    requires
        lex(expr_text(value) + rest) == expr_tokens(value) + lex(rest),
    ensures
        ({
            let s = StmtView::ReturnStatement { value };
            lex(stmt_text(s) + rest) == stmt_tokens(s) + lex(rest)
        }),
{
    lemma_lex_return_head(expr_text(value) + rest);
    lemma_assoc("return "@, expr_text(value), rest);
    lemma_assoc(seq![TokenView::Return], expr_tokens(value), lex(rest));
}

/// The lexer reads the canonical text of a statement as the statement's
/// tokens.
pub proof fn lemma_lex_stmt(s: StmtView, rest: Seq<char>)
    requires
        stable_stmt(s),
        stmt_fits(s, rest),
    ensures
        lex(stmt_text(s) + rest) == stmt_tokens(s) + lex(rest),
    decreases s, 0nat,
{
    match s {
        StmtView::LetStatement { ident, value } => {
            lemma_lex_expr(value, rest);
            lemma_lex_let(ident->Ident_0, value, rest);
        },
        StmtView::ReturnStatement { value } => {
            lemma_lex_expr(value, rest);
            lemma_lex_return(value, rest);
        },
        StmtView::ExpressionStatement { expr } => {
            lemma_lex_expr(expr, rest);
        },
        StmtView::BlockStatement { .. } => {},
    }
}

/// The lexer reads the canonical text of a program as the program's
/// tokens.
pub proof fn lemma_lex_program(ss: Seq<StmtView>, rest: Seq<char>)
    requires
        all_stable(ss),
    ensures
        lex(program_text(ss) + rest) == program_tokens(ss) + lex(rest),
    decreases ss.len(),
{
    lemma_literals();
    if ss.len() == 0 {
        assert(program_text(ss) + rest =~= rest);
        assert(program_tokens(ss) + lex(rest) =~= lex(rest));
    } else {
        let r1 = seq!['\n'] + rest;
        let r2 = stmt_text(ss.last()) + r1;
        lemma_lex_space('\n', rest);
        lemma_lex_stmt(ss.last(), r1);
        lemma_lex_program(ss.drop_last(), r2);
        let t1 = program_text(ss.drop_last()) + stmt_text(ss.last());
        assert(program_text(ss) == t1 + seq!['\n']);
        lemma_assoc(t1, seq!['\n'], rest);
        lemma_assoc(program_text(ss.drop_last()), stmt_text(ss.last()), r1);
        lemma_assoc(program_tokens(ss.drop_last()), stmt_tokens(ss.last()), lex(rest));
    }
}

/// What the delimiters of blocks are made of.
proof fn lemma_block_literals()
    ensures
        "if("@ == seq!['i', 'f', '('],
        "fn("@ == seq!['f', 'n', '('],
        "){"@ == seq![')', '{'],
        "{"@ == seq!['{'],
        ": "@ == seq![':', ' '],
        "}"@ == seq!['}'],
        "}else{"@ == seq!['}', 'e', 'l', 's', 'e', '{'],
        ","@ == seq![','],
{
    reveal_strlit("if(");
    reveal_strlit("fn(");
    reveal_strlit("){");
    reveal_strlit("{");
    reveal_strlit(": ");
    reveal_strlit("}");
    reveal_strlit("}else{");
    reveal_strlit(",");
    assert("if("@ =~= seq!['i', 'f', '(']);
    assert("fn("@ =~= seq!['f', 'n', '(']);
    assert("){"@ =~= seq![')', '{']);
    assert("{"@ =~= seq!['{']);
    assert(": "@ =~= seq![':', ' ']);
    assert("}"@ =~= seq!['}']);
    assert("}else{"@ =~= seq!['}', 'e', 'l', 's', 'e', '{']);
    assert(","@ =~= seq![',']);
}

/// The keywords of blocks, as the lexer reads them.
proof fn lemma_block_keywords()
    ensures
        "if"@.len() > 0 && all_letters("if"@) && word_token("if"@) == TokenView::If,
        "fn"@.len() > 0 && all_letters("fn"@) && word_token("fn"@) == TokenView::Function,
        "else"@.len() > 0 && all_letters("else"@) && word_token("else"@) == TokenView::Else,
{
    lemma_word_literals();
}

/// The lexer reads the canonical text of a parameter list as the list's
/// tokens.
pub proof fn lemma_lex_params(es: Seq<ExprView>, rest: Seq<char>)
    requires
        stable_list(es),
        es.len() > 0 ==> fits(es.last(), rest),
    ensures
        lex(join_text(es, ","@) + rest) == list_tokens(es) + lex(rest),
    decreases es, 0nat,
{
    lemma_block_literals();
    if es.len() == 0 {
        assert(join_text(es, ","@) + rest =~= rest);
        assert(list_tokens(es) + lex(rest) =~= lex(rest));
    } else if es.len() == 1 {
        assert(es.drop_last().len() == 0);
        lemma_lex_expr(es[0], rest);
    } else {
        let r1 = expr_text(es.last()) + rest;
        let r2 = seq![','] + r1;
        lemma_lex_expr(es.last(), rest);
        lemma_lex_single(',', r1);
        lemma_lex_params(es.drop_last(), r2);
        let t1 = join_text(es.drop_last(), ","@) + seq![','];
        assert(join_text(es, ","@) == t1 + expr_text(es.last()));
        lemma_assoc(t1, expr_text(es.last()), rest);
        lemma_assoc(join_text(es.drop_last(), ","@), seq![','], r1);
        let k1 = list_tokens(es.drop_last()) + seq![TokenView::Comma];
        let z1 = expr_tokens(es.last()) + lex(rest);
        lemma_assoc(k1, expr_tokens(es.last()), lex(rest));
        lemma_assoc(list_tokens(es.drop_last()), seq![TokenView::Comma], z1);
    }
}

proof fn lemma_lex_if(
    condition: ExprView,
    consequence: StmtView,
    rest: Seq<char>,
)
    requires
        lex(stmt_text(consequence) + (seq!['}'] + rest)) == block_tokens(consequence) + lex(
            seq!['}'] + rest,
        ),
        lex(
            expr_text(condition) + (seq![')'] + (seq!['{'] + (stmt_text(consequence) + (seq!['}']
                + rest)))),
        ) == expr_tokens(condition) + lex(
            seq![')'] + (seq!['{'] + (stmt_text(consequence) + (seq!['}'] + rest))),
        ),
    ensures
        ({
            let e = ExprView::IfExpr {
                condition: Box::new(condition),
                consequence: Box::new(consequence),
                alternative: None,
            };
            lex(expr_text(e) + rest) == expr_tokens(e) + lex(rest)
        }),
{
    lemma_block_literals();
    lemma_block_keywords();
    lemma_word_literals();
    let e = ExprView::IfExpr {
        condition: Box::new(condition),
        consequence: Box::new(consequence),
        alternative: None,
    };
    let c = expr_text(condition);
    let b = stmt_text(consequence);
    let r1 = seq!['}'] + rest;
    let r2 = b + r1;
    let r3 = seq!['{'] + r2;
    let r4 = seq![')'] + r3;
    let r5 = c + r4;
    let r6 = seq!['('] + r5;
    lemma_lex_single('}', rest);
    lemma_lex_single('{', r2);
    lemma_lex_single(')', r3);
    lemma_lex_single('(', r5);
    lemma_lex_word("if"@, r6);
    assert("if("@ =~= "if"@ + seq!['(']);
    assert("){"@ =~= seq![')'] + seq!['{']);
    let t1 = ("if"@ + seq!['(']) + c;
    let t2 = t1 + (seq![')'] + seq!['{']);
    let t3 = t2 + b;
    assert(expr_text(e) == t3 + seq!['}']);
    lemma_assoc(t3, seq!['}'], rest);
    lemma_assoc(t2, b, r1);
    lemma_assoc(t1, seq![')'] + seq!['{'], r2);
    lemma_assoc(seq![')'], seq!['{'], r2);
    lemma_assoc("if"@ + seq!['('], c, r4);
    lemma_assoc("if"@, seq!['('], r5);
    let open = seq![TokenView::If] + seq![TokenView::LParen];
    let mid = seq![TokenView::RParen] + seq![TokenView::LBrace];
    assert(seq![TokenView::If, TokenView::LParen] =~= open);
    assert(seq![TokenView::RParen, TokenView::LBrace] =~= mid);
    let kc = expr_tokens(condition);
    let kb = block_tokens(consequence);
    let z1 = seq![TokenView::RBrace] + lex(rest);
    let z2 = kb + z1;
    let z3 = mid + z2;
    let z4 = kc + z3;
    assert(expr_tokens(e) == (((open + kc) + mid) + kb) + seq![TokenView::RBrace]);
    lemma_assoc(((open + kc) + mid) + kb, seq![TokenView::RBrace], lex(rest));
    lemma_assoc((open + kc) + mid, kb, z1);
    lemma_assoc(open + kc, mid, z2);
    lemma_assoc(open, kc, z3);
    lemma_assoc(seq![TokenView::If], seq![TokenView::LParen], z4);
    lemma_assoc(seq![TokenView::RParen], seq![TokenView::LBrace], z2);
}

#[verifier::rlimit(40)]
proof fn lemma_lex_if_else(
    condition: ExprView,
    consequence: StmtView,
    alt: StmtView,
    rest: Seq<char>,
)
    requires
        lex(
            expr_text(condition) + (seq![')'] + (seq!['{'] + (stmt_text(consequence) + (seq!['}']
                + ("else"@ + (seq!['{'] + (stmt_text(alt) + (seq!['}'] + rest)))))))),
        ) == expr_tokens(condition) + lex(
            seq![')'] + (seq!['{'] + (stmt_text(consequence) + (seq!['}'] + ("else"@ + (seq!['{']
                + (stmt_text(alt) + (seq!['}'] + rest))))))),
        ),
        lex(stmt_text(alt) + (seq!['}'] + rest)) == block_tokens(alt) + lex(seq!['}'] + rest),
        lex(
            stmt_text(consequence) + (seq!['}'] + ("else"@ + (seq!['{'] + (stmt_text(alt) + (seq![
                '}',
            ] + rest))))),
        ) == block_tokens(consequence) + lex(
            seq!['}'] + ("else"@ + (seq!['{'] + (stmt_text(alt) + (seq!['}'] + rest)))),
        ),
    ensures
        ({
            let e = ExprView::IfExpr {
                condition: Box::new(condition),
                consequence: Box::new(consequence),
                alternative: Some(Box::new(alt)),
            };
            lex(expr_text(e) + rest) == expr_tokens(e) + lex(rest)
        }),
{
    lemma_block_literals();
    lemma_block_keywords();
    lemma_word_literals();
    let e = ExprView::IfExpr {
        condition: Box::new(condition),
        consequence: Box::new(consequence),
        alternative: Some(Box::new(alt)),
    };
    let c = expr_text(condition);
    let b = stmt_text(consequence);
    let a = stmt_text(alt);
    let r1 = seq!['}'] + rest;
    let r2 = a + r1;
    let r3 = seq!['{'] + r2;
    let r4 = "else"@ + r3;
    let r5 = seq!['}'] + r4;
    let r6 = b + r5;
    let r7 = seq!['{'] + r6;
    let r8 = seq![')'] + r7;
    let r9 = c + r8;
    let r10 = seq!['('] + r9;
    lemma_lex_single('}', rest);
    lemma_lex_single('{', r2);
    lemma_lex_word("else"@, r3);
    lemma_lex_single('}', r4);
    lemma_lex_single('{', r6);
    lemma_lex_single(')', r7);
    lemma_lex_single('(', r9);
    lemma_lex_word("if"@, r10);
    assert("if("@ =~= "if"@ + seq!['(']);
    assert("){"@ =~= seq![')'] + seq!['{']);
    assert("}else{"@ =~= seq!['}'] + ("else"@ + seq!['{']));
    let mid_text = seq!['}'] + ("else"@ + seq!['{']);
    let t1 = ("if"@ + seq!['(']) + c;
    let t2 = t1 + (seq![')'] + seq!['{']);
    let t3 = t2 + b;
    let t4 = t3 + mid_text;
    let t5 = t4 + a;
    assert(expr_text(e) == t5 + seq!['}']);
    lemma_assoc(t5, seq!['}'], rest);
    lemma_assoc(t4, a, r1);
    lemma_assoc(t3, mid_text, r2);
    lemma_assoc(seq!['}'], "else"@ + seq!['{'], r2);
    lemma_assoc("else"@, seq!['{'], r2);
    lemma_assoc(t2, b, r5);
    lemma_assoc(t1, seq![')'] + seq!['{'], r6);
    lemma_assoc(seq![')'], seq!['{'], r6);
    lemma_assoc("if"@ + seq!['('], c, r8);
    lemma_assoc("if"@, seq!['('], r9);
    let open = seq![TokenView::If] + seq![TokenView::LParen];
    let mid = seq![TokenView::RParen] + seq![TokenView::LBrace];
    let turn = seq![TokenView::RBrace] + (seq![TokenView::Else] + seq![TokenView::LBrace]);
    assert(seq![TokenView::If, TokenView::LParen] =~= open);
    assert(seq![TokenView::RParen, TokenView::LBrace] =~= mid);
    assert(seq![TokenView::RBrace, TokenView::Else, TokenView::LBrace] =~= turn);
    let kc = expr_tokens(condition);
    let kb = block_tokens(consequence);
    let ka = block_tokens(alt);
    let z1 = seq![TokenView::RBrace] + lex(rest);
    let z2 = ka + z1;
    let z3 = turn + z2;
    let z4 = kb + z3;
    let z5 = mid + z4;
    let z6 = kc + z5;
    assert(expr_tokens(e) == (((((open + kc) + mid) + kb) + turn) + ka) + seq![
        TokenView::RBrace,
    ]);
    lemma_assoc(((((open + kc) + mid) + kb) + turn) + ka, seq![TokenView::RBrace], lex(rest));
    lemma_assoc((((open + kc) + mid) + kb) + turn, ka, z1);
    lemma_assoc(((open + kc) + mid) + kb, turn, z2);
    lemma_assoc(seq![TokenView::RBrace], seq![TokenView::Else] + seq![TokenView::LBrace], z2);
    lemma_assoc(seq![TokenView::Else], seq![TokenView::LBrace], z2);
    lemma_assoc((open + kc) + mid, kb, z3);
    lemma_assoc(open + kc, mid, z4);
    lemma_assoc(open, kc, z5);
    lemma_assoc(seq![TokenView::If], seq![TokenView::LParen], z6);
    lemma_assoc(seq![TokenView::RParen], seq![TokenView::LBrace], z4);
}

proof fn lemma_lex_func(parameters: Seq<ExprView>, body: StmtView, rest: Seq<char>)
    requires
        lex(
            join_text(parameters, ","@) + (seq![')'] + (seq!['{'] + (stmt_text(body) + (seq!['}']
                + rest)))),
        ) == list_tokens(parameters) + lex(
            seq![')'] + (seq!['{'] + (stmt_text(body) + (seq!['}'] + rest))),
        ),
        lex(stmt_text(body) + (seq!['}'] + rest)) == block_tokens(body) + lex(seq!['}'] + rest),
    ensures
        ({
            let e = ExprView::FuncLiteral { parameters, body: Box::new(body) };
            lex(expr_text(e) + rest) == expr_tokens(e) + lex(rest)
        }),
{
    lemma_block_literals();
    lemma_block_keywords();
    lemma_word_literals();
    let e = ExprView::FuncLiteral { parameters, body: Box::new(body) };
    let p = join_text(parameters, ","@);
    let b = stmt_text(body);
    let r1 = seq!['}'] + rest;
    let r2 = b + r1;
    let r3 = seq!['{'] + r2;
    let r4 = seq![')'] + r3;
    let r5 = p + r4;
    let r6 = seq!['('] + r5;
    lemma_lex_single('}', rest);
    lemma_lex_single('{', r2);
    lemma_lex_single(')', r3);
    lemma_lex_single('(', r5);
    lemma_lex_word("fn"@, r6);
    assert("fn("@ =~= "fn"@ + seq!['(']);
    assert("){"@ =~= seq![')'] + seq!['{']);
    let t1 = ("fn"@ + seq!['(']) + p;
    let t2 = t1 + (seq![')'] + seq!['{']);
    let t3 = t2 + b;
    assert(expr_text(e) == t3 + seq!['}']);
    lemma_assoc(t3, seq!['}'], rest);
    lemma_assoc(t2, b, r1);
    lemma_assoc(t1, seq![')'] + seq!['{'], r2);
    lemma_assoc(seq![')'], seq!['{'], r2);
    lemma_assoc("fn"@ + seq!['('], p, r4);
    lemma_assoc("fn"@, seq!['('], r5);
    let open = seq![TokenView::Function] + seq![TokenView::LParen];
    let mid = seq![TokenView::RParen] + seq![TokenView::LBrace];
    assert(seq![TokenView::Function, TokenView::LParen] =~= open);
    assert(seq![TokenView::RParen, TokenView::LBrace] =~= mid);
    let kp = list_tokens(parameters);
    let kb = block_tokens(body);
    let z1 = seq![TokenView::RBrace] + lex(rest);
    let z2 = kb + z1;
    let z3 = mid + z2;
    let z4 = kp + z3;
    assert(expr_tokens(e) == (((open + kp) + mid) + kb) + seq![TokenView::RBrace]);
    lemma_assoc(((open + kp) + mid) + kb, seq![TokenView::RBrace], lex(rest));
    lemma_assoc((open + kp) + mid, kb, z1);
    lemma_assoc(open + kp, mid, z2);
    lemma_assoc(open, kp, z3);
    lemma_assoc(seq![TokenView::Function], seq![TokenView::LParen], z4);
    lemma_assoc(seq![TokenView::RParen], seq![TokenView::LBrace], z2);
}

/// The canonical text of a statement is not empty.
proof fn lemma_stmt_text_head(s: StmtView)
    requires
        stable_stmt(s),
    ensures
        stmt_text(s).len() > 0,
{
    lemma_word_literals();
    match s {
        StmtView::ExpressionStatement { expr } => {
            lemma_text_head(expr);
        },
        _ => {},
    }
}

/// The lexer reads the statements of a block, which can be told apart, as
/// their tokens.
#[verifier::rlimit(40)]
pub proof fn lemma_lex_body(ss: Seq<StmtView>, rest: Seq<char>)
    requires
        all_stable(ss),
        chain(ss),
        ss.len() > 0 ==> stmt_fits(ss.last(), rest),
    ensures
        lex(block_text(ss) + rest) == program_tokens(ss) + lex(rest),
    decreases ss, 0nat,
{
    if ss.len() == 0 {
        assert(block_text(ss) + rest =~= rest);
        assert(program_tokens(ss) + lex(rest) =~= lex(rest));
    } else {
        let init = ss.drop_last();
        let last = ss.last();
        let r1 = stmt_text(last) + rest;
        assert(last == ss[ss.len() - 1]);
        lemma_lex_stmt(last, rest);
        assert forall|k: int| 1 <= k < init.len() implies begins_plainly(#[trigger] init[k])
            && stmt_fits(init[k - 1], stmt_text(init[k])) by {
            assert(init[k] == ss[k]);
            assert(init[k - 1] == ss[k - 1]);
        }
        assert forall|k: int| 0 <= k < init.len() implies stable_stmt(#[trigger] init[k]) by {
            assert(init[k] == ss[k]);
        }
        if init.len() > 0 {
            lemma_stmt_text_head(last);
            assert(init.last() == ss[ss.len() - 2]);
            assert(r1[0] == stmt_text(last)[0]);
        }
        lemma_lex_body(init, r1);
        lemma_assoc(block_text(init), stmt_text(last), rest);
        lemma_assoc(program_tokens(init), stmt_tokens(last), lex(rest));
    }
}

} // verus!
