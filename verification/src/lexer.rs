//! The lexer: from source text to tokens, one token per call.
//!
//! White space, in the sense of Unicode, separates tokens and is skipped.
//! A string literal runs from a double quote to the next one, or to the end
//! of the input, and has no escapes. A character that starts no token of
//! the language, NUL among them, is an illegal token by itself, and so is
//! a number that is no 64-bit signed integer: the lexer never fails. At
//! the end of the input it yields `Eof`, as often as it is asked.

use crate::text::{chars_of, digits_value, string_of};
use crate::token::{keyword_of, Token, TokenView};
use vstd::prelude::*;

verus! {

/// Whether `c` is an ASCII letter.
pub open spec fn is_letter_char(c: char) -> bool {
    ('a' <= c && c <= 'z') || ('A' <= c && c <= 'Z')
}

/// Whether `c` is an ASCII digit.
pub open spec fn is_digit_char(c: char) -> bool {
    '0' <= c && c <= '9'
}

/// Whether `c` has the Unicode property `White_Space`.
pub open spec fn is_space_char(c: char) -> bool {
    ('\u{9}' <= c && c <= '\u{d}') || c == ' ' || c == '\u{85}' || c == '\u{a0}' || c
        == '\u{1680}' || ('\u{2000}' <= c && c <= '\u{200a}') || c == '\u{2028}' || c
        == '\u{2029}' || c == '\u{202f}' || c == '\u{205f}' || c == '\u{3000}'
}

/// The character at index `i`, or NUL beyond the end of the input.
pub open spec fn char_at(input: Seq<char>, i: int) -> char {
    if 0 <= i < input.len() {
        input[i]
    } else {
        '\0'
    }
}

/// The first index from `pos` on that holds no white space.
pub open spec fn skip_spaces(input: Seq<char>, pos: int) -> int
    decreases input.len() - pos,
{
    if 0 <= pos < input.len() && is_space_char(input[pos]) {
        skip_spaces(input, pos + 1)
    } else {
        pos
    }
}

/// The first index from `pos` on that holds no letter.
pub open spec fn letters_end(input: Seq<char>, pos: int) -> int
    decreases input.len() - pos,
{
    if 0 <= pos < input.len() && is_letter_char(input[pos]) {
        letters_end(input, pos + 1)
    } else {
        pos
    }
}

/// The first index from `pos` on that holds no digit.
pub open spec fn digits_end(input: Seq<char>, pos: int) -> int
    decreases input.len() - pos,
{
    if 0 <= pos < input.len() && is_digit_char(input[pos]) {
        digits_end(input, pos + 1)
    } else {
        pos
    }
}

/// The first index from `pos` on that holds a double quote, or the length
/// of the input if there is none.
pub open spec fn string_end(input: Seq<char>, pos: int) -> int
    decreases input.len() - pos,
{
    if 0 <= pos < input.len() && input[pos] != '"' {
        string_end(input, pos + 1)
    } else {
        pos
    }
}

/// The index after `pos`, but never beyond the end of the input.
pub open spec fn step(input: Seq<char>, pos: int) -> int {
    if pos < input.len() {
        pos + 1
    } else {
        pos
    }
}

/// A word as a token: a keyword, or else an identifier.
pub open spec fn word_token(word: Seq<char>) -> TokenView {
    match keyword_of(word) {
        Some(t) => t,
        None => TokenView::Ident(word),
    }
}

/// The digits `text` as a token: an integer if the number fits in 64 bits
/// with a sign, or else an illegal token that carries the digits.
pub open spec fn number_token(text: Seq<char>) -> TokenView {
    if digits_value(text) <= i64::MAX {
        TokenView::Int(digits_value(text) as int)
    } else {
        TokenView::Illegal(text)
    }
}

/// The token that starts at the first character from `pos` on that is no
/// white space, together with the index at which the next token is looked
/// for. A character that starts no token of the language is an illegal
/// token by itself. Where only white space is left, the token is `Eof`.
pub open spec fn token_at(input: Seq<char>, pos: int) -> (TokenView, int) {
    let p = skip_spaces(input, pos);
    let c = char_at(input, p);
    if p >= input.len() {
        (TokenView::Eof, p)
    } else if c == '=' {
        if char_at(input, p + 1) == '=' {
            (TokenView::Eq, p + 2)
        } else {
            (TokenView::Assign, p + 1)
        }
    } else if c == '!' {
        if char_at(input, p + 1) == '=' {
            (TokenView::NotEq, p + 2)
        } else {
            (TokenView::Bang, p + 1)
        }
    } else if c == ';' {
        (TokenView::Semicolon, p + 1)
    } else if c == ':' {
        (TokenView::Colon, p + 1)
    } else if c == ',' {
        (TokenView::Comma, p + 1)
    } else if c == '(' {
        (TokenView::LParen, p + 1)
    } else if c == ')' {
        (TokenView::RParen, p + 1)
    } else if c == '{' {
        (TokenView::LBrace, p + 1)
    } else if c == '}' {
        (TokenView::RBrace, p + 1)
    } else if c == '[' {
        (TokenView::LBracket, p + 1)
    } else if c == ']' {
        (TokenView::RBracket, p + 1)
    } else if c == '+' {
        (TokenView::Plus, p + 1)
    } else if c == '-' {
        (TokenView::Minus, p + 1)
    } else if c == '*' {
        (TokenView::Asterisk, p + 1)
    } else if c == '/' {
        (TokenView::Slash, p + 1)
    } else if c == '<' {
        (TokenView::LessThan, p + 1)
    } else if c == '>' {
        (TokenView::GreaterThan, p + 1)
    } else if c == '"' {
        let e = string_end(input, p + 1);
        (TokenView::String(input.subrange(p + 1, e)), step(input, e))
    } else if is_letter_char(c) {
        let e = letters_end(input, p);
        (word_token(input.subrange(p, e)), e)
    } else if is_digit_char(c) {
        let e = digits_end(input, p);
        (number_token(input.subrange(p, e)), e)
    } else {
        (TokenView::Illegal(seq![c]), p + 1)
    }
}

/// The tokens of `input` from `pos` to the end of the input, without the
/// `Eof` that the lexer yields after them for ever.
pub open spec fn tokens_from(input: Seq<char>, pos: int) -> Seq<TokenView>
    decreases input.len() - pos,
{
    if 0 <= pos < input.len() {
        let (tok, next) = token_at(input, pos);
        if pos < next <= input.len() && !(tok is Eof) {
            seq![tok] + tokens_from(input, next)
        } else {
            Seq::empty()
        }
    } else {
        Seq::empty()
    }
}

/// Skipping white space does not move back, nor beyond the end.
pub proof fn lemma_skip_spaces_bounds(input: Seq<char>, pos: int)
    requires
        0 <= pos <= input.len(),
    ensures
        pos <= skip_spaces(input, pos) <= input.len(),
    decreases input.len() - pos,
{
    if pos < input.len() && is_space_char(input[pos]) {
        lemma_skip_spaces_bounds(input, pos + 1);
    }
}

/// A run of letters does not end before it starts, nor beyond the end, and
/// holds letters only.
pub proof fn lemma_letters_end_bounds(input: Seq<char>, pos: int)
    requires
        0 <= pos <= input.len(),
    ensures
        pos <= letters_end(input, pos) <= input.len(),
        forall|i: int| pos <= i < letters_end(input, pos) ==> is_letter_char(#[trigger] input[i]),
    decreases input.len() - pos,
{
    if pos < input.len() && is_letter_char(input[pos]) {
        lemma_letters_end_bounds(input, pos + 1);
    }
}

/// A run of digits does not end before it starts, nor beyond the end, and
/// holds digits only.
pub proof fn lemma_digits_end_bounds(input: Seq<char>, pos: int)
    requires
        0 <= pos <= input.len(),
    ensures
        pos <= digits_end(input, pos) <= input.len(),
        forall|i: int| pos <= i < digits_end(input, pos) ==> is_digit_char(#[trigger] input[i]),
    decreases input.len() - pos,
{
    if pos < input.len() && is_digit_char(input[pos]) {
        lemma_digits_end_bounds(input, pos + 1);
    }
}

/// A string does not end before it starts, nor beyond the end, and holds
/// no double quote.
pub proof fn lemma_string_end_bounds(input: Seq<char>, pos: int)
    requires
        0 <= pos <= input.len(),
    ensures
        pos <= string_end(input, pos) <= input.len(),
        forall|i: int| pos <= i < string_end(input, pos) ==> #[trigger] input[i] != '"',
    decreases input.len() - pos,
{
    if pos < input.len() && input[pos] != '"' {
        lemma_string_end_bounds(input, pos + 1);
    }
}

/// Every token takes at least one character, except at the end of the
/// input, where the token is `Eof` and the position stays.
pub proof fn lemma_token_at_progress(input: Seq<char>, pos: int)
    requires
        0 <= pos <= input.len(),
    ensures
        pos <= token_at(input, pos).1 <= input.len(),
        pos < input.len() ==> pos < token_at(input, pos).1,
        pos == input.len() ==> token_at(input, pos) == (TokenView::Eof, pos),
        token_at(input, pos).0 is Eof ==> token_at(input, pos).1 == input.len(),
{
    assert forall|word: Seq<char>| !(#[trigger] word_token(word) is Eof) by {}
    assert forall|text: Seq<char>| !(#[trigger] number_token(text) is Eof) by {}
    lemma_skip_spaces_bounds(input, pos);
    let p = skip_spaces(input, pos);
    lemma_letters_end_bounds(input, p);
    lemma_digits_end_bounds(input, p);
    if p < input.len() {
        lemma_string_end_bounds(input, p + 1);
        lemma_letters_end_bounds(input, p + 1);
        lemma_digits_end_bounds(input, p + 1);
    }
}

/// Whether `c` is an ASCII letter.
pub fn is_letter(c: char) -> (r: bool)
    ensures
        r == is_letter_char(c),
{
    ('a' <= c && c <= 'z') || ('A' <= c && c <= 'Z')
}

/// Whether `c` is an ASCII digit.
pub fn is_digit(c: char) -> (r: bool)
    ensures
        r == is_digit_char(c),
{
    '0' <= c && c <= '9'
}

/// Whether `c` is white space.
pub fn is_whitespace(c: char) -> (r: bool)
    ensures
        r == is_space_char(c),
{
    ('\u{9}' <= c && c <= '\u{d}') || c == ' ' || c == '\u{85}' || c == '\u{a0}' || c
        == '\u{1680}' || ('\u{2000}' <= c && c <= '\u{200a}') || c == '\u{2028}' || c
        == '\u{2029}' || c == '\u{202f}' || c == '\u{205f}' || c == '\u{3000}'
}

/// The number that the digits `v[from..to]` denote, or `None` where it does
/// not fit in an `i64`.
pub fn parse_digits(v: &Vec<char>, from: usize, to: usize) -> (r: Option<i64>)
    requires
        from <= to <= v.len(),
        forall|i: int| from <= i < to ==> is_digit_char(#[trigger] v[i]),
    ensures
        match r {
            Some(n) => n == digits_value(v@.subrange(from as int, to as int)),
            None => digits_value(v@.subrange(from as int, to as int)) > i64::MAX,
        },
{
    let mut acc: i64 = 0;
    let mut fits: bool = true;
    let mut i: usize = from;
    while i < to
        invariant
            from <= i <= to <= v.len(),
            forall|j: int| from <= j < to ==> is_digit_char(#[trigger] v[j]),
            acc >= 0,
            fits ==> acc == digits_value(v@.subrange(from as int, i as int)),
            !fits ==> digits_value(v@.subrange(from as int, i as int)) > i64::MAX,
        decreases to - i,
    {
        let c = v[i];
        let d: i64 = ((c as u32) - ('0' as u32)) as i64;
        proof {
            let s = v@.subrange(from as int, i + 1);
            assert(s.drop_last() =~= v@.subrange(from as int, i as int));
            assert(s.last() == c);
            assert(digits_value(s) == digits_value(s.drop_last()) * 10 + d);
        }
        if fits {
            match acc.checked_mul(10) {
                Some(m) => match m.checked_add(d) {
                    Some(n) => {
                        acc = n;
                    },
                    None => {
                        fits = false;
                    },
                },
                None => {
                    fits = false;
                },
            }
        }
        i += 1;
    }
    if fits {
        Some(acc)
    } else {
        None
    }
}

/// A lexer over a source text.
#[derive(Debug)]
pub struct Lexer {
    /// The characters of the source text.
    pub input: Vec<char>,
    /// The index of the current character.
    pub pos: usize,
}

impl View for Lexer {
    type V = Seq<TokenView>;

    /// The tokens that are still to come.
    open spec fn view(&self) -> Seq<TokenView> {
        tokens_from(self.input@, self.pos as int)
    }
}

impl Lexer {
    /// The position is within the input or at its end.
    pub open spec fn wf(&self) -> bool {
        self.pos <= self.input.len()
    }

    /// A lexer at the start of `input`.
    pub fn new(input: &str) -> (r: Self)
        ensures
            r.wf(),
            r.input@ == input@,
            r.pos == 0,
    {
        Lexer { input: chars_of(input), pos: 0 }
    }

    /// The current character, or NUL at the end of the input.
    pub fn cur(&self) -> (c: char)
        requires
            self.wf(),
        ensures
            c == char_at(self.input@, self.pos as int),
    {
        if self.pos < self.input.len() {
            self.input[self.pos]
        } else {
            '\0'
        }
    }

    /// Returns the current character and moves to the next.
    pub fn read_char(&mut self) -> (c: char)
        requires
            old(self).wf(),
        ensures
            final(self).wf(),
            final(self).input == old(self).input,
            c == char_at(old(self).input@, old(self).pos as int),
            final(self).pos == step(old(self).input@, old(self).pos as int),
    {
        let c = self.cur();
        if self.pos < self.input.len() {
            self.pos = self.pos + 1;
        }
        c
    }

    /// Whether the character after the current one is `c`.
    pub fn peek_char(&self, c: char) -> (r: bool)
        requires
            self.wf(),
        ensures
            r == (char_at(self.input@, self.pos + 1) == c),
    {
        if self.pos < self.input.len() && self.pos + 1 < self.input.len() {
            self.input[self.pos + 1] == c
        } else {
            '\0' == c
        }
    }

    /// Moves to the first character that is no white space.
    pub fn skip_whitespace(&mut self)
        requires
            old(self).wf(),
        ensures
            final(self).wf(),
            final(self).input == old(self).input,
            final(self).pos == skip_spaces(old(self).input@, old(self).pos as int),
    {
        while self.pos < self.input.len() && is_whitespace(self.input[self.pos])
            invariant
                self.wf(),
                self.input == old(self).input,
                skip_spaces(self.input@, self.pos as int) == skip_spaces(
                    old(self).input@,
                    old(self).pos as int,
                ),
            decreases self.input.len() - self.pos,
        {
            self.pos = self.pos + 1;
        }
    }

    /// Reads the letters from the current character on, as a keyword or an
    /// identifier.
    pub fn read_identifier(&mut self) -> (tok: Token)
        requires
            old(self).wf(),
        ensures
            final(self).wf(),
            final(self).input == old(self).input,
            final(self).pos == letters_end(old(self).input@, old(self).pos as int),
            tok@ == word_token(
                old(self).input@.subrange(old(self).pos as int, final(self).pos as int),
            ),
    {
        let start: usize = self.pos;
        while self.pos < self.input.len() && is_letter(self.input[self.pos])
            invariant
                self.wf(),
                self.input == old(self).input,
                start <= self.pos,
                letters_end(self.input@, self.pos as int) == letters_end(
                    old(self).input@,
                    old(self).pos as int,
                ),
            decreases self.input.len() - self.pos,
        {
            self.pos = self.pos + 1;
        }
        let ident = string_of(&self.input, start, self.pos);
        match Token::keyword(ident.as_str()) {
            Some(tok) => tok,
            None => Token::Ident(ident),
        }
    }

    /// Reads the digits from the current character on, as an integer, or as
    /// an illegal token where the number does not fit.
    pub fn read_integer(&mut self) -> (tok: Token)
        requires
            old(self).wf(),
        ensures
            final(self).wf(),
            final(self).input == old(self).input,
            final(self).pos == digits_end(old(self).input@, old(self).pos as int),
            tok@ == number_token(
                old(self).input@.subrange(old(self).pos as int, final(self).pos as int),
            ),
    {
        let start: usize = self.pos;
        while self.pos < self.input.len() && is_digit(self.input[self.pos])
            invariant
                self.wf(),
                self.input == old(self).input,
                start <= self.pos,
                forall|j: int| start <= j < self.pos ==> is_digit_char(#[trigger] self.input[j]),
                digits_end(self.input@, self.pos as int) == digits_end(
                    old(self).input@,
                    old(self).pos as int,
                ),
            decreases self.input.len() - self.pos,
        {
            self.pos = self.pos + 1;
        }
        match parse_digits(&self.input, start, self.pos) {
            Some(n) => Token::Int(n),
            None => Token::Illegal(string_of(&self.input, start, self.pos)),
        }
    }

    /// Reads a string literal whose opening quote is the current character:
    /// the text up to the next double quote, or to the end of the input.
    fn read_string(&mut self) -> (tok: Token)
        requires
            old(self).wf(),
            old(self).pos < old(self).input.len(),
        ensures
            final(self).wf(),
            final(self).input == old(self).input,
            final(self).pos == step(
                old(self).input@,
                string_end(old(self).input@, old(self).pos + 1),
            ),
            tok@ == TokenView::String(
                old(self).input@.subrange(
                    old(self).pos + 1,
                    string_end(old(self).input@, old(self).pos + 1),
                ),
            ),
    {
        self.pos = self.pos + 1;
        let start: usize = self.pos;
        while self.pos < self.input.len() && self.input[self.pos] != '"'
            invariant
                self.wf(),
                self.input == old(self).input,
                start <= self.pos,
                start == old(self).pos + 1,
                string_end(self.input@, self.pos as int) == string_end(
                    old(self).input@,
                    old(self).pos + 1,
                ),
            decreases self.input.len() - self.pos,
        {
            self.pos = self.pos + 1;
        }
        let val = string_of(&self.input, start, self.pos);
        self.read_char();
        Token::String(val)
    }

    /// The next token of the input. At the end of the input the token is
    /// `Eof`, however often it is asked for.
    pub fn next_token(&mut self) -> (tok: Token)
        requires
            old(self).wf(),
        ensures
            final(self).wf(),
            final(self).input == old(self).input,
            (tok@, final(self).pos as int) == token_at(old(self).input@, old(self).pos as int),
    {
        self.skip_whitespace();
        proof {
            lemma_skip_spaces_bounds(old(self).input@, old(self).pos as int);
        }
        if self.pos >= self.input.len() {
            return Token::Eof;
        }
        let c = self.cur();
        let token = if c == '=' {
            if self.peek_char('=') {
                self.read_char();
                Token::Eq
            } else {
                Token::Assign
            }
        } else if c == '!' {
            if self.peek_char('=') {
                self.read_char();
                Token::NotEq
            } else {
                Token::Bang
            }
        } else if c == ';' {
            Token::Semicolon
        } else if c == ':' {
            Token::Colon
        } else if c == ',' {
            Token::Comma
        } else if c == '(' {
            Token::LParen
        } else if c == ')' {
            Token::RParen
        } else if c == '{' {
            Token::LBrace
        } else if c == '}' {
            Token::RBrace
        } else if c == '[' {
            Token::LBracket
        } else if c == ']' {
            Token::RBracket
        } else if c == '+' {
            Token::Plus
        } else if c == '-' {
            Token::Minus
        } else if c == '*' {
            Token::Asterisk
        } else if c == '/' {
            Token::Slash
        } else if c == '<' {
            Token::LessThan
        } else if c == '>' {
            Token::GreaterThan
        } else if c == '"' {
            return self.read_string();
        } else if is_letter(c) {
            return self.read_identifier();
        } else if is_digit(c) {
            return self.read_integer();
        } else {
            let mut s = String::new();
            s.push(c);
            assert(s@ =~= seq![c]);
            Token::Illegal(s)
        };
        self.read_char();
        token
    }

    /// What one call of `next_token` does to the tokens that are still to
    /// come: it takes the first of them, or yields `Eof` where none is
    /// left.
    pub proof fn lemma_next_token(input: Seq<char>, pos: int)
        requires
            0 <= pos <= input.len(),
        ensures
            tokens_from(input, pos).len() == 0 ==> token_at(input, pos).0 is Eof && tokens_from(
                input,
                token_at(input, pos).1,
            ).len() == 0,
            tokens_from(input, pos).len() > 0 ==> token_at(input, pos).0 == tokens_from(
                input,
                pos,
            )[0] && tokens_from(input, token_at(input, pos).1) == tokens_from(
                input,
                pos,
            ).drop_first(),
    {
        lemma_token_at_progress(input, pos);
        if pos < input.len() {
            let (tok, next) = token_at(input, pos);
            assert((seq![tok] + tokens_from(input, next)).drop_first() =~= tokens_from(
                input,
                next,
            ));
        }
    }

    /// No token that is still to come is `Eof`.
    pub proof fn lemma_tokens_no_eof(input: Seq<char>, pos: int)
        requires
            0 <= pos <= input.len(),
        ensures
            forall|i: int|
                0 <= i < tokens_from(input, pos).len() ==> !(#[trigger] tokens_from(input, pos)[i]
                    is Eof),
        decreases input.len() - pos,
    {
        lemma_token_at_progress(input, pos);
        if pos < input.len() {
            let (tok, next) = token_at(input, pos);
            if !(tok is Eof) {
                Self::lemma_tokens_no_eof(input, next);
            }
        }
    }
}

} // verus!
