//! Canonical text reads back as the tree that it was written from.
//!
//! Where a source text parses and the canonical text of its program reads
//! in one way only ([`clear_program`]), the parser yields the program
//! itself from that text. The module `sound` shows that what the parser
//! yields is made of what the lexer can have read. The module `lexing`
//! shows that the lexer reads the canonical text of such a program as the
//! tokens that this module names, and the modules `parsing` and `blocks`
//! show that the parser reads those tokens as the program.

pub mod blocks;
pub mod lexing;
pub mod parsing;
pub mod sound;

use crate::ast::{ExprView, StmtView, program_text, stmt_text};
use crate::canon::lexing::{all_letters, lemma_lex_program};
use crate::canon::parsing::{lemma_parse_program, lemma_start_at};
use crate::canon::sound::{lemma_parsed_is_sound, lemma_stable_stmts};
use crate::error::ErrorView;
use crate::lexer::{is_digit_char, is_letter_char, tokens_from};
use crate::operator::{Infix, Prefix};
use crate::token::{TokenView, keyword_of};
use vstd::prelude::*;

verus! {

/// A name that the lexer reads as an identifier: letters that spell no
/// keyword.
pub open spec fn word_ok(w: Seq<char>) -> bool {
    w.len() > 0 && all_letters(w) && keyword_of(w) is None
}

/// The token of a prefix operator.
pub open spec fn prefix_token(op: Prefix) -> TokenView {
    match op {
        Prefix::Minus => TokenView::Minus,
        Prefix::Bang => TokenView::Bang,
    }
}

/// The token of an infix operator.
pub open spec fn infix_token(op: Infix) -> TokenView {
    match op {
        Infix::Eq => TokenView::Eq,
        Infix::NotEq => TokenView::NotEq,
        Infix::LessThan => TokenView::LessThan,
        Infix::GreaterThan => TokenView::GreaterThan,
        Infix::Plus => TokenView::Plus,
        Infix::Minus => TokenView::Minus,
        Infix::Slash => TokenView::Slash,
        Infix::Asterisk => TokenView::Asterisk,
    }
}

/// The expressions that this module is about: names, literals that the
/// lexer can have read, and prefix, infix, index and call expressions,
/// array and hash literals, `if` expressions and function literals made of
/// such expressions, with parameters that are names and with blocks that
/// [`stable_block`] admits.
pub open spec fn stable_expr(e: ExprView) -> bool
    decreases e,
{
    match e {
        ExprView::Ident(s) => word_ok(s),
        ExprView::String(s) => !s.contains('"'),
        ExprView::Int(n) => 0 <= n <= i64::MAX,
        ExprView::Boolean(_) => true,
        ExprView::PrefixExpr { op, right } => stable_expr(*right),
        ExprView::InfixExpr { left, right, op } => stable_expr(*left) && stable_expr(*right),
        ExprView::IndexExpr { left, index } => stable_expr(*left) && stable_expr(*index),
        ExprView::CallExpr { function, args } => stable_expr(*function) && stable_list(args),
        ExprView::ArrayLiteral { elements } => stable_list(elements),
        ExprView::HashLiteral { pairs } => stable_pairs(pairs),
        ExprView::IfExpr { condition, consequence, alternative } => stable_expr(*condition)
            && stable_block(*consequence) && match alternative {
            Some(alt) => stable_block(*alt),
            None => true,
        },
        ExprView::FuncLiteral { parameters, body } => stable_params(parameters) && stable_block(
            *body,
        ),
    }
}

/// Parameters that are names.
pub open spec fn stable_params(ps: Seq<ExprView>) -> bool {
    forall|i: int| 0 <= i < ps.len() ==> (#[trigger] ps[i]) is Ident && word_ok(ps[i]->Ident_0)
}

/// A block of statements that [`stable_stmt`] admits and that can be told
/// apart in the block's canonical text (see [`chain`]).
pub open spec fn stable_block(b: StmtView) -> bool
    decreases b,
{
    match b {
        StmtView::BlockStatement { stmts } => all_stable(stmts) && chain(stmts),
        _ => false,
    }
}

/// Key-value pairs of expressions that [`stable_expr`] admits.
pub open spec fn stable_pairs(ps: Seq<(ExprView, ExprView)>) -> bool
    decreases ps,
{
    if ps.len() == 0 {
        true
    } else {
        stable_pairs(ps.drop_last()) && stable_expr(ps.last().0) && stable_expr(ps.last().1)
    }
}

/// A list of expressions that [`stable_expr`] admits.
pub open spec fn stable_list(es: Seq<ExprView>) -> bool
    decreases es,
{
    if es.len() == 0 {
        true
    } else {
        stable_list(es.drop_last()) && stable_expr(es.last())
    }
}

/// The tokens of the canonical text of an expression.
pub open spec fn expr_tokens(e: ExprView) -> Seq<TokenView>
    decreases e,
{
    match e {
        ExprView::Ident(s) => seq![TokenView::Ident(s)],
        ExprView::String(s) => seq![TokenView::String(s)],
        ExprView::Int(n) => seq![TokenView::Int(n)],
        ExprView::Boolean(b) => seq![
            if b {
                TokenView::True
            } else {
                TokenView::False
            },
        ],
        ExprView::PrefixExpr { op, right } => seq![TokenView::LParen, prefix_token(op)]
            + expr_tokens(*right) + seq![TokenView::RParen],
        ExprView::InfixExpr { left, right, op } => seq![TokenView::LParen] + expr_tokens(*left)
            + seq![infix_token(op)] + expr_tokens(*right) + seq![TokenView::RParen],
        ExprView::IndexExpr { left, index } => seq![TokenView::LParen] + expr_tokens(*left)
            + seq![TokenView::LBracket] + expr_tokens(*index) + seq![
            TokenView::RBracket,
            TokenView::RParen,
        ],
        ExprView::CallExpr { function, args } => expr_tokens(*function) + seq![TokenView::LParen]
            + list_tokens(args) + seq![TokenView::RParen],
        ExprView::ArrayLiteral { elements } => seq![TokenView::LBracket] + list_tokens(elements)
            + seq![TokenView::RBracket],
        ExprView::HashLiteral { pairs } => seq![TokenView::LBrace] + pairs_tokens(pairs) + seq![
            TokenView::RBrace,
        ],
        ExprView::IfExpr { condition, consequence, alternative } => match alternative {
            None => seq![TokenView::If, TokenView::LParen] + expr_tokens(*condition) + seq![
                TokenView::RParen,
                TokenView::LBrace,
            ] + block_tokens(*consequence) + seq![TokenView::RBrace],
            Some(alt) => seq![TokenView::If, TokenView::LParen] + expr_tokens(*condition) + seq![
                TokenView::RParen,
                TokenView::LBrace,
            ] + block_tokens(*consequence) + seq![
                TokenView::RBrace,
                TokenView::Else,
                TokenView::LBrace,
            ] + block_tokens(*alt) + seq![TokenView::RBrace],
        },
        ExprView::FuncLiteral { parameters, body } => seq![
            TokenView::Function,
            TokenView::LParen,
        ] + list_tokens(parameters) + seq![TokenView::RParen, TokenView::LBrace] + block_tokens(
            *body,
        ) + seq![TokenView::RBrace],
    }
}

/// The tokens of the canonical text of what a block holds.
pub open spec fn block_tokens(b: StmtView) -> Seq<TokenView>
    decreases b,
{
    match b {
        StmtView::BlockStatement { stmts } => program_tokens(stmts),
        _ => Seq::empty(),
    }
}

/// The tokens of a key-value pair: those of the key, a colon, and those of
/// the value.
pub open spec fn pair_tokens(pair: (ExprView, ExprView)) -> Seq<TokenView>
    decreases pair,
{
    expr_tokens(pair.0) + seq![TokenView::Colon] + expr_tokens(pair.1)
}

/// The tokens of the canonical text of key-value pairs: those of the
/// pairs, with commas between them.
pub open spec fn pairs_tokens(ps: Seq<(ExprView, ExprView)>) -> Seq<TokenView>
    decreases ps,
{
    if ps.len() == 0 {
        Seq::empty()
    } else if ps.len() == 1 {
        pair_tokens(ps[0])
    } else {
        pairs_tokens(ps.drop_last()) + seq![TokenView::Comma] + pair_tokens(ps.last())
    }
}

/// The tokens of the canonical text of a list of expressions: those of
/// the expressions, with commas between them.
pub open spec fn list_tokens(es: Seq<ExprView>) -> Seq<TokenView>
    decreases es,
{
    if es.len() == 0 {
        Seq::empty()
    } else if es.len() == 1 {
        expr_tokens(es[0])
    } else {
        list_tokens(es.drop_last()) + seq![TokenView::Comma] + expr_tokens(es.last())
    }
}

/// Joining sequences is associative.
pub proof fn lemma_assoc<A>(a: Seq<A>, b: Seq<A>, c: Seq<A>)
    ensures
        (a + b) + c == a + (b + c),
{
    assert((a + b) + c =~= a + (b + c));
}

/// The statements that this module is about: `let` statements that bind a
/// name, `return` statements and expression statements, each with an
/// expression that [`stable_expr`] admits.
pub open spec fn stable_stmt(s: StmtView) -> bool
    decreases s,
{
    match s {
        StmtView::LetStatement { ident, value } => ident is Ident && word_ok(ident->Ident_0)
            && stable_expr(value),
        StmtView::ReturnStatement { value } => stable_expr(value),
        StmtView::ExpressionStatement { expr } => stable_expr(expr),
        StmtView::BlockStatement { .. } => false,
    }
}

/// The tokens of the canonical text of a statement.
pub open spec fn stmt_tokens(s: StmtView) -> Seq<TokenView>
    decreases s,
{
    match s {
        StmtView::LetStatement { ident, value } => seq![
            TokenView::Let,
            TokenView::Ident(ident->Ident_0),
            TokenView::Assign,
        ] + expr_tokens(value),
        StmtView::ReturnStatement { value } => seq![TokenView::Return] + expr_tokens(value),
        StmtView::ExpressionStatement { expr } => expr_tokens(expr),
        StmtView::BlockStatement { .. } => Seq::empty(),
    }
}

/// The tokens of the canonical text of statements: those of the
/// statements, one after the other.
pub open spec fn program_tokens(ss: Seq<StmtView>) -> Seq<TokenView>
    decreases ss,
{
    if ss.len() == 0 {
        Seq::empty()
    } else {
        program_tokens(ss.drop_last()) + stmt_tokens(ss.last())
    }
}

/// Statements that [`stable_stmt`] admits.
pub open spec fn all_stable(ss: Seq<StmtView>) -> bool
    decreases ss,
{
    forall|i: int| 0 <= i < ss.len() ==> stable_stmt(#[trigger] ss[i])
}

/// Parameters that are names are expressions that [`stable_expr`] admits.
pub proof fn lemma_stable_params(ps: Seq<ExprView>)
    requires
        stable_params(ps),
    ensures
        stable_list(ps),
    decreases ps.len(),
{
    if ps.len() > 0 {
        let init = ps.drop_last();
        assert forall|i: int| 0 <= i < init.len() implies (#[trigger] init[i]) is Ident && word_ok(
            init[i]->Ident_0,
        ) by {
            assert(init[i] == ps[i]);
        }
        lemma_stable_params(init);
        let last = ps[ps.len() - 1];
        assert(last is Ident && word_ok(last->Ident_0));
        assert(ps.last() == last);
        assert(stable_expr(last));
    }
}

/// Every expression of a list that [`stable_list`] admits is one that
/// [`stable_expr`] admits.
pub proof fn lemma_stable_index(es: Seq<ExprView>, k: int)
    requires
        stable_list(es),
        0 <= k < es.len(),
    ensures
        stable_expr(es[k]),
    decreases es.len(),
{
    if k < es.len() - 1 {
        lemma_stable_index(es.drop_last(), k);
    }
}

/// Whether the text of an expression starts with a name, a literal, a
/// keyword or the brace of a hash literal, and so with a token that
/// extends no expression before it.
pub open spec fn plain_start(e: ExprView) -> bool
    decreases e,
{
    match e {
        ExprView::Ident(_) => true,
        ExprView::String(_) => true,
        ExprView::Int(_) => true,
        ExprView::Boolean(_) => true,
        ExprView::HashLiteral { .. } => true,
        ExprView::IfExpr { .. } => true,
        ExprView::FuncLiteral { .. } => true,
        ExprView::CallExpr { function, args } => plain_start(*function),
        _ => false,
    }
}

/// Whether text can follow the canonical text of an expression without
/// running into it: no letter after a name or a boolean literal, and no
/// digit after an integer literal.
pub open spec fn fits(e: ExprView, rest: Seq<char>) -> bool {
    rest.len() == 0 || {
        &&& e is Ident || e is Boolean ==> !is_letter_char(rest[0])
        &&& e is Int ==> !is_digit_char(rest[0])
    }
}

/// Whether text can follow the canonical text of a statement without
/// running into it.
pub open spec fn stmt_fits(s: StmtView, rest: Seq<char>) -> bool {
    match s {
        StmtView::LetStatement { ident, value } => fits(value, rest),
        StmtView::ReturnStatement { value } => fits(value, rest),
        StmtView::ExpressionStatement { expr } => fits(expr, rest),
        StmtView::BlockStatement { .. } => true,
    }
}

/// Whether the statements of a block can be told apart in the block's
/// canonical text, which has nothing between them: each statement but the
/// first starts with a keyword, a name or a literal, and does not run into
/// the statement before it.
pub open spec fn chain(ss: Seq<StmtView>) -> bool {
    forall|k: int|
        1 <= k < ss.len() ==> begins_plainly(#[trigger] ss[k]) && stmt_fits(
            ss[k - 1],
            stmt_text(ss[k]),
        )
}

/// Whether a statement starts with a token that extends no expression
/// before it: a keyword, a name, a literal or the brace of a hash literal.
pub open spec fn begins_plainly(s: StmtView) -> bool {
    match s {
        StmtView::ExpressionStatement { expr } => plain_start(expr),
        _ => true,
    }
}

/// The programs that read back from their canonical text: statements that
/// [`stable_stmt`] admits, of which each but the first starts with a
/// keyword, a name, a literal or the brace of a hash literal. These are the
/// programs that are made of what the lexer can have read and whose
/// canonical text reads in one way only (see [`clear_program`]).
pub open spec fn stable_program(ss: Seq<StmtView>) -> bool {
    &&& all_stable(ss)
    &&& forall|k: int| 1 <= k < ss.len() ==> begins_plainly(#[trigger] ss[k])
}

/// The parser yields a program from the program's canonical text.
pub proof fn lemma_canonical_text_reads_back(p: Seq<StmtView>)
    requires
        stable_program(p),
    ensures
        crate::parse_text(program_text(p)) == Ok::<Seq<StmtView>, ErrorView>(p),
{
    let text = program_text(p);
    let ts = tokens_from(text, 0);
    let none = Seq::<char>::empty();
    lemma_lex_program(p, none);
    assert(text + none =~= text);
    assert(tokens_from(none, 0) =~= Seq::<TokenView>::empty());
    assert(program_tokens(p) + Seq::<TokenView>::empty() =~= program_tokens(p));
    crate::lexer::Lexer::lemma_tokens_no_eof(text, 0);
    lemma_start_at(ts);
    assert(ts.subrange(0, ts.len() as int) =~= ts);
    lemma_parse_program(p, ts, 0, Seq::empty());
    assert(Seq::<StmtView>::empty() + p =~= p);
}

/// Whether the canonical text of an expression reads in one way only:
/// the statements of every block in it can be told apart (see [`chain`]).
pub open spec fn clear_expr(e: ExprView) -> bool
    decreases e,
{
    match e {
        ExprView::PrefixExpr { op, right } => clear_expr(*right),
        ExprView::InfixExpr { left, right, op } => clear_expr(*left) && clear_expr(*right),
        ExprView::IndexExpr { left, index } => clear_expr(*left) && clear_expr(*index),
        ExprView::CallExpr { function, args } => clear_expr(*function) && clear_list(args),
        ExprView::ArrayLiteral { elements } => clear_list(elements),
        ExprView::HashLiteral { pairs } => clear_pairs(pairs),
        ExprView::IfExpr { condition, consequence, alternative } => clear_expr(*condition)
            && clear_block(*consequence) && match alternative {
            Some(alt) => clear_block(*alt),
            None => true,
        },
        ExprView::FuncLiteral { parameters, body } => clear_block(*body),
        _ => true,
    }
}

/// Expressions whose canonical text reads in one way only.
pub open spec fn clear_list(es: Seq<ExprView>) -> bool
    decreases es,
{
    if es.len() == 0 {
        true
    } else {
        clear_list(es.drop_last()) && clear_expr(es.last())
    }
}

/// Key-value pairs whose canonical text reads in one way only.
pub open spec fn clear_pairs(ps: Seq<(ExprView, ExprView)>) -> bool
    decreases ps,
{
    if ps.len() == 0 {
        true
    } else {
        clear_pairs(ps.drop_last()) && clear_expr(ps.last().0) && clear_expr(ps.last().1)
    }
}

/// A block whose canonical text reads in one way only: its statements can
/// be told apart, and so can those of every block in them.
pub open spec fn clear_block(b: StmtView) -> bool
    decreases b,
{
    match b {
        StmtView::BlockStatement { stmts } => clear_stmts(stmts) && chain(stmts),
        _ => true,
    }
}

/// Statements of which each reads in one way only.
pub open spec fn clear_stmts(ss: Seq<StmtView>) -> bool
    decreases ss,
{
    forall|i: int| 0 <= i < ss.len() ==> clear_stmt(#[trigger] ss[i])
}

/// A statement whose canonical text reads in one way only.
pub open spec fn clear_stmt(s: StmtView) -> bool
    decreases s,
{
    match s {
        StmtView::LetStatement { ident, value } => clear_expr(value),
        StmtView::ReturnStatement { value } => clear_expr(value),
        StmtView::ExpressionStatement { expr } => clear_expr(expr),
        StmtView::BlockStatement { .. } => true,
    }
}

/// The programs whose canonical text reads in one way only.
///
/// The canonical text of a program reads in two ways in two cases, and
/// these are the programs left out:
///
/// - An opening parenthesis or bracket at the start of a statement reads
///   as a call or an index of the statement before it. The text of prefix,
///   infix and index expressions starts with a parenthesis, that of an
///   array literal with a bracket. So every statement but the first has to
///   start with a keyword, a name, a literal or the brace of a hash
///   literal: the source `a; -b` has the text of `a(-b)`.
/// - The statements of a block are written one after the other with
///   nothing between them. So in a block a statement that ends in a name
///   must not be followed by one that starts with a letter, nor one that
///   ends in a number by one that starts with a digit: the source
///   `fn() { a; b }` has the text of `fn() { ab }`.
pub open spec fn clear_program(ss: Seq<StmtView>) -> bool {
    &&& clear_stmts(ss)
    &&& forall|k: int| 1 <= k < ss.len() ==> begins_plainly(#[trigger] ss[k])
}

/// Canonical text is stable: where a source text parses and the canonical
/// text of its program reads in one way only, parsing that text yields the
/// same program, and so the same canonical text again.
pub proof fn lemma_rendering_is_idempotent(source: Seq<char>)
    requires
        crate::parse_text(source) is Ok,
        clear_program(crate::parse_text(source)->Ok_0),
    ensures
        ({
            let program = crate::parse_text(source)->Ok_0;
            let text = program_text(program);
            &&& crate::parse_text(text) == Ok::<Seq<StmtView>, ErrorView>(program)
            &&& program_text(crate::parse_text(text)->Ok_0) == text
        }),
{
    let program = crate::parse_text(source)->Ok_0;
    lemma_parsed_is_sound(source);
    lemma_stable_stmts(program);
    lemma_canonical_text_reads_back(program);
}

} // verus!
