//! A small dynamically typed, expression-oriented language: lexer, Pratt
//! parser, syntax tree and tree-walking evaluator, with every function
//! specified against a mathematical model of the language.

pub mod ast;
pub mod builtin;
pub mod canon;
pub mod environment;
pub mod error;
pub mod evaluator;
pub mod lexer;
pub mod object;
pub mod operator;
pub mod parser;
pub mod plain;
pub mod progress;
pub mod text;
pub mod token;

use crate::ast::{Program, StmtView};
use crate::error::{error_text, result_view, ErrorView, MonkeyError};
use crate::evaluator::{program_outcome, Evaluator, World};
use crate::lexer::{tokens_from, Lexer};
use crate::object::object_text;
use crate::parser::{program_from, start, Parser};
use vstd::prelude::*;

verus! {

/// The program that a source text denotes, or the error of its first
/// statement that does not parse.
pub open spec fn parse_text(source: Seq<char>) -> Result<Seq<StmtView>, ErrorView> {
    program_from(start(tokens_from(source, 0)), Seq::empty()).1
}

/// What evaluating a source text does: the world after it, and the text of
/// the program's value, or else the message of the first error of parsing
/// or evaluation.
pub open spec fn evaluate_outcome(source: Seq<char>, w: World, env: nat, depth: nat) -> (
    World,
    Seq<char>,
) {
    match parse_text(source) {
        Err(err) => (w, error_text(err)),
        Ok(program) => {
            let (w1, r) = program_outcome(program, w, env, depth);
            match r {
                Ok(val) => (w1, object_text(val)),
                Err(err) => (w1, error_text(err)),
            }
        },
    }
}

/// Parses a source text.
pub fn parse(source: &str) -> (r: Result<Program, MonkeyError>)
    ensures
        result_view(r) == parse_text(source@),
{
    let l = Lexer::new(source);
    let mut p = Parser::new(l);
    p.parse_program()
}

/// Parses and evaluates a source text with `evaluator`, whose scopes
/// persist from one call to the next, and renders the result: the
/// program's value, or the message of the first error.
pub fn evaluate(source: &str, evaluator: &mut Evaluator) -> (r: String)
    ensures
        (final(evaluator).world(), r@) == evaluate_outcome(
            source@,
            old(evaluator).world(),
            old(evaluator).scope as nat,
            old(evaluator).depth as nat,
        ),
        final(evaluator).scope == old(evaluator).scope,
        final(evaluator).depth == old(evaluator).depth,
{
    match parse(source) {
        Err(err) => err.to_string(),
        Ok(program) => match evaluator.eval(program) {
            Ok(o) => o.to_string(),
            Err(err) => err.to_string(),
        },
    }
}

} // verus!
