//! The whole pipeline: source text to tokens, to a tree, to a value.
use vstd::prelude::*;
use crate::interpreter::{eval_spec, fresh, Interpreter, RuntimeError};
use crate::lexer::Lexer;
use crate::parser::{parse_expr, spec_advance, PState, ParseError, Parser};
use crate::token::SpecToken;

verus! {

/// A fault of any stage, tagged with the stage.
#[derive(Clone, Copy, Debug, PartialEq, Eq, Structural)]
pub enum Error {
    /// A lexical or syntax fault.
    Parse(ParseError),
    /// A fault during evaluation.
    Runtime(RuntimeError),
}

/// What running `s` gives: the value of its first expression and the values
/// it emitted, or the first fault. Loops may run `u64::MAX` iterations each.
pub open spec fn spec_run(s: Seq<char>) -> Result<(i64, Seq<i64>), Error> {
    match spec_advance(s, PState { pos: 0, cur: SpecToken::EOF }) {
        Err(e) => Err(Error::Parse(e)),
        Ok(st) => match parse_expr(s, st) {
            Err(e) => Err(Error::Parse(e)),
            Ok((a, _)) => match eval_spec(a, fresh(Map::empty()), u64::MAX as nat) {
                Err(e) => Err(Error::Runtime(e)),
                Ok((v, st2)) => Ok((v, st2.out)),
            },
        },
    }
}

/// Parses one expression from `source` and evaluates it with a fresh
/// interpreter, returning its value and the values it emitted.
pub fn run(source: &str) -> (r: Result<(i64, Vec<i64>), Error>)
    ensures
        match spec_run(source@) {
            Ok((v, out)) => r is Ok && r->Ok_0.0 == v && r->Ok_0.1@ == out,
            Err(e) => r == Err::<(i64, Vec<i64>), Error>(e),
        },
{
    let lexer = Lexer::new(source);
    let mut parser = match Parser::new(lexer) {
        Ok(p) => p,
        Err(e) => return Err(Error::Parse(e)),
    };
    let ast = match parser.expr() {
        Ok(a) => a,
        Err(e) => return Err(Error::Parse(e)),
    };
    let mut interpreter = Interpreter::new();
    match interpreter.eval(&ast) {
        Ok(v) => Ok((v, interpreter.into_output())),
        Err(e) => Err(Error::Runtime(e)),
    }
}

} // verus!
