use vstd::prelude::*;

use crate::ast::{parse, parse_tokens};
use crate::fault::Fault;
use crate::interpreter::{interpret, line_views, run};
use crate::lexer::{lex, Lexer, TokenModel};

verus! {

/// The output of a program given as tokens, run with the lines `inputs`.
pub open spec fn run_tokens(ts: Seq<TokenModel>, inputs: Seq<Seq<char>>) -> Result<Seq<char>, Fault> {
    match parse_tokens(ts) {
        Ok(stmts) => run(stmts, inputs),
        Err(f) => Err(f),
    }
}

/// The output of a program given as source text, run with the lines `inputs`.
pub open spec fn run_program(src: Seq<char>, inputs: Seq<Seq<char>>) -> Result<Seq<char>, Fault> {
    match lex(src) {
        Ok(ts) => run_tokens(ts, inputs),
        Err(f) => Err(f),
    }
}

/// Lexes, parses and runs a source text with the given lines of input, and
/// returns all that the program wrote.
pub fn run_source(source: &str, input: Vec<String>) -> (r: Result<String, Fault>)
    ensures
        match r {
            Ok(out) => run_program(source@, line_views(input@)) == Ok::<Seq<char>, Fault>(out@),
            Err(f) => run_program(source@, line_views(input@)) == Err::<Seq<char>, Fault>(f),
        },
{
    let mut lexer = Lexer::new(source);
    let tokens = match lexer.tokenize() {
        Ok(ts) => ts,
        Err(f) => {
            return Err(f);
        },
    };
    let exprs = match parse(tokens) {
        Ok(es) => es,
        Err(f) => {
            return Err(f);
        },
    };
    interpret(exprs, input)
}

} // verus!
