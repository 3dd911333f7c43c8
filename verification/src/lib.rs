//! A tree-walking interpreter for a small dynamically typed scripting language:
//! a scanner turns source text into tokens, a recursive-descent parser turns
//! tokens into statements, and an evaluator runs the statements against one
//! environment of variables.
pub mod expression;
pub mod grammar;
pub mod interpreter;
pub mod number;
pub mod parser;
pub mod scanner;
pub mod text;
pub mod token;
pub mod value;

use crate::interpreter::{line_views, run_of, Interpreter};
use crate::grammar::{parse_result, program, Program};
use crate::parser::Parser;
use crate::scanner::{lemma_tokens_follow_source, scan_from, scan_of, tokens_of, ScanError, Scanner};
use crate::token::TokenView;
use crate::value::ValueView;
use vstd::prelude::*;

verus! {

/// What running a source text gave.
pub struct Report {
    /// What the scanner could not read, in the order of the source.
    pub scan_errors: Vec<ScanError>,
    /// The output of the program, line by line, or the first parse error.
    pub outcome: Result<Vec<String>, parser::Error>,
}

/// The tokens of a source text.
pub open spec fn tokens_in(source: Seq<char>) -> Seq<TokenView> {
    tokens_of(scan_of(source).lexemes)
}

/// The program that a source text holds.
pub open spec fn program_in(source: Seq<char>) -> Program {
    program(tokens_in(source), 0)
}

/// What a source text puts out when it is run with nothing defined: the
/// lines that it prints and the reports of its runtime errors, in order; or
/// the first parse error, in which case nothing is run.
pub open spec fn output_of(source: Seq<char>) -> Result<Seq<Seq<char>>, parser::ErrorView> {
    match parse_result(program_in(source)) {
        Ok(statements) => Ok(run_of(statements, Map::<Seq<char>, ValueView>::empty()).output),
        Err(error) => Err(error),
    }
}

/// The outcome of a run as plain data.
pub open spec fn outcome_view(outcome: Result<Vec<String>, parser::Error>) -> Result<
    Seq<Seq<char>>,
    parser::ErrorView,
> {
    match outcome {
        Ok(lines) => Ok(line_views(lines@)),
        Err(error) => Err(error@),
    }
}

/// Scans, parses and runs a source text.
pub fn run(file_content: String) -> (r: Report)
    ensures
        r.scan_errors@ == scan_of(file_content@).errors,
        outcome_view(r.outcome) == output_of(file_content@),
{
    let ghost source = file_content@;
    let mut scanner = Scanner::new(file_content);
    scanner.scan_tokens();
    let (tokens, scan_errors) = scanner.into_parts();
    proof {
        lemma_tokens_follow_source(source);
        let all = scan_of(source).lexemes;
        let body = scan_from(source, 0, 0);
        assert(token::token_views(tokens@) =~= tokens_of(all)) by {
            assert(Seq::<TokenView>::empty() + tokens_of(body.lexemes) =~= tokens_of(
                body.lexemes,
            ));
            assert(tokens_of(body.lexemes).push(all.last().token) =~= tokens_of(all));
        }
        assert(Seq::<ScanError>::empty() + body.errors =~= body.errors);
        assert(tokens_of(all).last() == all.last().token);
    }
    let mut parser = Parser::new(tokens.as_slice());
    let outcome = match parser.parse() {
        Ok(statements) => {
            let mut interpreter = Interpreter::new();
            Ok(interpreter.interpret(statements))
        },
        Err(error) => Err(error),
    };
    Report { scan_errors, outcome }
}

} // verus!
