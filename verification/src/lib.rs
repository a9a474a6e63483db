//! A small dynamically typed scripting language: lexer, parser, static
//! resolver and an evaluator written as a step machine.
//!
//! [`load`] takes a source text through the lexer, the parser and the
//! resolver and returns an interpreter that is ready to run, together
//! with what the three stages found wrong. The interpreter is then
//! stepped by its caller, which performs the arithmetic the program asks
//! for; see [`interpreter`].

use vstd::prelude::*;

pub mod tokens;
pub mod scanner;
pub mod exceptions;
pub mod expr;
pub mod stmt;
pub mod parser;
pub mod callable;
pub mod environment;
pub mod class;
pub mod instance;
pub mod interpreter;
pub mod logger;
pub mod resolver;
pub mod soundness;
pub mod utils;

use crate::interpreter::{replay, Event, Interpreter, Machine};
use crate::parser::{parse, parse_tokens, ParseDiagnostic};
use crate::resolver::{context, lemma_resolve_is_sound, resolve, resolve_program, ResolveError};
use crate::scanner::{chars_of, lex, scan, ScanDiagnostic};
use crate::soundness::{consistent, lemma_resolution_keeps_consistent};

verus! {

/// What loading a source text yields.
pub struct Loaded {
    /// The interpreter, about to run the statements that parsed.
    pub interpreter: Interpreter,
    /// The lexical errors, in source order.
    pub scan_errors: Vec<ScanDiagnostic>,
    /// The syntax errors, in source order.
    pub parse_errors: Vec<ParseDiagnostic>,
    /// The error that stopped the resolver, if any. A program with such
    /// an error must not be run: its resolution table is unfinished.
    pub resolve_error: Option<ResolveError>,
}

/// The machine that the statements parsed from `source` start in, before
/// anything is resolved.
pub open spec fn unresolved(source: Seq<char>) -> Machine {
    let parsed = parse(lex(source).tokens);
    Machine::start(source, parsed.ast, parsed.body)
}

/// Lexes, parses and resolves `source`.
pub fn load(source: &str) -> (loaded: Loaded)
    ensures
        loaded.scan_errors@ == lex(source@).errors,
        loaded.parse_errors@ == parse(lex(source@).tokens).errors,
        match resolve_program(
            context(unresolved(source@)),
            parse(lex(source@).tokens).body,
            unresolved(source@).locals,
        ) {
            Ok(locals) => {
                &&& loaded.resolve_error is None
                &&& loaded.interpreter@ == (Machine { locals, ..unresolved(source@) })
            },
            Err(error) => loaded.resolve_error == Some(error),
        },
        loaded.interpreter@ == (Machine {
            locals: loaded.interpreter@.locals,
            ..unresolved(source@)
        }),
        loaded.resolve_error is None ==> is_loaded(source@, loaded.interpreter@),
        loaded.interpreter@.scopes.well_formed(),
        loaded.resolve_error != Some(ResolveError::Malformed),
        consistent(loaded.interpreter@),
{
    let (tokens, scan_errors) = scan(source);
    let syntax = parse_tokens(tokens);
    let mut interpreter = Interpreter::new(chars_of(source), syntax.program, &syntax.body);
    proof {
        lemma_resolve_is_sound(context(interpreter@), syntax.body@, interpreter@.locals);
    }
    let ghost fresh = interpreter@;
    let resolve_error = resolve(&mut interpreter, &syntax.body);
    proof {
        lemma_resolution_keeps_consistent(fresh, interpreter@.locals);
    }
    Loaded { interpreter, scan_errors, parse_errors: syntax.errors, resolve_error }
}

/// Whether `machine` is the machine that loading `source` yields: the
/// source resolves, and the machine is the unresolved one with the
/// resolution table filled.
pub open spec fn is_loaded(source: Seq<char>, machine: Machine) -> bool {
    match resolve_program(
        context(unresolved(source)),
        parse(lex(source).tokens).body,
        unresolved(source).locals,
    ) {
        Ok(locals) => machine == (Machine { locals, ..unresolved(source) }),
        Err(_) => false,
    }
}

/// Running a source again prints the same: two machines loaded from the
/// same source that are told the same events go through the same states,
/// and so hold the same output.
pub proof fn lemma_rerun_prints_the_same(
    source: Seq<char>,
    first: Machine,
    second: Machine,
    events: Seq<Event>,
)
    requires
        is_loaded(source, first),
        is_loaded(source, second),
    ensures
        replay(first, events) == replay(second, events),
        replay(first, events).output == replay(second, events).output,
{
}

} // verus!
