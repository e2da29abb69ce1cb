//! Running source text: scanning, parsing, static resolution and
//! evaluation put together. Nothing here reads or prints: what a program
//! printed and what went wrong come back as values.

use crate::compiler::error::{errors_of, ErrorView, LoxError};
use crate::compiler::interpreter::{
    initial_machine, lines_of, unit_or_error, Interpreter, DEPTH_LIMIT, LOOP_LIMIT,
};
use crate::compiler::number::Number;
use crate::compiler::grammar::{list_end, reach_program};
use crate::compiler::parser::Parser;
use crate::compiler::resolver::{resolve_stmts, FunctionType, Resolution, Resolver};
use crate::compiler::scanner::{scan_all, Progress, Scanner};
use crate::compiler::semantics::{run_program, Setting};
use crate::compiler::stmt::Stmt;
use crate::compiler::token::{tokens_of, Token};
use vstd::prelude::*;

verus! {

/// How a run ended.
pub enum Outcome {
    /// The source is no program: the parser failed.
    SyntaxError(LoxError),
    /// Static resolution found an error, the first of which this is. The
    /// program was not run.
    ResolutionError(LoxError),
    /// The program ran and failed.
    RuntimeError(LoxError),
    /// The program ran to its end.
    Done,
}

/// What a run gave.
pub struct Run {
    /// The tokens of the source.
    pub tokens: Vec<Token>,
    /// What the scanner found wrong.
    pub scan_errors: Vec<LoxError>,
    /// The statements of the program; none if the parser failed.
    pub program: Vec<Stmt>,
    /// The warnings of static resolution.
    pub warnings: Vec<LoxError>,
    /// The lines that the program printed.
    pub output: Vec<String>,
    pub outcome: Outcome,
}

/// The resolution before anything is resolved.
pub open spec fn fresh_resolution() -> Resolution {
    Resolution {
        scopes: Seq::empty(),
        errors: Seq::empty(),
        warnings: Seq::empty(),
        locals: Map::empty(),
        current_function: FunctionType::NONE,
    }
}

/// The setting in which a program runs after its resolution `r`, with the
/// host's time `now` and the default limits.
pub open spec fn setting_after(r: Resolution, now: int) -> Setting {
    Setting { locals: r.locals, clock: now, loop_limit: LOOP_LIMIT as nat }
}

/// What resolving and then running a program gives.
pub struct Execution {
    pub warnings: Vec<LoxError>,
    pub output: Vec<String>,
    pub result: Result<(), LoxError>,
    /// Whether the program was run.
    pub ran: bool,
}

/// Whether `x` is what resolving and then running `statements` gives, on a
/// new interpreter whose clock shows `now`.
///
/// A program with a resolution error is not run at all: nothing is printed,
/// and the result is the first error that resolution found. Any other
/// program is run with the distances that resolution found, and gives what
/// it prints and how it ends.
pub open spec fn executed(x: Execution, statements: Seq<Stmt>, now: int) -> bool {
    let resolution = resolve_stmts(fresh_resolution(), statements, 0);
    let (machine, result) = run_program(
        setting_after(resolution, now),
        initial_machine(),
        statements,
        DEPTH_LIMIT as nat,
    );
    &&& errors_of(x.warnings@) == resolution.warnings
    &&& x.ran == (resolution.errors.len() == 0)
    &&& !x.ran ==> x.output@.len() == 0 && unit_or_error(x.result) == Err::<(), ErrorView>(
        resolution.errors[0],
    )
    &&& x.ran ==> lines_of(x.output@) == machine.output && unit_or_error(x.result) == result
}

/// Resolves a program and, unless resolution finds an error, runs it on a
/// new interpreter whose clock shows `now`.
pub fn execute_program(statements: &Vec<Stmt>, now: Number) -> (x: Execution)
    ensures
        executed(x, statements@, now@),
{
    let mut resolver = Resolver::new();
    resolver.resolve_statements(statements);
    if resolver.errors.len() > 0 {
        let first = resolver.errors[0].clone();
        return Execution {
            warnings: resolver.warnings,
            output: Vec::new(),
            result: Err(first),
            ran: false,
        };
    }
    let mut interpreter = Interpreter::new();
    interpreter.set_locals(resolver.locals);
    interpreter.set_clock(now);
    let result = interpreter.run(statements);
    Execution { warnings: resolver.warnings, output: interpreter.output, result, ran: true }
}

/// The state of a driver: whether anything went wrong so far.
pub struct Lox {
    /// Whether a source had a static error: one of scanning, parsing or
    /// resolution.
    pub had_error: bool,
    /// Whether a program failed while it ran.
    pub had_runtime_error: bool,
}

/// The progress of a scan before it begins.
pub open spec fn start_of_scan() -> Progress {
    Progress { current: 0, line: 1, tokens: Seq::empty(), errors: Seq::empty() }
}

/// Whether `run` is what running `source` gives, with the clock at `now`.
///
/// The tokens and the scan errors are those of the scan of `source`. The
/// tokens are parsed whatever the scanner found wrong. Where the parser
/// fails, that is the outcome and there is no program. Otherwise the
/// statements of the program are spelled by the tokens up to the end
/// token, and the program is resolved and run.
pub open spec fn ran(run: Run, source: Seq<char>, now: int) -> bool {
    let scanned = scan_all(source, start_of_scan());
    let reach = reach_program(run.tokens@, 0);
    &&& tokens_of(run.tokens@) == scanned.tokens
    &&& errors_of(run.scan_errors@) == scanned.errors
    &&& match run.outcome {
        Outcome::SyntaxError(e) => {
            &&& reach.failure == Some(e@)
            &&& run.program@.len() == 0
            &&& run.warnings@.len() == 0
            &&& run.output@.len() == 0
        },
        outcome => {
            &&& reach.failure is None
            &&& list_end(run.program@, run.tokens@, 0, run.program@.len()) == Some(reach.end)
            &&& exists|x: Execution|
                {
                    &&& executed(x, run.program@, now)
                    &&& x.warnings == run.warnings
                    &&& x.output == run.output
                    &&& outcome == match x.result {
                        Ok(_) => Outcome::Done,
                        Err(e) => if x.ran {
                            Outcome::RuntimeError(e)
                        } else {
                            Outcome::ResolutionError(e)
                        },
                    }
                }
        },
    }
}

impl Lox {
    /// A driver for which nothing went wrong so far.
    pub fn new() -> (lox: Self)
        ensures
            !lox.had_error,
            !lox.had_runtime_error,
    {
        Lox { had_error: false, had_runtime_error: false }
    }

    /// Forgets what went wrong so far.
    pub fn reset(&mut self)
        ensures
            !final(self).had_error,
            !final(self).had_runtime_error,
    {
        self.had_error = false;
        self.had_runtime_error = false;
    }

    /// Runs `source` on a new interpreter whose clock shows `now`. A static
    /// error sets `had_error`, a failure of the running program
    /// `had_runtime_error`.
    pub fn run(&mut self, source: String, now: Number) -> (run: Run)
        ensures
            ran(run, source@, now@),
            final(self).had_error == (old(self).had_error || run.scan_errors@.len() > 0
                || run.outcome is SyntaxError || run.outcome is ResolutionError),
            final(self).had_runtime_error == (old(self).had_runtime_error
                || run.outcome is RuntimeError),
    {
        let mut scanner = Scanner::new(source);
        scanner.scan_tokens();
        if scanner.errors.len() > 0 {
            self.had_error = true;
        }
        let mut parser = Parser::new(&scanner.tokens);
        let program = match parser.parse() {
            Ok(program) => program,
            Err(e) => {
                self.had_error = true;
                return Run {
                    tokens: parser.tokens,
                    scan_errors: scanner.errors,
                    program: Vec::new(),
                    warnings: Vec::new(),
                    output: Vec::new(),
                    outcome: Outcome::SyntaxError(e),
                };
            },
        };
        let x = execute_program(&program, now);
        let ghost witness = x;
        let outcome = match x.result {
            Ok(_) => Outcome::Done,
            Err(e) => if x.ran {
                self.had_runtime_error = true;
                Outcome::RuntimeError(e)
            } else {
                self.had_error = true;
                Outcome::ResolutionError(e)
            },
        };
        Run {
            tokens: parser.tokens,
            scan_errors: scanner.errors,
            program,
            warnings: x.warnings,
            output: x.output,
            outcome,
        }
    }
}

} // verus!
