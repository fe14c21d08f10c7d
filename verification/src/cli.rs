use vstd::prelude::*;

use crate::environment::FrameView;
use crate::error::{CompiletimeError, RuntimeError, compiletime_message, runtime_message};
use crate::expression::{AstPrinter, ast_text};
use crate::grammar::{SyntaxError, error_view, parse_program};
use crate::interpreter::{Interpreter, block_fail, block_spec, failure_of};
use crate::parser::{Parser, parsable, stmts_view};
use crate::resolution::{r_stmts, resolve_error_view, start_resolution};
use crate::resolver::Resolver;
use crate::scanner::{Scanner, law_scan_ends_with_eof, scan, tokens_view};
use crate::stmt::{Stmt, StmtView, tokens_seq_view};
use crate::value::InstanceView;
use crate::token::{Token, TokenView, literal_debug_spec, type_name_spec};
use crate::value::LoxNumber;

verus! {

broadcast use vstd::std_specs::vec::group_vec_axioms;

/// Why running a program stopped.
#[derive(Debug)]
pub enum LoxError<N> {
    /// Scanning, parsing or resolving failed; nothing ran.
    Compile(CompiletimeError),
    /// The program failed while it ran.
    Runtime(RuntimeError<N>),
}

impl<N: LoxNumber> LoxError<N> {
    /// The error's message.
    pub fn message(&self) -> (s: String)
        ensures
            match *self {
                LoxError::Compile(e) => compiletime_message::<N>(e) matches Some(m) ==> s@ == m,
                LoxError::Runtime(e) => runtime_message(e) matches Some(m) ==> s@ == m,
            },
    {
        match self {
            LoxError::Compile(e) => e.message::<N>(),
            LoxError::Runtime(e) => e.message(),
        }
    }
}

/// What a run printed, line by line, the syntax errors it reported, and how
/// it ended.
pub struct Outcome<N> {
    pub output: Vec<String>,
    pub syntax_errors: Vec<CompiletimeError>,
    pub result: Result<(), LoxError<N>>,
}

/// The options of the command line.
pub struct Cli {
    /// Path to a .lox file. If omitted, the prompt starts.
    pub path: Option<String>,
    /// Print the tokens and exit.
    pub tokens: bool,
    /// Print the AST and exit.
    pub ast: bool,
}

/// The line a token is listed with, where it does not depend on the number
/// type.
pub open spec fn token_line<N: LoxNumber>(t: TokenView) -> Option<Seq<char>> {
    match literal_debug_spec::<N>(t.literal) {
        Some(d) => Some(type_name_spec(t.token_type) + " "@ + t.lexeme + " "@ + d),
        None => None,
    }
}

/// How a run that fails while scanning ends: with that error, having
/// printed nothing.
pub open spec fn scan_failed<N>(source: Seq<char>, r: Outcome<N>) -> bool {
    scan(source) matches Err(e) ==> {
        &&& r.result == Err::<(), LoxError<N>>(LoxError::Compile(e))
        &&& r.output@.len() == 0
        &&& r.syntax_errors@.len() == 0
    }
}

/// The syntax errors a run reports are those parsing records, in order.
pub open spec fn reports(parsed: Seq<Option<SyntaxError>>, r: Seq<CompiletimeError>) -> bool {
    r.map_values(|e: CompiletimeError| error_view(e)) == parsed
}

/// How running the tokens `ts` ends. The syntax errors parsing records are
/// reported, and the declarations read run as the program. Where resolving
/// finds an error, the run fails with that error and prints nothing.
/// Otherwise, where `block_spec`
/// says what the program does in a fresh interpreter (one global frame, no
/// instances) with the depths that resolving recorded, the run prints the
/// lines it gives and ends well, or, where a `return` ends the program,
/// with `ReturnOutsideFunction`; and where `block_fail` says how the
/// program fails there, the run prints the lines printed before the failure
/// and ends with that runtime error.
pub open spec fn program_outcome<N: LoxNumber>(ts: Seq<TokenView>, r: Outcome<N>) -> bool {
    let (parsed, program) = parse_program(ts);
    &&& reports(parsed.errors, r.syntax_errors@)
    &&& match r_stmts(start_resolution(), program) {
            Err(x) => {
                &&& (r.result matches Err(LoxError::Compile(e)) && resolve_error_view(e) == Some(x))
                &&& r.output@.len() == 0
            },
            Ok(resolution) => {
                &&& block_spec(
                    u64::MAX as nat,
                    seq![FrameView::<N> { values: Seq::empty(), enclosing: None }],
                    Seq::<InstanceView<N>>::empty(),
                    0,
                    0,
                    resolution.locals,
                    program,
                ) matches Some((frames, heap, lines, outcome)) ==> {
                    &&& outcome is None ==> r.result is Ok
                    &&& outcome is Some ==> (r.result matches Err(
                        LoxError::Runtime(RuntimeError::ReturnOutsideFunction),
                    ))
                    &&& r.output@.len() == lines.len()
                    &&& forall|j: int| 0 <= j < lines.len() ==> (#[trigger] r.output@[j])@ == lines[j]
                }
                &&& block_fail(
                    u64::MAX as nat,
                    seq![FrameView::<N> { values: Seq::empty(), enclosing: None }],
                    Seq::<InstanceView<N>>::empty(),
                    0,
                    0,
                    resolution.locals,
                    program,
                ) matches Some((frames, heap, lines, x)) ==> {
                    &&& r.result matches Err(LoxError::Runtime(e)) && failure_of(e) == x
                    &&& r.output@.len() == lines.len()
                    &&& forall|j: int| 0 <= j < lines.len() ==> (#[trigger] r.output@[j])@ == lines[j]
                }
            },
        }
}

/// The line `--ast` prints for a statement: the AST of an expression or
/// `print` statement's expression, `<stmt>` for any other statement.
pub open spec fn ast_line<N: LoxNumber>(s: StmtView) -> Option<Seq<char>> {
    match s {
        StmtView::Expression { expression } => ast_text::<N>(expression),
        StmtView::Print { expression } => ast_text::<N>(expression),
        _ => Some("<stmt>"@),
    }
}

/// How printing the AST of the tokens `ts` ends: well, reporting the syntax
/// errors parsing records, with one line per declaration read.
pub open spec fn ast_outcome<N: LoxNumber>(ts: Seq<TokenView>, r: Outcome<N>) -> bool {
    let (parsed, program) = parse_program(ts);
    &&& reports(parsed.errors, r.syntax_errors@)
    &&& r.result is Ok
    &&& r.output@.len() == program.len()
    &&& forall|i: int|
        0 <= i < program.len() ==> (ast_line::<N>(program[i]) matches Some(t) ==> (
        #[trigger] r.output@[i])@ == t)
}

impl Cli {
    /// Runs one source text as the options say: lists its tokens, prints the
    /// AST of its expression statements, or runs it. A program that does
    /// not scan prints nothing and fails with the scanning error. A listing
    /// of tokens has one line per token. Runtime errors come only from
    /// running.
    pub fn exec<N: LoxNumber>(&self, source: &str) -> (r: Outcome<N>)
        requires
            source@.len() < usize::MAX,
        ensures
            scan_failed(source@, r),
            self.tokens ==> (scan(source@) matches Ok(ts) ==> {
                &&& r.result is Ok
                &&& r.syntax_errors@.len() == 0
                &&& r.output@.len() == ts.len()
                &&& forall|i: int|
                    0 <= i < ts.len() ==> (token_line::<N>(ts[i]) matches Some(x) ==> (
                    #[trigger] r.output@[i])@ == x)
            }),
            r.result matches Err(LoxError::Runtime(_)) ==> !self.tokens && !self.ast && scan(
                source@,
            ) is Ok,
            !self.tokens && !self.ast ==> (scan(source@) matches Ok(ts) ==> program_outcome(ts, r)),
            !self.tokens && self.ast ==> (scan(source@) matches Ok(ts) ==> ast_outcome(ts, r)),
    {
        if !self.tokens && !self.ast {
            return self.run::<N>(source);
        }
        let tokens = match Self::scan_source(source) {
            Ok(tokens) => tokens,
            Err(e) => {
                return Outcome { output: Vec::new(), syntax_errors: Vec::new(), result: Err(LoxError::Compile(e)) };
            },
        };
        if self.tokens {
            return Outcome {
                output: Self::token_lines::<N>(&tokens),
                syntax_errors: Vec::new(),
                result: Ok(()),
            };
        }
        proof {
            assert(tokens_view(tokens@) =~= tokens_seq_view(tokens@));
        }
        let (statements, syntax_errors) = Self::parse(tokens);
        Outcome { output: Self::ast_lines::<N>(&statements), syntax_errors, result: Ok(()) }
    }

    /// Scans, parses and resolves a source text, then runs it in a fresh
    /// interpreter. Syntax errors are reported, and the declarations that
    /// were read still run. A resolving error stops it before it runs; a
    /// runtime error stops the run, and the lines printed before it are kept.
    /// A program that does not scan prints nothing and fails with the
    /// scanning error.
    pub fn run<N: LoxNumber>(&self, source: &str) -> (r: Outcome<N>)
        requires
            source@.len() < usize::MAX,
        ensures
            scan_failed(source@, r),
            r.result matches Err(LoxError::Runtime(_)) ==> scan(source@) is Ok,
            scan(source@) matches Ok(ts) ==> program_outcome(ts, r),
    {
        let tokens = match Self::scan_source(source) {
            Ok(tokens) => tokens,
            Err(e) => {
                return Outcome { output: Vec::new(), syntax_errors: Vec::new(), result: Err(LoxError::Compile(e)) };
            },
        };
        proof {
            assert(tokens_view(tokens@) =~= tokens_seq_view(tokens@));
        }
        let ghost ts = tokens_seq_view(tokens@);
        let (statements, syntax_errors) = Self::parse(tokens);
        let mut interpreter: Interpreter<N> = Interpreter::new();
        let mut resolver = Resolver::new();
        let ghost i0 = interpreter;
        proof {
            assert(resolver.resolution(interpreter.locals_spec()) == start_resolution());
        }
        match resolver.resolve_statements(&mut interpreter, &statements) {
            Ok(()) => {},
            Err(e) => {
                return Outcome { output: Vec::new(), syntax_errors, result: Err(LoxError::Compile(e)) };
            },
        }
        let ghost i1 = interpreter;
        proof {
            let res = r_stmts(start_resolution(), stmts_view(statements@))->Ok_0;
            assert(i1.locals_spec() == res.locals);
            assert(i1.frames() == seq![FrameView::<N> { values: Seq::empty(), enclosing: None }]);
            assert(i1.heap() == Seq::<InstanceView<N>>::empty());
            assert(i1.current() == 0);
            assert(i1.globals_frame() == 0);
            assert(i1.output_spec().len() == 0);
        }
        let result = match interpreter.interpret(&statements) {
            Ok(()) => Ok(()),
            Err(e) => Err(LoxError::Runtime(e)),
        };
        let ghost i2 = interpreter;
        let output = interpreter.take_output();
        proof {
            assert(output@ == i2.output_spec());
            let program = stmts_view(statements@);
            let res = r_stmts(start_resolution(), program)->Ok_0;
            let run = block_spec(
                u64::MAX as nat,
                seq![FrameView::<N> { values: Seq::empty(), enclosing: None }],
                Seq::<InstanceView<N>>::empty(),
                0,
                0,
                res.locals,
                program,
            );
            assert(run == i1.block_now(u64::MAX as nat, i1.current() as int, program));
            assert(block_fail(
                u64::MAX as nat,
                seq![FrameView::<N> { values: Seq::empty(), enclosing: None }],
                Seq::<InstanceView<N>>::empty(),
                0,
                0,
                res.locals,
                program,
            ) == i1.block_fail_now(u64::MAX as nat, i1.current() as int, program));
            if run is Some {
                let lines = (run->0).2;
                assert forall|j: int| 0 <= j < lines.len() implies (#[trigger] output@[j])@
                    == lines[j] by {
                    assert(i2.output_spec()[i1.output_spec().len() + j] == output@[j]);
                }
            }
            let fail = i1.block_fail_now(u64::MAX as nat, i1.current() as int, program);
            if fail is Some {
                let lines = (fail->0).2;
                assert forall|j: int| 0 <= j < lines.len() implies (#[trigger] output@[j])@
                    == lines[j] by {
                    assert(i2.output_spec()[i1.output_spec().len() + j] == output@[j]);
                }
            }
        }
        Outcome { output, syntax_errors, result }
    }

    /// The tokens of a source text, or the first scanning error.
    fn scan_source(source: &str) -> (r: Result<Vec<Token>, CompiletimeError>)
        requires
            source@.len() < usize::MAX,
        ensures
            match r {
                Ok(tokens) => scan(source@) == Ok::<Seq<TokenView>, CompiletimeError>(
                    tokens_view(tokens@),
                ) && parsable(tokens@),
                Err(e) => scan(source@) == Err::<Seq<TokenView>, CompiletimeError>(e),
            },
    {
        let scanner = Scanner::new(source);
        let r = scanner.scan_tokens();
        proof {
            law_scan_ends_with_eof(source@);
            if r is Ok {
                let tokens = r->Ok_0;
                let n = tokens@.len();
                assert(tokens_view(tokens@)[n - 1] == tokens@[n - 1]@);
            }
        }
        r
    }

    /// One line per token.
    fn token_lines<N: LoxNumber>(tokens: &Vec<Token>) -> (lines: Vec<String>)
        ensures
            lines@.len() == tokens@.len(),
            forall|i: int|
                0 <= i < tokens@.len() ==> (token_line::<N>(tokens@[i]@) matches Some(x) ==> (
                #[trigger] lines@[i])@ == x),
    {
        let mut lines: Vec<String> = Vec::new();
        let mut i: usize = 0;
        while i < tokens.len()
            invariant
                i <= tokens@.len(),
                lines@.len() == i,
                forall|j: int|
                    0 <= j < i ==> (token_line::<N>(tokens@[j]@) matches Some(x) ==> (
                    #[trigger] lines@[j])@ == x),
            decreases tokens@.len() - i,
        {
            lines.push(tokens[i].to_string::<N>());
            i = i + 1;
        }
        lines
    }

    /// The declarations read from a token list that ends with end of file,
    /// and the syntax errors recorded on the way.
    fn parse(tokens: Vec<Token>) -> (r: (Vec<Stmt>, Vec<CompiletimeError>))
        requires
            parsable(tokens@),
        ensures
            stmts_view(r.0@) == parse_program(tokens_seq_view(tokens@)).1,
            reports(parse_program(tokens_seq_view(tokens@)).0.errors, r.1@),
    {
        proof {
            assert(tokens@.len() == tokens.len());
        }
        let mut parser = Parser::new(tokens);
        let statements = match parser.parse() {
            Ok(statements) => statements,
            Err(_) => Vec::new(),
        };
        let errors = parser.take_errors();
        (statements, errors)
    }

    /// The AST of each expression and print statement; `<stmt>` for any
    /// other statement.
    fn ast_lines<N: LoxNumber>(statements: &Vec<Stmt>) -> (lines: Vec<String>)
        ensures
            lines@.len() == statements@.len(),
            forall|i: int|
                0 <= i < statements@.len() ==> (ast_line::<N>(stmts_view(statements@)[i]) matches Some(t)
                    ==> (#[trigger] lines@[i])@ == t),
            forall|i: int|
                0 <= i < statements@.len() ==> match statements@[i] {
                    Stmt::Expression { expression } => ast_text::<N>(expression@) matches Some(t) ==> (
                    #[trigger] lines@[i])@ == t,
                    Stmt::Print { expression } => ast_text::<N>(expression@) matches Some(t) ==> lines@[
                    i]@ == t,
                    _ => lines@[i]@ == "<stmt>"@,
                },
    {
        let printer = AstPrinter;
        let mut lines: Vec<String> = Vec::new();
        let mut i: usize = 0;
        while i < statements.len()
            invariant
                i <= statements@.len(),
                lines@.len() == i,
                forall|j: int|
                    0 <= j < i ==> match statements@[j] {
                        Stmt::Expression { expression } => ast_text::<N>(expression@) matches Some(t)
                            ==> (#[trigger] lines@[j])@ == t,
                        Stmt::Print { expression } => ast_text::<N>(expression@) matches Some(t)
                            ==> lines@[j]@ == t,
                        _ => lines@[j]@ == "<stmt>"@,
                    },
            decreases statements@.len() - i,
        {
            let line = match &statements[i] {
                Stmt::Expression { expression } => printer.print::<N>(expression),
                Stmt::Print { expression } => printer.print::<N>(expression),
                _ => String::from_str("<stmt>"),
            };
            lines.push(line);
            i = i + 1;
        }
        lines
    }
}

} // verus!
