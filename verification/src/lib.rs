//! An interpreter for a small dynamically typed scripting language: source
//! text is scanned into tokens, tokens are parsed into statements, and the
//! statements are run by a machine that the host, the program around the
//! library, steps.
//!
//! The library holds no floating-point number. A number of the language is a
//! double, kept as its 64 bits ([`types::Number`]): the library compares and
//! negates numbers on the bits, and asks the host for the rest. To run a
//! source text, the host calls [`Lox::run`], reports the errors it returns,
//! and, if there are none, calls [`interpreter::Interpreter::step`] until the
//! step reports `Done` or `Failed`, doing what each step asks on the way:
//! writing a line, or answering with a number through
//! [`interpreter::Interpreter::answer`].
//!
//! What the text of a program means is laid down in four places: the tokens
//! of a text in [`scanner`], the statements of a token sequence in
//! [`grammar`], what statements and expressions come to in [`meaning`], and
//! the steps of the machine in [`semantics`]. That the machine arrives where
//! a program comes to is shown in [`meaning_laws`]; what else follows is
//! shown in [`grammar_laws`], [`safety`], [`scoping`] and [`arithmetic`].

pub mod arithmetic;
pub mod environment;
pub mod expr;
pub mod grammar;
pub mod grammar_laws;
pub mod interpreter;
pub mod meaning;
pub mod meaning_laws;
pub mod parser;
pub mod safety;
pub mod scanner;
pub mod scoping;
pub mod semantics;
pub mod stmt;
pub mod text;
pub mod token;
pub mod types;

use vstd::prelude::*;
use crate::grammar::{at_end, program};
use crate::grammar_laws::{all_enclosed, all_shaped, lemma_program, well_ended};
use crate::interpreter::{Interpreter, RuntimeError, RuntimeErrorView};
use crate::meaning_laws::{arrives, lemma_program_is_performed, performance};
use crate::parser::Parser;
use crate::scanner::{lemma_scan_ends, scan, Scanner};
use crate::safety::{
    after, lemma_a_program_leaves_its_blocks, lemma_a_sane_machine_stays_sane, room, sane,
    unknown_operator,
};
use crate::semantics::InterpreterView;
use crate::stmt::tokens_view;
use crate::text::{decimal, push_decimal};
use crate::token::{Token, TokenType, TokenView};

verus! {

/// What kind of error a diagnostic reports.
#[derive(Debug, Clone, Copy, PartialEq, Eq, Structural)]
pub enum ErrorKind {
    /// Met while scanning: a character that starts no token, a string
    /// without its closing quote.
    Lexical,
    /// Met while parsing.
    Syntax,
    /// Met while the program ran.
    Runtime,
}

/// A reported error.
#[derive(Debug, PartialEq)]
pub struct Diagnostic {
    pub kind: ErrorKind,
    /// The line of the source that the error is on.
    pub line: usize,
    /// Where on the line, for a syntax error: ` at end`, or ` at '` and the
    /// token's text and `'`. Empty otherwise.
    pub location: String,
    pub message: String,
}

/// The mathematical value of a [`Diagnostic`].
pub struct DiagnosticView {
    pub kind: ErrorKind,
    pub line: usize,
    pub location: Seq<char>,
    pub message: Seq<char>,
}

impl View for Diagnostic {
    type V = DiagnosticView;

    open spec fn view(&self) -> DiagnosticView {
        DiagnosticView {
            kind: self.kind,
            line: self.line,
            location: self.location@,
            message: self.message@,
        }
    }
}

impl Clone for Diagnostic {
    fn clone(&self) -> (r: Self)
        ensures
            r == *self,
    {
        Diagnostic {
            kind: self.kind,
            line: self.line,
            location: self.location.clone(),
            message: self.message.clone(),
        }
    }
}

/// The values of a sequence of diagnostics, one for one.
pub open spec fn diagnostics_view(v: Seq<Diagnostic>) -> Seq<DiagnosticView> {
    Seq::new(v.len(), |i: int| v[i]@)
}

/// The line that reports an error found in the source text.
pub open spec fn report_text(line: nat, location: Seq<char>, message: Seq<char>) -> Seq<char> {
    "[line "@ + decimal(line) + "] Error"@ + location + ": "@ + message
}

/// Where a syntax error at `token` is: at the end, or at the token's text.
pub open spec fn location_of(token: TokenView) -> Seq<char> {
    if token.type_ == TokenType::Eof {
        " at end"@
    } else {
        " at '"@ + token.lexeme + "'"@
    }
}

impl DiagnosticView {
    /// The text of the report: for an error in the source text one line, with
    /// the line's number first; for a runtime error the message, and on a
    /// second line the line's number.
    pub open spec fn text(self) -> Seq<char> {
        match self.kind {
            ErrorKind::Runtime => self.message + "\n[line "@ + decimal(self.line as nat) + "]"@,
            _ => report_text(self.line as nat, self.location, self.message),
        }
    }
}

impl Diagnostic {
    /// The text of the report.
    pub fn to_string(&self) -> (s: String)
        ensures
            s@ == self@.text(),
    {
        match self.kind {
            ErrorKind::Runtime => {
                let mut s = self.message.clone();
                s.append("\n[line ");
                push_decimal(&mut s, self.line);
                s.append("]");
                s
            },
            _ => Lox::report(self.line, self.location.as_str(), self.message.as_str()),
        }
    }
}

/// The errors that scanning and parsing `source` report: the lexical ones,
/// then the syntax errors.
pub open spec fn diagnosis(source: Seq<char>) -> Seq<DiagnosticView> {
    scan(source).1 + program(scan(source).0).errors
}

/// The interpreter as a whole: from source text to a machine that is ready
/// to run it.
pub struct Lox {
    /// The machine. The host steps it.
    pub interpreter: Interpreter,
}

/// A copy of `tokens`.
fn copy(tokens: &Vec<Token>) -> (r: Vec<Token>)
    ensures
        r@.len() == tokens@.len(),
        forall|i: int| 0 <= i < r@.len() ==> r@[i] == tokens@[i],
        tokens_view(r@) == tokens_view(tokens@),
{
    let mut r: Vec<Token> = Vec::new();
    let mut i: usize = 0;
    while i < tokens.len()
        invariant
            i <= tokens.len(),
            r@.len() == i,
            forall|j: int| 0 <= j < i ==> r@[j] == tokens@[j],
        decreases tokens.len() - i,
    {
        r.push(tokens[i].clone());
        i += 1;
    }
    assert(tokens_view(r@) =~= tokens_view(tokens@));
    r
}

/// `more`, added to `list`.
fn extend(list: &mut Vec<Diagnostic>, more: &Vec<Diagnostic>)
    ensures
        diagnostics_view(final(list)@) == diagnostics_view(old(list)@) + diagnostics_view(more@),
{
    let mut i: usize = 0;
    while i < more.len()
        invariant
            i <= more.len(),
            diagnostics_view(list@) == diagnostics_view(old(list)@) + diagnostics_view(
                more@,
            ).take(i as int),
        decreases more.len() - i,
    {
        let ghost before = diagnostics_view(list@);
        list.push(more[i].clone());
        assert(diagnostics_view(list@) =~= before.push(more@[i as int]@));
        assert(diagnostics_view(more@).take(i + 1) =~= diagnostics_view(more@).take(
            i as int,
        ).push(more@[i as int]@));
        i += 1;
    }
    assert(diagnostics_view(more@).take(i as int) =~= diagnostics_view(more@));
}

impl Lox {
    /// An interpreter whose machine has nothing to run.
    pub fn new() -> (r: Self)
        ensures
            r.interpreter@ == InterpreterView::initial(),
    {
        Lox { interpreter: Interpreter::new() }
    }

    /// Scans and parses `source` and returns the errors found. Where there
    /// are none, a new machine is loaded with the program, ready to be
    /// stepped. Where there are some, nothing is to be run: the new machine
    /// is idle.
    pub fn run(&mut self, source: String) -> (r: Vec<Diagnostic>)
        ensures
            diagnostics_view(r@) == diagnosis(source@),
            final(self).interpreter@ == if diagnosis(source@).len() == 0 {
                InterpreterView::initial().load(program(scan(source@).0).value->0)
            } else {
                InterpreterView::initial()
            },
            sane(final(self).interpreter@),
    {
        proof {
            lemma_every_source_is_parsed_to_its_end(source@);
            InterpreterView::lemma_initial_is_sane();
            InterpreterView::initial().lemma_load_is_sane(program(scan(source@).0).value->0);
        }
        let mut scanner = Scanner::new(source);
        let tokens = copy(scanner.scan_tokens());
        let mut found: Vec<Diagnostic> = Vec::new();
        assert(diagnostics_view(found@) =~= Seq::empty());
        extend(&mut found, scanner.diagnostics());

        let mut parser = Parser::new(tokens);
        let stmts = parser.parse();
        extend(&mut found, parser.diagnostics());
        assert(diagnostics_view(found@) =~= diagnosis(source@));

        self.interpreter = Interpreter::new();
        if found.len() == 0 {
            self.interpreter.interpret(stmts);
        }
        found
    }

    /// The diagnostic for a lexical error on line `line`.
    pub fn error(line: usize, message: &str) -> (d: Diagnostic)
        ensures
            d@ == (DiagnosticView {
                kind: ErrorKind::Lexical,
                line,
                location: Seq::empty(),
                message: message@,
            }),
    {
        Diagnostic {
            kind: ErrorKind::Lexical,
            line,
            location: String::new(),
            message: message.to_owned(),
        }
    }

    /// The diagnostic for a runtime error.
    pub fn runtime_error(error: RuntimeError) -> (d: Diagnostic)
        ensures
            d@ == (DiagnosticView {
                kind: ErrorKind::Runtime,
                line: error@.token.line,
                location: Seq::empty(),
                message: error@.message,
            }),
    {
        Diagnostic {
            kind: ErrorKind::Runtime,
            line: error.token.line,
            location: String::new(),
            message: error.message,
        }
    }

    /// The diagnostic for a syntax error at `token`.
    pub fn token_error(token: &Token, message: &str) -> (d: Diagnostic)
        ensures
            d@ == (DiagnosticView {
                kind: ErrorKind::Syntax,
                line: token.line,
                location: location_of(token@),
                message: message@,
            }),
    {
        let location = if token.type_ == TokenType::Eof {
            " at end".to_owned()
        } else {
            let mut s = " at '".to_owned();
            s.append(token.lexeme.as_str());
            s.append("'");
            s
        };
        Diagnostic { kind: ErrorKind::Syntax, line: token.line, location, message: message.to_owned() }
    }

    /// The line that reports an error found in the source text.
    pub fn report(line: usize, location: &str, message: &str) -> (s: String)
        ensures
            s@ == report_text(line as nat, location@, message@),
    {
        let mut s = "[line ".to_owned();
        push_decimal(&mut s, line);
        s.append("] Error");
        s.append(location);
        s.append(": ");
        s.append(message);
        s
    }
}

impl Default for Lox {
    fn default() -> (r: Self)
        ensures
            r.interpreter@ == InterpreterView::initial(),
    {
        Lox::new()
    }
}

/// A source text without errors runs safely: whatever the host answers and
/// however long the program runs, the machine that `Lox::run` loads meets no
/// operator that it does not know, no `return` outside a call, and no scope
/// that is not its own; and where a step stops it on an error, it is back in
/// the global scope with nothing put aside. All this as long as it has made no
/// more scopes than a machine can number.
pub proof fn lemma_a_parsed_program_runs_safely(
    source: Seq<char>,
    moves: Seq<Option<crate::types::Number>>,
)
    requires
        diagnosis(source).len() == 0,
        room(InterpreterView::initial().load(program(scan(source).0).value->0), moves),
    ensures
        ({
            let loaded = InterpreterView::initial().load(program(scan(source).0).value->0);
            &&& sane(after(loaded, moves))
            &&& moves.len() > 0 && moves.last() is None ==> !unknown_operator(
                after(loaded, moves.drop_last()).step().1,
            )
            &&& after(loaded, moves).control is Unwind ==> after(loaded, moves).frames.len() > 0
            &&& after(loaded, moves).step().1 is Failed ==> after(loaded, moves).step().0.env
                == loaded.globals && after(loaded, moves).step().0.frames.len() == 0
        }),
{
    lemma_every_source_is_parsed_to_its_end(source);
    let stmts = program(scan(source).0).value->0;
    InterpreterView::lemma_initial_is_sane();
    InterpreterView::initial().lemma_load_is_sane(stmts);
    lemma_a_sane_machine_stays_sane(InterpreterView::initial().load(stmts), moves);
    lemma_a_program_leaves_its_blocks(InterpreterView::initial(), stmts, moves);
}

/// A source text without errors is run as its program says: the machine that
/// `Lox::run` loads, stepped by a host that answers as `reply` says, has
/// the host write the lines that the program comes to, and ends as the
/// program ends; unless the program needs more patience than is given.
pub proof fn lemma_a_source_is_performed(
    source: Seq<char>,
    reply: spec_fn(crate::semantics::RequestView) -> crate::types::Number,
    patience: nat,
)
    requires
        diagnosis(source).len() == 0,
    ensures
        arrives(
            InterpreterView::initial().load(program(scan(source).0).value->0),
            InterpreterView::initial(),
            performance(program(scan(source).0).value->0, reply, patience),
            reply,
        ),
{
    lemma_program_is_performed(program(scan(source).0).value->0, reply, patience);
}

/// Whatever the source text, its tokens end with the token that marks the
/// end, and they are parsed to that token: errors end neither scanning nor
/// parsing. What is parsed is as the grammar makes it, and holds no `return`
/// outside a function's body.
pub proof fn lemma_every_source_is_parsed_to_its_end(source: Seq<char>)
    ensures
        well_ended(scan(source).0),
        at_end(scan(source).0, program(scan(source).0).pos),
        program(scan(source).0).value matches Some(stmts) && all_enclosed(stmts, false)
            && all_shaped(stmts),
{
    lemma_scan_ends(source, 0, 1);
    lemma_program(scan(source).0);
}

} // verus!
