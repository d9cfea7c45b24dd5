//! The evaluator: a machine that runs a program one step at a time.
//!
//! The program around the library, the host, loads a program with
//! [`Interpreter::interpret`] and then calls [`Interpreter::step`] until it
//! reports `Done` or `Failed`. A step may ask the host to write a line, or
//! for a number that only the host can give (arithmetic on doubles, the value
//! of a numeral, the time): the host passes that number to
//! [`Interpreter::answer`] before the next step.

use vstd::prelude::*;
use std::rc::Rc;
use crate::arithmetic::operation;
use crate::environment::{Environment, ScopeView};
use crate::expr::{expr_view, exprs_view, lemma_exprs_view, Expr};
use crate::grammar_laws::{all_enclosed, all_shaped};
use crate::safety::{fits, sane, unknown_operator};
use crate::semantics::{
    apply_binary, arity_message, bind, home, lemma_home_pushed, numbers, Arith, ControlView,
    FrameView, InterpreterView, RequestView, MAX_FRAMES,
};
use crate::stmt::{lemma_stmts_view, stmt_view, stmts_view, tokens_view, Stmt};
use crate::text::push_decimal;
use crate::token::{Literal, Token, TokenType, TokenView};
use crate::types::{
    is_truthy, share, Clock, LitVal, LitValView, LoxCallable, LoxFunction, Number,
};

verus! {

/// An error met while a program runs: the token at which it happened, for the
/// line, and a message.
#[derive(Debug, PartialEq)]
pub struct RuntimeError {
    pub token: Token,
    pub message: String,
}

/// The mathematical value of a [`RuntimeError`].
pub struct RuntimeErrorView {
    pub token: TokenView,
    pub message: Seq<char>,
}

impl View for RuntimeError {
    type V = RuntimeErrorView;

    open spec fn view(&self) -> RuntimeErrorView {
        RuntimeErrorView { token: self.token@, message: self.message@ }
    }
}

impl Clone for RuntimeError {
    fn clone(&self) -> (r: Self)
        ensures
            r == *self,
    {
        RuntimeError { token: self.token.clone(), message: self.message.clone() }
    }
}

impl RuntimeError {
    /// The error with this message, met at `token`.
    pub fn new(token: Token, message: &str) -> (e: Self)
        ensures
            e@ == (RuntimeErrorView { token: token@, message: message@ }),
    {
        RuntimeError { token, message: message.to_owned() }
    }
}

/// What a step asks of the host.
#[derive(Debug, PartialEq)]
pub enum Request {
    /// Nothing: step again.
    Step,
    /// The number that this numeral denotes.
    Parse(String),
    /// The result of this operation on doubles.
    Arith(Arith, Number, Number),
    /// The time, in seconds.
    Clock,
    /// Write this line.
    Print(String),
    /// Write this number, as a line.
    PrintNumber(Number),
    /// Nothing: the program has run to its end.
    Done,
    /// Nothing: the program has stopped on this error.
    Failed(RuntimeError),
}

impl View for Request {
    type V = RequestView;

    open spec fn view(&self) -> RequestView {
        match self {
            Request::Step => RequestView::Step,
            Request::Parse(s) => RequestView::Parse(s@),
            Request::Arith(a, x, y) => RequestView::Arith(*a, *x, *y),
            Request::Clock => RequestView::Clock,
            Request::Print(s) => RequestView::Print(s@),
            Request::PrintNumber(n) => RequestView::PrintNumber(*n),
            Request::Done => RequestView::Done,
            Request::Failed(e) => RequestView::Failed(e@),
        }
    }
}

impl Clone for Request {
    fn clone(&self) -> (r: Self)
        ensures
            r == *self,
    {
        match self {
            Request::Step => Request::Step,
            Request::Parse(s) => Request::Parse(s.clone()),
            Request::Arith(a, x, y) => Request::Arith(*a, *x, *y),
            Request::Clock => Request::Clock,
            Request::Print(s) => Request::Print(s.clone()),
            Request::PrintNumber(n) => Request::PrintNumber(*n),
            Request::Done => Request::Done,
            Request::Failed(e) => Request::Failed(e.clone()),
        }
    }
}

enum Control {
    Eval(Rc<Expr>),
    Exec(Rc<Stmt>),
    Value(LitVal),
    Unwind(LitVal),
    Asking(Request),
    Done,
}

impl Control {
    spec fn view(&self) -> ControlView {
        match self {
            Control::Eval(e) => ControlView::Eval(expr_view(**e)),
            Control::Exec(s) => ControlView::Exec(stmt_view(**s)),
            Control::Value(v) => ControlView::Value(v@),
            Control::Unwind(v) => ControlView::Unwind(v@),
            Control::Asking(r) => ControlView::Asking(r@),
            Control::Done => ControlView::Done,
        }
    }
}

enum Frame {
    Block { stmts: Rc<Vec<Stmt>>, next: usize, env: usize },
    Loop { condition: Rc<Expr>, body: Rc<Stmt> },
    Call { env: usize },
    Print,
    Define(Token),
    Branch { then_branch: Rc<Stmt>, else_branch: Option<Rc<Stmt>> },
    Test { condition: Rc<Expr>, body: Rc<Stmt> },
    Return,
    Unary(Token),
    Left { op: Token, right: Rc<Expr> },
    Right { op: Token, left: LitVal },
    Logical { op: Token, right: Rc<Expr> },
    Assign(Token),
    Callee { paren: Token, arguments: Rc<Vec<Expr>> },
    Args { paren: Token, callee: LitVal, values: Vec<LitVal>, arguments: Rc<Vec<Expr>> },
}

/// The values of a sequence of values, one for one.
pub open spec fn values_view(v: Seq<LitVal>) -> Seq<LitValView> {
    Seq::new(v.len(), |i: int| v[i]@)
}

impl Frame {
    spec fn view(&self) -> FrameView {
        match self {
            Frame::Block { stmts, next, env } => FrameView::Block {
                stmts: stmts_view(stmts@),
                next: *next,
                env: *env,
            },
            Frame::Loop { condition, body } => FrameView::Loop {
                condition: expr_view(**condition),
                body: stmt_view(**body),
            },
            Frame::Call { env } => FrameView::Call { env: *env },
            Frame::Print => FrameView::Print,
            Frame::Define(name) => FrameView::Define(name@),
            Frame::Branch { then_branch, else_branch } => FrameView::Branch {
                then_branch: stmt_view(**then_branch),
                else_branch: match else_branch {
                    Some(e) => Some(stmt_view(**e)),
                    None => None,
                },
            },
            Frame::Test { condition, body } => FrameView::Test {
                condition: expr_view(**condition),
                body: stmt_view(**body),
            },
            Frame::Return => FrameView::Return,
            Frame::Unary(op) => FrameView::Unary(op@),
            Frame::Left { op, right } => FrameView::Left { op: op@, right: expr_view(**right) },
            Frame::Right { op, left } => FrameView::Right { op: op@, left: left@ },
            Frame::Logical { op, right } => FrameView::Logical {
                op: op@,
                right: expr_view(**right),
            },
            Frame::Assign(name) => FrameView::Assign(name@),
            Frame::Callee { paren, arguments } => FrameView::Callee {
                paren: paren@,
                arguments: exprs_view(arguments@),
            },
            Frame::Args { paren, callee, values, arguments } => FrameView::Args {
                paren: paren@,
                callee: callee@,
                values: values_view(values@),
                arguments: exprs_view(arguments@),
            },
        }
    }
}

spec fn frames_view(v: Seq<Frame>) -> Seq<FrameView> {
    Seq::new(v.len(), |i: int| v[i].view())
}

/// Both operands, if both are numbers.
fn both_numbers(left: &LitVal, right: &LitVal) -> (r: Option<(Number, Number)>)
    ensures
        r == numbers(left@, right@),
{
    match (left, right) {
        (LitVal::Number(a), LitVal::Number(b)) => Some((*a, *b)),
        _ => None,
    }
}

/// The error for a call with `got` arguments where `expected` are due.
fn arity_error(paren: Token, expected: usize, got: usize) -> (e: RuntimeError)
    ensures
        e@ == (RuntimeErrorView {
            token: paren@,
            message: arity_message(expected as nat, got as nat),
        }),
{
    let mut message = "Expected ".to_owned();
    push_decimal(&mut message, expected);
    message.append(" arguments but got ");
    push_decimal(&mut message, got);
    message.append(".");
    RuntimeError { token: paren, message }
}

/// Gives each parameter its argument in scope `scope`, in order.
fn bind_all(environment: &mut Environment, scope: usize, params: &Vec<Token>, args: &Vec<LitVal>)
    requires
        params.len() == args.len(),
    ensures
        final(environment)@ == bind(
            old(environment)@,
            scope as int,
            tokens_view(params@),
            values_view(args@),
            args.len() as nat,
        ),
{
    let mut i: usize = 0;
    while i < args.len()
        invariant
            i <= args.len(),
            params.len() == args.len(),
            environment@ == bind(
                old(environment)@,
                scope as int,
                tokens_view(params@),
                values_view(args@),
                i as nat,
            ),
        decreases args.len() - i,
    {
        environment.define(scope, params[i].lexeme.clone(), args[i].clone());
        i += 1;
    }
}

impl LoxCallable for Clock {
    open spec fn parameters(&self) -> nat {
        0
    }

    open spec fn called(&self, machine: InterpreterView, arguments: Seq<LitValView>) -> (
        InterpreterView,
        RequestView,
    ) {
        machine.ask(RequestView::Clock)
    }

    fn arity(&self) -> (n: usize) {
        0
    }

    /// Asks the host for the time.
    fn call(&self, interpreter: &mut Interpreter, arguments: Vec<LitVal>) -> (r: Request) {
        interpreter.ask(Request::Clock)
    }
}

impl LoxCallable for LoxFunction {
    open spec fn parameters(&self) -> nat {
        self@.params.len()
    }

    open spec fn called(&self, machine: InterpreterView, arguments: Seq<LitValView>) -> (
        InterpreterView,
        RequestView,
    ) {
        machine.invoke(self@, arguments)
    }

    fn arity(&self) -> (n: usize) {
        let params = self.params();
        assert(tokens_view(params@).len() == params.len());
        params.len()
    }

    /// Begins the body in a new scope, inside the scope the function was
    /// declared in, where each parameter has its argument. The new scope is
    /// the scope that the machine is in; the scope that the call was made
    /// from is saved, for the end of the call.
    fn call(&self, interpreter: &mut Interpreter, arguments: Vec<LitVal>) -> (r: Request)
        ensures
            r@ == RequestView::Step,
            final(interpreter)@.env == old(interpreter)@.scopes.len(),
            final(interpreter)@.scopes.len() == old(interpreter)@.scopes.len() + 1,
            final(interpreter)@.scopes.take(old(interpreter)@.scopes.len() as int) == old(
                interpreter,
            )@.scopes,
            final(interpreter)@.scopes[old(interpreter)@.scopes.len() as int].enclosing == (
            if self@.closure < old(interpreter)@.scopes.len() {
                Some(self@.closure)
            } else {
                None
            }),
            final(interpreter)@.scopes == bind(
                old(interpreter)@.scopes.push(
                    (ScopeView {
                        values: Map::empty(),
                        enclosing: if self@.closure < old(interpreter)@.scopes.len() {
                            Some(self@.closure)
                        } else {
                            None
                        },
                    }),
                ),
                old(interpreter)@.scopes.len() as int,
                self@.params,
                values_view(arguments@),
                arguments@.len(),
            ),
            final(interpreter)@.frames == old(interpreter)@.frames.push(
                FrameView::Call { env: old(interpreter)@.env },
            ).push(FrameView::Block { stmts: self@.body, next: 0, env: old(interpreter)@.env }),
    {
        proof {
            interpreter.lemma_fits();
            assert(values_view(arguments@).len() == arguments@.len());
            interpreter@.lemma_a_call_has_its_own_scope(self@, values_view(arguments@));
        }
        let params = self.params();
        assert(tokens_view(params@).len() == params.len());
        let scope = interpreter.environment.new_with_enclosing(self.closure());
        bind_all(&mut interpreter.environment, scope, params, &arguments);
        interpreter.put(Frame::Call { env: interpreter.env });
        interpreter.exec_block(self.body(), scope)
    }
}

/// The machine that runs a program.
pub struct Interpreter {
    /// The global scope.
    pub globals: usize,
    env: usize,
    environment: Environment,
    control: Control,
    frames: Vec<Frame>,
}

impl View for Interpreter {
    type V = InterpreterView;

    closed spec fn view(&self) -> InterpreterView {
        InterpreterView {
            globals: self.globals,
            env: self.env,
            scopes: self.environment@,
            control: self.control.view(),
            frames: frames_view(self.frames@),
        }
    }
}

impl Interpreter {
    /// A machine holds no more scopes than a machine can number.
    pub proof fn lemma_fits(&self)
        ensures
            fits(self@),
    {
        self.environment.lemma_fits();
    }

    /// The scope that the machine is in.
    pub fn scope(&self) -> (r: usize)
        ensures
            r == self@.env,
    {
        self.env
    }

    /// A machine with nothing to run. Its global scope holds `clock`.
    pub fn new() -> (r: Self)
        ensures
            r@ == InterpreterView::initial(),
            sane(r@),
    {
        let mut environment = Environment::new();
        environment.define(0, "clock".to_owned(), LitVal::Clock(Clock));
        let r = Interpreter {
            globals: 0,
            env: 0,
            environment,
            control: Control::Done,
            frames: Vec::new(),
        };
        assert(r@.scopes =~= InterpreterView::initial().scopes);
        assert(r@.frames =~= InterpreterView::initial().frames);
        r
    }

    /// Loads the program `stmts`: the next steps run it in the global scope.
    /// What the machine was doing before is given up; what was defined stays.
    pub fn interpret(&mut self, stmts: Vec<Stmt>)
        ensures
            final(self)@ == old(self)@.load(stmts_view(stmts@)),
            sane(old(self)@) && all_shaped(stmts_view(stmts@)) && all_enclosed(
                stmts_view(stmts@),
                false,
            ) ==> sane(final(self)@),
    {
        proof {
            if sane(self@) && all_shaped(stmts_view(stmts@)) && all_enclosed(
                stmts_view(stmts@),
                false,
            ) {
                self@.lemma_load_is_sane(stmts_view(stmts@));
            }
        }
        let mut frames: Vec<Frame> = Vec::new();
        frames.push(Frame::Block { stmts: Rc::new(stmts), next: 0, env: self.globals });
        self.frames = frames;
        self.env = self.globals;
        self.control = Control::Value(LitVal::Nil);
        assert(self@.frames =~= old(self)@.load(stmts_view(stmts@)).frames);
    }

    fn put(&mut self, frame: Frame)
        ensures
            final(self)@ == (InterpreterView {
                frames: old(self)@.frames.push(frame.view()),
                ..old(self)@
            }),
    {
        self.frames.push(frame);
        assert(self@.frames =~= old(self)@.frames.push(frame.view()));
    }

    fn take(&mut self) -> (frame: Option<Frame>)
        ensures
            match frame {
                Some(f) => old(self)@.frames.len() > 0 && f.view() == old(self)@.frames.last()
                    && final(self)@ == (InterpreterView {
                    frames: old(self)@.frames.drop_last(),
                    ..old(self)@
                }),
                None => old(self)@.frames.len() == 0 && final(self)@ == old(self)@,
            },
    {
        let frame = self.frames.pop();
        assert(self@.frames =~= if old(self)@.frames.len() > 0 {
            old(self)@.frames.drop_last()
        } else {
            old(self)@.frames
        });
        frame
    }

    fn go(&mut self, control: Control) -> (r: Request)
        ensures
            (final(self)@, r@) == old(self)@.go(control.view()),
    {
        self.control = control;
        Request::Step
    }

    fn give(&mut self, v: LitVal) -> (r: Request)
        ensures
            (final(self)@, r@) == old(self)@.give(v@),
    {
        self.control = Control::Value(v);
        Request::Step
    }

    fn defer(&mut self, frame: Frame, control: Control) -> (r: Request)
        ensures
            (final(self)@, r@) == old(self)@.defer(frame.view(), control.view()),
    {
        self.put(frame);
        self.control = control;
        Request::Step
    }

    fn ask(&mut self, request: Request) -> (r: Request)
        ensures
            (final(self)@, r@) == old(self)@.ask(request@),
    {
        self.control = Control::Asking(request.clone());
        request
    }

    /// The scope that the machine was in before all that is put aside.
    fn home(&self) -> (r: usize)
        ensures
            r == home(self@.frames, self@.env),
    {
        let ghost all = frames_view(self.frames@);
        let mut env = self.env;
        let mut i = self.frames.len();
        assert(all.take(i as int) =~= all);
        while i > 0
            invariant
                i <= self.frames.len(),
                all == frames_view(self.frames@),
                home(all.take(i as int), env) == home(all, self.env),
            decreases i,
        {
            i -= 1;
            proof {
                assert(all.take(i + 1).drop_last() =~= all.take(i as int));
                assert(all.take(i + 1).last() == self.frames[i as int].view());
            }
            match &self.frames[i] {
                Frame::Block { stmts, next, env: e } => {
                    env = *e;
                },
                Frame::Call { env: e } => {
                    env = *e;
                },
                _ => {},
            }
        }
        env
    }

    /// Stops on the error `e`: every block and call under way is left, and
    /// the machine is back in the scope that it was in before them.
    fn stop(&mut self, e: RuntimeError) -> (r: Request)
        ensures
            (final(self)@, r@) == old(self)@.fail(e@.token, e@.message),
    {
        let home = self.home();
        self.control = Control::Done;
        self.frames = Vec::new();
        self.env = home;
        assert(self@.frames =~= Seq::empty());
        Request::Failed(e)
    }

    fn fail(&mut self, token: &Token, message: &str) -> (r: Request)
        ensures
            (final(self)@, r@) == old(self)@.fail(token@, message@),
    {
        self.stop(RuntimeError::new(token.clone(), message))
    }

    /// Begins the statements `stmts` in scope `env`; after them the machine is
    /// back in the scope it is in now, whether they come to their end, to a
    /// `return` or to an error.
    pub fn exec_block(&mut self, stmts: &Rc<Vec<Stmt>>, env: usize) -> (r: Request)
        ensures
            (final(self)@, r@) == old(self)@.enter(stmts_view(stmts@), env),
            home(final(self)@.frames, final(self)@.env) == home(old(self)@.frames, old(self)@.env),
    {
        proof {
            lemma_home_pushed(
                self@.frames,
                FrameView::Block { stmts: stmts_view(stmts@), next: 0, env: self@.env },
                env,
            );
        }
        self.put(Frame::Block { stmts: share(stmts), next: 0, env: self.env });
        self.env = env;
        self.control = Control::Value(LitVal::Nil);
        Request::Step
    }

    /// Begins to evaluate an expression.
    fn evaluate(&mut self, expr: &Expr) -> (r: Request)
        ensures
            (final(self)@, r@) == old(self)@.eval(expr@),
    {
        match expr {
            Expr::Literal(l) => match l {
                Literal::Number(numeral) => self.ask(Request::Parse(numeral.clone())),
                Literal::String(s) => self.give(LitVal::String(s.clone())),
                Literal::Bool(b) => self.give(LitVal::Bool(*b)),
                Literal::Nil => self.give(LitVal::Nil),
                Literal::NotExist => self.give(LitVal::Nil),
            },
            Expr::Grouping { expression } => self.go(Control::Eval(share(expression))),
            Expr::Unary { op, right } => self.defer(
                Frame::Unary(op.clone()),
                Control::Eval(share(right)),
            ),
            Expr::Binary { left, op, right } => self.defer(
                Frame::Left { op: op.clone(), right: share(right) },
                Control::Eval(share(left)),
            ),
            Expr::Logical { left, op, right } => self.defer(
                Frame::Logical { op: op.clone(), right: share(right) },
                Control::Eval(share(left)),
            ),
            Expr::Variable(name) => match self.environment.get(self.env, name) {
                Ok(v) => self.give(v),
                Err(e) => self.stop(e),
            },
            Expr::Assign { name, value } => self.defer(
                Frame::Assign(name.clone()),
                Control::Eval(share(value)),
            ),
            Expr::Call { callee, paren, arguments } => self.defer(
                Frame::Callee { paren: paren.clone(), arguments: share(arguments) },
                Control::Eval(share(callee)),
            ),
        }
    }

    /// Begins to execute a statement.
    fn execute(&mut self, stmt: &Stmt) -> (r: Request)
        ensures
            (final(self)@, r@) == old(self)@.start(stmt@),
    {
        match stmt {
            Stmt::Expr(e) => self.go(Control::Eval(share(e))),
            Stmt::Print(e) => self.defer(Frame::Print, Control::Eval(share(e))),
            Stmt::Var { name, initializer } => match initializer {
                Some(e) => self.defer(Frame::Define(name.clone()), Control::Eval(share(e))),
                None => {
                    self.environment.define(self.env, name.lexeme.clone(), LitVal::Nil);
                    self.give(LitVal::Nil)
                },
            },
            Stmt::Block(stmts) => {
                let scope = self.environment.new_with_enclosing(self.env);
                self.exec_block(stmts, scope)
            },
            Stmt::If { condition, then_branch, else_branch } => {
                let other = match else_branch {
                    Some(e) => Some(share(e)),
                    None => None,
                };
                self.defer(
                    Frame::Branch { then_branch: share(then_branch), else_branch: other },
                    Control::Eval(share(condition)),
                )
            },
            Stmt::While { condition, body } => self.defer(
                Frame::Test { condition: share(condition), body: share(body) },
                Control::Eval(share(condition)),
            ),
            Stmt::Function { name, params, body } => {
                let function = LoxFunction::of(name, params, body, self.env);
                self.environment.define(
                    self.env,
                    name.lexeme.clone(),
                    LitVal::Function(function),
                );
                self.give(LitVal::Nil)
            },
            Stmt::Return { keyword, value } => match value {
                Some(e) => self.defer(Frame::Return, Control::Eval(share(e))),
                None => self.go(Control::Unwind(LitVal::Nil)),
            },
        }
    }

    /// Applies the unary operator `op` to the value `v`: the result is the
    /// value that the machine goes on with, or the error it stops on.
    pub fn eval_unary(&mut self, op: Token, v: LitVal) -> (r: Request)
        ensures
            (final(self)@, r@) == old(self)@.unary(op@, v@),
    {
        match op.type_ {
            TokenType::Bang => self.give(LitVal::Bool(!is_truthy(&v))),
            TokenType::Minus => match v {
                LitVal::Number(n) => self.give(LitVal::Number(n.neg())),
                _ => self.fail(&op, "Operand must be a number."),
            },
            _ => self.fail(&op, "Unknown operator."),
        }
    }

    /// Applies the binary operator `op` to the values `left` and `right`:
    /// the result is the value that the machine goes on with, the arithmetic
    /// that it asks of the host, or the error it stops on.
    pub fn eval_binary(&mut self, left: LitVal, op: Token, right: LitVal) -> (r: Request)
        ensures
            (final(self)@, r@) == old(self)@.binary(left@, op@, right@),
            match (numbers(left@, right@), operation(op.type_)) {
                (Some((a, b)), Some(o)) => r@ == RequestView::Arith(o, a, b) && final(self)@.control
                    == ControlView::Asking(r@),
                _ => true,
            },
            op.type_ == TokenType::Plus ==> (r@ is Failed <==> !((left@ is Number
                && right@ is Number) || (left@ is String && right@ is String))),
            op.type_ == TokenType::Plus && left@ is String && right@ is String ==> r@
                == RequestView::Step && final(self)@.control == ControlView::Value(
                LitValView::String(left@->String_0 + right@->String_0),
            ),
            r@ matches RequestView::Failed(e) ==> e.token == op@ && final(self)@.frames.len() == 0,
    {
        proof {
            reveal(apply_binary);
        }
        match op.type_ {
            TokenType::Minus => match both_numbers(&left, &right) {
                Some((a, b)) => self.ask(Request::Arith(Arith::Sub, a, b)),
                None => self.fail(&op, "Operands must be numbers."),
            },
            TokenType::Slash => match both_numbers(&left, &right) {
                Some((a, b)) => self.ask(Request::Arith(Arith::Div, a, b)),
                None => self.fail(&op, "Operands must be numbers."),
            },
            TokenType::Star => match both_numbers(&left, &right) {
                Some((a, b)) => self.ask(Request::Arith(Arith::Mul, a, b)),
                None => self.fail(&op, "Operands must be numbers."),
            },
            TokenType::Greater => match both_numbers(&left, &right) {
                Some((a, b)) => self.give(LitVal::Bool(b.lt(&a))),
                None => self.fail(&op, "Operands must be numbers."),
            },
            TokenType::GreaterEqual => match both_numbers(&left, &right) {
                Some((a, b)) => self.give(LitVal::Bool(b.le(&a))),
                None => self.fail(&op, "Operands must be numbers."),
            },
            TokenType::Less => match both_numbers(&left, &right) {
                Some((a, b)) => self.give(LitVal::Bool(a.lt(&b))),
                None => self.fail(&op, "Operands must be numbers."),
            },
            TokenType::LessEqual => match both_numbers(&left, &right) {
                Some((a, b)) => self.give(LitVal::Bool(a.le(&b))),
                None => self.fail(&op, "Operands must be numbers."),
            },
            TokenType::Plus => match (left, right) {
                (LitVal::Number(a), LitVal::Number(b)) => self.ask(
                    Request::Arith(Arith::Add, a, b),
                ),
                (LitVal::String(a), LitVal::String(b)) => {
                    let mut joined = a;
                    joined.append(b.as_str());
                    self.give(LitVal::String(joined))
                },
                _ => self.fail(&op, "Operands must be two numbers or two strings."),
            },
            TokenType::BangEqual => self.give(LitVal::Bool(!left.equals(&right))),
            TokenType::EqualEqual => self.give(LitVal::Bool(left.equals(&right))),
            _ => self.fail(&op, "Unknown operator."),
        }
    }

    /// Calls `callee` with the arguments `args`; `paren` is where an error is
    /// reported.
    fn call(&mut self, callee: LitVal, args: Vec<LitVal>, paren: Token) -> (r: Request)
        ensures
            (final(self)@, r@) == old(self)@.call(callee@, values_view(args@), paren@),
    {
        match callee {
            LitVal::Function(f) => {
                let arity = f.arity();
                if args.len() != arity {
                    return self.stop(arity_error(paren, arity, args.len()));
                }
                if self.frames.len() >= MAX_FRAMES {
                    return self.fail(&paren, "Stack overflow.");
                }
                f.call(self, args)
            },
            LitVal::Clock(c) => {
                if args.len() != c.arity() {
                    return self.stop(arity_error(paren, 0, args.len()));
                }
                c.call(self, args)
            },
            _ => self.fail(&paren, "Can only call functions and classes."),
        }
    }

    /// Takes up `frame`, which was put aside last, with the value `v`.
    fn resume(&mut self, frame: Frame, v: LitVal) -> (r: Request)
        ensures
            (final(self)@, r@) == old(self)@.resume(frame.view(), v@),
    {
        match frame {
            Frame::Block { stmts, next, env } => {
                proof {
                    lemma_stmts_view(stmts@);
                }
                if next < stmts.len() {
                    self.put(Frame::Block { stmts: share(&stmts), next: next + 1, env });
                    self.execute(&stmts[next])
                } else {
                    self.env = env;
                    self.give(LitVal::Nil)
                }
            },
            Frame::Loop { condition, body } => {
                let again = share(&condition);
                self.defer(Frame::Test { condition, body }, Control::Eval(again))
            },
            Frame::Call { env } => {
                self.env = env;
                self.give(LitVal::Nil)
            },
            Frame::Print => {
                self.control = Control::Value(LitVal::Nil);
                match v.to_string() {
                    Some(line) => Request::Print(line),
                    None => match v {
                        LitVal::Number(n) => Request::PrintNumber(n),
                        _ => Request::Step,
                    },
                }
            },
            Frame::Define(name) => {
                self.environment.define(self.env, name.lexeme, v);
                self.give(LitVal::Nil)
            },
            Frame::Branch { then_branch, else_branch } => {
                if is_truthy(&v) {
                    self.go(Control::Exec(then_branch))
                } else {
                    match else_branch {
                        Some(e) => self.go(Control::Exec(e)),
                        None => self.give(LitVal::Nil),
                    }
                }
            },
            Frame::Test { condition, body } => {
                if is_truthy(&v) {
                    let run = share(&body);
                    self.defer(Frame::Loop { condition, body }, Control::Exec(run))
                } else {
                    self.give(LitVal::Nil)
                }
            },
            Frame::Return => self.go(Control::Unwind(v)),
            Frame::Unary(op) => self.eval_unary(op, v),
            Frame::Left { op, right } => self.defer(
                Frame::Right { op, left: v },
                Control::Eval(right),
            ),
            Frame::Right { op, left } => self.eval_binary(left, op, v),
            Frame::Logical { op, right } => {
                let settled = if op.type_ == TokenType::Or {
                    is_truthy(&v)
                } else {
                    !is_truthy(&v)
                };
                if settled {
                    self.give(v)
                } else {
                    self.go(Control::Eval(right))
                }
            },
            Frame::Assign(name) => match self.environment.assign(self.env, &name, &v) {
                Ok(_) => self.give(v),
                Err(e) => self.stop(e),
            },
            Frame::Callee { paren, arguments } => {
                proof {
                    lemma_exprs_view(arguments@);
                }
                if arguments.len() == 0 {
                    let none: Vec<LitVal> = Vec::new();
                    assert(values_view(none@) =~= Seq::empty());
                    self.call(v, none, paren)
                } else {
                    let values: Vec<LitVal> = Vec::new();
                    assert(values_view(values@) =~= Seq::empty());
                    self.put(
                        Frame::Args { paren, callee: v, values, arguments: share(&arguments) },
                    );
                    self.evaluate(&arguments[0])
                }
            },
            Frame::Args { paren, callee, values, arguments } => {
                proof {
                    lemma_exprs_view(arguments@);
                }
                let mut values = values;
                let ghost before = values_view(values@);
                let ghost given = v@;
                values.push(v);
                assert(values_view(values@) =~= before.push(given));
                if values.len() < arguments.len() {
                    let next = values.len();
                    self.put(
                        Frame::Args { paren, callee, values, arguments: share(&arguments) },
                    );
                    self.evaluate(&arguments[next])
                } else {
                    self.call(callee, values, paren)
                }
            },
        }
    }

    /// One step of the machine.
    fn advance(&mut self) -> (r: Request)
        ensures
            (final(self)@, r@) == old(self)@.step(),
    {
        let mut control = Control::Done;
        core::mem::swap(&mut self.control, &mut control);
        match control {
            Control::Eval(e) => self.evaluate(&e),
            Control::Exec(s) => self.execute(&s),
            Control::Value(v) => match self.take() {
                Some(frame) => self.resume(frame, v),
                None => Request::Done,
            },
            Control::Unwind(v) => match self.take() {
                Some(Frame::Call { env }) => {
                    self.env = env;
                    self.give(v)
                },
                Some(Frame::Block { stmts, next, env }) => {
                    self.env = env;
                    self.control = Control::Unwind(v);
                    Request::Step
                },
                Some(_) => {
                    self.control = Control::Unwind(v);
                    Request::Step
                },
                None => Request::Done,
            },
            Control::Asking(request) => {
                self.control = Control::Asking(request.clone());
                request
            },
            Control::Done => Request::Done,
        }
    }

    /// One step of the machine, and what it asks of the host. A machine that
    /// is in order stays in order. No step changes the scope that the machine
    /// goes back to on an error, and a step that stops on an error leaves
    /// every block and call for that scope.
    pub fn step(&mut self) -> (r: Request)
        ensures
            (final(self)@, r@) == old(self)@.step(),
            sane(old(self)@) ==> sane(final(self)@) && !unknown_operator(r@),
            home(final(self)@.frames, final(self)@.env) == home(old(self)@.frames, old(self)@.env),
            r@ is Failed && !(old(self)@.control is Asking) ==> final(self)@.frames.len() == 0
                && final(self)@.env == home(old(self)@.frames, old(self)@.env),
    {
        let r = self.advance();
        proof {
            self.lemma_fits();
            old(self)@.lemma_home_is_kept();
            if sane(old(self)@) {
                old(self)@.lemma_step_is_sane();
            }
        }
        r
    }

    /// Takes the host's answer to a request for a number. Where no number
    /// was asked for, nothing changes.
    pub fn answer(&mut self, n: Number)
        ensures
            final(self)@ == old(self)@.answer(n),
            sane(old(self)@) ==> sane(final(self)@),
    {
        let asked = match &self.control {
            Control::Asking(_) => true,
            _ => false,
        };
        if asked {
            self.control = Control::Value(LitVal::Number(n));
        }
    }
}

} // verus!
