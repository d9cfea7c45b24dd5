//! What a program means: the states of the evaluator as mathematical values,
//! and the step that takes one state to the next.
//!
//! The evaluator is a machine. It holds what it is doing now (its control), the
//! work it has put aside until that is done (its frames, the last one first),
//! the scopes, and the scope it is in. A step never loops and never calls
//! itself: a `while` that does not end is a machine that never reports `Done`.

use vstd::prelude::*;
use crate::environment::{bound, resolve, undefined, ScopeView};
use crate::expr::ExprView;
use crate::interpreter::RuntimeErrorView;
use crate::stmt::StmtView;
use crate::text::decimal;
use crate::token::{LiteralView, TokenType, TokenView};
use crate::types::{LitValView, LoxFunctionView, Number};

verus! {

/// The arithmetic that is asked of the host. Division by zero is no error:
/// the host answers as doubles do, with an infinity or with what is no number.
#[derive(Debug, Clone, Copy, PartialEq, Eq, Structural)]
pub enum Arith {
    Add,
    Sub,
    Mul,
    Div,
}

/// What a step asks of the host.
pub enum RequestView {
    /// Nothing: step again.
    Step,
    /// The number that this numeral denotes.
    Parse(Seq<char>),
    /// The result of this operation on doubles.
    Arith(Arith, Number, Number),
    /// The time, in seconds.
    Clock,
    /// Write this line.
    Print(Seq<char>),
    /// Write this number, as a line.
    PrintNumber(Number),
    /// Nothing: the program has run to its end.
    Done,
    /// Nothing: the program has stopped on this error.
    Failed(RuntimeErrorView),
}

/// What the machine is doing now.
pub enum ControlView {
    /// About to evaluate this expression.
    Eval(ExprView),
    /// About to execute this statement.
    Exec(StmtView),
    /// An expression has given this value, or a statement has ended (`nil`).
    Value(LitValView),
    /// A `return` is on its way out of a function with this value.
    Unwind(LitValView),
    /// Waiting for the number that this request asks for.
    Asking(RequestView),
    /// Nothing is left to do.
    Done,
}

/// Work put aside. A frame is taken up again when what was begun after it
/// gives its value.
pub enum FrameView {
    /// Statements `next` and following of `stmts` are still to run; after
    /// them the machine goes back to scope `env`.
    Block { stmts: Seq<StmtView>, next: usize, env: usize },
    /// The body of a loop is running: then the condition is tried again.
    Loop { condition: ExprView, body: StmtView },
    /// A function's body is running in place of a call made from scope `env`.
    Call { env: usize },
    /// `print`: the value is written.
    Print,
    /// `var`: the value is given to the name.
    Define(TokenView),
    /// `if`: the value chooses the branch.
    Branch { then_branch: StmtView, else_branch: Option<StmtView> },
    /// `while`: the value says whether the body runs once more.
    Test { condition: ExprView, body: StmtView },
    /// `return`: the value leaves the function.
    Return,
    /// A unary operator: it is applied to the value.
    Unary(TokenView),
    /// A binary operator whose left operand is the value: `right` is next.
    Left { op: TokenView, right: ExprView },
    /// A binary operator whose right operand is the value.
    Right { op: TokenView, left: LitValView },
    /// `and`, `or`: the value may settle it, else `right` is next.
    Logical { op: TokenView, right: ExprView },
    /// An assignment: the value is given to the name.
    Assign(TokenView),
    /// A call whose callee is the value: the arguments are next.
    Callee { paren: TokenView, arguments: Seq<ExprView> },
    /// A call whose next argument is the value; `values` are those before it.
    Args { paren: TokenView, callee: LitValView, values: Seq<LitValView>, arguments: Seq<ExprView> },
}

/// The most frames that a call may find put aside.
pub const MAX_FRAMES: usize = 0x4_0000;

/// What a binary operator makes of two values.
pub enum Applied {
    /// This value.
    Value(LitValView),
    /// What the host answers to this.
    Ask(Arith, Number, Number),
    /// An error with this message.
    Error(Seq<char>),
}

/// Both operands, if both are numbers.
pub open spec fn numbers(left: LitValView, right: LitValView) -> Option<(Number, Number)> {
    match (left, right) {
        (LitValView::Number(a), LitValView::Number(b)) => Some((a, b)),
        _ => None,
    }
}

/// A binary operator applied to two values. Arithmetic and ordering take two
/// numbers; `+` also joins two strings; equality takes any two values.
#[verifier::opaque]
pub open spec fn apply_binary(op: TokenType, left: LitValView, right: LitValView) -> Applied {
    match op {
        TokenType::Minus => match numbers(left, right) {
            Some((a, b)) => Applied::Ask(Arith::Sub, a, b),
            None => Applied::Error("Operands must be numbers."@),
        },
        TokenType::Slash => match numbers(left, right) {
            Some((a, b)) => Applied::Ask(Arith::Div, a, b),
            None => Applied::Error("Operands must be numbers."@),
        },
        TokenType::Star => match numbers(left, right) {
            Some((a, b)) => Applied::Ask(Arith::Mul, a, b),
            None => Applied::Error("Operands must be numbers."@),
        },
        TokenType::Greater => match numbers(left, right) {
            Some((a, b)) => Applied::Value(LitValView::Bool(b.below(a))),
            None => Applied::Error("Operands must be numbers."@),
        },
        TokenType::GreaterEqual => match numbers(left, right) {
            Some((a, b)) => Applied::Value(LitValView::Bool(b.below(a) || b.same(a))),
            None => Applied::Error("Operands must be numbers."@),
        },
        TokenType::Less => match numbers(left, right) {
            Some((a, b)) => Applied::Value(LitValView::Bool(a.below(b))),
            None => Applied::Error("Operands must be numbers."@),
        },
        TokenType::LessEqual => match numbers(left, right) {
            Some((a, b)) => Applied::Value(LitValView::Bool(a.below(b) || a.same(b))),
            None => Applied::Error("Operands must be numbers."@),
        },
        TokenType::Plus => match (left, right) {
            (LitValView::Number(a), LitValView::Number(b)) => Applied::Ask(Arith::Add, a, b),
            (LitValView::String(a), LitValView::String(b)) => Applied::Value(
                LitValView::String(a + b),
            ),
            _ => Applied::Error("Operands must be two numbers or two strings."@),
        },
        TokenType::BangEqual => Applied::Value(LitValView::Bool(!left.equals(right))),
        TokenType::EqualEqual => Applied::Value(LitValView::Bool(left.equals(right))),
        _ => Applied::Error("Unknown operator."@),
    }
}

/// A unary operator applied to a value: `!` takes any value, `-` a number.
pub open spec fn apply_unary(op: TokenType, right: LitValView) -> Result<LitValView, Seq<char>> {
    match op {
        TokenType::Bang => Ok(LitValView::Bool(!right.truthy())),
        TokenType::Minus => match right {
            LitValView::Number(n) => Ok(LitValView::Number(n.opposite())),
            _ => Err("Operand must be a number."@),
        },
        _ => Err("Unknown operator."@),
    }
}

/// `+` joins two strings.
pub proof fn lemma_plus_joins_strings(a: Seq<char>, b: Seq<char>)
    ensures
        apply_binary(TokenType::Plus, LitValView::String(a), LitValView::String(b))
            == Applied::Value(LitValView::String(a + b)),
{
    reveal(apply_binary);
}

/// `+` of a string and a value that is no string is an error.
pub proof fn lemma_plus_rejects_a_string_and_another(left: LitValView, right: LitValView)
    requires
        (left is String) != (right is String),
    ensures
        apply_binary(TokenType::Plus, left, right) == Applied::Error(
            "Operands must be two numbers or two strings."@,
        ),
{
    reveal(apply_binary);
}

/// Arithmetic on two numbers is asked of the host, with the operands in
/// their order; on anything else it is an error.
pub proof fn lemma_arithmetic_is_asked(left: LitValView, right: LitValView)
    ensures
        match numbers(left, right) {
            Some((a, b)) => {
                &&& apply_binary(TokenType::Plus, left, right) == Applied::Ask(Arith::Add, a, b)
                &&& apply_binary(TokenType::Minus, left, right) == Applied::Ask(Arith::Sub, a, b)
                &&& apply_binary(TokenType::Star, left, right) == Applied::Ask(Arith::Mul, a, b)
                &&& apply_binary(TokenType::Slash, left, right) == Applied::Ask(Arith::Div, a, b)
            },
            None => {
                &&& apply_binary(TokenType::Minus, left, right) is Error
                &&& apply_binary(TokenType::Star, left, right) is Error
                &&& apply_binary(TokenType::Slash, left, right) is Error
            },
        },
{
    reveal(apply_binary);
}

/// Equality is never an error, and values of different kinds are not equal.
pub proof fn lemma_equality_takes_all(left: LitValView, right: LitValView)
    ensures
        apply_binary(TokenType::EqualEqual, left, right) == Applied::Value(
            LitValView::Bool(left.equals(right)),
        ),
        apply_binary(TokenType::BangEqual, left, right) == Applied::Value(
            LitValView::Bool(!left.equals(right)),
        ),
        (left is Number) != (right is Number) ==> !left.equals(right),
        (left is String) != (right is String) ==> !left.equals(right),
        (left is Bool) != (right is Bool) ==> !left.equals(right),
        (left is Nil) != (right is Nil) ==> !left.equals(right),
        (left is Function) != (right is Function) ==> !left.equals(right),
        (left is Clock) != (right is Clock) ==> !left.equals(right),
{
    reveal(apply_binary);
}

/// `!` takes any value and gives whether it counts as false: `true` for `nil`
/// and `false`, `false` for every other value.
pub proof fn lemma_not_is_the_complement(v: LitValView)
    ensures
        apply_unary(TokenType::Bang, v) == Ok::<LitValView, Seq<char>>(
            LitValView::Bool(!v.truthy()),
        ),
        !v.truthy() <==> (v is Nil || v == LitValView::Bool(false)),
{
}

/// The message for a call with the wrong number of arguments.
pub open spec fn arity_message(expected: nat, got: nat) -> Seq<char> {
    "Expected "@ + decimal(expected) + " arguments but got "@ + decimal(got) + "."@
}

/// The scopes after the first `n` parameters were given their arguments in
/// scope `scope`, in order.
pub open spec fn bind(
    scopes: Seq<ScopeView>,
    scope: int,
    params: Seq<TokenView>,
    args: Seq<LitValView>,
    n: nat,
) -> Seq<ScopeView>
    decreases n,
{
    if n == 0 {
        scopes
    } else {
        bound(
            bind(scopes, scope, params, args, (n - 1) as nat),
            scope,
            params[n - 1].lexeme,
            args[n - 1],
        )
    }
}

/// Giving parameters their arguments in a scope changes that scope alone.
pub proof fn lemma_bind_keeps_others(
    scopes: Seq<ScopeView>,
    scope: int,
    params: Seq<TokenView>,
    args: Seq<LitValView>,
    n: nat,
)
    ensures
        bind(scopes, scope, params, args, n).len() == scopes.len(),
        forall|i: int|
            0 <= i < scopes.len() && i != scope ==> #[trigger] bind(scopes, scope, params, args, n)[i]
                == scopes[i],
    decreases n,
{
    if n > 0 {
        lemma_bind_keeps_others(scopes, scope, params, args, (n - 1) as nat);
    }
}

/// After the first `n` parameters were given their arguments in a scope, the
/// scope holds parameter `k`, one of them, with its argument, if none of the
/// later ones among them has its name.
pub proof fn lemma_bind_binds(
    scopes: Seq<ScopeView>,
    scope: int,
    params: Seq<TokenView>,
    args: Seq<LitValView>,
    n: nat,
    k: int,
)
    requires
        0 <= scope < scopes.len(),
        0 <= k < n,
        forall|j: int| k < j < n ==> params[j].lexeme != params[k].lexeme,
    ensures
        bind(scopes, scope, params, args, n).len() == scopes.len(),
        bind(scopes, scope, params, args, n)[scope].values.contains_key(params[k].lexeme),
        bind(scopes, scope, params, args, n)[scope].values[params[k].lexeme] == args[k],
    decreases n,
{
    lemma_bind_keeps_others(scopes, scope, params, args, (n - 1) as nat);
    if k < n - 1 {
        lemma_bind_binds(scopes, scope, params, args, (n - 1) as nat, k);
    }
}

/// Whether `after` holds all that `before` holds: the same scopes, enclosed
/// as they were, with every name they had, and maybe more scopes and names.
/// Nothing is ever deleted.
pub open spec fn keeps(after: Seq<ScopeView>, before: Seq<ScopeView>) -> bool {
    &&& before.len() <= after.len()
    &&& forall|s: int|
        0 <= s < before.len() ==> (#[trigger] after[s]).enclosing == before[s].enclosing
    &&& forall|s: int, name: Seq<char>|
        0 <= s < before.len() && before[s].values.contains_key(name) ==> (
        #[trigger] after[s].values.contains_key(name))
}

/// Giving a name a value deletes nothing.
pub proof fn lemma_bound_keeps(
    scopes: Seq<ScopeView>,
    scope: int,
    name: Seq<char>,
    value: LitValView,
)
    ensures
        keeps(bound(scopes, scope, name, value), scopes),
{
}

/// Giving parameters their arguments deletes nothing.
pub proof fn lemma_bind_keeps(
    scopes: Seq<ScopeView>,
    scope: int,
    params: Seq<TokenView>,
    args: Seq<LitValView>,
    n: nat,
)
    ensures
        keeps(bind(scopes, scope, params, args, n), scopes),
    decreases n,
{
    if n > 0 {
        lemma_bind_keeps(scopes, scope, params, args, (n - 1) as nat);
        let before = bind(scopes, scope, params, args, (n - 1) as nat);
        lemma_bound_keeps(before, scope, params[n - 1].lexeme, args[n - 1]);
    }
}

/// The scope that a frame saves, for the machine to go back to: a block and
/// a call save the scope that was left for them.
pub open spec fn saved(frame: FrameView) -> Option<usize> {
    match frame {
        FrameView::Block { stmts, next, env } => Some(env),
        FrameView::Call { env } => Some(env),
        _ => None,
    }
}

/// The scope that the machine was in before all that is put aside: the scope
/// saved by the oldest frame that saves one, or `env`, the scope that the
/// machine is in, if no frame saves one. It is the scope that nothing was
/// left for: the global scope, for a program that was loaded.
pub open spec fn home(frames: Seq<FrameView>, env: usize) -> usize
    decreases frames.len(),
{
    if frames.len() == 0 {
        env
    } else {
        home(
            frames.drop_last(),
            match saved(frames.last()) {
                Some(e) => e,
                None => env,
            },
        )
    }
}

/// One more frame: the scope to go back to is that of the frames before it,
/// from the scope that the new frame saves, or from `env` if it saves none.
pub proof fn lemma_home_pushed(frames: Seq<FrameView>, frame: FrameView, env: usize)
    ensures
        home(frames.push(frame), env) == home(
            frames,
            match saved(frame) {
                Some(e) => e,
                None => env,
            },
        ),
{
    assert(frames.push(frame).drop_last() =~= frames);
}

/// Where the oldest frame saves a scope, that is the scope to go back to,
/// whatever was put aside after it.
pub proof fn lemma_home_is_the_oldest(frames: Seq<FrameView>, env: usize)
    requires
        frames.len() > 0,
        saved(frames[0]) is Some,
    ensures
        home(frames, env) == saved(frames[0])->0,
    decreases frames.len(),
{
    let inner = match saved(frames.last()) {
        Some(e) => e,
        None => env,
    };
    if frames.len() > 1 {
        assert(frames.drop_last()[0] == frames[0]);
        lemma_home_is_the_oldest(frames.drop_last(), inner);
    } else {
        assert(frames.drop_last().len() == 0);
        assert(frames.last() == frames[0]);
        assert(home(frames.drop_last(), inner) == inner);
    }
}

/// The state of the machine.
pub struct InterpreterView {
    /// The global scope.
    pub globals: usize,
    /// The scope the machine is in.
    pub env: usize,
    /// All the scopes.
    pub scopes: Seq<ScopeView>,
    pub control: ControlView,
    /// The last frame is the first to be taken up again.
    pub frames: Seq<FrameView>,
}

impl InterpreterView {
    /// Goes on with `control`, asking nothing.
    pub open spec fn go(self, control: ControlView) -> (InterpreterView, RequestView) {
        (InterpreterView { control, ..self }, RequestView::Step)
    }

    /// Goes on with the value `v`.
    pub open spec fn give(self, v: LitValView) -> (InterpreterView, RequestView) {
        self.go(ControlView::Value(v))
    }

    /// Puts `frame` aside and goes on with `control`.
    pub open spec fn defer(self, frame: FrameView, control: ControlView) -> (
        InterpreterView,
        RequestView,
    ) {
        (InterpreterView { control, frames: self.frames.push(frame), ..self }, RequestView::Step)
    }

    /// Asks the host for a number.
    pub open spec fn ask(self, request: RequestView) -> (InterpreterView, RequestView) {
        (InterpreterView { control: ControlView::Asking(request), ..self }, request)
    }

    /// Stops on an error: nothing is left to do, and every block and call
    /// that was under way is left. The machine is back in the scope that it
    /// was in before them: the scope saved by the oldest frame that saves one.
    pub open spec fn fail(self, token: TokenView, message: Seq<char>) -> (
        InterpreterView,
        RequestView,
    ) {
        (
            InterpreterView {
                control: ControlView::Done,
                frames: Seq::empty(),
                env: home(self.frames, self.env),
                ..self
            },
            RequestView::Failed(RuntimeErrorView { token, message }),
        )
    }

    /// Begins the statements `stmts` in scope `env`; after them the machine
    /// is back in the scope it is in now.
    pub open spec fn enter(self, stmts: Seq<StmtView>, env: usize) -> (
        InterpreterView,
        RequestView,
    ) {
        (
            InterpreterView {
                env,
                control: ControlView::Value(LitValView::Nil),
                frames: self.frames.push(FrameView::Block { stmts, next: 0, env: self.env }),
                ..self
            },
            RequestView::Step,
        )
    }

    /// Begins to evaluate an expression.
    pub open spec fn eval(self, e: ExprView) -> (InterpreterView, RequestView) {
        match e {
            ExprView::Literal(l) => match l {
                LiteralView::Number(numeral) => self.ask(RequestView::Parse(numeral)),
                LiteralView::String(s) => self.give(LitValView::String(s)),
                LiteralView::Bool(b) => self.give(LitValView::Bool(b)),
                LiteralView::Nil => self.give(LitValView::Nil),
                LiteralView::NotExist => self.give(LitValView::Nil),
            },
            ExprView::Grouping { expression } => self.go(ControlView::Eval(*expression)),
            ExprView::Unary { op, right } => self.defer(
                FrameView::Unary(op),
                ControlView::Eval(*right),
            ),
            ExprView::Binary { left, op, right } => self.defer(
                FrameView::Left { op, right: *right },
                ControlView::Eval(*left),
            ),
            ExprView::Logical { left, op, right } => self.defer(
                FrameView::Logical { op, right: *right },
                ControlView::Eval(*left),
            ),
            ExprView::Variable(name) => match resolve(self.scopes, self.env as int, name.lexeme) {
                Some(s) => self.give(self.scopes[s].values[name.lexeme]),
                None => self.fail(name, undefined(name).message),
            },
            ExprView::Assign { name, value } => self.defer(
                FrameView::Assign(name),
                ControlView::Eval(*value),
            ),
            ExprView::Call { callee, paren, arguments } => self.defer(
                FrameView::Callee { paren, arguments },
                ControlView::Eval(*callee),
            ),
        }
    }

    /// Begins to execute a statement.
    pub open spec fn start(self, s: StmtView) -> (InterpreterView, RequestView) {
        match s {
            StmtView::Expr(e) => self.go(ControlView::Eval(e)),
            StmtView::Print(e) => self.defer(FrameView::Print, ControlView::Eval(e)),
            StmtView::Var { name, initializer } => match initializer {
                Some(e) => self.defer(FrameView::Define(name), ControlView::Eval(e)),
                None => InterpreterView {
                    scopes: bound(self.scopes, self.env as int, name.lexeme, LitValView::Nil),
                    ..self
                }.give(LitValView::Nil),
            },
            StmtView::Block(stmts) => InterpreterView {
                scopes: self.scopes.push(
                    ScopeView {
                        values: Map::empty(),
                        enclosing: if self.env < self.scopes.len() {
                            Some(self.env)
                        } else {
                            None
                        },
                    },
                ),
                ..self
            }.enter(stmts, self.scopes.len() as usize),
            StmtView::If { condition, then_branch, else_branch } => self.defer(
                FrameView::Branch {
                    then_branch: *then_branch,
                    else_branch: match else_branch {
                        Some(e) => Some(*e),
                        None => None,
                    },
                },
                ControlView::Eval(condition),
            ),
            StmtView::While { condition, body } => self.defer(
                FrameView::Test { condition, body: *body },
                ControlView::Eval(condition),
            ),
            StmtView::Function { name, params, body } => InterpreterView {
                scopes: bound(
                    self.scopes,
                    self.env as int,
                    name.lexeme,
                    LitValView::Function(LoxFunctionView { name, params, body, closure: self.env }),
                ),
                ..self
            }.give(LitValView::Nil),
            StmtView::Return { keyword, value } => match value {
                Some(e) => self.defer(FrameView::Return, ControlView::Eval(e)),
                None => self.go(ControlView::Unwind(LitValView::Nil)),
            },
        }
    }

    /// Applies the unary operator `op` to the value `v`.
    pub open spec fn unary(self, op: TokenView, v: LitValView) -> (InterpreterView, RequestView) {
        match apply_unary(op.type_, v) {
            Ok(r) => self.give(r),
            Err(message) => self.fail(op, message),
        }
    }

    /// Applies the binary operator `op` to the values `left` and `right`.
    pub open spec fn binary(self, left: LitValView, op: TokenView, right: LitValView) -> (
        InterpreterView,
        RequestView,
    ) {
        match apply_binary(op.type_, left, right) {
            Applied::Value(r) => self.give(r),
            Applied::Ask(a, x, y) => self.ask(RequestView::Arith(a, x, y)),
            Applied::Error(message) => self.fail(op, message),
        }
    }

    /// Begins the body of the function `f` with the arguments `args`, in a
    /// new scope, inside the scope the function was declared in, where each
    /// parameter has its argument.
    pub open spec fn invoke(self, f: LoxFunctionView, args: Seq<LitValView>) -> (
        InterpreterView,
        RequestView,
    ) {
        let scope = self.scopes.len();
        let fresh = self.scopes.push(
            ScopeView {
                values: Map::empty(),
                enclosing: if f.closure < self.scopes.len() {
                    Some(f.closure)
                } else {
                    None
                },
            },
        );
        InterpreterView {
            scopes: bind(fresh, scope as int, f.params, args, args.len()),
            frames: self.frames.push(FrameView::Call { env: self.env }),
            ..self
        }.enter(f.body, scope as usize)
    }

    /// Calls `callee` with the arguments `args`; `paren` is where an error is
    /// reported. Only a function and `clock` can be called, with as many
    /// arguments as parameters, and a function only while fewer than
    /// `MAX_FRAMES` frames are put aside.
    pub open spec fn call(self, callee: LitValView, args: Seq<LitValView>, paren: TokenView) -> (
        InterpreterView,
        RequestView,
    ) {
        match callee {
            LitValView::Function(f) => if args.len() != f.params.len() {
                self.fail(paren, arity_message(f.params.len(), args.len()))
            } else if self.frames.len() >= MAX_FRAMES {
                self.fail(paren, "Stack overflow."@)
            } else {
                self.invoke(f, args)
            },
            LitValView::Clock => if args.len() != 0 {
                self.fail(paren, arity_message(0, args.len()))
            } else {
                self.ask(RequestView::Clock)
            },
            _ => self.fail(paren, "Can only call functions and classes."@),
        }
    }

    /// Takes up the frame `frame`, which was put aside last and is no longer
    /// among `self.frames`, with the value `v`.
    pub open spec fn resume(self, frame: FrameView, v: LitValView) -> (
        InterpreterView,
        RequestView,
    ) {
        match frame {
            FrameView::Block { stmts, next, env } => if next < stmts.len() {
                InterpreterView {
                    frames: self.frames.push(
                        FrameView::Block { stmts, next: (next + 1) as usize, env },
                    ),
                    ..self
                }.start(stmts[next as int])
            } else {
                InterpreterView { env, ..self }.give(LitValView::Nil)
            },
            FrameView::Loop { condition, body } => self.defer(
                FrameView::Test { condition, body },
                ControlView::Eval(condition),
            ),
            FrameView::Call { env } => InterpreterView { env, ..self }.give(LitValView::Nil),
            FrameView::Print => match v {
                LitValView::Number(n) => (
                    InterpreterView { control: ControlView::Value(LitValView::Nil), ..self },
                    RequestView::PrintNumber(n),
                ),
                _ => (
                    InterpreterView { control: ControlView::Value(LitValView::Nil), ..self },
                    RequestView::Print(v.display()),
                ),
            },
            FrameView::Define(name) => InterpreterView {
                scopes: bound(self.scopes, self.env as int, name.lexeme, v),
                ..self
            }.give(LitValView::Nil),
            FrameView::Branch { then_branch, else_branch } => if v.truthy() {
                self.go(ControlView::Exec(then_branch))
            } else {
                match else_branch {
                    Some(e) => self.go(ControlView::Exec(e)),
                    None => self.give(LitValView::Nil),
                }
            },
            FrameView::Test { condition, body } => if v.truthy() {
                self.defer(FrameView::Loop { condition, body }, ControlView::Exec(body))
            } else {
                self.give(LitValView::Nil)
            },
            FrameView::Return => self.go(ControlView::Unwind(v)),
            FrameView::Unary(op) => self.unary(op, v),
            FrameView::Left { op, right } => self.defer(
                FrameView::Right { op, left: v },
                ControlView::Eval(right),
            ),
            FrameView::Right { op, left } => self.binary(left, op, v),
            FrameView::Logical { op, right } => if op.type_ == TokenType::Or {
                if v.truthy() {
                    self.give(v)
                } else {
                    self.go(ControlView::Eval(right))
                }
            } else {
                if !v.truthy() {
                    self.give(v)
                } else {
                    self.go(ControlView::Eval(right))
                }
            },
            FrameView::Assign(name) => match resolve(self.scopes, self.env as int, name.lexeme) {
                Some(s) => InterpreterView {
                    scopes: bound(self.scopes, s, name.lexeme, v),
                    ..self
                }.give(v),
                None => self.fail(name, undefined(name).message),
            },
            FrameView::Callee { paren, arguments } => if arguments.len() == 0 {
                self.call(v, Seq::empty(), paren)
            } else {
                InterpreterView {
                    frames: self.frames.push(
                        FrameView::Args { paren, callee: v, values: Seq::empty(), arguments },
                    ),
                    ..self
                }.eval(arguments[0])
            },
            FrameView::Args { paren, callee, values, arguments } => if values.len() + 1
                < arguments.len() {
                InterpreterView {
                    frames: self.frames.push(
                        FrameView::Args { paren, callee, values: values.push(v), arguments },
                    ),
                    ..self
                }.eval(arguments[values.len() as int + 1])
            } else {
                self.call(callee, values.push(v), paren)
            },
        }
    }

    /// One step of the machine, and what it asks of the host. The control is
    /// taken up, and so is the last frame where the control is a value; what
    /// is done with them says how the machine goes on. A `return` that is
    /// under way leaves one frame with each step, and with a block or a call
    /// goes back to the scope that was left for it.
    pub open spec fn step(self) -> (InterpreterView, RequestView) {
        let idle = InterpreterView { control: ControlView::Done, ..self };
        match self.control {
            ControlView::Eval(e) => idle.eval(e),
            ControlView::Exec(s) => idle.start(s),
            ControlView::Value(v) => if self.frames.len() == 0 {
                (idle, RequestView::Done)
            } else {
                InterpreterView { frames: self.frames.drop_last(), ..idle }.resume(
                    self.frames.last(),
                    v,
                )
            },
            ControlView::Unwind(v) => if self.frames.len() == 0 {
                (idle, RequestView::Done)
            } else {
                match self.frames.last() {
                    FrameView::Call { env } => InterpreterView {
                        env,
                        frames: self.frames.drop_last(),
                        ..idle
                    }.give(v),
                    FrameView::Block { stmts, next, env } => (
                        InterpreterView { env, frames: self.frames.drop_last(), ..self },
                        RequestView::Step,
                    ),
                    _ => (
                        InterpreterView { frames: self.frames.drop_last(), ..self },
                        RequestView::Step,
                    ),
                }
            },
            ControlView::Asking(request) => (self, request),
            ControlView::Done => (self, RequestView::Done),
        }
    }

    /// The state after the host has answered with the number `n`: where a
    /// number was asked for, it is the value to go on with.
    pub open spec fn answer(self, n: Number) -> InterpreterView {
        match self.control {
            ControlView::Asking(_) => InterpreterView {
                control: ControlView::Value(LitValView::Number(n)),
                ..self
            },
            _ => self,
        }
    }

    /// The state in which the program `stmts` is about to run in the global
    /// scope.
    pub open spec fn load(self, stmts: Seq<StmtView>) -> InterpreterView {
        InterpreterView {
            env: self.globals,
            control: ControlView::Value(LitValView::Nil),
            frames: seq![FrameView::Block { stmts, next: 0, env: self.globals }],
            ..self
        }
    }

    /// `or` with a left operand that counts as true, and `and` with one that
    /// counts as false, give that operand, and the right operand is not
    /// evaluated. Else the right operand is evaluated next, and its value is
    /// the value of the whole.
    pub proof fn lemma_logical_operators_stop_early(
        self,
        op: TokenView,
        right: ExprView,
        v: LitValView,
    )
        ensures
            (op.type_ == TokenType::Or) == v.truthy() ==> self.resume(
                FrameView::Logical { op, right },
                v,
            ) == self.give(v),
            (op.type_ == TokenType::Or) != v.truthy() ==> self.resume(
                FrameView::Logical { op, right },
                v,
            ) == self.go(ControlView::Eval(right)),
    {
    }

    /// A block runs in a new scope inside the scope that the machine is in,
    /// and when its statements are over the machine is back in that scope.
    pub proof fn lemma_a_block_has_its_own_scope(self, stmts: Seq<StmtView>, v: LitValView)
        requires
            self.env < self.scopes.len() <= usize::MAX,
            stmts.len() <= usize::MAX,
        ensures
            ({
                let (inside, request) = self.start(StmtView::Block(stmts));
                &&& request == RequestView::Step
                &&& inside.env == self.scopes.len()
                &&& inside.scopes == self.scopes.push(
                    ScopeView { values: Map::empty(), enclosing: Some(self.env) },
                )
                &&& inside.frames == self.frames.push(
                    FrameView::Block { stmts, next: 0, env: self.env },
                )
                &&& self.resume(
                    FrameView::Block { stmts, next: stmts.len() as usize, env: self.env },
                    v,
                ).0.env == self.env
            }),
    {
    }

    /// A function's declaration gives its name, in the scope that the machine
    /// is in, the function closed over that scope.
    pub proof fn lemma_a_function_captures_its_scope(
        self,
        name: TokenView,
        params: Seq<TokenView>,
        body: Seq<StmtView>,
    )
        requires
            self.env < self.scopes.len(),
        ensures
            ({
                let after = self.start(StmtView::Function { name, params, body }).0;
                &&& resolve(after.scopes, self.env as int, name.lexeme) == Some(self.env as int)
                &&& after.scopes[self.env as int].values[name.lexeme] == LitValView::Function(
                    LoxFunctionView { name, params, body, closure: self.env },
                )
                &&& after.env == self.env
            }),
    {
    }

    /// Only a function and `clock` are called, and with as many arguments as
    /// they take: anything else stops the program with an error at the call's
    /// closing parenthesis.
    pub proof fn lemma_calls_are_checked(
        self,
        callee: LitValView,
        args: Seq<LitValView>,
        paren: TokenView,
    )
        ensures
            !(callee is Function) && !(callee is Clock) ==> self.call(callee, args, paren)
                == self.fail(paren, "Can only call functions and classes."@),
            callee is Function && callee->Function_0.params.len() != args.len() ==> self.call(
                callee,
                args,
                paren,
            ) == self.fail(paren, arity_message(callee->Function_0.params.len(), args.len())),
            callee is Clock && args.len() != 0 ==> self.call(callee, args, paren) == self.fail(
                paren,
                arity_message(0, args.len()),
            ),
    {
    }

    /// `print` writes the display form of a value that is no number, and has
    /// the host write a number.
    pub proof fn lemma_print_writes_the_value(self, v: LitValView)
        ensures
            self.resume(FrameView::Print, v).1 == (match v {
                LitValView::Number(n) => RequestView::PrintNumber(n),
                _ => RequestView::Print(v.display()),
            }),
    {
    }

    /// A `return` leaves what is put aside up to the call, and its value is
    /// the value of the call, in the scope that the call was made from.
    pub proof fn lemma_return_ends_the_call(self, v: LitValView)
        requires
            self.control == ControlView::Unwind(v),
            self.frames.len() > 0,
        ensures
            self.frames.last() matches FrameView::Call { env } ==> self.step().0.control
                == ControlView::Value(v) && self.step().0.env == env && self.step().0.frames
                == self.frames.drop_last(),
            !(self.frames.last() is Call) ==> self.step().0.control == ControlView::Unwind(v)
                && self.step().0.frames == self.frames.drop_last(),
            self.frames.last() matches FrameView::Block { stmts, next, env } ==> self.step().0.env
                == env,
            saved(self.frames.last()) is None ==> self.step().0.env == self.env,
    {
    }

    /// Every way out of a block leads back to the scope that the block was
    /// entered from: the end of its statements, a `return` that passes
    /// through it, and an error, which leaves every block and call at once.
    pub proof fn lemma_a_block_is_left(
        self,
        stmts: Seq<StmtView>,
        next: usize,
        back: usize,
        v: LitValView,
        token: TokenView,
        message: Seq<char>,
    )
        requires
            self.frames.len() > 0,
            self.frames.last() == (FrameView::Block { stmts, next, env: back }),
            next >= stmts.len(),
        ensures
            self.control == ControlView::Value(v) ==> self.step().0.env == back
                && self.step().0.frames == self.frames.drop_last(),
            self.control == ControlView::Unwind(v) ==> self.step().0.env == back
                && self.step().0.frames == self.frames.drop_last(),
            self.frames.len() == 1 ==> self.fail(token, message).0.env == back,
            self.fail(token, message).0.env == home(self.frames.drop_last(), back),
    {
        assert(self.frames.drop_last().len() == self.frames.len() - 1);
        if self.frames.len() == 1 {
            assert(home(self.frames.drop_last(), back) == back);
        }
    }

    /// Beginning to evaluate an expression leaves the scope to go back to as
    /// it is, unless it stops the program.
    pub proof fn lemma_eval_keeps_home(self, e: ExprView)
        ensures
            !(self.eval(e).1 is Failed) ==> home(self.eval(e).0.frames, self.eval(e).0.env)
                == home(self.frames, self.env),
    {
        match e {
            ExprView::Unary { op, right } => lemma_home_pushed(
                self.frames,
                FrameView::Unary(op),
                self.env,
            ),
            ExprView::Binary { left, op, right } => lemma_home_pushed(
                self.frames,
                FrameView::Left { op, right: *right },
                self.env,
            ),
            ExprView::Logical { left, op, right } => lemma_home_pushed(
                self.frames,
                FrameView::Logical { op, right: *right },
                self.env,
            ),
            ExprView::Assign { name, value } => lemma_home_pushed(
                self.frames,
                FrameView::Assign(name),
                self.env,
            ),
            ExprView::Call { callee, paren, arguments } => lemma_home_pushed(
                self.frames,
                FrameView::Callee { paren, arguments },
                self.env,
            ),
            _ => {},
        }
    }

    /// Beginning to execute a statement leaves the scope to go back to as it
    /// is.
    pub proof fn lemma_start_keeps_home(self, s: StmtView)
        ensures
            !(self.start(s).1 is Failed),
            home(self.start(s).0.frames, self.start(s).0.env) == home(self.frames, self.env),
    {
        match s {
            StmtView::Print(e) => lemma_home_pushed(self.frames, FrameView::Print, self.env),
            StmtView::Var { name, initializer } => lemma_home_pushed(
                self.frames,
                FrameView::Define(name),
                self.env,
            ),
            StmtView::Block(stmts) => lemma_home_pushed(
                self.frames,
                FrameView::Block { stmts, next: 0, env: self.env },
                self.scopes.len() as usize,
            ),
            StmtView::If { condition, then_branch, else_branch } => lemma_home_pushed(
                self.frames,
                FrameView::Branch {
                    then_branch: *then_branch,
                    else_branch: match else_branch {
                        Some(e) => Some(*e),
                        None => None,
                    },
                },
                self.env,
            ),
            StmtView::While { condition, body } => lemma_home_pushed(
                self.frames,
                FrameView::Test { condition, body: *body },
                self.env,
            ),
            StmtView::Return { keyword, value } => lemma_home_pushed(
                self.frames,
                FrameView::Return,
                self.env,
            ),
            _ => {},
        }
    }

    /// A call leaves the scope to go back to as it is, unless it stops the
    /// program.
    pub proof fn lemma_call_keeps_home(
        self,
        callee: LitValView,
        args: Seq<LitValView>,
        paren: TokenView,
    )
        ensures
            !(self.call(callee, args, paren).1 is Failed) ==> home(
                self.call(callee, args, paren).0.frames,
                self.call(callee, args, paren).0.env,
            ) == home(self.frames, self.env),
    {
        if let LitValView::Function(f) = callee {
            let called = self.frames.push(FrameView::Call { env: self.env });
            lemma_home_pushed(self.frames, FrameView::Call { env: self.env }, self.env);
            lemma_home_pushed(
                called,
                FrameView::Block { stmts: f.body, next: 0, env: self.env },
                self.scopes.len() as usize,
            );
        }
    }

    /// Taking up a frame leaves the scope to go back to as it was while the
    /// frame was put aside, unless it stops the program.
    pub proof fn lemma_resume_keeps_home(self, frame: FrameView, v: LitValView)
        ensures
            !(self.resume(frame, v).1 is Failed) ==> home(
                self.resume(frame, v).0.frames,
                self.resume(frame, v).0.env,
            ) == home(self.frames.push(frame), self.env),
            self.resume(frame, v).1 is Failed ==> self.resume(frame, v).0.env == home(
                self.frames.push(frame),
                self.env,
            ) && self.resume(frame, v).0.frames.len() == 0,
    {
        lemma_home_pushed(self.frames, frame, self.env);
        match frame {
            FrameView::Block { stmts, next, env } => {
                if next < stmts.len() {
                    let again = FrameView::Block { stmts, next: (next + 1) as usize, env };
                    lemma_home_pushed(self.frames, again, self.env);
                    InterpreterView {
                        frames: self.frames.push(again),
                        ..self
                    }.lemma_start_keeps_home(stmts[next as int]);
                }
            },
            FrameView::Loop { condition, body } => lemma_home_pushed(
                self.frames,
                FrameView::Test { condition, body },
                self.env,
            ),
            FrameView::Test { condition, body } => lemma_home_pushed(
                self.frames,
                FrameView::Loop { condition, body },
                self.env,
            ),
            FrameView::Left { op, right } => lemma_home_pushed(
                self.frames,
                FrameView::Right { op, left: v },
                self.env,
            ),
            FrameView::Callee { paren, arguments } => {
                if arguments.len() == 0 {
                    self.lemma_call_keeps_home(v, Seq::empty(), paren);
                } else {
                    let waiting = FrameView::Args {
                        paren,
                        callee: v,
                        values: Seq::empty(),
                        arguments,
                    };
                    lemma_home_pushed(self.frames, waiting, self.env);
                    InterpreterView {
                        frames: self.frames.push(waiting),
                        ..self
                    }.lemma_eval_keeps_home(arguments[0]);
                }
            },
            FrameView::Args { paren, callee, values, arguments } => {
                if values.len() + 1 < arguments.len() {
                    let waiting = FrameView::Args {
                        paren,
                        callee,
                        values: values.push(v),
                        arguments,
                    };
                    lemma_home_pushed(self.frames, waiting, self.env);
                    InterpreterView {
                        frames: self.frames.push(waiting),
                        ..self
                    }.lemma_eval_keeps_home(arguments[values.len() as int + 1]);
                } else {
                    self.lemma_call_keeps_home(callee, values.push(v), paren);
                }
            },
            _ => {},
        }
    }

    /// No step changes the scope that the machine goes back to when the
    /// program stops on an error; and a step that stops the program puts the
    /// machine in that scope.
    pub proof fn lemma_home_is_kept(self)
        ensures
            home(self.step().0.frames, self.step().0.env) == home(self.frames, self.env),
            self.step().1 is Failed && !(self.control is Asking) ==> self.step().0.env == home(
                self.frames,
                self.env,
            ) && self.step().0.frames.len() == 0,
    {
        let idle = InterpreterView { control: ControlView::Done, ..self };
        match self.control {
            ControlView::Eval(e) => idle.lemma_eval_keeps_home(e),
            ControlView::Exec(s) => idle.lemma_start_keeps_home(s),
            ControlView::Value(v) => {
                if self.frames.len() > 0 {
                    let popped = InterpreterView { frames: self.frames.drop_last(), ..idle };
                    popped.lemma_resume_keeps_home(self.frames.last(), v);
                    assert(self.frames.drop_last().push(self.frames.last()) =~= self.frames);
                }
            },
            ControlView::Unwind(v) => {
                if self.frames.len() > 0 {
                    lemma_home_pushed(self.frames.drop_last(), self.frames.last(), self.env);
                    assert(self.frames.drop_last().push(self.frames.last()) =~= self.frames);
                }
            },
            _ => {},
        }
    }

    /// Beginning to evaluate an expression deletes no scope and no name.
    pub proof fn lemma_eval_keeps(self, e: ExprView)
        ensures
            keeps(self.eval(e).0.scopes, self.scopes),
    {
    }

    /// Beginning to execute a statement deletes no scope and no name.
    pub proof fn lemma_start_keeps(self, s: StmtView)
        ensures
            keeps(self.start(s).0.scopes, self.scopes),
    {
    }

    /// A call deletes no scope and no name.
    pub proof fn lemma_call_keeps(self, callee: LitValView, args: Seq<LitValView>, paren: TokenView)
        ensures
            keeps(self.call(callee, args, paren).0.scopes, self.scopes),
    {
        if let LitValView::Function(f) = callee {
            let fresh = self.scopes.push(
                ScopeView {
                    values: Map::empty(),
                    enclosing: if f.closure < self.scopes.len() {
                        Some(f.closure)
                    } else {
                        None
                    },
                },
            );
            lemma_bind_keeps(fresh, self.scopes.len() as int, f.params, args, args.len());
        }
    }

    /// Taking up a frame deletes no scope and no name.
    pub proof fn lemma_resume_keeps(self, frame: FrameView, v: LitValView)
        ensures
            keeps(self.resume(frame, v).0.scopes, self.scopes),
    {
        match frame {
            FrameView::Block { stmts, next, env } => {
                if next < stmts.len() {
                    InterpreterView {
                        frames: self.frames.push(
                            FrameView::Block { stmts, next: (next + 1) as usize, env },
                        ),
                        ..self
                    }.lemma_start_keeps(stmts[next as int]);
                }
            },
            FrameView::Callee { paren, arguments } => {
                if arguments.len() == 0 {
                    self.lemma_call_keeps(v, Seq::empty(), paren);
                }
            },
            FrameView::Args { paren, callee, values, arguments } => {
                if !(values.len() + 1 < arguments.len()) {
                    self.lemma_call_keeps(callee, values.push(v), paren);
                }
            },
            _ => {},
        }
    }

    /// No step of the machine deletes anything: the scopes stay, enclosed as
    /// they were, and so does every name in them.
    pub proof fn lemma_nothing_is_deleted(self)
        ensures
            keeps(self.step().0.scopes, self.scopes),
    {
        let idle = InterpreterView { control: ControlView::Done, ..self };
        match self.control {
            ControlView::Eval(e) => idle.lemma_eval_keeps(e),
            ControlView::Exec(s) => idle.lemma_start_keeps(s),
            ControlView::Value(v) => {
                if self.frames.len() > 0 {
                    InterpreterView { frames: self.frames.drop_last(), ..idle }.lemma_resume_keeps(
                        self.frames.last(),
                        v,
                    );
                }
            },
            _ => {},
        }
    }

    /// What is put aside is not touched until it is taken up: a step that
    /// begins an expression or a statement leaves the frames as they are
    /// and may add some, unless it stops the program.
    pub proof fn lemma_frames_below_stay(self)
        requires
            self.control is Eval || self.control is Exec,
        ensures
            self.step().1 is Failed || self.frames.is_prefix_of(self.step().0.frames),
    {
        let idle = InterpreterView { control: ControlView::Done, ..self };
        match self.control {
            ControlView::Eval(e) => {
                let after = idle.eval(e).0.frames;
                if !(idle.eval(e).1 is Failed) {
                    assert(self.frames =~= after.subrange(0, self.frames.len() as int));
                }
            },
            ControlView::Exec(s) => {
                let after = idle.start(s).0.frames;
                if !(idle.start(s).1 is Failed) {
                    assert(self.frames =~= after.subrange(0, self.frames.len() as int));
                }
            },
            _ => {},
        }
    }

    /// A runtime error ends the run: nothing is put aside any more, the
    /// machine is back in the scope that the oldest frame saved (or stays in
    /// its scope, if none saved one), and every further step reports that
    /// the machine is done.
    pub proof fn lemma_an_error_ends_the_run(self, token: TokenView, message: Seq<char>)
        ensures
            self.fail(token, message).1 is Failed,
            self.fail(token, message).0.scopes == self.scopes,
            self.fail(token, message).0.frames.len() == 0,
            self.fail(token, message).0.env == home(self.frames, self.env),
            self.frames.len() > 0 && saved(self.frames[0]) is Some ==> self.fail(
                token,
                message,
            ).0.env == saved(self.frames[0])->0,
            self.frames.len() == 0 ==> self.fail(token, message).0.env == self.env,

            self.fail(token, message).0.step() == (
                self.fail(token, message).0,
                RequestView::Done,
            ),
    {
        if self.frames.len() > 0 && saved(self.frames[0]) is Some {
            lemma_home_is_the_oldest(self.frames, self.env);
        }
    }

    /// An assignment to a name that no scope of the chain holds stops the
    /// program with an error, and defines nothing.
    pub proof fn lemma_assignment_to_undefined_fails(self, name: TokenView, v: LitValView)
        requires
            resolve(self.scopes, self.env as int, name.lexeme) is None,
        ensures
            self.resume(FrameView::Assign(name), v).1 == RequestView::Failed(undefined(name)),
            self.resume(FrameView::Assign(name), v).0.scopes == self.scopes,
    {
    }

    /// A number that the host gives in answer is the value that the machine
    /// goes on with.
    pub proof fn lemma_answer_is_the_value(self, n: Number)
        requires
            self.control is Asking,
        ensures
            self.answer(n).control == ControlView::Value(LitValView::Number(n)),
            self.answer(n).frames == self.frames,
            self.answer(n).scopes == self.scopes,
            self.answer(n).env == self.env,
    {
    }

    /// A call runs in a scope of its own, inside the scope that the function
    /// was declared in, whatever scope the call is made from: the scopes that
    /// were there are as they were, the new one is the scope that the machine
    /// is in, and the scope that the call was made from is saved for the end
    /// of the call.
    pub proof fn lemma_a_call_has_its_own_scope(self, f: LoxFunctionView, args: Seq<LitValView>)
        requires
            self.scopes.len() <= usize::MAX,
        ensures
            self.invoke(f, args).1 == RequestView::Step,
            self.invoke(f, args).0.env == self.scopes.len(),
            self.invoke(f, args).0.scopes.len() == self.scopes.len() + 1,
            self.invoke(f, args).0.scopes.take(self.scopes.len() as int) == self.scopes,
            self.invoke(f, args).0.scopes[self.scopes.len() as int].enclosing == (if f.closure
                < self.scopes.len() {
                Some(f.closure)
            } else {
                None
            }),
            self.invoke(f, args).0.frames == self.frames.push(
                FrameView::Call { env: self.env },
            ).push(FrameView::Block { stmts: f.body, next: 0, env: self.env }),
            forall|v: LitValView|
                self.resume(FrameView::Call { env: self.env }, v).0.env == self.env,
    {
        let fresh = self.scopes.push(
            ScopeView {
                values: Map::empty(),
                enclosing: if f.closure < self.scopes.len() {
                    Some(f.closure)
                } else {
                    None
                },
            },
        );
        lemma_bind_keeps_others(fresh, self.scopes.len() as int, f.params, args, args.len());
        lemma_bind_keeps(fresh, self.scopes.len() as int, f.params, args, args.len());
        assert(self.invoke(f, args).0.scopes.take(self.scopes.len() as int) =~= self.scopes);
    }

    /// In the scope of a call each parameter is found, with its argument, if
    /// no later parameter has its name.
    pub proof fn lemma_parameters_are_bound(
        self,
        f: LoxFunctionView,
        args: Seq<LitValView>,
        k: int,
    )
        requires
            self.scopes.len() <= usize::MAX,
            args.len() == f.params.len(),
            0 <= k < args.len(),
            forall|j: int| k < j < args.len() ==> f.params[j].lexeme != f.params[k].lexeme,
        ensures
            resolve(
                self.invoke(f, args).0.scopes,
                self.scopes.len() as int,
                f.params[k].lexeme,
            ) == Some(self.scopes.len() as int),
            self.invoke(f, args).0.scopes[self.scopes.len() as int].values[f.params[k].lexeme]
                == args[k],
    {
        let fresh = self.scopes.push(
            ScopeView {
                values: Map::empty(),
                enclosing: if f.closure < self.scopes.len() {
                    Some(f.closure)
                } else {
                    None
                },
            },
        );
        lemma_bind_binds(fresh, self.scopes.len() as int, f.params, args, args.len(), k);
    }

    /// The state of a new machine: the global scope alone, in which `clock`
    /// is the built-in function, and nothing to do.
    pub open spec fn initial() -> InterpreterView {
        InterpreterView {
            globals: 0,
            env: 0,
            scopes: seq![
                ScopeView { values: map!["clock"@ => LitValView::Clock], enclosing: None },
            ],
            control: ControlView::Done,
            frames: Seq::empty(),
        }
    }
}

} // verus!
