//! What holds of the machine while it runs a program that the parser gave:
//! every operator it meets is one it knows, and a `return` always finds the
//! call it returns from. So the machine stops on an error only for what the
//! program does: a name that is not defined, a value of the wrong kind, a
//! call that cannot be made.

use vstd::prelude::*;
use crate::environment::{bound, lemma_resolved_holds, resolve, ScopeView};
use crate::expr::ExprView;
use crate::grammar::operator;
use crate::grammar_laws::{all_enclosed, all_formed, all_shaped, enclosed, formed, shaped};
use crate::interpreter::RuntimeErrorView;
use crate::semantics::{
    apply_binary, apply_unary, bind, home, lemma_home_is_the_oldest, saved, Applied, ControlView,
    FrameView, InterpreterView, RequestView,
};
use crate::stmt::StmtView;
use crate::token::{TokenType, TokenView};
use crate::types::{LitValView, LoxFunctionView};

verus! {

/// Whether a value, if it is a function, has a body as the grammar makes
/// the body of a function, and was declared in one of the first `limit`
/// scopes.
pub open spec fn value_ok(v: LitValView, limit: nat) -> bool {
    match v {
        LitValView::Function(f) => all_shaped(f.body) && all_enclosed(f.body, true) && f.closure
            < limit,
        _ => true,
    }
}

/// Whether every value of `values` is `value_ok`.
pub open spec fn values_ok(values: Seq<LitValView>, limit: nat) -> bool {
    forall|i: int| 0 <= i < values.len() ==> value_ok(#[trigger] values[i], limit)
}

/// Whether every scope but those that nothing encloses is enclosed by an
/// older scope, and every value that a name stands for is `value_ok` among
/// these scopes.
pub open spec fn scopes_ok(scopes: Seq<ScopeView>) -> bool {
    &&& forall|s: int|
        0 <= s < scopes.len() ==> match (#[trigger] scopes[s]).enclosing {
            Some(e) => e < s,
            None => true,
        }
    &&& forall|s: int, name: Seq<char>|
        0 <= s < scopes.len() && (#[trigger] scopes[s].values.contains_key(name)) ==> value_ok(
            scopes[s].values[name],
            scopes.len(),
        )
}

/// Whether `t` is a binary operator: of equality, comparison, term or
/// factor.
pub open spec fn binary_operator(t: TokenType) -> bool {
    operator(2, t) || operator(3, t) || operator(4, t) || operator(5, t)
}

/// Whether a frame holds what the grammar makes, values that are
/// `value_ok`, and no scope but one of the first `limit`; `inside` says
/// whether a call is among the frames put aside before it.
pub open spec fn frame_ok(frame: FrameView, inside: bool, limit: nat) -> bool {
    match frame {
        FrameView::Block { stmts, next, env } => all_shaped(stmts) && all_enclosed(stmts, inside)
            && env < limit,
        FrameView::Loop { condition, body } => formed(condition) && shaped(body) && enclosed(
            body,
            inside,
        ),
        FrameView::Call { env } => env < limit,
        FrameView::Print => true,
        FrameView::Define(_) => true,
        FrameView::Branch { then_branch, else_branch } => shaped(then_branch) && enclosed(
            then_branch,
            inside,
        ) && match else_branch {
            Some(e) => shaped(e) && enclosed(e, inside),
            None => true,
        },
        FrameView::Test { condition, body } => formed(condition) && shaped(body) && enclosed(
            body,
            inside,
        ),
        FrameView::Return => inside,
        FrameView::Unary(op) => op.type_ == TokenType::Bang || op.type_ == TokenType::Minus,
        FrameView::Left { op, right } => binary_operator(op.type_) && formed(right),
        FrameView::Right { op, left } => binary_operator(op.type_) && value_ok(left, limit),
        FrameView::Logical { op, right } => formed(right),
        FrameView::Assign(_) => true,
        FrameView::Callee { paren, arguments } => all_formed(arguments),
        FrameView::Args { paren, callee, values, arguments } => value_ok(callee, limit)
            && values_ok(values, limit) && all_formed(arguments),
    }
}

/// Whether a call is among the frames.
pub open spec fn in_call(frames: Seq<FrameView>) -> bool
    decreases frames.len(),
{
    if frames.len() == 0 {
        false
    } else {
        frames.last() is Call || in_call(frames.drop_last())
    }
}

/// Whether every frame is `frame_ok`, given the frames put aside before it.
pub open spec fn frames_ok(frames: Seq<FrameView>, limit: nat) -> bool
    decreases frames.len(),
{
    if frames.len() == 0 {
        true
    } else {
        frames_ok(frames.drop_last(), limit) && frame_ok(
            frames.last(),
            in_call(frames.drop_last()),
            limit,
        )
    }
}

/// Whether the control holds what the grammar makes and values that are
/// `value_ok`, a `return` that is under way has a call to return from, and
/// what the machine waits for is a number.
pub open spec fn control_ok(control: ControlView, inside: bool, limit: nat) -> bool {
    match control {
        ControlView::Eval(e) => formed(e),
        ControlView::Exec(s) => shaped(s) && enclosed(s, inside),
        ControlView::Value(v) => value_ok(v, limit),
        ControlView::Unwind(v) => value_ok(v, limit) && inside,
        ControlView::Asking(request) => request is Parse || request is Arith || request is Clock,
        ControlView::Done => true,
    }
}

/// Whether the scopes and frames of the machine are in order, and the scope
/// that the machine is in, and the global one, are scopes of it.
pub open spec fn settled(m: InterpreterView) -> bool {
    &&& scopes_ok(m.scopes)
    &&& frames_ok(m.frames, m.scopes.len())
    &&& m.env < m.scopes.len() <= usize::MAX
    &&& m.globals < m.scopes.len()
}

/// Whether the machine is in order: its scopes, its frames and its control.
pub open spec fn sane(m: InterpreterView) -> bool {
    settled(m) && control_ok(m.control, in_call(m.frames), m.scopes.len())
}

/// Whether the scopes of the machine are no more than a machine can number.
pub open spec fn fits(m: InterpreterView) -> bool {
    m.scopes.len() <= usize::MAX
}

/// Whether a request reports that the machine met an operator it does not
/// know.
pub open spec fn unknown_operator(request: RequestView) -> bool {
    request matches RequestView::Failed(e) && e.message == "Unknown operator."@
}

proof fn lemma_messages_differ()
    ensures
        "Unknown operator."@ != "Operand must be a number."@,
        "Unknown operator."@ != "Operands must be numbers."@,
        "Unknown operator."@ != "Operands must be two numbers or two strings."@,
        "Unknown operator."@ != "Stack overflow."@,
        "Unknown operator."@ != "Can only call functions and classes."@,
        forall|name: Seq<char>|
            "Unknown operator."@ != #[trigger] ("Undefined variable '"@ + name + "'."@),
        forall|a: Seq<char>, b: Seq<char>|
            "Unknown operator."@ != #[trigger] ("Expected "@ + a + " arguments but got "@ + b
                + "."@),
{
    reveal_strlit("Unknown operator.");
    reveal_strlit("Operand must be a number.");
    reveal_strlit("Operands must be numbers.");
    reveal_strlit("Operands must be two numbers or two strings.");
    reveal_strlit("Stack overflow.");
    reveal_strlit("Can only call functions and classes.");
    reveal_strlit("Undefined variable '");
    reveal_strlit("'.");
    reveal_strlit("Expected ");
    reveal_strlit(" arguments but got ");
    reveal_strlit(".");
    assert("Unknown operator."@[2] != "Operand must be a number."@[2]);
    assert("Unknown operator."@[2] != "Operands must be numbers."@[2]);
    assert("Unknown operator."@[2] != "Operands must be two numbers or two strings."@[2]);
    assert("Unknown operator."@[0] != "Stack overflow."@[0]);
    assert("Unknown operator."@[0] != "Can only call functions and classes."@[0]);
    assert forall|name: Seq<char>|
        "Unknown operator."@ != #[trigger] ("Undefined variable '"@ + name + "'."@) by {
        assert(("Undefined variable '"@ + name + "'."@)[2] == 'd');
    }
    assert forall|a: Seq<char>, b: Seq<char>|
        "Unknown operator."@ != #[trigger] ("Expected "@ + a + " arguments but got "@ + b
            + "."@) by {
        assert(("Expected "@ + a + " arguments but got "@ + b + "."@)[0] == 'E');
    }
}

/// Giving a name a value that is `value_ok` keeps the scopes in order.
pub proof fn lemma_bound_ok(scopes: Seq<ScopeView>, scope: int, name: Seq<char>, value: LitValView)
    requires
        scopes_ok(scopes),
        value_ok(value, scopes.len()),
    ensures
        scopes_ok(bound(scopes, scope, name, value)),
        bound(scopes, scope, name, value).len() == scopes.len(),
{
    let after = bound(scopes, scope, name, value);
    assert forall|s: int, n: Seq<char>|
        0 <= s < after.len() && (#[trigger] after[s].values.contains_key(n)) implies value_ok(
        after[s].values[n],
        after.len(),
    ) by {
        if s == scope && n == name {
        } else {
            assert(scopes[s].values.contains_key(n));
        }
    }
    assert forall|s: int| 0 <= s < after.len() implies match (#[trigger] after[s]).enclosing {
        Some(e) => e < s,
        None => true,
    } by {
        assert(after[s].enclosing == scopes[s].enclosing);
    }
}

/// One more scope, with nothing in it, inside an older scope or inside
/// none, keeps the scopes in order.
pub proof fn lemma_fresh_ok(scopes: Seq<ScopeView>, enclosing: Option<usize>)
    requires
        scopes_ok(scopes),
        enclosing matches Some(e) ==> e < scopes.len(),
    ensures
        scopes_ok(scopes.push(ScopeView { values: Map::empty(), enclosing })),
{
    let after = scopes.push(ScopeView { values: Map::empty(), enclosing });
    assert forall|s: int, n: Seq<char>|
        0 <= s < after.len() && (#[trigger] after[s].values.contains_key(n)) implies value_ok(
        after[s].values[n],
        after.len(),
    ) by {
        if s < scopes.len() {
            assert(scopes[s].values.contains_key(n));
        }
    }
    assert forall|s: int| 0 <= s < after.len() implies match (#[trigger] after[s]).enclosing {
        Some(e) => e < s,
        None => true,
    } by {
        if s < scopes.len() {
            assert(after[s] == scopes[s]);
        }
    }
}

/// Giving parameters arguments that are `value_ok` keeps the scopes in order.
pub proof fn lemma_bind_ok(
    scopes: Seq<ScopeView>,
    scope: int,
    params: Seq<TokenView>,
    args: Seq<LitValView>,
    n: nat,
)
    requires
        scopes_ok(scopes),
        values_ok(args, scopes.len()),
        n <= args.len(),
    ensures
        scopes_ok(bind(scopes, scope, params, args, n)),
        bind(scopes, scope, params, args, n).len() == scopes.len(),
    decreases n,
{
    if n > 0 {
        lemma_bind_ok(scopes, scope, params, args, (n - 1) as nat);
        lemma_bound_ok(
            bind(scopes, scope, params, args, (n - 1) as nat),
            scope,
            params[n - 1].lexeme,
            args[n - 1],
        );
    }
}

/// One more frame that is `frame_ok` keeps the frames in order.
pub proof fn lemma_push_ok(frames: Seq<FrameView>, frame: FrameView, limit: nat)
    requires
        frames_ok(frames, limit),
        frame_ok(frame, in_call(frames), limit),
    ensures
        frames_ok(frames.push(frame), limit),
        in_call(frames.push(frame)) == (frame is Call || in_call(frames)),
{
    assert(frames.push(frame).drop_last() =~= frames);
}

/// Frames that are in order among some scopes are in order among more.
pub proof fn lemma_frames_ok_among_more(frames: Seq<FrameView>, limit: nat, more: nat)
    requires
        frames_ok(frames, limit),
        limit <= more,
    ensures
        frames_ok(frames, more),
    decreases frames.len(),
{
    if frames.len() > 0 {
        lemma_frames_ok_among_more(frames.drop_last(), limit, more);
    }
}

/// The scope to go back to is a scope of the machine, where the frames are
/// in order and the machine is in one of its scopes.
pub proof fn lemma_home_ok(frames: Seq<FrameView>, env: usize, limit: nat)
    requires
        frames_ok(frames, limit),
        env < limit,
    ensures
        home(frames, env) < limit,
    decreases frames.len(),
{
    if frames.len() > 0 {
        let inner = match saved(frames.last()) {
            Some(e) => e,
            None => env,
        };
        lemma_home_ok(frames.drop_last(), inner, limit);
    }
}

impl InterpreterView {
    /// Beginning to evaluate an expression that the grammar made leaves the
    /// machine in order.
    pub proof fn lemma_eval_is_sane(self, e: ExprView)
        requires
            settled(self),
            formed(e),
        ensures
            sane(self.eval(e).0),
            !unknown_operator(self.eval(e).1),
    {
        lemma_messages_differ();
        let limit = self.scopes.len();
        lemma_home_ok(self.frames, self.env, limit);
        match e {
            ExprView::Unary { op, right } => {
                lemma_push_ok(self.frames, FrameView::Unary(op), limit);
            },
            ExprView::Binary { left, op, right } => {
                lemma_push_ok(self.frames, FrameView::Left { op, right: *right }, limit);
            },
            ExprView::Logical { left, op, right } => {
                lemma_push_ok(self.frames, FrameView::Logical { op, right: *right }, limit);
            },
            ExprView::Variable(name) => {
                lemma_resolved_holds(self.scopes, self.env as int, name.lexeme);
            },
            ExprView::Assign { name, value } => {
                lemma_push_ok(self.frames, FrameView::Assign(name), limit);
            },
            ExprView::Call { callee, paren, arguments } => {
                lemma_push_ok(self.frames, FrameView::Callee { paren, arguments }, limit);
            },
            _ => {},
        }
    }

    /// Beginning to execute a statement that the grammar made leaves the
    /// machine in order.
    pub proof fn lemma_start_is_sane(self, s: StmtView)
        requires
            settled(self),
            shaped(s),
            enclosed(s, in_call(self.frames)),
            fits(self.start(s).0),
        ensures
            sane(self.start(s).0),
            !unknown_operator(self.start(s).1),
    {
        lemma_messages_differ();
        let limit = self.scopes.len();
        lemma_home_ok(self.frames, self.env, limit);
        match s {
            StmtView::Print(e) => {
                lemma_push_ok(self.frames, FrameView::Print, limit);
            },
            StmtView::Var { name, initializer } => {
                match initializer {
                    Some(e) => lemma_push_ok(self.frames, FrameView::Define(name), limit),
                    None => lemma_bound_ok(
                        self.scopes,
                        self.env as int,
                        name.lexeme,
                        LitValView::Nil,
                    ),
                }
            },
            StmtView::Block(stmts) => {
                lemma_fresh_ok(self.scopes, Some(self.env));
                lemma_frames_ok_among_more(self.frames, limit, limit + 1);
                lemma_push_ok(
                    self.frames,
                    FrameView::Block { stmts, next: 0, env: self.env },
                    limit + 1,
                );
            },
            StmtView::If { condition, then_branch, else_branch } => {
                lemma_push_ok(
                    self.frames,
                    FrameView::Branch {
                        then_branch: *then_branch,
                        else_branch: match else_branch {
                            Some(e) => Some(*e),
                            None => None,
                        },
                    },
                    limit,
                );
            },
            StmtView::While { condition, body } => {
                lemma_push_ok(self.frames, FrameView::Test { condition, body: *body }, limit);
            },
            StmtView::Function { name, params, body } => {
                lemma_bound_ok(
                    self.scopes,
                    self.env as int,
                    name.lexeme,
                    LitValView::Function(LoxFunctionView { name, params, body, closure: self.env }),
                );
            },
            StmtView::Return { keyword, value } => {
                if value is Some {
                    lemma_push_ok(self.frames, FrameView::Return, limit);
                }
            },
            _ => {},
        }
    }

    /// A call leaves the machine in order.
    pub proof fn lemma_call_is_sane(self, callee: LitValView, args: Seq<LitValView>, paren: TokenView)
        requires
            settled(self),
            value_ok(callee, self.scopes.len()),
            values_ok(args, self.scopes.len()),
            fits(self.call(callee, args, paren).0),
        ensures
            sane(self.call(callee, args, paren).0),
            !unknown_operator(self.call(callee, args, paren).1),
    {
        lemma_messages_differ();
        let limit = self.scopes.len();
        lemma_home_ok(self.frames, self.env, limit);
        if let LitValView::Function(f) = callee {
            if args.len() == f.params.len() && self.frames.len() < crate::semantics::MAX_FRAMES {
                let fresh = self.scopes.push(
                    ScopeView { values: Map::empty(), enclosing: Some(f.closure) },
                );
                lemma_fresh_ok(self.scopes, Some(f.closure));
                assert(values_ok(args, fresh.len()));
                lemma_bind_ok(fresh, limit as int, f.params, args, args.len());
                lemma_frames_ok_among_more(self.frames, limit, limit + 1);
                let called = self.frames.push(FrameView::Call { env: self.env });
                lemma_push_ok(self.frames, FrameView::Call { env: self.env }, limit + 1);
                lemma_push_ok(
                    called,
                    FrameView::Block { stmts: f.body, next: 0, env: self.env },
                    limit + 1,
                );
            }
        }
    }

    /// Taking up a frame that is in order, with a value that is, leaves the
    /// machine in order.
    pub proof fn lemma_resume_is_sane(self, frame: FrameView, v: LitValView)
        requires
            settled(self),
            frame_ok(frame, in_call(self.frames), self.scopes.len()),
            value_ok(v, self.scopes.len()),
            fits(self.resume(frame, v).0),
        ensures
            sane(self.resume(frame, v).0),
            !unknown_operator(self.resume(frame, v).1),
    {
        reveal(apply_binary);
        lemma_messages_differ();
        let limit = self.scopes.len();
        lemma_home_ok(self.frames, self.env, limit);
        match frame {
            FrameView::Block { stmts, next, env } => {
                if next < stmts.len() {
                    let again = FrameView::Block { stmts, next: (next + 1) as usize, env };
                    lemma_push_ok(self.frames, again, limit);
                    InterpreterView {
                        frames: self.frames.push(again),
                        ..self
                    }.lemma_start_is_sane(stmts[next as int]);
                }
            },
            FrameView::Loop { condition, body } => {
                lemma_push_ok(self.frames, FrameView::Test { condition, body }, limit);
            },
            FrameView::Define(name) => {
                lemma_bound_ok(self.scopes, self.env as int, name.lexeme, v);
            },
            FrameView::Test { condition, body } => {
                lemma_push_ok(self.frames, FrameView::Loop { condition, body }, limit);
            },
            FrameView::Left { op, right } => {
                lemma_push_ok(self.frames, FrameView::Right { op, left: v }, limit);
            },
            FrameView::Assign(name) => {
                lemma_resolved_holds(self.scopes, self.env as int, name.lexeme);
                if let Some(s) = resolve(self.scopes, self.env as int, name.lexeme) {
                    lemma_bound_ok(self.scopes, s, name.lexeme, v);
                }
            },
            FrameView::Callee { paren, arguments } => {
                if arguments.len() == 0 {
                    self.lemma_call_is_sane(v, Seq::empty(), paren);
                } else {
                    let waiting = FrameView::Args {
                        paren,
                        callee: v,
                        values: Seq::empty(),
                        arguments,
                    };
                    lemma_push_ok(self.frames, waiting, limit);
                    InterpreterView {
                        frames: self.frames.push(waiting),
                        ..self
                    }.lemma_eval_is_sane(arguments[0]);
                }
            },
            FrameView::Args { paren, callee, values, arguments } => {
                if values.len() + 1 < arguments.len() {
                    let waiting = FrameView::Args {
                        paren,
                        callee,
                        values: values.push(v),
                        arguments,
                    };
                    lemma_push_ok(self.frames, waiting, limit);
                    InterpreterView {
                        frames: self.frames.push(waiting),
                        ..self
                    }.lemma_eval_is_sane(arguments[values.len() as int + 1]);
                } else {
                    self.lemma_call_is_sane(callee, values.push(v), paren);
                }
            },
            _ => {},
        }
    }

    /// A step leaves a machine that is in order in order, and stops it on
    /// no operator that the machine does not know. A `return` that is under
    /// way finds a frame to take up: it never falls out of the program. And
    /// the scope that the machine is in is one of its scopes.
    pub proof fn lemma_step_is_sane(self)
        requires
            sane(self),
            fits(self.step().0),
        ensures
            sane(self.step().0),
            !unknown_operator(self.step().1),
            self.control is Unwind ==> self.frames.len() > 0,
    {
        let idle = InterpreterView { control: ControlView::Done, ..self };
        match self.control {
            ControlView::Eval(e) => idle.lemma_eval_is_sane(e),
            ControlView::Exec(s) => idle.lemma_start_is_sane(s),
            ControlView::Value(v) => {
                if self.frames.len() > 0 {
                    InterpreterView { frames: self.frames.drop_last(), ..idle }.lemma_resume_is_sane(
                        self.frames.last(),
                        v,
                    );
                }
            },
            _ => {},
        }
    }

    /// An answer of the host leaves a machine that is in order in order.
    pub proof fn lemma_answer_is_sane(self, n: crate::types::Number)
        requires
            sane(self),
        ensures
            sane(self.answer(n)),
    {
    }

    /// A machine whose scopes are in order, loaded with a program that the
    /// grammar made, is in order.
    pub proof fn lemma_load_is_sane(self, stmts: Seq<StmtView>)
        requires
            scopes_ok(self.scopes),
            self.globals < self.scopes.len() <= usize::MAX,
            all_shaped(stmts),
            all_enclosed(stmts, false),
        ensures
            sane(self.load(stmts)),
    {
        let frame = FrameView::Block { stmts, next: 0, env: self.globals };
        lemma_push_ok(Seq::empty(), frame, self.scopes.len());
        assert(Seq::<FrameView>::empty().push(frame) =~= seq![frame]);
    }

    /// A new machine is in order.
    pub proof fn lemma_initial_is_sane()
        ensures
            sane(InterpreterView::initial()),
    {
    }
}

/// The state that the machine reaches from `m` by the moves `moves`, in
/// their order: a number is an answer of the host, `None` is a step.
pub open spec fn after(m: InterpreterView, moves: Seq<Option<crate::types::Number>>) -> InterpreterView
    decreases moves.len(),
{
    if moves.len() == 0 {
        m
    } else {
        let before = after(m, moves.drop_last());
        match moves.last() {
            Some(n) => before.answer(n),
            None => before.step().0,
        }
    }
}

/// Whether each state that the machine reaches from `m` on the way of the
/// moves `moves` has no more scopes than a machine can number.
pub open spec fn room(m: InterpreterView, moves: Seq<Option<crate::types::Number>>) -> bool
    decreases moves.len(),
{
    fits(after(m, moves)) && (moves.len() > 0 ==> room(m, moves.drop_last()))
}

/// Whatever the host answers and however long the program runs, a machine
/// that is in order stays so: no step stops it on an operator that it does
/// not know, no `return` falls out of the program, and every scope that is
/// held anywhere is a scope of the machine.
pub proof fn lemma_a_sane_machine_stays_sane(
    m: InterpreterView,
    moves: Seq<Option<crate::types::Number>>,
)
    requires
        sane(m),
        room(m, moves),
    ensures
        sane(after(m, moves)),
        moves.len() > 0 && moves.last() is None ==> !unknown_operator(
            after(m, moves.drop_last()).step().1,
        ),
        after(m, moves).control is Unwind ==> after(m, moves).frames.len() > 0,
    decreases moves.len(),
{
    if moves.len() > 0 {
        lemma_a_sane_machine_stays_sane(m, moves.drop_last());
        let before = after(m, moves.drop_last());
        match moves.last() {
            Some(n) => before.lemma_answer_is_sane(n),
            None => before.lemma_step_is_sane(),
        }
    }
}

/// Whatever the host answers and however long the program runs, the scope
/// that the machine goes back to when the program stops on an error is the
/// same: the scope saved by the oldest frame that saves one.
pub proof fn lemma_the_scope_to_go_back_to_stays(
    m: InterpreterView,
    moves: Seq<Option<crate::types::Number>>,
)
    ensures
        home(after(m, moves).frames, after(m, moves).env) == home(m.frames, m.env),
    decreases moves.len(),
{
    if moves.len() > 0 {
        lemma_the_scope_to_go_back_to_stays(m, moves.drop_last());
        after(m, moves.drop_last()).lemma_home_is_kept();
    }
}

/// A program that was loaded leaves every block and every call that it
/// entered. When a step stops it on an error, at whatever depth, nothing is
/// put aside any more and the machine is in the global scope; and whenever
/// nothing is put aside, at its end too, the machine is in the global scope.
pub proof fn lemma_a_program_leaves_its_blocks(
    m: InterpreterView,
    stmts: Seq<StmtView>,
    moves: Seq<Option<crate::types::Number>>,
)
    requires
        sane(m.load(stmts)),
        room(m.load(stmts), moves),
    ensures
        ({
            let now = after(m.load(stmts), moves);
            &&& now.frames.len() == 0 ==> now.env == m.globals
            &&& now.step().1 is Failed ==> now.step().0.frames.len() == 0 && now.step().0.env
                == m.globals
        }),
{
    let loaded = m.load(stmts);
    let now = after(loaded, moves);
    lemma_home_is_the_oldest(loaded.frames, loaded.env);
    lemma_the_scope_to_go_back_to_stays(loaded, moves);
    lemma_a_sane_machine_stays_sane(loaded, moves);
    now.lemma_home_is_kept();
}

} // verus!
