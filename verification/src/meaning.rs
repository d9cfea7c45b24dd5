//! What a program comes to, told at once rather than step by step: the value
//! of an expression and the effect of a statement, given the scopes they run
//! in and a host that answers each request for a number as a function `reply`
//! says. With each result come the moves by which the machine gets there and
//! the lines it has the host write on the way.
//!
//! A program may run for ever. So each rule takes a measure of patience,
//! which one round of a loop and one call use up by one; a program that
//! needs more has no result here. Nor has one that makes more scopes than a
//! machine can number.

use vstd::prelude::*;
use crate::environment::{bound, resolve, undefined, ScopeView};
use crate::expr::ExprView;
use crate::interpreter::RuntimeErrorView;
use crate::semantics::{
    apply_binary, apply_unary, arity_message, bind, Applied, RequestView, MAX_FRAMES,
};
use crate::stmt::StmtView;
use crate::token::{LiteralView, TokenType, TokenView};
use crate::types::{LitValView, LoxFunctionView, Number};

verus! {

/// How a run ends.
pub enum Ended {
    /// With this value: that of the expression; for a statement, the value
    /// that is passed on and not looked at.
    Value(LitValView),
    /// With a `return` of this value that is still on its way out.
    Return(LitValView),
    /// With this error.
    Failed(RuntimeErrorView),
    /// Not within the patience given.
    Exhausted,
}

/// A run: how it ends, the scopes at the end, the scope that the machine is
/// in when the run ends with a value or a `return`, the moves of the machine
/// and its host, and the lines written. A block that is left by a `return`
/// is left for the scope it was entered from. After an error the machine is
/// in the scope that it was in before every block and call.
pub struct Run {
    pub ended: Ended,
    pub scopes: Seq<ScopeView>,
    pub env: usize,
    pub moves: Seq<Option<Number>>,
    pub lines: Seq<RequestView>,
}

/// One step of the machine, as moves.
pub open spec fn one() -> Seq<Option<Number>> {
    seq![None]
}

/// The run that ends at once in the scopes given, after one step.
pub open spec fn done(ended: Ended, scopes: Seq<ScopeView>, env: usize) -> Run {
    Run { ended, scopes, env, moves: one(), lines: Seq::empty() }
}

/// The error `message` at `token`.
pub open spec fn failure(token: TokenView, message: Seq<char>) -> Ended {
    Ended::Failed(RuntimeErrorView { token, message })
}

/// The size of an expression: the number of its parts.
pub open spec fn expr_size(e: ExprView) -> nat
    decreases e,
{
    match e {
        ExprView::Binary { left, op, right } => 1 + expr_size(*left) + expr_size(*right),
        ExprView::Assign { name, value } => 1 + expr_size(*value),
        ExprView::Call { callee, paren, arguments } => 1 + expr_size(*callee) + exprs_size(
            arguments,
        ),
        ExprView::Grouping { expression } => 1 + expr_size(*expression),
        ExprView::Literal(_) => 1,
        ExprView::Logical { left, op, right } => 1 + expr_size(*left) + expr_size(*right),
        ExprView::Unary { op, right } => 1 + expr_size(*right),
        ExprView::Variable(_) => 1,
    }
}

/// The size of a list of expressions: one more than the sizes together.
pub open spec fn exprs_size(list: Seq<ExprView>) -> nat
    decreases list,
{
    if list.len() == 0 {
        1
    } else {
        exprs_size(list.drop_last()) + expr_size(list.last())
    }
}

/// The size of a statement: the number of its parts.
pub open spec fn stmt_size(s: StmtView) -> nat
    decreases s,
{
    match s {
        StmtView::Block(stmts) => 1 + stmts_size(stmts),
        StmtView::Expr(e) => 1 + expr_size(e),
        StmtView::Function { name, params, body } => 1 + stmts_size(body),
        StmtView::If { condition, then_branch, else_branch } => 1 + expr_size(condition)
            + stmt_size(*then_branch) + match else_branch {
            Some(e) => stmt_size(*e),
            None => 0,
        },
        StmtView::Print(e) => 1 + expr_size(e),
        StmtView::Return { keyword, value } => 1 + match value {
            Some(e) => expr_size(e),
            None => 0,
        },
        StmtView::Var { name, initializer } => 1 + match initializer {
            Some(e) => expr_size(e),
            None => 0,
        },
        StmtView::While { condition, body } => 1 + expr_size(condition) + stmt_size(*body),
    }
}

/// The size of a list of statements: one more than the sizes together.
pub open spec fn stmts_size(list: Seq<StmtView>) -> nat
    decreases list,
{
    if list.len() == 0 {
        1
    } else {
        stmts_size(list.drop_last()) + stmt_size(list.last())
    }
}

/// The size of what a value holds to run: of the body, for a function.
pub open spec fn value_size(v: LitValView) -> nat {
    match v {
        LitValView::Function(f) => 1 + stmts_size(f.body),
        _ => 0,
    }
}

/// A list has a size of one at least.
pub proof fn lemma_list_sizes(exprs: Seq<ExprView>, stmts: Seq<StmtView>)
    ensures
        exprs_size(exprs) >= 1,
        stmts_size(stmts) >= 1,
    decreases exprs.len() + stmts.len(),
{
    if exprs.len() > 0 {
        lemma_list_sizes(exprs.drop_last(), stmts);
    } else if stmts.len() > 0 {
        lemma_list_sizes(exprs, stmts.drop_last());
    }
}

/// An expression of a list is smaller than the list.
pub proof fn lemma_expr_in_list(list: Seq<ExprView>, i: int)
    requires
        0 <= i < list.len(),
    ensures
        expr_size(list[i]) < exprs_size(list),
    decreases list.len(),
{
    lemma_list_sizes(list.drop_last(), Seq::empty());
    if i < list.len() - 1 {
        lemma_expr_in_list(list.drop_last(), i);
    }
}

/// A statement of a list is smaller than the list.
pub proof fn lemma_stmt_in_list(list: Seq<StmtView>, i: int)
    requires
        0 <= i < list.len(),
    ensures
        stmt_size(list[i]) < stmts_size(list),
    decreases list.len(),
{
    lemma_list_sizes(Seq::empty(), list.drop_last());
    if i < list.len() - 1 {
        lemma_stmt_in_list(list.drop_last(), i);
    }
}

impl Run {
    /// This run, begun after the moves `moves`.
    pub open spec fn begun(self, moves: Seq<Option<Number>>) -> Run {
        Run { moves: moves + self.moves, ..self }
    }

    /// This run, begun after the run `before`.
    pub open spec fn following(self, before: Run) -> Run {
        Run { moves: before.moves + self.moves, lines: before.lines + self.lines, ..self }
    }

    /// This run and one more step after it, which ends as `ended` says, in
    /// the scopes `scopes`.
    pub open spec fn ending(self, ended: Ended, scopes: Seq<ScopeView>, env: usize) -> Run {
        Run { ended, scopes, env, moves: self.moves + one(), lines: self.lines }
    }
}

/// The value of an expression in the scope `env` of `scopes`, while `height`
/// frames are put aside.
pub open spec fn evaluate(
    e: ExprView,
    scopes: Seq<ScopeView>,
    env: usize,
    height: nat,
    reply: spec_fn(RequestView) -> Number,
    patience: nat,
) -> Run
    decreases patience, expr_size(e), 1nat,
{
    match e {
        ExprView::Literal(l) => match l {
            LiteralView::Number(numeral) => Run {
                ended: Ended::Value(LitValView::Number(reply(RequestView::Parse(numeral)))),
                scopes,
                env,
                moves: seq![None, Some(reply(RequestView::Parse(numeral)))],
                lines: Seq::empty(),
            },
            LiteralView::String(s) => done(Ended::Value(LitValView::String(s)), scopes, env),
            LiteralView::Bool(b) => done(Ended::Value(LitValView::Bool(b)), scopes, env),
            LiteralView::Nil => done(Ended::Value(LitValView::Nil), scopes, env),
            LiteralView::NotExist => done(Ended::Value(LitValView::Nil), scopes, env),
        },
        ExprView::Grouping { expression } => evaluate(
            *expression,
            scopes,
            env,
            height,
            reply,
            patience,
        ).begun(one()),
        ExprView::Unary { op, right } => {
            let operand = evaluate(*right, scopes, env, height + 1, reply, patience).begun(one());
            match operand.ended {
                Ended::Value(v) => match apply_unary(op.type_, v) {
                    Ok(r) => operand.ending(Ended::Value(r), operand.scopes, env),
                    Err(message) => operand.ending(failure(op, message), operand.scopes, env),
                },
                _ => operand,
            }
        },
        ExprView::Binary { left, op, right } => {
            let first = evaluate(*left, scopes, env, height + 1, reply, patience).begun(one());
            match first.ended {
                Ended::Value(l) => {
                    let second = evaluate(
                        *right,
                        first.scopes,
                        env,
                        height + 1,
                        reply,
                        patience,
                    ).begun(one()).following(first);
                    match second.ended {
                        Ended::Value(r) => match apply_binary(op.type_, l, r) {
                            Applied::Value(v) => second.ending(Ended::Value(v), second.scopes, env),
                            Applied::Ask(a, x, y) => Run {
                                ended: Ended::Value(
                                    LitValView::Number(reply(RequestView::Arith(a, x, y))),
                                ),
                                moves: second.moves + seq![
                                    None,
                                    Some(reply(RequestView::Arith(a, x, y))),
                                ],
                                ..second
                            },
                            Applied::Error(message) => second.ending(
                                failure(op, message),
                                second.scopes,
                                env,
                            ),
                        },
                        _ => second,
                    }
                },
                _ => first,
            }
        },
        ExprView::Logical { left, op, right } => {
            let first = evaluate(*left, scopes, env, height + 1, reply, patience).begun(one());
            match first.ended {
                Ended::Value(l) => if (op.type_ == TokenType::Or) == l.truthy() {
                    first.ending(Ended::Value(l), first.scopes, env)
                } else {
                    evaluate(*right, first.scopes, env, height, reply, patience).begun(
                        one(),
                    ).following(first)
                },
                _ => first,
            }
        },
        ExprView::Variable(name) => match resolve(scopes, env as int, name.lexeme) {
            Some(s) => done(Ended::Value(scopes[s].values[name.lexeme]), scopes, env),
            None => done(Ended::Failed(undefined(name)), scopes, env),
        },
        ExprView::Assign { name, value } => {
            let given = evaluate(*value, scopes, env, height + 1, reply, patience).begun(one());
            match given.ended {
                Ended::Value(v) => match resolve(given.scopes, env as int, name.lexeme) {
                    Some(s) => given.ending(
                        Ended::Value(v),
                        bound(given.scopes, s, name.lexeme, v),
                        env,
                    ),
                    None => given.ending(Ended::Failed(undefined(name)), given.scopes, env),
                },
                _ => given,
            }
        },
        ExprView::Call { callee, paren, arguments } => {
            let target = evaluate(*callee, scopes, env, height + 1, reply, patience).begun(one());
            match target.ended {
                Ended::Value(f) => if arguments.len() == 0 {
                    if patience == 0 {
                        Run { ended: Ended::Exhausted, ..target }
                    } else {
                        called(
                            f,
                            Seq::empty(),
                            paren,
                            target.scopes,
                            env,
                            height,
                            reply,
                            (patience - 1) as nat,
                        ).begun(one()).following(target)
                    }
                } else {
                    pass(
                        f,
                        Seq::empty(),
                        arguments,
                        paren,
                        target.scopes,
                        env,
                        height,
                        reply,
                        patience,
                    ).following(target)
                },
                _ => target,
            }
        },
    }
}

/// The call of `callee` once the arguments after `values` are evaluated,
/// in their order.
pub open spec fn pass(
    callee: LitValView,
    values: Seq<LitValView>,
    arguments: Seq<ExprView>,
    paren: TokenView,
    scopes: Seq<ScopeView>,
    env: usize,
    height: nat,
    reply: spec_fn(RequestView) -> Number,
    patience: nat,
) -> Run
    decreases patience, exprs_size(arguments), arguments.len() - values.len(),
{
    if values.len() < arguments.len() {
        proof {
            lemma_expr_in_list(arguments, values.len() as int);
        }
        let next = evaluate(arguments[values.len() as int], scopes, env, height + 1, reply, patience);
        match next.ended {
            Ended::Value(v) => if values.len() + 1 < arguments.len() {
                pass(
                    callee,
                    values.push(v),
                    arguments,
                    paren,
                    next.scopes,
                    env,
                    height,
                    reply,
                    patience,
                ).following(next)
            } else if patience == 0 {
                Run { ended: Ended::Exhausted, ..next }
            } else {
                called(
                    callee,
                    values.push(v),
                    paren,
                    next.scopes,
                    env,
                    height,
                    reply,
                    (patience - 1) as nat,
                ).begun(one()).following(next)
            },
            _ => next,
        }
    } else {
        Run { ended: Ended::Exhausted, scopes, env, moves: Seq::empty(), lines: Seq::empty() }
    }
}

/// What comes of the call of `callee` with the arguments `args`, after the
/// step that makes the call.
pub open spec fn called(
    callee: LitValView,
    args: Seq<LitValView>,
    paren: TokenView,
    scopes: Seq<ScopeView>,
    env: usize,
    height: nat,
    reply: spec_fn(RequestView) -> Number,
    patience: nat,
) -> Run
    decreases patience, value_size(callee), 0nat,
{
    let none = Run { ended: Ended::Exhausted, scopes, env, moves: Seq::empty(), lines: Seq::empty() };
    match callee {
        LitValView::Function(f) => if args.len() != f.params.len() {
            Run { ended: failure(paren, arity_message(f.params.len(), args.len())), ..none }
        } else if height >= MAX_FRAMES {
            Run { ended: failure(paren, "Stack overflow."@), ..none }
        } else if scopes.len() >= usize::MAX {
            none
        } else {
            let scope = scopes.len();
            let fresh = scopes.push(
                ScopeView {
                    values: Map::empty(),
                    enclosing: if f.closure < scopes.len() {
                        Some(f.closure)
                    } else {
                        None
                    },
                },
            );
            let body = run_all(
                f.body,
                0,
                bind(fresh, scope as int, f.params, args, args.len()),
                scope as usize,
                env,
                height + 1,
                reply,
                patience,
            );
            match body.ended {
                Ended::Value(_) => body.ending(Ended::Value(LitValView::Nil), body.scopes, env),
                Ended::Return(v) => body.ending(Ended::Value(v), body.scopes, env),
                _ => body,
            }
        },
        LitValView::Clock => if args.len() != 0 {
            Run { ended: failure(paren, arity_message(0, args.len())), ..none }
        } else {
            Run {
                ended: Ended::Value(LitValView::Number(reply(RequestView::Clock))),
                moves: seq![Some(reply(RequestView::Clock))],
                ..none
            }
        },
        _ => Run { ended: failure(paren, "Can only call functions and classes."@), ..none },
    }
}

/// The effect of the statements `next` and following of `stmts`, in the
/// scope `env`; after them the machine is back in the scope `back`. Of a
/// list longer than a machine can number nothing is said.
pub open spec fn run_all(
    stmts: Seq<StmtView>,
    next: nat,
    scopes: Seq<ScopeView>,
    env: usize,
    back: usize,
    height: nat,
    reply: spec_fn(RequestView) -> Number,
    patience: nat,
) -> Run
    decreases patience, stmts_size(stmts), stmts.len() - next,
{
    if next < stmts.len() && next >= usize::MAX {
        Run { ended: Ended::Exhausted, scopes, env, moves: Seq::empty(), lines: Seq::empty() }
    } else if next < stmts.len() {
        proof {
            lemma_stmt_in_list(stmts, next as int);
        }
        let this = execute(stmts[next as int], scopes, env, height + 1, reply, patience);
        match this.ended {
            Ended::Value(_) => run_all(
                stmts,
                next + 1,
                this.scopes,
                env,
                back,
                height,
                reply,
                patience,
            ).following(this),
            Ended::Return(v) => this.ending(Ended::Return(v), this.scopes, back),
            _ => this,
        }
    } else {
        done(Ended::Value(LitValView::Nil), scopes, back)
    }
}

/// The effect of the `while` loop `s` whose condition is about to be tried.
/// A round of the loop uses up one of patience.
pub open spec fn repeat(
    s: StmtView,
    scopes: Seq<ScopeView>,
    env: usize,
    height: nat,
    reply: spec_fn(RequestView) -> Number,
    patience: nat,
) -> Run
    decreases patience, stmt_size(s), 0nat,
{
    let none = Run { ended: Ended::Exhausted, scopes, env, moves: Seq::empty(), lines: Seq::empty() };
    match s {
        StmtView::While { condition, body } => {
            let test = evaluate(condition, scopes, env, height + 1, reply, patience);
            match test.ended {
                Ended::Value(v) => if v.truthy() {
                    let round = execute(
                        *body,
                        test.scopes,
                        env,
                        height + 1,
                        reply,
                        patience,
                    ).begun(one()).following(test);
                    match round.ended {
                        Ended::Value(_) => if patience == 0 {
                            Run { ended: Ended::Exhausted, ..round }
                        } else {
                            repeat(
                                s,
                                round.scopes,
                                env,
                                height,
                                reply,
                                (patience - 1) as nat,
                            ).begun(one()).following(round)
                        },
                        Ended::Return(v) => round.ending(Ended::Return(v), round.scopes, env),
                        _ => round,
                    }
                } else {
                    test.ending(Ended::Value(LitValView::Nil), test.scopes, env)
                },
                _ => test,
            }
        },
        _ => none,
    }
}

/// The effect of a statement in the scope `env` of `scopes`, while `height`
/// frames are put aside.
pub open spec fn execute(
    s: StmtView,
    scopes: Seq<ScopeView>,
    env: usize,
    height: nat,
    reply: spec_fn(RequestView) -> Number,
    patience: nat,
) -> Run
    decreases patience, stmt_size(s), 1nat,
{
    match s {
        StmtView::Expr(e) => evaluate(e, scopes, env, height, reply, patience).begun(one()),
        StmtView::Print(e) => {
            let shown = evaluate(e, scopes, env, height + 1, reply, patience).begun(one());
            match shown.ended {
                Ended::Value(v) => Run {
                    ended: Ended::Value(LitValView::Nil),
                    moves: shown.moves + one(),
                    lines: shown.lines.push(
                        match v {
                            LitValView::Number(n) => RequestView::PrintNumber(n),
                            _ => RequestView::Print(v.display()),
                        },
                    ),
                    ..shown
                },
                _ => shown,
            }
        },
        StmtView::Var { name, initializer } => match initializer {
            Some(e) => {
                let given = evaluate(e, scopes, env, height + 1, reply, patience).begun(one());
                match given.ended {
                    Ended::Value(v) => given.ending(
                        Ended::Value(LitValView::Nil),
                        bound(given.scopes, env as int, name.lexeme, v),
                        env,
                    ),
                    _ => given,
                }
            },
            None => done(
                Ended::Value(LitValView::Nil),
                bound(scopes, env as int, name.lexeme, LitValView::Nil),
                env,
            ),
        },
        StmtView::Block(stmts) => if scopes.len() >= usize::MAX {
            Run { ended: Ended::Exhausted, scopes, env, moves: one(), lines: Seq::empty() }
        } else {
            run_all(
                stmts,
                0,
                scopes.push(
                    ScopeView {
                        values: Map::empty(),
                        enclosing: if env < scopes.len() {
                            Some(env)
                        } else {
                            None
                        },
                    },
                ),
                scopes.len() as usize,
                env,
                height,
                reply,
                patience,
            ).begun(one())
        },
        StmtView::If { condition, then_branch, else_branch } => {
            let test = evaluate(condition, scopes, env, height + 1, reply, patience).begun(one());
            match test.ended {
                Ended::Value(v) => if v.truthy() {
                    execute(*then_branch, test.scopes, env, height, reply, patience).begun(
                        one(),
                    ).following(test)
                } else {
                    match else_branch {
                        Some(e) => execute(*e, test.scopes, env, height, reply, patience).begun(
                            one(),
                        ).following(test),
                        None => test.ending(Ended::Value(LitValView::Nil), test.scopes, env),
                    }
                },
                _ => test,
            }
        },
        StmtView::While { condition, body } => repeat(s, scopes, env, height, reply, patience).begun(
            one(),
        ),
        StmtView::Function { name, params, body } => done(
            Ended::Value(LitValView::Nil),
            bound(
                scopes,
                env as int,
                name.lexeme,
                LitValView::Function(LoxFunctionView { name, params, body, closure: env }),
            ),
            env,
        ),
        StmtView::Return { keyword, value } => match value {
            Some(e) => {
                let given = evaluate(e, scopes, env, height + 1, reply, patience).begun(one());
                match given.ended {
                    Ended::Value(v) => given.ending(Ended::Return(v), given.scopes, env),
                    _ => given,
                }
            },
            None => done(Ended::Return(LitValView::Nil), scopes, env),
        },
    }
}

/// `+` between two expressions that come to strings comes to the strings
/// joined, the left one first.
pub proof fn lemma_strings_are_joined(
    left: ExprView,
    op: TokenView,
    right: ExprView,
    scopes: Seq<ScopeView>,
    env: usize,
    height: nat,
    reply: spec_fn(RequestView) -> Number,
    patience: nat,
    a: Seq<char>,
    b: Seq<char>,
)
    requires
        op.type_ == TokenType::Plus,
        evaluate(left, scopes, env, height + 1, reply, patience).ended == Ended::Value(
            LitValView::String(a),
        ),
        evaluate(
            right,
            evaluate(left, scopes, env, height + 1, reply, patience).scopes,
            env,
            height + 1,
            reply,
            patience,
        ).ended == Ended::Value(LitValView::String(b)),
    ensures
        evaluate(
            ExprView::Binary { left: Box::new(left), op, right: Box::new(right) },
            scopes,
            env,
            height,
            reply,
            patience,
        ).ended == Ended::Value(LitValView::String(a + b)),
{
    reveal(apply_binary);
}

/// `+` between an expression that comes to a string and one that comes to
/// a value that is no string, or the other way round, is an error at the
/// operator.
pub proof fn lemma_a_string_and_another_do_not_add(
    left: ExprView,
    op: TokenView,
    right: ExprView,
    scopes: Seq<ScopeView>,
    env: usize,
    height: nat,
    reply: spec_fn(RequestView) -> Number,
    patience: nat,
    l: LitValView,
    r: LitValView,
)
    requires
        op.type_ == TokenType::Plus,
        (l is String) != (r is String),
        evaluate(left, scopes, env, height + 1, reply, patience).ended == Ended::Value(l),
        evaluate(
            right,
            evaluate(left, scopes, env, height + 1, reply, patience).scopes,
            env,
            height + 1,
            reply,
            patience,
        ).ended == Ended::Value(r),
    ensures
        evaluate(
            ExprView::Binary { left: Box::new(left), op, right: Box::new(right) },
            scopes,
            env,
            height,
            reply,
            patience,
        ).ended == failure(op, "Operands must be two numbers or two strings."@),
{
    reveal(apply_binary);
}

/// `!` before an expression that comes to a value comes to `true` if the
/// value is `nil` or `false`, and to `false` if it is any other value.
pub proof fn lemma_not_negates(
    op: TokenView,
    right: ExprView,
    scopes: Seq<ScopeView>,
    env: usize,
    height: nat,
    reply: spec_fn(RequestView) -> Number,
    patience: nat,
    v: LitValView,
)
    requires
        op.type_ == TokenType::Bang,
        evaluate(right, scopes, env, height + 1, reply, patience).ended == Ended::Value(v),
    ensures
        evaluate(
            ExprView::Unary { op, right: Box::new(right) },
            scopes,
            env,
            height,
            reply,
            patience,
        ).ended == Ended::Value(LitValView::Bool(v is Nil || v == LitValView::Bool(false))),
{
}

/// An assignment to a name that no scope of the chain holds is an error,
/// and defines nothing: the scopes are as the evaluation of the value left
/// them.
pub proof fn lemma_assignment_needs_a_definition(
    name: TokenView,
    value: ExprView,
    scopes: Seq<ScopeView>,
    env: usize,
    height: nat,
    reply: spec_fn(RequestView) -> Number,
    patience: nat,
)
    requires
        evaluate(value, scopes, env, height + 1, reply, patience).ended is Value,
        resolve(
            evaluate(value, scopes, env, height + 1, reply, patience).scopes,
            env as int,
            name.lexeme,
        ) is None,
    ensures
        ({
            let assigned = evaluate(
                ExprView::Assign { name, value: Box::new(value) },
                scopes,
                env,
                height,
                reply,
                patience,
            );
            &&& assigned.ended == Ended::Failed(undefined(name))
            &&& assigned.scopes == evaluate(value, scopes, env, height + 1, reply, patience).scopes
        }),
{
}

} // verus!
