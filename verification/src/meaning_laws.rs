//! The machine arrives where the program comes to: by the moves of a run,
//! made by the machine and a host that answers as `reply` says, the machine
//! reaches the state that the run names, and has the host write the lines
//! that the run lists.

use vstd::prelude::*;
use crate::environment::{bound, resolve, undefined, ScopeView};
use crate::expr::ExprView;
use crate::meaning::{
    called, evaluate, execute, expr_size, exprs_size, lemma_expr_in_list, lemma_stmt_in_list, one,
    pass, repeat, run_all, stmt_size, stmts_size, value_size, Ended, Run,
};
use crate::safety::after;
use crate::semantics::{
    apply_binary, apply_unary, home, lemma_home_pushed, Applied, ControlView, FrameView,
    InterpreterView, RequestView, MAX_FRAMES,
};
use crate::stmt::StmtView;
use crate::token::{LiteralView, TokenType, TokenView};
use crate::types::{LitValView, Number};

verus! {

/// Whether the moves `moves` from `m` on are those of a machine and its
/// host: where the machine waits for a number the host answers as `reply`
/// says, and else the machine steps.
pub open spec fn obedient(
    m: InterpreterView,
    moves: Seq<Option<Number>>,
    reply: spec_fn(RequestView) -> Number,
) -> bool
    decreases moves.len(),
{
    if moves.len() == 0 {
        true
    } else {
        let before = after(m, moves.drop_last());
        obedient(m, moves.drop_last(), reply) && match moves.last() {
            Some(n) => before.control matches ControlView::Asking(request) && n == reply(request),
            None => !(before.control is Asking),
        }
    }
}

/// The lines that the machine has the host write on the way of the moves
/// `moves` from `m` on.
pub open spec fn written(m: InterpreterView, moves: Seq<Option<Number>>) -> Seq<RequestView>
    decreases moves.len(),
{
    if moves.len() == 0 {
        Seq::empty()
    } else {
        let before = after(m, moves.drop_last());
        let earlier = written(m, moves.drop_last());
        let request = before.step().1;
        if moves.last() is None && (request is Print || request is PrintNumber) {
            earlier.push(request)
        } else {
            earlier
        }
    }
}

/// What the last of the moves `moves` from `m` on asks of the host, if it is
/// a step.
pub open spec fn last_request(m: InterpreterView, moves: Seq<Option<Number>>) -> RequestView {
    if moves.len() > 0 && moves.last() is None {
        after(m, moves.drop_last()).step().1
    } else {
        RequestView::Step
    }
}

/// The state in which a run ends that began with the frames of `base` put
/// aside, to go back to the scope of `base` in the end. A run that fails
/// leaves every block and call, for the scope that the machine was in before
/// them.
pub open spec fn landing(base: InterpreterView, run: Run) -> InterpreterView {
    match run.ended {
        Ended::Value(v) => InterpreterView {
            control: ControlView::Value(v),
            scopes: run.scopes,
            env: run.env,
            ..base
        },
        Ended::Return(v) => InterpreterView {
            control: ControlView::Unwind(v),
            scopes: run.scopes,
            env: run.env,
            ..base
        },
        Ended::Failed(_) => InterpreterView {
            control: ControlView::Done,
            frames: Seq::empty(),
            scopes: run.scopes,
            env: home(base.frames, base.env),
            ..base
        },
        Ended::Exhausted => base,
    }
}

/// Whether the machine, from the state `m`, arrives where the run `run`
/// ends: the moves of the run are those of the machine and a host that
/// answers as `reply` says, they lead to the state in which the run ends,
/// the lines written are those of the run, and a run that fails ends with the
/// step that reports its error. Nothing is said of a run that is exhausted.
pub open spec fn arrives(
    m: InterpreterView,
    base: InterpreterView,
    run: Run,
    reply: spec_fn(RequestView) -> Number,
) -> bool {
    run.ended is Exhausted || {
        &&& obedient(m, run.moves, reply)
        &&& written(m, run.moves) == run.lines
        &&& after(m, run.moves) == landing(base, run)
        &&& run.ended matches Ended::Failed(e) ==> last_request(m, run.moves)
            == RequestView::Failed(e)
    }
}

/// Moves made one after another are the moves of both together.
#[verifier::rlimit(50)]
pub proof fn lemma_join(
    m: InterpreterView,
    first: Seq<Option<Number>>,
    second: Seq<Option<Number>>,
    reply: spec_fn(RequestView) -> Number,
)
    ensures
        after(m, first + second) == after(after(m, first), second),
        obedient(m, first + second, reply) == (obedient(m, first, reply) && obedient(
            after(m, first),
            second,
            reply,
        )),
        written(m, first + second) == written(m, first) + written(after(m, first), second),
        second.len() > 0 ==> last_request(m, first + second) == last_request(
            after(m, first),
            second,
        ),
    decreases second.len(),
{
    if second.len() == 0 {
        assert(first + second =~= first);
        assert(written(m, first) + written(after(m, first), second) =~= written(m, first));
    } else {
        lemma_join(m, first, second.drop_last(), reply);
        assert((first + second).drop_last() =~= first + second.drop_last());
        assert((first + second).last() == second.last());
        let earlier = written(m, first) + written(after(m, first), second.drop_last());
        let request = after(after(m, first), second.drop_last()).step().1;
        assert(earlier.push(request) =~= written(m, first) + written(
            after(m, first),
            second.drop_last(),
        ).push(request));
    }
}

/// One step, as moves.
pub proof fn lemma_one(m: InterpreterView, reply: spec_fn(RequestView) -> Number)
    ensures
        after(m, one()) == m.step().0,
        obedient(m, one(), reply) == !(m.control is Asking),
        written(m, one()) == if m.step().1 is Print || m.step().1 is PrintNumber {
            seq![m.step().1]
        } else {
            Seq::empty()
        },
        last_request(m, one()) == m.step().1,
{
    assert(one().drop_last() =~= Seq::empty());
    assert(after(m, one().drop_last()) == m);
    assert(obedient(m, one().drop_last(), reply));
    assert(written(m, one().drop_last()) =~= Seq::empty());
    assert(Seq::<RequestView>::empty().push(m.step().1) =~= seq![m.step().1]);
}

/// A step and an answer to what it asks, as moves.
pub proof fn lemma_asked(m: InterpreterView, reply: spec_fn(RequestView) -> Number)
    requires
        !(m.control is Asking),
        m.step().0.control == ControlView::Asking(m.step().1),
        !(m.step().1 is Print),
        !(m.step().1 is PrintNumber),
    ensures
        ({
            let moves = seq![None, Some(reply(m.step().1))];
            &&& after(m, moves) == m.step().0.answer(reply(m.step().1))
            &&& obedient(m, moves, reply)
            &&& written(m, moves) == Seq::<RequestView>::empty()
        }),
{
    let n = reply(m.step().1);
    let moves: Seq<Option<Number>> = seq![None, Some(n)];
    lemma_one(m, reply);
    assert(moves.drop_last() =~= one());
}

/// An answer alone, as moves.
pub proof fn lemma_answered(m: InterpreterView, reply: spec_fn(RequestView) -> Number)
    requires
        m.control is Asking,
    ensures
        ({
            let moves = seq![Some(reply(m.control->Asking_0))];
            &&& after(m, moves) == m.answer(reply(m.control->Asking_0))
            &&& obedient(m, moves, reply)
            &&& written(m, moves) == Seq::<RequestView>::empty()
        }),
{
    let moves: Seq<Option<Number>> = seq![Some(reply(m.control->Asking_0))];
    assert(moves.drop_last() =~= Seq::empty());
    assert(after(m, moves.drop_last()) == m);
    assert(obedient(m, moves.drop_last(), reply));
    assert(written(m, moves.drop_last()) =~= Seq::empty());
}

/// Two states from which one step leads to the same state, asking the same,
/// are alike for all moves that begin with a step.
#[verifier::rlimit(50)]
pub proof fn lemma_same_start(
    s: InterpreterView,
    v: InterpreterView,
    moves: Seq<Option<Number>>,
    reply: spec_fn(RequestView) -> Number,
)
    requires
        moves.len() > 0,
        moves[0] is None,
        s.step() == v.step(),
        !(s.control is Asking),
        !(v.control is Asking),
    ensures
        after(s, moves) == after(v, moves),
        obedient(s, moves, reply) == obedient(v, moves, reply),
        written(s, moves) == written(v, moves),
        last_request(s, moves) == last_request(v, moves),
{
    let rest = moves.subrange(1, moves.len() as int);
    assert(moves =~= one() + rest);
    lemma_one(s, reply);
    lemma_one(v, reply);
    lemma_join(s, one(), rest, reply);
    lemma_join(v, one(), rest, reply);
    if rest.len() == 0 {
        assert(moves =~= one());
    }
}

/// The moves of a run of an expression or a statement begin with a step.
pub proof fn lemma_begins(
    e: ExprView,
    s: StmtView,
    scopes: Seq<ScopeView>,
    env: usize,
    height: nat,
    reply: spec_fn(RequestView) -> Number,
    patience: nat,
)
    ensures
        evaluate(e, scopes, env, height, reply, patience).moves.len() > 0,
        evaluate(e, scopes, env, height, reply, patience).moves[0] is None,
        execute(s, scopes, env, height, reply, patience).moves.len() > 0,
        execute(s, scopes, env, height, reply, patience).moves[0] is None,
{
}

/// Whether the machine, about to evaluate `e`, arrives at its value, in the
/// scope it is in, or at its error.
pub open spec fn evaluated(
    m: InterpreterView,
    e: ExprView,
    reply: spec_fn(RequestView) -> Number,
    patience: nat,
) -> bool {
    let run = evaluate(e, m.scopes, m.env, m.frames.len(), reply, patience);
    &&& arrives(m, m, run, reply)
    &&& !(run.ended is Return)
    &&& run.ended is Value ==> run.env == m.env
}

/// Whether the machine, about to execute `s`, arrives at its effect.
pub open spec fn executed(
    m: InterpreterView,
    s: StmtView,
    reply: spec_fn(RequestView) -> Number,
    patience: nat,
) -> bool {
    let run = execute(s, m.scopes, m.env, m.frames.len(), reply, patience);
    &&& arrives(m, m, run, reply)
    &&& run.ended is Value || run.ended is Return ==> run.env == m.env
}

/// A step, then a run: the machine arrives where the run ends, from one
/// step earlier.
pub proof fn lemma_begun(
    m: InterpreterView,
    run: Run,
    base: InterpreterView,
    reply: spec_fn(RequestView) -> Number,
)
    requires
        !(m.control is Asking),
        !(m.step().1 is Print),
        !(m.step().1 is PrintNumber),
        arrives(m.step().0, base, run, reply),
        run.moves.len() > 0,
    ensures
        arrives(m, base, run.begun(one()), reply),
        !(m.step().1 is Failed) && (!(m.control is Value) || m.step().0.frames.len() > 0) ==> home(
            m.step().0.frames,
            m.step().0.env,
        ) == home(m.frames, m.env),
{
    lemma_one(m, reply);
    lemma_join(m, one(), run.moves, reply);
    assert(Seq::<RequestView>::empty() + run.lines =~= run.lines);
    m.lemma_home_is_kept();
}

/// A run, then another from where the first ends with a value: the machine
/// arrives where the second ends.
pub proof fn lemma_following(
    m: InterpreterView,
    first: Run,
    middle: InterpreterView,
    second: Run,
    base: InterpreterView,
    reply: spec_fn(RequestView) -> Number,
)
    requires
        !(first.ended is Exhausted),
        obedient(m, first.moves, reply),
        written(m, first.moves) == first.lines,
        after(m, first.moves) == middle,
        arrives(middle, base, second, reply),
        second.moves.len() > 0,
    ensures
        arrives(m, base, second.following(first), reply),
{
    lemma_join(m, first.moves, second.moves, reply);
}

/// A run that ends with a value, then one step that asks for no line: the
/// machine arrives where that step leads, if that is where `ended`, `scopes`
/// and `env` say.
pub proof fn lemma_ending(
    m: InterpreterView,
    run: Run,
    middle: InterpreterView,
    ended: Ended,
    scopes: Seq<ScopeView>,
    env: usize,
    base: InterpreterView,
    reply: spec_fn(RequestView) -> Number,
)
    requires
        !(run.ended is Exhausted),
        !(ended is Exhausted),
        obedient(m, run.moves, reply),
        written(m, run.moves) == run.lines,
        after(m, run.moves) == middle,
        !(middle.control is Asking),
        !(middle.step().1 is Print),
        !(middle.step().1 is PrintNumber),
        middle.step().0 == landing(base, run.ending(ended, scopes, env)),
        ended matches Ended::Failed(e) ==> middle.step().1 == RequestView::Failed(e),
    ensures
        arrives(m, base, run.ending(ended, scopes, env), reply),
{
    lemma_one(middle, reply);
    lemma_join(m, run.moves, one(), reply);
    assert(run.lines + Seq::<RequestView>::empty() =~= run.lines);
}

/// The result of a binary operator, once both operands are evaluated by
/// the run `second`.
pub open spec fn applied(
    second: Run,
    op: TokenView,
    l: LitValView,
    r: LitValView,
    env: usize,
    reply: spec_fn(RequestView) -> Number,
) -> Run {
    match apply_binary(op.type_, l, r) {
        Applied::Value(v) => second.ending(Ended::Value(v), second.scopes, env),
        Applied::Ask(a, x, y) => Run {
            ended: Ended::Value(LitValView::Number(reply(RequestView::Arith(a, x, y)))),
            moves: second.moves + seq![None, Some(reply(RequestView::Arith(a, x, y)))],
            ..second
        },
        Applied::Error(message) => second.ending(
            crate::meaning::failure(op, message),
            second.scopes,
            env,
        ),
    }
}

#[verifier::rlimit(50)]
proof fn lemma_applied(
    m: InterpreterView,
    second: Run,
    op: TokenView,
    l: LitValView,
    r: LitValView,
    reply: spec_fn(RequestView) -> Number,
)
    requires
        second.ended == Ended::Value(r),
        second.env == m.env,
        obedient(m, second.moves, reply),
        written(m, second.moves) == second.lines,
        after(m, second.moves) == (InterpreterView {
            control: ControlView::Value(r),
            frames: m.frames.push(FrameView::Right { op, left: l }),
            scopes: second.scopes,
            ..m
        }),
    ensures
        arrives(m, m, applied(second, op, l, r, m.env, reply), reply),
        !(applied(second, op, l, r, m.env, reply).ended is Return),
        applied(second, op, l, r, m.env, reply).ended is Value ==> applied(
            second,
            op,
            l,
            r,
            m.env,
            reply,
        ).env == m.env,
{
    let ready = after(m, second.moves);
    assert(ready.frames.drop_last() =~= m.frames);
    let idle = InterpreterView { control: ControlView::Done, frames: m.frames, ..ready };
    assert(ready.step() == idle.binary(l, op, r));
    match apply_binary(op.type_, l, r) {
        Applied::Value(v) => {
            assert(ready.step() == idle.give(v));
            lemma_ending(m, second, ready, Ended::Value(v), second.scopes, m.env, m, reply);
        },
        Applied::Ask(a, x, y) => {
            assert(ready.step() == idle.ask(RequestView::Arith(a, x, y)));
            lemma_asked_after(m, second, ready, RequestView::Arith(a, x, y), reply);
        },
        Applied::Error(message) => {
            assert(ready.step() == idle.fail(op, message));
            lemma_ending(
                m,
                second,
                ready,
                crate::meaning::failure(op, message),
                second.scopes,
                m.env,
                m,
                reply,
            );
        },
    }
}

/// A run that ends with a value, then a step that asks for a number and the
/// answer of the host: the machine arrives at the number.
#[verifier::rlimit(50)]
proof fn lemma_asked_after(
    m: InterpreterView,
    run: Run,
    middle: InterpreterView,
    request: RequestView,
    reply: spec_fn(RequestView) -> Number,
)
    requires
        !(run.ended is Exhausted),
        run.env == m.env,
        obedient(m, run.moves, reply),
        written(m, run.moves) == run.lines,
        after(m, run.moves) == middle,
        !(middle.control is Asking),
        request is Arith,
        middle.step() == (InterpreterView {
            control: ControlView::Done,
            frames: m.frames,
            scopes: run.scopes,
            ..m
        }).ask(request),
    ensures
        ({
            let asked = Run {
                ended: Ended::Value(LitValView::Number(reply(request))),
                moves: run.moves + seq![None, Some(reply(request))],
                ..run
            };
            arrives(m, m, asked, reply)
        }),
{
    lemma_asked(middle, reply);
    let answer = seq![None, Some(reply(request))];
    lemma_join(m, run.moves, answer, reply);
    assert(run.lines + Seq::<RequestView>::empty() =~= run.lines);
}

/// The machine arrives at the value of an expression.
pub proof fn lemma_evaluate(
    m: InterpreterView,
    e: ExprView,
    reply: spec_fn(RequestView) -> Number,
    patience: nat,
)
    requires
        m.control == ControlView::Eval(e),
    ensures
        evaluated(m, e, reply, patience),
    decreases patience, expr_size(e), 1nat,
{
    match e {
        ExprView::Literal(_) => lemma_evaluate_literal(m, e, reply, patience),
        ExprView::Grouping { .. } => lemma_evaluate_grouping(m, e, reply, patience),
        ExprView::Unary { .. } => lemma_evaluate_unary(m, e, reply, patience),
        ExprView::Binary { .. } => lemma_evaluate_binary(m, e, reply, patience),
        ExprView::Logical { .. } => lemma_evaluate_logical(m, e, reply, patience),
        ExprView::Variable(_) => lemma_evaluate_variable(m, e, reply, patience),
        ExprView::Assign { .. } => lemma_evaluate_assign(m, e, reply, patience),
        ExprView::Call { .. } => lemma_evaluate_call(m, e, reply, patience),
    }
}

#[verifier::rlimit(50)]
proof fn lemma_evaluate_literal(
    m: InterpreterView,
    e: ExprView,
    reply: spec_fn(RequestView) -> Number,
    patience: nat,
)
    requires
        m.control == ControlView::Eval(e),
        e is Literal,
    ensures
        evaluated(m, e, reply, patience),
    decreases patience, expr_size(e), 0nat,
{
    let height = m.frames.len();
    let run = evaluate(e, m.scopes, m.env, height, reply, patience);
    let begun = m.step().0;
    lemma_one(m, reply);
    m.lemma_home_is_kept();
    match e {
        ExprView::Literal(l) => {
            match l {
                LiteralView::Number(numeral) => {
                    lemma_asked(m, reply);
                },
                _ => {},
            }
        },
        _ => {},
    }
}

#[verifier::rlimit(50)]
proof fn lemma_evaluate_grouping(
    m: InterpreterView,
    e: ExprView,
    reply: spec_fn(RequestView) -> Number,
    patience: nat,
)
    requires
        m.control == ControlView::Eval(e),
        e is Grouping,
    ensures
        evaluated(m, e, reply, patience),
    decreases patience, expr_size(e), 0nat,
{
    let height = m.frames.len();
    let run = evaluate(e, m.scopes, m.env, height, reply, patience);
    let begun = m.step().0;
    lemma_one(m, reply);
    m.lemma_home_is_kept();
    match e {
        ExprView::Grouping { expression } => {
            lemma_evaluate(begun, *expression, reply, patience);
            let inner = evaluate(*expression, m.scopes, m.env, height, reply, patience);
            lemma_begins(*expression, StmtView::Print(e), m.scopes, m.env, height, reply, patience);
            if !(inner.ended is Exhausted) {
                lemma_begun(m, inner, m, reply);
            }
        },
        _ => {},
    }
}

#[verifier::rlimit(50)]
proof fn lemma_evaluate_unary(
    m: InterpreterView,
    e: ExprView,
    reply: spec_fn(RequestView) -> Number,
    patience: nat,
)
    requires
        m.control == ControlView::Eval(e),
        e is Unary,
    ensures
        evaluated(m, e, reply, patience),
    decreases patience, expr_size(e), 0nat,
{
    let height = m.frames.len();
    let run = evaluate(e, m.scopes, m.env, height, reply, patience);
    let begun = m.step().0;
    lemma_one(m, reply);
    m.lemma_home_is_kept();
    match e {
        ExprView::Unary { op, right } => {
            lemma_evaluate(begun, *right, reply, patience);
            let inner = evaluate(*right, m.scopes, m.env, height + 1, reply, patience);
            lemma_begins(*right, StmtView::Print(e), m.scopes, m.env, height + 1, reply, patience);
            if !(inner.ended is Exhausted) {
                lemma_begun(m, inner, begun, reply);
                let operand = inner.begun(one());
                assert(begun.frames.drop_last() =~= m.frames);
                if let Ended::Value(v) = operand.ended {
                    let middle = landing(begun, operand);
                    match apply_unary(op.type_, v) {
                        Ok(r) => lemma_ending(
                            m,
                            operand,
                            middle,
                            Ended::Value(r),
                            operand.scopes,
                            m.env,
                            m,
                            reply,
                        ),
                        Err(message) => lemma_ending(
                            m,
                            operand,
                            middle,
                            crate::meaning::failure(op, message),
                            operand.scopes,
                            m.env,
                            m,
                            reply,
                        ),
                    }
                }
            }
        },
        _ => {},
    }
}

#[verifier::rlimit(50)]
proof fn lemma_evaluate_binary(
    m: InterpreterView,
    e: ExprView,
    reply: spec_fn(RequestView) -> Number,
    patience: nat,
)
    requires
        m.control == ControlView::Eval(e),
        e is Binary,
    ensures
        evaluated(m, e, reply, patience),
    decreases patience, expr_size(e), 0nat,
{
    let height = m.frames.len();
    let run = evaluate(e, m.scopes, m.env, height, reply, patience);
    let begun = m.step().0;
    lemma_one(m, reply);
    m.lemma_home_is_kept();
    match e {
        ExprView::Binary { left, op, right } => {
            lemma_evaluate(begun, *left, reply, patience);
            let inner = evaluate(*left, m.scopes, m.env, height + 1, reply, patience);
            lemma_begins(*left, StmtView::Print(e), m.scopes, m.env, height + 1, reply, patience);
            if !(inner.ended is Exhausted) {
                lemma_begun(m, inner, begun, reply);
                let first = inner.begun(one());
                assert(begun.frames.drop_last() =~= m.frames);
                if let Ended::Value(l) = first.ended {
                    let middle = landing(begun, first);
                    let turned = middle.step().0;
                    assert(turned.frames.drop_last() =~= m.frames);
                    lemma_evaluate(turned, *right, reply, patience);
                    let other = evaluate(*right, first.scopes, m.env, height + 1, reply, patience);
                    lemma_begins(
                        *right,
                        StmtView::Print(e),
                        first.scopes,
                        m.env,
                        height + 1,
                        reply,
                        patience,
                    );
                    if !(other.ended is Exhausted) {
                        lemma_begun(middle, other, turned, reply);
                        lemma_following(m, first, middle, other.begun(one()), turned, reply);
                        let second = other.begun(one()).following(first);
                        if let Ended::Value(r) = second.ended {
                            lemma_applied(m, second, op, l, r, reply);
                        }
                    }
                }
            }
        },
        _ => {},
    }
}

#[verifier::rlimit(50)]
proof fn lemma_evaluate_logical(
    m: InterpreterView,
    e: ExprView,
    reply: spec_fn(RequestView) -> Number,
    patience: nat,
)
    requires
        m.control == ControlView::Eval(e),
        e is Logical,
    ensures
        evaluated(m, e, reply, patience),
    decreases patience, expr_size(e), 0nat,
{
    let height = m.frames.len();
    let run = evaluate(e, m.scopes, m.env, height, reply, patience);
    let begun = m.step().0;
    lemma_one(m, reply);
    m.lemma_home_is_kept();
    match e {
        ExprView::Logical { left, op, right } => {
            lemma_evaluate(begun, *left, reply, patience);
            let inner = evaluate(*left, m.scopes, m.env, height + 1, reply, patience);
            lemma_begins(*left, StmtView::Print(e), m.scopes, m.env, height + 1, reply, patience);
            if !(inner.ended is Exhausted) {
                lemma_begun(m, inner, begun, reply);
                let first = inner.begun(one());
                assert(begun.frames.drop_last() =~= m.frames);
                if let Ended::Value(l) = first.ended {
                    let middle = landing(begun, first);
                    if (op.type_ == TokenType::Or) == l.truthy() {
                        lemma_ending(
                            m,
                            first,
                            middle,
                            Ended::Value(l),
                            first.scopes,
                            m.env,
                            m,
                            reply,
                        );
                    } else {
                        let turned = middle.step().0;
                        lemma_evaluate(turned, *right, reply, patience);
                        let other = evaluate(*right, first.scopes, m.env, height, reply, patience);
                        lemma_begins(
                            *right,
                            StmtView::Print(e),
                            first.scopes,
                            m.env,
                            height,
                            reply,
                            patience,
                        );
                        if !(other.ended is Exhausted) {
                            lemma_begun(middle, other, m, reply);
                            lemma_following(m, first, middle, other.begun(one()), m, reply);
                        }
                    }
                }
            }
        },
        _ => {},
    }
}

#[verifier::rlimit(50)]
proof fn lemma_evaluate_variable(
    m: InterpreterView,
    e: ExprView,
    reply: spec_fn(RequestView) -> Number,
    patience: nat,
)
    requires
        m.control == ControlView::Eval(e),
        e is Variable,
    ensures
        evaluated(m, e, reply, patience),
    decreases patience, expr_size(e), 0nat,
{
    let height = m.frames.len();
    let run = evaluate(e, m.scopes, m.env, height, reply, patience);
    let begun = m.step().0;
    lemma_one(m, reply);
    m.lemma_home_is_kept();
    match e {
        ExprView::Variable(name) => {},
        _ => {},
    }
}

#[verifier::rlimit(50)]
proof fn lemma_evaluate_assign(
    m: InterpreterView,
    e: ExprView,
    reply: spec_fn(RequestView) -> Number,
    patience: nat,
)
    requires
        m.control == ControlView::Eval(e),
        e is Assign,
    ensures
        evaluated(m, e, reply, patience),
    decreases patience, expr_size(e), 0nat,
{
    let height = m.frames.len();
    let run = evaluate(e, m.scopes, m.env, height, reply, patience);
    let begun = m.step().0;
    lemma_one(m, reply);
    m.lemma_home_is_kept();
    match e {
        ExprView::Assign { name, value } => {
            lemma_evaluate(begun, *value, reply, patience);
            let inner = evaluate(*value, m.scopes, m.env, height + 1, reply, patience);
            lemma_begins(*value, StmtView::Print(e), m.scopes, m.env, height + 1, reply, patience);
            if !(inner.ended is Exhausted) {
                lemma_begun(m, inner, begun, reply);
                let given = inner.begun(one());
                assert(begun.frames.drop_last() =~= m.frames);
                if let Ended::Value(v) = given.ended {
                    let middle = landing(begun, given);
                    match resolve(given.scopes, m.env as int, name.lexeme) {
                        Some(s) => lemma_ending(
                            m,
                            given,
                            middle,
                            Ended::Value(v),
                            bound(given.scopes, s, name.lexeme, v),
                            m.env,
                            m,
                            reply,
                        ),
                        None => lemma_ending(
                            m,
                            given,
                            middle,
                            Ended::Failed(undefined(name)),
                            given.scopes,
                            m.env,
                            m,
                            reply,
                        ),
                    }
                }
            }
        },
        _ => {},
    }
}

#[verifier::rlimit(50)]
proof fn lemma_evaluate_call(
    m: InterpreterView,
    e: ExprView,
    reply: spec_fn(RequestView) -> Number,
    patience: nat,
)
    requires
        m.control == ControlView::Eval(e),
        e is Call,
    ensures
        evaluated(m, e, reply, patience),
    decreases patience, expr_size(e), 0nat,
{
    let height = m.frames.len();
    let run = evaluate(e, m.scopes, m.env, height, reply, patience);
    let begun = m.step().0;
    lemma_one(m, reply);
    m.lemma_home_is_kept();
    match e {
        ExprView::Call { callee, paren, arguments } => {
            lemma_evaluate(begun, *callee, reply, patience);
            let inner = evaluate(*callee, m.scopes, m.env, height + 1, reply, patience);
            lemma_begins(*callee, StmtView::Print(e), m.scopes, m.env, height + 1, reply, patience);
            if !(inner.ended is Exhausted) {
                lemma_begun(m, inner, begun, reply);
                let target = inner.begun(one());
                assert(begun.frames.drop_last() =~= m.frames);
                if let Ended::Value(f) = target.ended {
                    let middle = landing(begun, target);
                    let idle = InterpreterView {
                        control: ControlView::Done,
                        frames: m.frames,
                        ..middle
                    };
                    if arguments.len() == 0 {
                        if patience > 0 {
                            lemma_called(idle, m, f, Seq::empty(), paren, reply, (patience - 1) as nat);
                            let made = called(
                                f,
                                Seq::empty(),
                                paren,
                                target.scopes,
                                m.env,
                                height,
                                reply,
                                (patience - 1) as nat,
                            );
                            if !(made.ended is Exhausted) {
                                lemma_made(middle, made, m, reply);
                                lemma_following(m, target, middle, made.begun(one()), m, reply);
                            }
                        }
                    } else {
                        let waiting = FrameView::Args {
                            paren,
                            callee: f,
                            values: Seq::empty(),
                            arguments,
                        };
                        let virtual_state = InterpreterView {
                            control: ControlView::Eval(arguments[0]),
                            frames: m.frames.push(waiting),
                            ..middle
                        };
                        lemma_pass(
                            virtual_state,
                            m,
                            f,
                            Seq::empty(),
                            arguments,
                            paren,
                            reply,
                            patience,
                        );
                        let passed = pass(
                            f,
                            Seq::empty(),
                            arguments,
                            paren,
                            target.scopes,
                            m.env,
                            height,
                            reply,
                            patience,
                        );
                        if !(passed.ended is Exhausted) {
                            lemma_pass_begins(
                                f,
                                Seq::empty(),
                                arguments,
                                paren,
                                target.scopes,
                                m.env,
                                height,
                                reply,
                                patience,
                            );
                            lemma_same_start(middle, virtual_state, passed.moves, reply);
                            lemma_following(m, target, middle, passed, m, reply);
                        }
                    }
                }
            }
        },
        _ => {},
    }
}

/// The moves of the passing of arguments begin with a step.
pub proof fn lemma_pass_begins(
    callee: LitValView,
    values: Seq<LitValView>,
    arguments: Seq<ExprView>,
    paren: TokenView,
    scopes: Seq<ScopeView>,
    env: usize,
    height: nat,
    reply: spec_fn(RequestView) -> Number,
    patience: nat,
)
    requires
        values.len() < arguments.len(),
    ensures
        pass(callee, values, arguments, paren, scopes, env, height, reply, patience).moves.len()
            > 0,
        pass(callee, values, arguments, paren, scopes, env, height, reply, patience).moves[0]
            is None,
{
    lemma_begins(
        arguments[values.len() as int],
        StmtView::Print(arguments[0]),
        scopes,
        env,
        height + 1,
        reply,
        patience,
    );
}

/// A step that makes a call, then what comes of the call: the machine
/// arrives where the call ends.
pub proof fn lemma_made(
    m: InterpreterView,
    made: Run,
    base: InterpreterView,
    reply: spec_fn(RequestView) -> Number,
)
    requires
        !(made.ended is Exhausted),
        !(m.control is Asking),
        !(m.step().1 is Print),
        !(m.step().1 is PrintNumber),
        made.moves.len() == 0 ==> (made.ended matches Ended::Failed(e) && m.step().1
            == RequestView::Failed(e) && m.step().0 == landing(base, made) && made.lines.len()
            == 0),
        made.moves.len() > 0 ==> arrives(m.step().0, base, made, reply),
    ensures
        arrives(m, base, made.begun(one()), reply),
{
    lemma_one(m, reply);
    lemma_join(m, one(), made.moves, reply);
    assert(Seq::<RequestView>::empty() + made.lines =~= made.lines);
    if made.moves.len() == 0 {
        assert(one() + made.moves =~= one());
        assert(made.lines =~= Seq::empty());
    }
}

/// The machine arrives at the call once the arguments are evaluated.
#[verifier::rlimit(50)]
pub proof fn lemma_pass(
    m: InterpreterView,
    base: InterpreterView,
    callee: LitValView,
    values: Seq<LitValView>,
    arguments: Seq<ExprView>,
    paren: TokenView,
    reply: spec_fn(RequestView) -> Number,
    patience: nat,
)
    requires
        values.len() < arguments.len(),
        m.control == ControlView::Eval(arguments[values.len() as int]),
        m.frames == base.frames.push(FrameView::Args { paren, callee, values, arguments }),
        base.globals == m.globals,
        base.env == m.env,
    ensures
        arrives(
            m,
            base,
            pass(
                callee,
                values,
                arguments,
                paren,
                m.scopes,
                m.env,
                base.frames.len(),
                reply,
                patience,
            ),
            reply,
        ),
        !(pass(
            callee,
            values,
            arguments,
            paren,
            m.scopes,
            m.env,
            base.frames.len(),
            reply,
            patience,
        ).ended is Return),
        pass(
            callee,
            values,
            arguments,
            paren,
            m.scopes,
            m.env,
            base.frames.len(),
            reply,
            patience,
        ).ended is Value ==> pass(
            callee,
            values,
            arguments,
            paren,
            m.scopes,
            m.env,
            base.frames.len(),
            reply,
            patience,
        ).env == m.env,
    decreases patience, exprs_size(arguments), arguments.len() - values.len(),
{
    let height = base.frames.len();
    let this = arguments[values.len() as int];
    lemma_expr_in_list(arguments, values.len() as int);
    lemma_home_pushed(base.frames, FrameView::Args { paren, callee, values, arguments }, m.env);
    lemma_evaluate(m, this, reply, patience);
    let next = evaluate(this, m.scopes, m.env, height + 1, reply, patience);
    if let Ended::Value(v) = next.ended {
        let middle = landing(m, next);
        assert(middle.frames.drop_last() =~= base.frames);
        let idle = InterpreterView { control: ControlView::Done, frames: base.frames, ..middle };
        if values.len() + 1 < arguments.len() {
            let waiting = FrameView::Args { paren, callee, values: values.push(v), arguments };
            let virtual_state = InterpreterView {
                control: ControlView::Eval(arguments[values.len() as int + 1]),
                frames: base.frames.push(waiting),
                ..middle
            };
            lemma_home_pushed(
                base.frames,
                FrameView::Args { paren, callee, values, arguments },
                m.env,
            );
            lemma_pass(
                virtual_state,
                base,
                callee,
                values.push(v),
                arguments,
                paren,
                reply,
                patience,
            );
            let rest = pass(
                callee,
                values.push(v),
                arguments,
                paren,
                next.scopes,
                m.env,
                height,
                reply,
                patience,
            );
            if !(rest.ended is Exhausted) {
                lemma_pass_begins(
                    callee,
                    values.push(v),
                    arguments,
                    paren,
                    next.scopes,
                    m.env,
                    height,
                    reply,
                    patience,
                );
                lemma_same_start(middle, virtual_state, rest.moves, reply);
                lemma_following(m, next, middle, rest, base, reply);
            }
        } else if patience > 0 {
            lemma_called(idle, base, callee, values.push(v), paren, reply, (patience - 1) as nat);
            let made = called(
                callee,
                values.push(v),
                paren,
                next.scopes,
                m.env,
                height,
                reply,
                (patience - 1) as nat,
            );
            if !(made.ended is Exhausted) {
                lemma_made(middle, made, base, reply);
                lemma_following(m, next, middle, made.begun(one()), base, reply);
            }
        }
    }
}

/// The machine arrives where a call ends. `idle` is the state from which
/// the call is made, with nothing under way; `base` is that state as far as
/// the frames and the global scope go.
#[verifier::rlimit(50)]
pub proof fn lemma_called(
    idle: InterpreterView,
    base: InterpreterView,
    callee: LitValView,
    args: Seq<LitValView>,
    paren: TokenView,
    reply: spec_fn(RequestView) -> Number,
    patience: nat,
)
    requires
        idle.control is Done,
        base.frames == idle.frames,
        base.globals == idle.globals,
        base.env == idle.env,
    ensures
        ({
            let made = called(
                callee,
                args,
                paren,
                idle.scopes,
                idle.env,
                idle.frames.len(),
                reply,
                patience,
            );
            let (entered, request) = idle.call(callee, args, paren);
            made.ended is Exhausted || {
                &&& !(made.ended is Return)
                &&& !(request is Print)
                &&& !(request is PrintNumber)
                &&& made.ended is Value ==> made.env == idle.env
                &&& made.moves.len() == 0 ==> (made.ended matches Ended::Failed(e) && request
                    == RequestView::Failed(e) && entered == landing(base, made)
                    && made.lines.len() == 0)
                &&& made.moves.len() > 0 ==> arrives(entered, base, made, reply)
            }
        }),
    decreases patience, value_size(callee), 0nat,
{
    let height = idle.frames.len();
    let made = called(callee, args, paren, idle.scopes, idle.env, height, reply, patience);
    let (entered, request) = idle.call(callee, args, paren);
    match callee {
        LitValView::Function(f) => {
            if args.len() == f.params.len() && height < MAX_FRAMES {
                let lower = InterpreterView {
                    frames: idle.frames.push(FrameView::Call { env: idle.env }),
                    env: idle.env,
                    ..base
                };
                lemma_home_pushed(idle.frames, FrameView::Call { env: idle.env }, idle.env);
                assert(entered.frames.drop_last() =~= lower.frames);
                lemma_run_all(entered, lower, f.body, 0, idle.env, reply, patience);
                let body = run_all(
                    f.body,
                    0,
                    entered.scopes,
                    entered.env,
                    idle.env,
                    height + 1,
                    reply,
                    patience,
                );
                lemma_run_all_begins(
                    f.body,
                    0,
                    entered.scopes,
                    entered.env,
                    idle.env,
                    height + 1,
                    reply,
                    patience,
                );
                if !(body.ended is Exhausted) {
                    let middle = landing(lower, body);
                    assert(lower.frames.drop_last() =~= idle.frames);
                    match body.ended {
                        Ended::Value(_) => lemma_ending(
                            entered,
                            body,
                            middle,
                            Ended::Value(LitValView::Nil),
                            body.scopes,
                            idle.env,
                            base,
                            reply,
                        ),
                        Ended::Return(v) => lemma_ending(
                            entered,
                            body,
                            middle,
                            Ended::Value(v),
                            body.scopes,
                            idle.env,
                            base,
                            reply,
                        ),
                        _ => {
                            assert(landing(lower, body) == landing(base, body));
                        },
                    }
                }
            }
        },
        LitValView::Clock => {
            if args.len() == 0 {
                lemma_answered(entered, reply);
            }
        },
        _ => {},
    }
}

/// The moves of a run of statements begin with a step, unless the run is
/// exhausted.
pub proof fn lemma_run_all_begins(
    stmts: Seq<StmtView>,
    next: nat,
    scopes: Seq<ScopeView>,
    env: usize,
    back: usize,
    height: nat,
    reply: spec_fn(RequestView) -> Number,
    patience: nat,
)
    ensures
        ({
            let run = run_all(stmts, next, scopes, env, back, height, reply, patience);
            run.ended is Exhausted || (run.moves.len() > 0 && run.moves[0] is None)
        }),
{
    if next < stmts.len() && next < usize::MAX {
        lemma_begins(
            ExprView::Literal(LiteralView::Nil),
            stmts[next as int],
            scopes,
            env,
            height + 1,
            reply,
            patience,
        );
    }
}

/// The machine arrives where the statements of a list come to.
#[verifier::rlimit(50)]
pub proof fn lemma_run_all(
    m: InterpreterView,
    base: InterpreterView,
    stmts: Seq<StmtView>,
    next: nat,
    back: usize,
    reply: spec_fn(RequestView) -> Number,
    patience: nat,
)
    requires
        m.control is Value,
        next <= usize::MAX,
        m.frames == base.frames.push(FrameView::Block { stmts, next: next as usize, env: back }),
        base.globals == m.globals,
        base.env == back,
    ensures
        arrives(
            m,
            base,
            run_all(stmts, next, m.scopes, m.env, back, base.frames.len(), reply, patience),
            reply,
        ),
        run_all(stmts, next, m.scopes, m.env, back, base.frames.len(), reply, patience).ended
            is Value || run_all(
            stmts,
            next,
            m.scopes,
            m.env,
            back,
            base.frames.len(),
            reply,
            patience,
        ).ended is Return ==> run_all(
            stmts,
            next,
            m.scopes,
            m.env,
            back,
            base.frames.len(),
            reply,
            patience,
        ).env == back,
    decreases patience, stmts_size(stmts), stmts.len() - next,
{
    let height = base.frames.len();
    let run = run_all(stmts, next, m.scopes, m.env, back, height, reply, patience);
    lemma_one(m, reply);
    assert(m.frames.drop_last() =~= base.frames);
    if next < stmts.len() && next >= usize::MAX {
    } else if next < stmts.len() {
        lemma_stmt_in_list(stmts, next as int);
        let again = FrameView::Block { stmts, next: (next + 1) as usize, env: back };
        let virtual_state = InterpreterView {
            control: ControlView::Exec(stmts[next as int]),
            frames: base.frames.push(again),
            ..m
        };
        lemma_execute(virtual_state, stmts[next as int], reply, patience);
        let this = execute(stmts[next as int], m.scopes, m.env, height + 1, reply, patience);
        lemma_begins(
            ExprView::Literal(LiteralView::Nil),
            stmts[next as int],
            m.scopes,
            m.env,
            height + 1,
            reply,
            patience,
        );
        if !(this.ended is Exhausted) {
            lemma_same_start(m, virtual_state, this.moves, reply);
            let middle = landing(virtual_state, this);
            match this.ended {
                Ended::Value(_) => {
                    assert(middle.frames.drop_last() =~= base.frames);
                    lemma_run_all(middle, base, stmts, next + 1, back, reply, patience);
                    let rest = run_all(
                        stmts,
                        next + 1,
                        this.scopes,
                        m.env,
                        back,
                        height,
                        reply,
                        patience,
                    );
                    lemma_run_all_begins(
                        stmts,
                        next + 1,
                        this.scopes,
                        m.env,
                        back,
                        height,
                        reply,
                        patience,
                    );
                    if !(rest.ended is Exhausted) {
                        lemma_following(m, this, middle, rest, base, reply);
                    }
                },
                Ended::Return(v) => {
                    assert(middle.frames.drop_last() =~= base.frames);
                    lemma_ending(
                        m,
                        this,
                        middle,
                        Ended::Return(v),
                        this.scopes,
                        back,
                        base,
                        reply,
                    );
                },
                _ => {
                    lemma_home_pushed(base.frames, again, m.env);
                    assert(landing(virtual_state, this) == landing(base, this));
                },
            }
        }
    } else {
    }
}

/// The machine arrives where a `while` loop comes to.
#[verifier::rlimit(50)]
pub proof fn lemma_repeat(
    m: InterpreterView,
    base: InterpreterView,
    condition: ExprView,
    body: StmtView,
    reply: spec_fn(RequestView) -> Number,
    patience: nat,
)
    requires
        m.control == ControlView::Eval(condition),
        m.frames == base.frames.push(FrameView::Test { condition, body }),
        base.globals == m.globals,
        base.env == m.env,
    ensures
        arrives(
            m,
            base,
            repeat(
                StmtView::While { condition, body: Box::new(body) },
                m.scopes,
                m.env,
                base.frames.len(),
                reply,
                patience,
            ),
            reply,
        ),
        repeat(
            StmtView::While { condition, body: Box::new(body) },
            m.scopes,
            m.env,
            base.frames.len(),
            reply,
            patience,
        ).ended is Value || repeat(
            StmtView::While { condition, body: Box::new(body) },
            m.scopes,
            m.env,
            base.frames.len(),
            reply,
            patience,
        ).ended is Return ==> repeat(
            StmtView::While { condition, body: Box::new(body) },
            m.scopes,
            m.env,
            base.frames.len(),
            reply,
            patience,
        ).env == m.env,
    decreases patience, stmt_size(StmtView::While { condition, body: Box::new(body) }), 1nat,
{
    let height = base.frames.len();
    let s = StmtView::While { condition, body: Box::new(body) };
    lemma_evaluate(m, condition, reply, patience);
    let test = evaluate(condition, m.scopes, m.env, height + 1, reply, patience);
    if let Ended::Value(v) = test.ended {
        let tested = landing(m, test);
        assert(tested.frames.drop_last() =~= base.frames);
        if v.truthy() {
            let running = tested.step().0;
            lemma_execute(running, body, reply, patience);
            let inner = execute(body, test.scopes, m.env, height + 1, reply, patience);
            lemma_begins(condition, body, test.scopes, m.env, height + 1, reply, patience);
            if !(inner.ended is Exhausted) {
                lemma_begun(tested, inner, running, reply);
                lemma_following(m, test, tested, inner.begun(one()), running, reply);
                let round = inner.begun(one()).following(test);
                let middle = landing(running, round);
                assert(running.frames.drop_last() =~= base.frames);
                match round.ended {
                    Ended::Value(_) => {
                        if patience > 0 {
                            let again = middle.step().0;
                            lemma_repeat(
                                again,
                                base,
                                condition,
                                body,
                                reply,
                                (patience - 1) as nat,
                            );
                            let rest = repeat(
                                s,
                                round.scopes,
                                m.env,
                                height,
                                reply,
                                (patience - 1) as nat,
                            );
                            lemma_begins(
                                condition,
                                body,
                                round.scopes,
                                m.env,
                                height + 1,
                                reply,
                                (patience - 1) as nat,
                            );
                            if !(rest.ended is Exhausted) {
                                lemma_repeat_begins(
                                    condition,
                                    body,
                                    round.scopes,
                                    m.env,
                                    height,
                                    reply,
                                    (patience - 1) as nat,
                                );
                                lemma_begun(middle, rest, base, reply);
                                lemma_following(m, round, middle, rest.begun(one()), base, reply);
                            }
                        }
                    },
                    Ended::Return(r) => {
                        lemma_ending(
                            m,
                            round,
                            middle,
                            Ended::Return(r),
                            round.scopes,
                            m.env,
                            base,
                            reply,
                        );
                    },
                    _ => {
                        lemma_home_pushed(
                            base.frames,
                            FrameView::Loop { condition, body },
                            m.env,
                        );
                        assert(landing(running, round) == landing(base, round));
                    },
                }
            }
        } else {
            lemma_ending(
                m,
                test,
                tested,
                Ended::Value(LitValView::Nil),
                test.scopes,
                m.env,
                base,
                reply,
            );
        }
    } else if test.ended is Failed {
        lemma_home_pushed(base.frames, FrameView::Test { condition, body }, m.env);
        assert(landing(m, test) == landing(base, test));
    }
}

/// The moves of a loop begin with a step, unless the loop is exhausted.
pub proof fn lemma_repeat_begins(
    condition: ExprView,
    body: StmtView,
    scopes: Seq<ScopeView>,
    env: usize,
    height: nat,
    reply: spec_fn(RequestView) -> Number,
    patience: nat,
)
    ensures
        ({
            let run = repeat(
                StmtView::While { condition, body: Box::new(body) },
                scopes,
                env,
                height,
                reply,
                patience,
            );
            run.ended is Exhausted || (run.moves.len() > 0 && run.moves[0] is None)
        }),
{
    lemma_begins(condition, body, scopes, env, height + 1, reply, patience);
}

/// The machine arrives at the effect of a statement.
pub proof fn lemma_execute(
    m: InterpreterView,
    s: StmtView,
    reply: spec_fn(RequestView) -> Number,
    patience: nat,
)
    requires
        m.control == ControlView::Exec(s),
    ensures
        executed(m, s, reply, patience),
    decreases patience, stmt_size(s), 3nat,
{
    match s {
        StmtView::Expr(_) => lemma_execute_expr(m, s, reply, patience),
        StmtView::Print(_) => lemma_execute_print(m, s, reply, patience),
        StmtView::Var { .. } => lemma_execute_var(m, s, reply, patience),
        StmtView::Block(_) => lemma_execute_block(m, s, reply, patience),
        StmtView::If { .. } => lemma_execute_if(m, s, reply, patience),
        StmtView::While { .. } => lemma_execute_while(m, s, reply, patience),
        StmtView::Function { .. } => lemma_execute_function(m, s, reply, patience),
        StmtView::Return { .. } => lemma_execute_return(m, s, reply, patience),
    }
}

#[verifier::rlimit(50)]
proof fn lemma_execute_expr(
    m: InterpreterView,
    s: StmtView,
    reply: spec_fn(RequestView) -> Number,
    patience: nat,
)
    requires
        m.control == ControlView::Exec(s),
        s is Expr,
    ensures
        executed(m, s, reply, patience),
    decreases patience, stmt_size(s), 2nat,
{
    let height = m.frames.len();
    let begun = m.step().0;
    lemma_one(m, reply);
    m.lemma_home_is_kept();
    match s {
        StmtView::Expr(e) => {
            lemma_evaluate(begun, e, reply, patience);
            let inner = evaluate(e, m.scopes, m.env, height, reply, patience);
            lemma_begins(e, s, m.scopes, m.env, height, reply, patience);
            if !(inner.ended is Exhausted) {
                lemma_begun(m, inner, m, reply);
            }
        },
        _ => {},
    }
}

#[verifier::rlimit(50)]
proof fn lemma_execute_print(
    m: InterpreterView,
    s: StmtView,
    reply: spec_fn(RequestView) -> Number,
    patience: nat,
)
    requires
        m.control == ControlView::Exec(s),
        s is Print,
    ensures
        executed(m, s, reply, patience),
    decreases patience, stmt_size(s), 2nat,
{
    let height = m.frames.len();
    let begun = m.step().0;
    lemma_one(m, reply);
    m.lemma_home_is_kept();
    match s {
        StmtView::Print(e) => {
            lemma_evaluate(begun, e, reply, patience);
            let inner = evaluate(e, m.scopes, m.env, height + 1, reply, patience);
            lemma_begins(e, s, m.scopes, m.env, height + 1, reply, patience);
            if !(inner.ended is Exhausted) {
                lemma_begun(m, inner, begun, reply);
                let shown = inner.begun(one());
                assert(begun.frames.drop_last() =~= m.frames);
                if let Ended::Value(v) = shown.ended {
                    let middle = landing(begun, shown);
                    lemma_one(middle, reply);
                    lemma_join(m, shown.moves, one(), reply);
                    assert(shown.lines + seq![middle.step().1] =~= shown.lines.push(
                        middle.step().1,
                    ));
                }
            }
        },
        _ => {},
    }
}

#[verifier::rlimit(50)]
proof fn lemma_execute_var(
    m: InterpreterView,
    s: StmtView,
    reply: spec_fn(RequestView) -> Number,
    patience: nat,
)
    requires
        m.control == ControlView::Exec(s),
        s is Var,
    ensures
        executed(m, s, reply, patience),
    decreases patience, stmt_size(s), 2nat,
{
    let height = m.frames.len();
    let begun = m.step().0;
    lemma_one(m, reply);
    m.lemma_home_is_kept();
    match s {
        StmtView::Var { name, initializer } => {
            if let Some(e) = initializer {
                lemma_evaluate(begun, e, reply, patience);
                let inner = evaluate(e, m.scopes, m.env, height + 1, reply, patience);
                lemma_begins(e, s, m.scopes, m.env, height + 1, reply, patience);
                if !(inner.ended is Exhausted) {
                    lemma_begun(m, inner, begun, reply);
                    let given = inner.begun(one());
                    assert(begun.frames.drop_last() =~= m.frames);
                    if let Ended::Value(v) = given.ended {
                        lemma_ending(
                            m,
                            given,
                            landing(begun, given),
                            Ended::Value(LitValView::Nil),
                            bound(given.scopes, m.env as int, name.lexeme, v),
                            m.env,
                            m,
                            reply,
                        );
                    }
                }
            }
        },
        _ => {},
    }
}

#[verifier::rlimit(50)]
proof fn lemma_execute_block(
    m: InterpreterView,
    s: StmtView,
    reply: spec_fn(RequestView) -> Number,
    patience: nat,
)
    requires
        m.control == ControlView::Exec(s),
        s is Block,
    ensures
        executed(m, s, reply, patience),
    decreases patience, stmt_size(s), 2nat,
{
    let height = m.frames.len();
    let begun = m.step().0;
    lemma_one(m, reply);
    m.lemma_home_is_kept();
    match s {
        StmtView::Block(stmts) => {
            assert(begun.frames.drop_last() =~= m.frames);
            lemma_run_all(begun, m, stmts, 0, m.env, reply, patience);
            let inner = run_all(
                stmts,
                0,
                begun.scopes,
                begun.env,
                m.env,
                height,
                reply,
                patience,
            );
            lemma_run_all_begins(
                stmts,
                0,
                begun.scopes,
                begun.env,
                m.env,
                height,
                reply,
                patience,
            );
            if !(inner.ended is Exhausted) {
                lemma_begun(m, inner, m, reply);
            }
        },
        _ => {},
    }
}

#[verifier::rlimit(50)]
proof fn lemma_execute_if(
    m: InterpreterView,
    s: StmtView,
    reply: spec_fn(RequestView) -> Number,
    patience: nat,
)
    requires
        m.control == ControlView::Exec(s),
        s is If,
    ensures
        executed(m, s, reply, patience),
    decreases patience, stmt_size(s), 2nat,
{
    let height = m.frames.len();
    let begun = m.step().0;
    lemma_one(m, reply);
    m.lemma_home_is_kept();
    match s {
        StmtView::If { condition, then_branch, else_branch } => {
            lemma_evaluate(begun, condition, reply, patience);
            let inner = evaluate(condition, m.scopes, m.env, height + 1, reply, patience);
            lemma_begins(condition, s, m.scopes, m.env, height + 1, reply, patience);
            if !(inner.ended is Exhausted) {
                lemma_begun(m, inner, begun, reply);
                let test = inner.begun(one());
                assert(begun.frames.drop_last() =~= m.frames);
                if let Ended::Value(v) = test.ended {
                    let middle = landing(begun, test);
                    let chosen = middle.step().0;
                    if v.truthy() {
                        lemma_execute(chosen, *then_branch, reply, patience);
                        let branch = execute(
                            *then_branch,
                            test.scopes,
                            m.env,
                            height,
                            reply,
                            patience,
                        );
                        lemma_begins(
                            condition,
                            *then_branch,
                            test.scopes,
                            m.env,
                            height,
                            reply,
                            patience,
                        );
                        if !(branch.ended is Exhausted) {
                            lemma_begun(middle, branch, m, reply);
                            lemma_following(m, test, middle, branch.begun(one()), m, reply);
                        }
                    } else {
                        match else_branch {
                            Some(other) => {
                                lemma_execute(chosen, *other, reply, patience);
                                let branch = execute(
                                    *other,
                                    test.scopes,
                                    m.env,
                                    height,
                                    reply,
                                    patience,
                                );
                                lemma_begins(
                                    condition,
                                    *other,
                                    test.scopes,
                                    m.env,
                                    height,
                                    reply,
                                    patience,
                                );
                                if !(branch.ended is Exhausted) {
                                    lemma_begun(middle, branch, m, reply);
                                    lemma_following(
                                        m,
                                        test,
                                        middle,
                                        branch.begun(one()),
                                        m,
                                        reply,
                                    );
                                }
                            },
                            None => lemma_ending(
                                m,
                                test,
                                middle,
                                Ended::Value(LitValView::Nil),
                                test.scopes,
                                m.env,
                                m,
                                reply,
                            ),
                        }
                    }
                }
            }
        },
        _ => {},
    }
}

#[verifier::rlimit(50)]
proof fn lemma_execute_while(
    m: InterpreterView,
    s: StmtView,
    reply: spec_fn(RequestView) -> Number,
    patience: nat,
)
    requires
        m.control == ControlView::Exec(s),
        s is While,
    ensures
        executed(m, s, reply, patience),
    decreases patience, stmt_size(s), 2nat,
{
    let height = m.frames.len();
    let begun = m.step().0;
    lemma_one(m, reply);
    m.lemma_home_is_kept();
    match s {
        StmtView::While { condition, body } => {
            assert(begun.frames.drop_last() =~= m.frames);
            lemma_repeat(begun, m, condition, *body, reply, patience);
            let inner = repeat(s, m.scopes, m.env, height, reply, patience);
            lemma_repeat_begins(condition, *body, m.scopes, m.env, height, reply, patience);
            if !(inner.ended is Exhausted) {
                lemma_begun(m, inner, m, reply);
            }
        },
        _ => {},
    }
}

#[verifier::rlimit(50)]
proof fn lemma_execute_function(
    m: InterpreterView,
    s: StmtView,
    reply: spec_fn(RequestView) -> Number,
    patience: nat,
)
    requires
        m.control == ControlView::Exec(s),
        s is Function,
    ensures
        executed(m, s, reply, patience),
    decreases patience, stmt_size(s), 2nat,
{
    let height = m.frames.len();
    let begun = m.step().0;
    lemma_one(m, reply);
    m.lemma_home_is_kept();
    match s {
        StmtView::Function { name, params, body } => {},
        _ => {},
    }
}

#[verifier::rlimit(50)]
proof fn lemma_execute_return(
    m: InterpreterView,
    s: StmtView,
    reply: spec_fn(RequestView) -> Number,
    patience: nat,
)
    requires
        m.control == ControlView::Exec(s),
        s is Return,
    ensures
        executed(m, s, reply, patience),
    decreases patience, stmt_size(s), 2nat,
{
    let height = m.frames.len();
    let begun = m.step().0;
    lemma_one(m, reply);
    m.lemma_home_is_kept();
    match s {
        StmtView::Return { keyword, value } => {
            if let Some(e) = value {
                lemma_evaluate(begun, e, reply, patience);
                let inner = evaluate(e, m.scopes, m.env, height + 1, reply, patience);
                lemma_begins(e, s, m.scopes, m.env, height + 1, reply, patience);
                if !(inner.ended is Exhausted) {
                    lemma_begun(m, inner, begun, reply);
                    let given = inner.begun(one());
                    assert(begun.frames.drop_last() =~= m.frames);
                    if let Ended::Value(v) = given.ended {
                        lemma_ending(
                            m,
                            given,
                            landing(begun, given),
                            Ended::Return(v),
                            given.scopes,
                            m.env,
                            m,
                            reply,
                        );
                    }
                }
            }
        },
        _ => {},
    }
}

/// What a program comes to when a new machine runs it.
pub open spec fn performance(
    stmts: Seq<StmtView>,
    reply: spec_fn(RequestView) -> Number,
    patience: nat,
) -> Run {
    run_all(
        stmts,
        0,
        InterpreterView::initial().scopes,
        InterpreterView::initial().globals,
        InterpreterView::initial().globals,
        0,
        reply,
        patience,
    )
}

/// A new machine that is loaded with a program arrives where the program
/// comes to: it has the host write the lines of the program, in their order,
/// and ends with nothing put aside, or stops on the error of the program.
pub proof fn lemma_program_is_performed(
    stmts: Seq<StmtView>,
    reply: spec_fn(RequestView) -> Number,
    patience: nat,
)
    ensures
        arrives(
            InterpreterView::initial().load(stmts),
            InterpreterView::initial(),
            performance(stmts, reply, patience),
            reply,
        ),
        performance(stmts, reply, patience).ended is Value ==> landing(
            InterpreterView::initial(),
            performance(stmts, reply, patience),
        ).step().1 == RequestView::Done,
{
    let loaded = InterpreterView::initial().load(stmts);
    let base = InterpreterView::initial();
    assert(loaded.frames =~= base.frames.push(
        FrameView::Block { stmts, next: 0, env: base.globals },
    ));
    lemma_run_all(loaded, base, stmts, 0, base.globals, reply, patience);
}

} // verus!
