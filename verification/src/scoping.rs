//! Scoping, as the meaning of programs has it: whatever runs in a scope
//! defines names in that scope or in scopes made after it, and in no scope
//! that was there before. So what a block declares is gone when the block
//! is over, and what it shadowed is there again.

use vstd::prelude::*;
use crate::environment::{bound, lemma_resolved_holds, resolve, ScopeView};
use crate::expr::ExprView;
use crate::meaning::{
    called, evaluate, execute, expr_size, exprs_size, lemma_expr_in_list, lemma_stmt_in_list, pass,
    repeat, run_all, stmt_size, stmts_size, value_size, Ended,
};
use crate::semantics::{bind, lemma_bind_keeps_others, InterpreterView, RequestView, MAX_FRAMES};
use crate::stmt::StmtView;
use crate::token::TokenView;
use crate::types::{LitValView, LoxFunctionView, Number};

verus! {

/// Whether the first `old` scopes of `after` are those of `before` as far
/// as names go: each is enclosed as it was and holds the names it held, no
/// more and no less. The values may differ.
pub open spec fn same_names(after: Seq<ScopeView>, before: Seq<ScopeView>, old: nat) -> bool {
    &&& before.len() <= after.len()
    &&& old <= before.len()
    &&& forall|s: int|
        0 <= s < old ==> (#[trigger] after[s]).enclosing == before[s].enclosing
    &&& forall|s: int, name: Seq<char>|
        0 <= s < old ==> (#[trigger] after[s].values.contains_key(name))
            == before[s].values.contains_key(name)
}

/// A name is found from an old scope where it was found before, if the old
/// scopes hold the names they held and are enclosed by older scopes as far
/// as they are enclosed.
pub proof fn lemma_found_as_before(
    after: Seq<ScopeView>,
    before: Seq<ScopeView>,
    old: nat,
    from: int,
    name: Seq<char>,
)
    requires
        same_names(after, before, old),
        from < old,
    ensures
        resolve(after, from, name) == resolve(before, from, name),
    decreases from,
{
    if 0 <= from {
        if !before[from].values.contains_key(name) {
            match before[from].enclosing {
                Some(e) => {
                    if e < from {
                        lemma_found_as_before(after, before, old, e as int, name);
                    }
                },
                None => {},
            }
        }
    }
}

proof fn lemma_same_names_then(
    last: Seq<ScopeView>,
    middle: Seq<ScopeView>,
    first: Seq<ScopeView>,
    old: nat,
)
    requires
        same_names(middle, first, old),
        same_names(last, middle, old),
    ensures
        same_names(last, first, old),
{
    assert forall|s: int, name: Seq<char>| 0 <= s < old implies (
    #[trigger] last[s].values.contains_key(name)) == first[s].values.contains_key(name) by {
        assert(middle[s].values.contains_key(name) == first[s].values.contains_key(name));
    }
    assert forall|s: int| 0 <= s < old implies (#[trigger] last[s]).enclosing
        == first[s].enclosing by {
        assert(middle[s].enclosing == first[s].enclosing);
    }
}

proof fn lemma_bound_same_names(
    scopes: Seq<ScopeView>,
    scope: int,
    name: Seq<char>,
    value: LitValView,
    old: nat,
)
    requires
        old <= scopes.len(),
        scope >= old || (0 <= scope < scopes.len() && scopes[scope].values.contains_key(name)),
    ensures
        same_names(bound(scopes, scope, name, value), scopes, old),
{
}

proof fn lemma_bind_same_names(
    scopes: Seq<ScopeView>,
    scope: int,
    params: Seq<TokenView>,
    args: Seq<LitValView>,
    n: nat,
    old: nat,
)
    requires
        old <= scopes.len(),
        scope >= old,
    ensures
        same_names(bind(scopes, scope, params, args, n), scopes, old),
        bind(scopes, scope, params, args, n).len() == scopes.len(),
    decreases n,
{
    if n > 0 {
        lemma_bind_same_names(scopes, scope, params, args, (n - 1) as nat, old);
        let before = bind(scopes, scope, params, args, (n - 1) as nat);
        lemma_bound_same_names(before, scope, params[n - 1].lexeme, args[n - 1], old);
        lemma_same_names_then(bind(scopes, scope, params, args, n), before, scopes, old);
    }
}

/// What an expression is evaluated to in a scope that is not among the
/// first `old` leaves those with the names they had.
pub proof fn lemma_evaluate_keeps_names(
    e: ExprView,
    scopes: Seq<ScopeView>,
    env: usize,
    height: nat,
    reply: spec_fn(RequestView) -> Number,
    patience: nat,
    old: nat,
)
    requires
        old <= env,
        old <= scopes.len(),
    ensures
        same_names(evaluate(e, scopes, env, height, reply, patience).scopes, scopes, old),
    decreases patience, expr_size(e), 1nat,
{
    match e {
        ExprView::Grouping { expression } => {
            lemma_evaluate_keeps_names(*expression, scopes, env, height, reply, patience, old);
        },
        ExprView::Unary { op, right } => {
            lemma_evaluate_keeps_names(*right, scopes, env, height + 1, reply, patience, old);
        },
        ExprView::Binary { left, op, right } => {
            lemma_evaluate_keeps_names(*left, scopes, env, height + 1, reply, patience, old);
            let first = evaluate(*left, scopes, env, height + 1, reply, patience);
            if first.ended is Value {
                lemma_evaluate_keeps_names(
                    *right,
                    first.scopes,
                    env,
                    height + 1,
                    reply,
                    patience,
                    old,
                );
                let second = evaluate(*right, first.scopes, env, height + 1, reply, patience);
                lemma_same_names_then(second.scopes, first.scopes, scopes, old);
            }
        },
        ExprView::Logical { left, op, right } => {
            lemma_evaluate_keeps_names(*left, scopes, env, height + 1, reply, patience, old);
            let first = evaluate(*left, scopes, env, height + 1, reply, patience);
            if first.ended is Value {
                lemma_evaluate_keeps_names(*right, first.scopes, env, height, reply, patience, old);
                let second = evaluate(*right, first.scopes, env, height, reply, patience);
                lemma_same_names_then(second.scopes, first.scopes, scopes, old);
            }
        },
        ExprView::Assign { name, value } => {
            lemma_evaluate_keeps_names(*value, scopes, env, height + 1, reply, patience, old);
            let given = evaluate(*value, scopes, env, height + 1, reply, patience);
            if let Ended::Value(v) = given.ended {
                lemma_resolved_holds(given.scopes, env as int, name.lexeme);
                if let Some(s) = resolve(given.scopes, env as int, name.lexeme) {
                    lemma_bound_same_names(given.scopes, s, name.lexeme, v, old);
                    lemma_same_names_then(
                        bound(given.scopes, s, name.lexeme, v),
                        given.scopes,
                        scopes,
                        old,
                    );
                }
            }
        },
        ExprView::Call { callee, paren, arguments } => {
            lemma_evaluate_keeps_names(*callee, scopes, env, height + 1, reply, patience, old);
            let target = evaluate(*callee, scopes, env, height + 1, reply, patience);
            if let Ended::Value(f) = target.ended {
                if arguments.len() == 0 {
                    if patience > 0 {
                        lemma_called_keeps_names(
                            f,
                            Seq::empty(),
                            paren,
                            target.scopes,
                            env,
                            height,
                            reply,
                            (patience - 1) as nat,
                            old,
                        );
                        let made = called(
                            f,
                            Seq::empty(),
                            paren,
                            target.scopes,
                            env,
                            height,
                            reply,
                            (patience - 1) as nat,
                        );
                        lemma_same_names_then(made.scopes, target.scopes, scopes, old);
                    }
                } else {
                    lemma_pass_keeps_names(
                        f,
                        Seq::empty(),
                        arguments,
                        paren,
                        target.scopes,
                        env,
                        height,
                        reply,
                        patience,
                        old,
                    );
                    let passed = pass(
                        f,
                        Seq::empty(),
                        arguments,
                        paren,
                        target.scopes,
                        env,
                        height,
                        reply,
                        patience,
                    );
                    lemma_same_names_then(passed.scopes, target.scopes, scopes, old);
                }
            }
        },
        _ => {},
    }
}

proof fn lemma_pass_keeps_names(
    callee: LitValView,
    values: Seq<LitValView>,
    arguments: Seq<ExprView>,
    paren: TokenView,
    scopes: Seq<ScopeView>,
    env: usize,
    height: nat,
    reply: spec_fn(RequestView) -> Number,
    patience: nat,
    old: nat,
)
    requires
        old <= env,
        old <= scopes.len(),
    ensures
        same_names(
            pass(callee, values, arguments, paren, scopes, env, height, reply, patience).scopes,
            scopes,
            old,
        ),
    decreases patience, exprs_size(arguments), arguments.len() - values.len(),
{
    if values.len() < arguments.len() {
        lemma_expr_in_list(arguments, values.len() as int);
        let this = arguments[values.len() as int];
        lemma_evaluate_keeps_names(this, scopes, env, height + 1, reply, patience, old);
        let next = evaluate(this, scopes, env, height + 1, reply, patience);
        if let Ended::Value(v) = next.ended {
            if values.len() + 1 < arguments.len() {
                lemma_pass_keeps_names(
                    callee,
                    values.push(v),
                    arguments,
                    paren,
                    next.scopes,
                    env,
                    height,
                    reply,
                    patience,
                    old,
                );
                let rest = pass(
                    callee,
                    values.push(v),
                    arguments,
                    paren,
                    next.scopes,
                    env,
                    height,
                    reply,
                    patience,
                );
                lemma_same_names_then(rest.scopes, next.scopes, scopes, old);
            } else if patience > 0 {
                lemma_called_keeps_names(
                    callee,
                    values.push(v),
                    paren,
                    next.scopes,
                    env,
                    height,
                    reply,
                    (patience - 1) as nat,
                    old,
                );
                let made = called(
                    callee,
                    values.push(v),
                    paren,
                    next.scopes,
                    env,
                    height,
                    reply,
                    (patience - 1) as nat,
                );
                lemma_same_names_then(made.scopes, next.scopes, scopes, old);
            }
        }
    }
}

proof fn lemma_called_keeps_names(
    callee: LitValView,
    args: Seq<LitValView>,
    paren: TokenView,
    scopes: Seq<ScopeView>,
    env: usize,
    height: nat,
    reply: spec_fn(RequestView) -> Number,
    patience: nat,
    old: nat,
)
    requires
        old <= env,
        old <= scopes.len(),
    ensures
        same_names(called(callee, args, paren, scopes, env, height, reply, patience).scopes, scopes, old),
    decreases patience, value_size(callee), 0nat,
{
    if let LitValView::Function(f) = callee {
        if args.len() == f.params.len() && height < MAX_FRAMES && scopes.len() < usize::MAX {
            let scope = scopes.len();
            let fresh = scopes.push(
                ScopeView {
                    values: Map::empty(),
                    enclosing: if f.closure < scopes.len() {
                        Some(f.closure)
                    } else {
                        None
                    },
                },
            );
            assert(same_names(fresh, scopes, old));
            lemma_bind_same_names(fresh, scope as int, f.params, args, args.len(), old);
            let bound_all = bind(fresh, scope as int, f.params, args, args.len());
            lemma_same_names_then(bound_all, fresh, scopes, old);
            {
                lemma_run_all_keeps_names(
                    f.body,
                    0,
                    bound_all,
                    scope as usize,
                    env,
                    height + 1,
                    reply,
                    patience,
                    old,
                );
                let body = run_all(
                    f.body,
                    0,
                    bound_all,
                    scope as usize,
                    env,
                    height + 1,
                    reply,
                    patience,
                );
                lemma_same_names_then(body.scopes, bound_all, scopes, old);
            }
        }
    }
}

proof fn lemma_run_all_keeps_names(
    stmts: Seq<StmtView>,
    next: nat,
    scopes: Seq<ScopeView>,
    env: usize,
    back: usize,
    height: nat,
    reply: spec_fn(RequestView) -> Number,
    patience: nat,
    old: nat,
)
    requires
        old <= env,
        old <= scopes.len(),
    ensures
        same_names(
            run_all(stmts, next, scopes, env, back, height, reply, patience).scopes,
            scopes,
            old,
        ),
    decreases patience, stmts_size(stmts), stmts.len() - next,
{
    if next < stmts.len() && next < usize::MAX {
        lemma_stmt_in_list(stmts, next as int);
        lemma_execute_keeps_names(stmts[next as int], scopes, env, height + 1, reply, patience, old);
        let this = execute(stmts[next as int], scopes, env, height + 1, reply, patience);
        if this.ended is Value {
            lemma_run_all_keeps_names(
                stmts,
                next + 1,
                this.scopes,
                env,
                back,
                height,
                reply,
                patience,
                old,
            );
            let rest = run_all(stmts, next + 1, this.scopes, env, back, height, reply, patience);
            lemma_same_names_then(rest.scopes, this.scopes, scopes, old);
        }
    }
}

proof fn lemma_repeat_keeps_names(
    s: StmtView,
    scopes: Seq<ScopeView>,
    env: usize,
    height: nat,
    reply: spec_fn(RequestView) -> Number,
    patience: nat,
    old: nat,
)
    requires
        old <= env,
        old <= scopes.len(),
    ensures
        same_names(repeat(s, scopes, env, height, reply, patience).scopes, scopes, old),
    decreases patience, stmt_size(s), 0nat,
{
    if let StmtView::While { condition, body } = s {
        lemma_evaluate_keeps_names(condition, scopes, env, height + 1, reply, patience, old);
        let test = evaluate(condition, scopes, env, height + 1, reply, patience);
        if let Ended::Value(v) = test.ended {
            if v.truthy() {
                lemma_execute_keeps_names(*body, test.scopes, env, height + 1, reply, patience, old);
                let round = execute(*body, test.scopes, env, height + 1, reply, patience);
                lemma_same_names_then(round.scopes, test.scopes, scopes, old);
                if round.ended is Value && patience > 0 {
                    lemma_repeat_keeps_names(
                        s,
                        round.scopes,
                        env,
                        height,
                        reply,
                        (patience - 1) as nat,
                        old,
                    );
                    let rest = repeat(s, round.scopes, env, height, reply, (patience - 1) as nat);
                    lemma_same_names_then(rest.scopes, round.scopes, scopes, old);
                }
            }
        }
    }
}

/// What a statement does in a scope that is not among the first `old`
/// leaves those with the names they had.
pub proof fn lemma_execute_keeps_names(
    s: StmtView,
    scopes: Seq<ScopeView>,
    env: usize,
    height: nat,
    reply: spec_fn(RequestView) -> Number,
    patience: nat,
    old: nat,
)
    requires
        old <= env,
        old <= scopes.len(),
    ensures
        same_names(execute(s, scopes, env, height, reply, patience).scopes, scopes, old),
    decreases patience, stmt_size(s), 1nat,
{
    match s {
        StmtView::Expr(e) => {
            lemma_evaluate_keeps_names(e, scopes, env, height, reply, patience, old);
        },
        StmtView::Print(e) => {
            lemma_evaluate_keeps_names(e, scopes, env, height + 1, reply, patience, old);
        },
        StmtView::Var { name, initializer } => {
            match initializer {
                Some(e) => {
                    lemma_evaluate_keeps_names(e, scopes, env, height + 1, reply, patience, old);
                    let given = evaluate(e, scopes, env, height + 1, reply, patience);
                    if let Ended::Value(v) = given.ended {
                        lemma_bound_same_names(given.scopes, env as int, name.lexeme, v, old);
                        lemma_same_names_then(
                            bound(given.scopes, env as int, name.lexeme, v),
                            given.scopes,
                            scopes,
                            old,
                        );
                    }
                },
                None => {
                    lemma_bound_same_names(scopes, env as int, name.lexeme, LitValView::Nil, old);
                },
            }
        },
        StmtView::Block(stmts) => {
            let fresh = scopes.push(
                ScopeView {
                    values: Map::empty(),
                    enclosing: if env < scopes.len() {
                        Some(env)
                    } else {
                        None
                    },
                },
            );
            assert(same_names(fresh, scopes, old));
            if scopes.len() < usize::MAX {
                lemma_run_all_keeps_names(
                    stmts,
                    0,
                    fresh,
                    scopes.len() as usize,
                    env,
                    height,
                    reply,
                    patience,
                    old,
                );
                let inner = run_all(
                    stmts,
                    0,
                    fresh,
                    scopes.len() as usize,
                    env,
                    height,
                    reply,
                    patience,
                );
                lemma_same_names_then(inner.scopes, fresh, scopes, old);
            }
        },
        StmtView::If { condition, then_branch, else_branch } => {
            lemma_evaluate_keeps_names(condition, scopes, env, height + 1, reply, patience, old);
            let test = evaluate(condition, scopes, env, height + 1, reply, patience);
            if let Ended::Value(v) = test.ended {
                if v.truthy() {
                    lemma_execute_keeps_names(
                        *then_branch,
                        test.scopes,
                        env,
                        height,
                        reply,
                        patience,
                        old,
                    );
                    let branch = execute(*then_branch, test.scopes, env, height, reply, patience);
                    lemma_same_names_then(branch.scopes, test.scopes, scopes, old);
                } else if let Some(other) = else_branch {
                    lemma_execute_keeps_names(*other, test.scopes, env, height, reply, patience, old);
                    let branch = execute(*other, test.scopes, env, height, reply, patience);
                    lemma_same_names_then(branch.scopes, test.scopes, scopes, old);
                }
            }
        },
        StmtView::While { condition, body } => {
            lemma_repeat_keeps_names(s, scopes, env, height, reply, patience, old);
        },
        StmtView::Function { name, params, body } => {
            lemma_bound_same_names(
                scopes,
                env as int,
                name.lexeme,
                LitValView::Function(
                    crate::types::LoxFunctionView { name, params, body, closure: env },
                ),
                old,
            );
        },
        StmtView::Return { keyword, value } => {
            if let Some(e) = value {
                lemma_evaluate_keeps_names(e, scopes, env, height + 1, reply, patience, old);
            }
        },
    }
}

/// Shadowing: when a block is over, every name is found from the scope
/// around the block where it was found before the block. What the block
/// declared is not found, and what it shadowed is found again.
pub proof fn lemma_a_block_leaves_no_name(
    stmts: Seq<StmtView>,
    scopes: Seq<ScopeView>,
    env: usize,
    height: nat,
    reply: spec_fn(RequestView) -> Number,
    patience: nat,
    name: Seq<char>,
)
    requires
        env < scopes.len() <= usize::MAX,
    ensures
        resolve(
            execute(StmtView::Block(stmts), scopes, env, height, reply, patience).scopes,
            env as int,
            name,
        ) == resolve(scopes, env as int, name),
{
    let old = scopes.len();
    let fresh = scopes.push(ScopeView { values: Map::empty(), enclosing: Some(env) });
    assert(same_names(fresh, scopes, old));
    lemma_run_all_keeps_names(stmts, 0, fresh, old as usize, env, height, reply, patience, old);
    let inner = run_all(stmts, 0, fresh, old as usize, env, height, reply, patience);
    lemma_same_names_then(inner.scopes, fresh, scopes, old);
    lemma_found_as_before(inner.scopes, scopes, old, env as int, name);
}

/// Giving parameters their arguments in a scope gives it no other name.
proof fn lemma_bind_names_parameters_only(
    scopes: Seq<ScopeView>,
    scope: int,
    params: Seq<TokenView>,
    args: Seq<LitValView>,
    n: nat,
    name: Seq<char>,
)
    requires
        0 <= scope < scopes.len(),
        forall|k: int| 0 <= k < n ==> params[k].lexeme != name,
    ensures
        bind(scopes, scope, params, args, n).len() == scopes.len(),
        bind(scopes, scope, params, args, n)[scope].values.contains_key(name)
            == scopes[scope].values.contains_key(name),
        bind(scopes, scope, params, args, n)[scope].enclosing == scopes[scope].enclosing,
    decreases n,
{
    if n > 0 {
        lemma_bind_names_parameters_only(scopes, scope, params, args, (n - 1) as nat, name);
    }
}

/// Lexical scoping: a name that is no parameter is found, in the scope of a
/// call, where it is found from the scope that the function was declared in,
/// whatever scope the call is made from; and the scope that holds it is as it
/// was before the call.
pub proof fn lemma_free_names_are_those_of_the_closure(
    m: InterpreterView,
    f: LoxFunctionView,
    args: Seq<LitValView>,
    name: Seq<char>,
)
    requires
        m.scopes.len() <= usize::MAX,
        forall|k: int| 0 <= k < args.len() ==> f.params[k].lexeme != name,
    ensures
        resolve(m.invoke(f, args).0.scopes, m.invoke(f, args).0.env as int, name) == (if f.closure
            < m.scopes.len() {
            resolve(m.scopes, f.closure as int, name)
        } else {
            None
        }),
        resolve(m.invoke(f, args).0.scopes, m.invoke(f, args).0.env as int, name) matches Some(s)
            ==> m.invoke(f, args).0.scopes[s] == m.scopes[s],
{
    let old = m.scopes.len();
    let fresh = m.scopes.push(
        ScopeView {
            values: Map::empty(),
            enclosing: if f.closure < m.scopes.len() {
                Some(f.closure)
            } else {
                None
            },
        },
    );
    let made = m.invoke(f, args).0.scopes;
    lemma_bind_names_parameters_only(fresh, old as int, f.params, args, args.len(), name);
    lemma_bind_keeps_others(fresh, old as int, f.params, args, args.len());
    assert(same_names(made, m.scopes, old));
    if f.closure < old {
        lemma_found_as_before(made, m.scopes, old, f.closure as int, name);
        lemma_resolved_holds(m.scopes, f.closure as int, name);
    }
}

} // verus!
