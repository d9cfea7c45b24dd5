//! Arithmetic, from the numerals to the value: what an expression built from
//! numerals, parentheses, the sign and the four operations comes to. Its
//! value is the one that the host's way of reading numerals and of computing
//! gives when it is applied along the tree, operands first and the left one
//! before the right one; and that is the value at which the machine arrives.

use vstd::prelude::*;
use crate::environment::ScopeView;
use crate::expr::ExprView;
use crate::meaning::{evaluate, expr_size, Ended};
use crate::meaning_laws::{evaluated, lemma_evaluate, obedient, written};
use crate::safety::after;
use crate::semantics::{apply_binary, Arith, ControlView, InterpreterView, RequestView};
use crate::token::TokenType;
use crate::types::{LitValView, Number};

verus! {

/// Whether an expression is built from numerals, parentheses, the sign `-`
/// and `+`, `-`, `*`, `/` alone.
pub open spec fn arithmetic(e: ExprView) -> bool
    decreases e,
{
    match e {
        ExprView::Literal(l) => l is Number,
        ExprView::Grouping { expression } => arithmetic(*expression),
        ExprView::Unary { op, right } => op.type_ == TokenType::Minus && arithmetic(*right),
        ExprView::Binary { left, op, right } => operation(op.type_) is Some && arithmetic(*left)
            && arithmetic(*right),
        _ => false,
    }
}

/// The operation that an operator stands for, if it is one of the four.
pub open spec fn operation(t: TokenType) -> Option<Arith> {
    match t {
        TokenType::Plus => Some(Arith::Add),
        TokenType::Minus => Some(Arith::Sub),
        TokenType::Star => Some(Arith::Mul),
        TokenType::Slash => Some(Arith::Div),
        _ => None,
    }
}

/// The value of an arithmetic expression, where `reply` gives the number
/// that a numeral denotes and the result of an operation.
pub open spec fn value_of(e: ExprView, reply: spec_fn(RequestView) -> Number) -> Number
    decreases e,
{
    match e {
        ExprView::Literal(l) => reply(RequestView::Parse(l->Number_0)),
        ExprView::Grouping { expression } => value_of(*expression, reply),
        ExprView::Unary { op, right } => value_of(*right, reply).opposite(),
        ExprView::Binary { left, op, right } => reply(
            RequestView::Arith(
                operation(op.type_)->0,
                value_of(*left, reply),
                value_of(*right, reply),
            ),
        ),
        _ => Number { bits: 0 },
    }
}

/// An arithmetic expression comes to its value, whatever the scopes: it
/// changes none, has nothing written, and needs no patience.
pub proof fn lemma_arithmetic_has_a_value(
    e: ExprView,
    scopes: Seq<ScopeView>,
    env: usize,
    height: nat,
    reply: spec_fn(RequestView) -> Number,
    patience: nat,
)
    requires
        arithmetic(e),
    ensures
        evaluate(e, scopes, env, height, reply, patience).ended == Ended::Value(
            LitValView::Number(value_of(e, reply)),
        ),
        evaluate(e, scopes, env, height, reply, patience).scopes == scopes,
        evaluate(e, scopes, env, height, reply, patience).env == env,
        evaluate(e, scopes, env, height, reply, patience).lines == Seq::<RequestView>::empty(),
    decreases e,
{
    reveal(apply_binary);
    match e {
        ExprView::Grouping { expression } => {
            lemma_arithmetic_has_a_value(*expression, scopes, env, height, reply, patience);
        },
        ExprView::Unary { op, right } => {
            lemma_arithmetic_has_a_value(*right, scopes, env, height + 1, reply, patience);
        },
        ExprView::Binary { left, op, right } => {
            lemma_arithmetic_has_a_value(*left, scopes, env, height + 1, reply, patience);
            lemma_arithmetic_has_a_value(*right, scopes, env, height + 1, reply, patience);
            assert(Seq::<RequestView>::empty() + Seq::<RequestView>::empty()
                =~= Seq::<RequestView>::empty());
        },
        _ => {},
    }
}

/// The machine evaluates an arithmetic expression to the value that the
/// host's way of computing gives along the tree. From a state in which the
/// expression is about to be evaluated, the machine and a host that answers
/// as `reply` says come to the state in which that value is the value to go
/// on with, and all else is as it was.
pub proof fn lemma_arithmetic_is_evaluated(
    m: InterpreterView,
    e: ExprView,
    reply: spec_fn(RequestView) -> Number,
)
    requires
        arithmetic(e),
        m.control == ControlView::Eval(e),
    ensures
        ({
            let moves = evaluate(e, m.scopes, m.env, m.frames.len(), reply, 0).moves;
            &&& obedient(m, moves, reply)
            &&& written(m, moves) == Seq::<RequestView>::empty()
            &&& after(m, moves) == (InterpreterView {
                control: ControlView::Value(LitValView::Number(value_of(e, reply))),
                ..m
            })
        }),
{
    lemma_arithmetic_has_a_value(e, m.scopes, m.env, m.frames.len(), reply, 0);
    lemma_evaluate(m, e, reply, 0);
}

} // verus!
