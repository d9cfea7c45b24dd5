//! Statements: the tree the parser builds for a program.

use vstd::prelude::*;
use std::rc::Rc;
use crate::expr::{expr_view, Expr, ExprView};
use crate::token::{Token, TokenView};

verus! {

/// A statement. Where a part may be absent (an initializer, an `else`, a
/// returned value) it is an `Option`. A `for` loop has no statement of its own:
/// the parser writes it as a `While` inside `Block`s.
#[derive(Debug, PartialEq)]
#[allow(inconsistent_fields)]
pub enum Stmt {
    Block(Rc<Vec<Stmt>>),
    Expr(Rc<Expr>),
    Function { name: Token, params: Rc<Vec<Token>>, body: Rc<Vec<Stmt>> },
    If { condition: Rc<Expr>, then_branch: Rc<Stmt>, else_branch: Option<Rc<Stmt>> },
    Print(Rc<Expr>),
    Return { keyword: Token, value: Option<Rc<Expr>> },
    Var { name: Token, initializer: Option<Rc<Expr>> },
    While { condition: Rc<Expr>, body: Rc<Stmt> },
}

/// The mathematical value of a [`Stmt`].
#[allow(inconsistent_fields)]
pub enum StmtView {
    Block(Seq<StmtView>),
    Expr(ExprView),
    Function { name: TokenView, params: Seq<TokenView>, body: Seq<StmtView> },
    If { condition: ExprView, then_branch: Box<StmtView>, else_branch: Option<Box<StmtView>> },
    Print(ExprView),
    Return { keyword: TokenView, value: Option<ExprView> },
    Var { name: TokenView, initializer: Option<ExprView> },
    While { condition: ExprView, body: Box<StmtView> },
}

/// The values of a sequence of tokens, one for one.
pub open spec fn tokens_view(v: Seq<Token>) -> Seq<TokenView> {
    Seq::new(v.len(), |i: int| v[i]@)
}

/// The value of a statement: the same tree over the values of its parts.
pub open spec fn stmt_view(s: Stmt) -> StmtView
    decreases s,
{
    match s {
        Stmt::Block(stmts) => StmtView::Block(stmts_view(stmts@)),
        Stmt::Expr(e) => StmtView::Expr(expr_view(*e)),
        Stmt::Function { name, params, body } => StmtView::Function {
            name: name@,
            params: tokens_view(params@),
            body: stmts_view(body@),
        },
        Stmt::If { condition, then_branch, else_branch } => StmtView::If {
            condition: expr_view(*condition),
            then_branch: Box::new(stmt_view(*then_branch)),
            else_branch: match else_branch {
                Some(e) => Some(Box::new(stmt_view(*e))),
                None => None,
            },
        },
        Stmt::Print(e) => StmtView::Print(expr_view(*e)),
        Stmt::Return { keyword, value } => StmtView::Return {
            keyword: keyword@,
            value: match value {
                Some(e) => Some(expr_view(*e)),
                None => None,
            },
        },
        Stmt::Var { name, initializer } => StmtView::Var {
            name: name@,
            initializer: match initializer {
                Some(e) => Some(expr_view(*e)),
                None => None,
            },
        },
        Stmt::While { condition, body } => StmtView::While {
            condition: expr_view(*condition),
            body: Box::new(stmt_view(*body)),
        },
    }
}

/// The values of a sequence of statements, one for one.
pub open spec fn stmts_view(v: Seq<Stmt>) -> Seq<StmtView>
    decreases v,
{
    if v.len() == 0 {
        Seq::empty()
    } else {
        stmts_view(v.drop_last()).push(stmt_view(v.last()))
    }
}

/// `stmts_view` keeps the length and takes each statement to its value.
pub proof fn lemma_stmts_view(v: Seq<Stmt>)
    ensures
        stmts_view(v).len() == v.len(),
        forall|i: int| 0 <= i < v.len() ==> #[trigger] stmts_view(v)[i] == stmt_view(v[i]),
    decreases v.len(),
{
    if v.len() > 0 {
        lemma_stmts_view(v.drop_last());
    }
}

/// Whether two lists of tokens have the same value.
pub fn same_tokens(a: &Vec<Token>, b: &Vec<Token>) -> (r: bool)
    ensures
        r == (tokens_view(a@) == tokens_view(b@)),
{
    if a.len() != b.len() {
        assert(tokens_view(a@).len() != tokens_view(b@).len());
        return false;
    }
    let mut i: usize = 0;
    while i < a.len()
        invariant
            i <= a.len(),
            a.len() == b.len(),
            forall|j: int| 0 <= j < i ==> a@[j]@ == b@[j]@,
        decreases a.len() - i,
    {
        if !a[i].same(&b[i]) {
            assert(tokens_view(a@)[i as int] != tokens_view(b@)[i as int]);
            return false;
        }
        i += 1;
    }
    assert(tokens_view(a@) =~= tokens_view(b@));
    true
}

/// Whether two lists of statements have the same value.
pub fn same_stmts(a: &Vec<Stmt>, b: &Vec<Stmt>) -> (r: bool)
    ensures
        r == (stmts_view(a@) == stmts_view(b@)),
    decreases a,
{
    proof {
        lemma_stmts_view(a@);
        lemma_stmts_view(b@);
    }
    if a.len() != b.len() {
        return false;
    }
    let mut i: usize = 0;
    while i < a.len()
        invariant
            i <= a.len(),
            a.len() == b.len(),
            forall|j: int| 0 <= j < i ==> stmt_view(a@[j]) == stmt_view(b@[j]),
        decreases a.len() - i,
    {
        proof {
            assert(decreases_to!(*a => a[i as int]));
        }
        if !a[i].same(&b[i]) {
            proof {
                lemma_stmts_view(a@);
                lemma_stmts_view(b@);
                assert(stmts_view(a@)[i as int] != stmts_view(b@)[i as int]);
            }
            return false;
        }
        i += 1;
    }
    proof {
        lemma_stmts_view(a@);
        lemma_stmts_view(b@);
        assert(stmts_view(a@) =~= stmts_view(b@));
    }
    true
}

/// Whether two expressions, or the lack of them, have the same value.
fn same_maybe(a: &Option<Rc<Expr>>, b: &Option<Rc<Expr>>) -> (r: bool)
    ensures
        r == ((match a {
            Some(e) => Some(expr_view(**e)),
            None => None,
        }) == (match b {
            Some(e) => Some(expr_view(**e)),
            None => None,
        })),
{
    match (a, b) {
        (Some(x), Some(y)) => x.same(&**y),
        (None, None) => true,
        _ => false,
    }
}

impl Stmt {
    /// Whether two statements have the same value: the same tree over
    /// tokens of the same value.
    pub fn same(&self, other: &Stmt) -> (r: bool)
        ensures
            r == (self@ == other@),
        decreases self,
    {
        match (self, other) {
            (Stmt::Block(a), Stmt::Block(b)) => same_stmts(&**a, &**b),
            (Stmt::Expr(a), Stmt::Expr(b)) => a.same(&**b),
            (
                Stmt::Function { name: n1, params: ps1, body: b1 },
                Stmt::Function { name: n2, params: ps2, body: b2 },
            ) => n1.same(n2) && same_tokens(&**ps1, &**ps2) && same_stmts(&**b1, &**b2),
            (
                Stmt::If { condition: c1, then_branch: t1, else_branch: e1 },
                Stmt::If { condition: c2, then_branch: t2, else_branch: e2 },
            ) => c1.same(&**c2) && t1.same(&**t2) && match (e1, e2) {
                (Some(x), Some(y)) => x.same(&**y),
                (None, None) => true,
                _ => false,
            },
            (Stmt::Print(a), Stmt::Print(b)) => a.same(&**b),
            (
                Stmt::Return { keyword: k1, value: v1 },
                Stmt::Return { keyword: k2, value: v2 },
            ) => k1.same(k2) && same_maybe(v1, v2),
            (
                Stmt::Var { name: n1, initializer: i1 },
                Stmt::Var { name: n2, initializer: i2 },
            ) => n1.same(n2) && same_maybe(i1, i2),
            (
                Stmt::While { condition: c1, body: b1 },
                Stmt::While { condition: c2, body: b2 },
            ) => c1.same(&**c2) && b1.same(&**b2),
            _ => false,
        }
    }
}

impl View for Stmt {
    type V = StmtView;

    open spec fn view(&self) -> StmtView {
        stmt_view(*self)
    }
}

} // verus!
