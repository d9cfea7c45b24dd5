//! Expressions: the tree the parser builds, and its prefix form.

use vstd::prelude::*;
use std::rc::Rc;
use crate::token::{Literal, LiteralView, Token, TokenView};

verus! {

/// An expression. The tree is immutable; its parts are shared, so that what
/// evaluates it can hold on to a part without copying it.
#[derive(Debug, PartialEq)]
pub enum Expr {
    Binary { left: Rc<Expr>, op: Token, right: Rc<Expr> },
    Assign { name: Token, value: Rc<Expr> },
    Call { callee: Rc<Expr>, paren: Token, arguments: Rc<Vec<Expr>> },
    Grouping { expression: Rc<Expr> },
    Literal(Literal),
    Logical { left: Rc<Expr>, op: Token, right: Rc<Expr> },
    Unary { op: Token, right: Rc<Expr> },
    Variable(Token),
}

/// The mathematical value of an [`Expr`].
pub enum ExprView {
    Binary { left: Box<ExprView>, op: TokenView, right: Box<ExprView> },
    Assign { name: TokenView, value: Box<ExprView> },
    Call { callee: Box<ExprView>, paren: TokenView, arguments: Seq<ExprView> },
    Grouping { expression: Box<ExprView> },
    Literal(LiteralView),
    Logical { left: Box<ExprView>, op: TokenView, right: Box<ExprView> },
    Unary { op: TokenView, right: Box<ExprView> },
    Variable(TokenView),
}

/// The value of an expression: the same tree over the values of its tokens.
pub open spec fn expr_view(e: Expr) -> ExprView
    decreases e,
{
    match e {
        Expr::Binary { left, op, right } => ExprView::Binary {
            left: Box::new(expr_view(*left)),
            op: op@,
            right: Box::new(expr_view(*right)),
        },
        Expr::Assign { name, value } => ExprView::Assign {
            name: name@,
            value: Box::new(expr_view(*value)),
        },
        Expr::Call { callee, paren, arguments } => ExprView::Call {
            callee: Box::new(expr_view(*callee)),
            paren: paren@,
            arguments: exprs_view(arguments@),
        },
        Expr::Grouping { expression } => ExprView::Grouping {
            expression: Box::new(expr_view(*expression)),
        },
        Expr::Literal(l) => ExprView::Literal(l@),
        Expr::Logical { left, op, right } => ExprView::Logical {
            left: Box::new(expr_view(*left)),
            op: op@,
            right: Box::new(expr_view(*right)),
        },
        Expr::Unary { op, right } => ExprView::Unary { op: op@, right: Box::new(expr_view(*right)) },
        Expr::Variable(t) => ExprView::Variable(t@),
    }
}

/// The values of a sequence of expressions, one for one.
pub open spec fn exprs_view(v: Seq<Expr>) -> Seq<ExprView>
    decreases v,
{
    if v.len() == 0 {
        Seq::empty()
    } else {
        exprs_view(v.drop_last()).push(expr_view(v.last()))
    }
}

/// `exprs_view` keeps the length and takes each expression to its value.
pub proof fn lemma_exprs_view(v: Seq<Expr>)
    ensures
        exprs_view(v).len() == v.len(),
        forall|i: int| 0 <= i < v.len() ==> #[trigger] exprs_view(v)[i] == expr_view(v[i]),
    decreases v.len(),
{
    if v.len() > 0 {
        lemma_exprs_view(v.drop_last());
    }
}

impl View for Expr {
    type V = ExprView;

    open spec fn view(&self) -> ExprView {
        expr_view(*self)
    }
}

/// The text of a literal in the prefix form: a numeral and a string as they
/// are, `true`, `false` or `nil`; nothing where there is no literal.
pub open spec fn literal_text(l: LiteralView) -> Seq<char> {
    match l {
        LiteralView::Number(n) => n,
        LiteralView::String(s) => s,
        LiteralView::Bool(b) => if b {
            "true"@
        } else {
            "false"@
        },
        LiteralView::Nil => "nil"@,
        LiteralView::NotExist => Seq::empty(),
    }
}

/// The prefix form of an expression: every operation in parentheses, the
/// operator first, then the operands. It is a function of the tree: the same
/// tree is written the same way each time.
pub open spec fn prefix(e: ExprView) -> Seq<char>
    decreases e,
{
    match e {
        ExprView::Binary { left, op, right } => "("@ + op.type_.text() + " "@ + prefix(*left) + " "@
            + prefix(*right) + ")"@,
        ExprView::Assign { name, value } => "(= "@ + name.lexeme + " "@ + prefix(*value) + ")"@,
        ExprView::Call { callee, paren, arguments } => "(call "@ + prefix(*callee) + prefix_each(
            arguments,
        ) + ")"@,
        ExprView::Grouping { expression } => "(group "@ + prefix(*expression) + ")"@,
        ExprView::Literal(l) => literal_text(l),
        ExprView::Logical { left, op, right } => "("@ + op.type_.text() + " "@ + prefix(*left)
            + " "@ + prefix(*right) + ")"@,
        ExprView::Unary { op, right } => "("@ + op.type_.text() + " "@ + prefix(*right) + ")"@,
        ExprView::Variable(t) => t.lexeme,
    }
}

/// The prefix forms of the expressions of `v`, each after a space.
pub open spec fn prefix_each(v: Seq<ExprView>) -> Seq<char>
    decreases v,
{
    if v.len() == 0 {
        Seq::empty()
    } else {
        prefix_each(v.drop_last()) + " "@ + prefix(v.last())
    }
}

/// Whether two lists of expressions have the same value.
pub fn same_exprs(a: &Vec<Expr>, b: &Vec<Expr>) -> (r: bool)
    ensures
        r == (exprs_view(a@) == exprs_view(b@)),
    decreases a,
{
    proof {
        lemma_exprs_view(a@);
        lemma_exprs_view(b@);
    }
    if a.len() != b.len() {
        return false;
    }
    let mut i: usize = 0;
    while i < a.len()
        invariant
            i <= a.len(),
            a.len() == b.len(),
            forall|j: int| 0 <= j < i ==> expr_view(a@[j]) == expr_view(b@[j]),
        decreases a.len() - i,
    {
        proof {
            assert(decreases_to!(*a => a[i as int]));
        }
        if !a[i].same(&b[i]) {
            proof {
                lemma_exprs_view(a@);
                lemma_exprs_view(b@);
                assert(exprs_view(a@)[i as int] != exprs_view(b@)[i as int]);
            }
            return false;
        }
        i += 1;
    }
    proof {
        lemma_exprs_view(a@);
        lemma_exprs_view(b@);
        assert(exprs_view(a@) =~= exprs_view(b@));
    }
    true
}

impl Expr {
    /// Whether two expressions have the same value: the same tree over
    /// tokens of the same value.
    pub fn same(&self, other: &Expr) -> (r: bool)
        ensures
            r == (self@ == other@),
        decreases self,
    {
        match (self, other) {
            (
                Expr::Binary { left: l1, op: o1, right: r1 },
                Expr::Binary { left: l2, op: o2, right: r2 },
            ) => l1.same(&**l2) && o1.same(o2) && r1.same(&**r2),
            (Expr::Assign { name: n1, value: v1 }, Expr::Assign { name: n2, value: v2 }) => n1.same(
                n2,
            ) && v1.same(&**v2),
            (
                Expr::Call { callee: c1, paren: at1, arguments: a1 },
                Expr::Call { callee: c2, paren: at2, arguments: a2 },
            ) => c1.same(&**c2) && at1.same(at2) && same_exprs(&**a1, &**a2),
            (Expr::Grouping { expression: e1 }, Expr::Grouping { expression: e2 }) => e1.same(
                &**e2,
            ),
            (Expr::Literal(a), Expr::Literal(b)) => a.same(b),
            (
                Expr::Logical { left: l1, op: o1, right: r1 },
                Expr::Logical { left: l2, op: o2, right: r2 },
            ) => l1.same(&**l2) && o1.same(o2) && r1.same(&**r2),
            (Expr::Unary { op: o1, right: r1 }, Expr::Unary { op: o2, right: r2 }) => o1.same(o2)
                && r1.same(&**r2),
            (Expr::Variable(a), Expr::Variable(b)) => a.same(b),
            _ => false,
        }
    }

    /// The prefix form of this expression.
    pub fn stringify(&self) -> (s: String)
        ensures
            s@ == prefix(self@),
        decreases self,
    {
        match self {
            Expr::Binary { left, op, right } => {
                let l = left.stringify();
                let r = right.stringify();
                let mut s = "(".to_owned();
                s.append(op.type_.symbol());
                s.append(" ");
                s.append(l.as_str());
                s.append(" ");
                s.append(r.as_str());
                s.append(")");
                s
            },
            Expr::Assign { name, value } => {
                let v = value.stringify();
                let mut s = "(= ".to_owned();
                s.append(name.lexeme.as_str());
                s.append(" ");
                s.append(v.as_str());
                s.append(")");
                s
            },
            Expr::Call { callee, paren, arguments } => {
                let c = callee.stringify();
                let mut list = String::new();
                let mut i: usize = 0;
                assert(exprs_view(arguments@).take(0) =~= Seq::empty());
                while i < arguments.len()
                    invariant
                        i <= arguments.len(),
                        decreases_to!(*self => **arguments),
                        list@ == prefix_each(exprs_view(arguments@).take(i as int)),
                    decreases arguments.len() - i,
                {
                    proof {
                        lemma_exprs_view(arguments@);
                        let all = exprs_view(arguments@);
                        assert(all.take(i + 1).drop_last() =~= all.take(i as int));
                        assert(all.take(i + 1).last() == expr_view(arguments@[i as int]));
                        assert(decreases_to!(**arguments => arguments[i as int]));
                    }
                    let a = arguments[i].stringify();
                    list.append(" ");
                    list.append(a.as_str());
                    i += 1;
                }
                proof {
                    lemma_exprs_view(arguments@);
                    assert(exprs_view(arguments@).take(i as int) =~= exprs_view(arguments@));
                }
                let mut s = "(call ".to_owned();
                s.append(c.as_str());
                s.append(list.as_str());
                s.append(")");
                s
            },
            Expr::Grouping { expression } => {
                let e = expression.stringify();
                let mut s = "(group ".to_owned();
                s.append(e.as_str());
                s.append(")");
                s
            },
            Expr::Literal(l) => match l {
                Literal::Number(n) => n.clone(),
                Literal::String(s) => s.clone(),
                Literal::Bool(b) => if *b {
                    "true".to_owned()
                } else {
                    "false".to_owned()
                },
                Literal::Nil => "nil".to_owned(),
                Literal::NotExist => String::new(),
            },
            Expr::Logical { left, op, right } => {
                let l = left.stringify();
                let r = right.stringify();
                let mut s = "(".to_owned();
                s.append(op.type_.symbol());
                s.append(" ");
                s.append(l.as_str());
                s.append(" ");
                s.append(r.as_str());
                s.append(")");
                s
            },
            Expr::Unary { op, right } => {
                let r = right.stringify();
                let mut s = "(".to_owned();
                s.append(op.type_.symbol());
                s.append(" ");
                s.append(r.as_str());
                s.append(")");
                s
            },
            Expr::Variable(t) => t.lexeme.clone(),
        }
    }
}

} // verus!
