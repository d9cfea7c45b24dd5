//! Runtime values: numbers, functions, the clock, and what a value looks like
//! when it is printed.

use vstd::prelude::*;
use std::rc::Rc;
use crate::interpreter::{values_view, Interpreter, Request};
use crate::semantics::{InterpreterView, RequestView};
use crate::stmt::{same_stmts, same_tokens, stmts_view, tokens_view, Stmt, StmtView};
use crate::token::{Token, TokenView};

verus! {

/// `Rc::clone` of the standard library: a second handle on the same value.
#[verifier::external_body]
pub(crate) fn share<T>(a: &Rc<T>) -> (r: Rc<T>)
    ensures
        r == *a,
{
    Rc::clone(a)
}

/// A double-precision number, held as the 64 bits of its IEEE 754 encoding:
/// the sign in the top bit, then eleven bits of exponent and 52 of fraction.
/// The library compares and negates numbers on these bits; arithmetic, reading
/// a numeral and writing a number out are asked of the host.
#[derive(Debug, Clone, Copy, PartialEq, Eq, Structural)]
pub struct Number {
    pub bits: u64,
}

/// The bit that holds the sign.
pub const SIGN_BIT: u64 = 0x8000_0000_0000_0000;

/// The encoding of infinity: a magnitude above it is no number.
pub const INFINITY_BITS: u64 = 0x7ff0_0000_0000_0000;

impl Number {
    /// The encoding without its sign.
    pub open spec fn magnitude(self) -> u64 {
        self.bits & !SIGN_BIT
    }

    /// Whether the sign bit is set.
    pub open spec fn negative(self) -> bool {
        self.bits & SIGN_BIT != 0
    }

    /// Not a number: all exponent bits set and a fraction that is not zero.
    pub open spec fn is_nan(self) -> bool {
        self.magnitude() > INFINITY_BITS
    }

    /// Where the number stands in the order of the doubles that are no NaN:
    /// the magnitude, counted downwards for a negative number. Both zeros
    /// stand at 0.
    pub open spec fn rank(self) -> int {
        if self.negative() {
            -(self.magnitude() as int)
        } else {
            self.magnitude() as int
        }
    }

    /// `self == other` as doubles compare: never with a NaN, zero with zero
    /// whatever the signs.
    pub open spec fn same(self, other: Number) -> bool {
        !self.is_nan() && !other.is_nan() && self.rank() == other.rank()
    }

    /// `self < other` as doubles compare: never with a NaN.
    pub open spec fn below(self, other: Number) -> bool {
        !self.is_nan() && !other.is_nan() && self.rank() < other.rank()
    }

    /// `-self`: the sign bit is flipped, for a NaN too.
    pub open spec fn opposite(self) -> Number {
        Number { bits: self.bits ^ SIGN_BIT }
    }

    /// The number with this encoding.
    pub fn from_bits(bits: u64) -> (n: Number)
        ensures
            n.bits == bits,
    {
        Number { bits }
    }

    /// The encoding of this number.
    pub fn to_bits(&self) -> (bits: u64)
        ensures
            bits == self.bits,
    {
        self.bits
    }

    /// Whether this is no number.
    pub fn nan(&self) -> (r: bool)
        ensures
            r == self.is_nan(),
    {
        (self.bits & !SIGN_BIT) > INFINITY_BITS
    }

    /// `self == other` as doubles compare.
    pub fn eq_number(&self, other: &Number) -> (r: bool)
        ensures
            r == self.same(*other),
    {
        if self.nan() || other.nan() {
            return false;
        }
        let a: u64 = self.bits & !SIGN_BIT;
        let b: u64 = other.bits & !SIGN_BIT;
        if a == 0 && b == 0 {
            return true;
        }
        let sa = self.bits & SIGN_BIT != 0;
        let sb = other.bits & SIGN_BIT != 0;
        sa == sb && a == b
    }

    /// `self < other` as doubles compare.
    pub fn lt(&self, other: &Number) -> (r: bool)
        ensures
            r == self.below(*other),
    {
        if self.nan() || other.nan() {
            return false;
        }
        let a: u64 = self.bits & !SIGN_BIT;
        let b: u64 = other.bits & !SIGN_BIT;
        let sa = self.bits & SIGN_BIT != 0;
        let sb = other.bits & SIGN_BIT != 0;
        if sa {
            if sb {
                b < a
            } else {
                a != 0 || b != 0
            }
        } else {
            if sb {
                false
            } else {
                a < b
            }
        }
    }

    /// `self <= other` as doubles compare.
    pub fn le(&self, other: &Number) -> (r: bool)
        ensures
            r == (self.below(*other) || self.same(*other)),
    {
        self.lt(other) || self.eq_number(other)
    }

    /// `-self`.
    pub fn neg(&self) -> (r: Number)
        ensures
            r == self.opposite(),
    {
        Number { bits: self.bits ^ SIGN_BIT }
    }
}

/// Negating twice gives the number back.
pub proof fn lemma_opposite_twice(n: Number)
    ensures
        n.opposite().opposite() == n,
{
    let b = n.bits;
    assert((b ^ 0x8000_0000_0000_0000u64) ^ 0x8000_0000_0000_0000u64 == b) by (bit_vector);
}

/// Negation turns the order around, and keeps what is no number no number.
pub proof fn lemma_opposite_reverses(a: Number, b: Number)
    ensures
        a.opposite().is_nan() == a.is_nan(),
        a.opposite().rank() == -a.rank(),
        a.opposite().below(b.opposite()) == b.below(a),
        a.opposite().same(b.opposite()) == a.same(b),
{
    lemma_opposite_parts(a);
    lemma_opposite_parts(b);
}

/// Negation keeps the magnitude and changes the sign.
pub proof fn lemma_opposite_parts(n: Number)
    ensures
        n.opposite().magnitude() == n.magnitude(),
        n.opposite().negative() == !n.negative(),
{
    let b = n.bits;
    assert((b ^ 0x8000_0000_0000_0000u64) & !0x8000_0000_0000_0000u64 == b
        & !0x8000_0000_0000_0000u64) by (bit_vector);
    assert(((b ^ 0x8000_0000_0000_0000u64) & 0x8000_0000_0000_0000u64 != 0) == !(b
        & 0x8000_0000_0000_0000u64 != 0)) by (bit_vector);
}

/// Of two numbers, neither of them a NaN, one is below the other or they
/// are the same, and only one of the three holds. With a NaN none holds.
pub proof fn lemma_numbers_are_ordered(a: Number, b: Number)
    ensures
        !a.is_nan() && !b.is_nan() ==> (a.below(b) || a.same(b) || b.below(a)),
        !(a.below(b) && a.same(b)),
        !(a.below(b) && b.below(a)),
        a.same(b) == b.same(a),
        a.is_nan() || b.is_nan() ==> !a.below(b) && !a.same(b) && !b.below(a),
{
}

/// The built-in function `clock`: it takes no argument and gives the host's
/// time, in seconds.
#[derive(Debug, Clone, Copy, PartialEq, Eq, Structural)]
pub struct Clock;

/// A function value: a declaration together with the scope it was declared in.
/// Free names in the body are looked up from that scope, whoever calls.
#[derive(Debug, PartialEq)]
pub struct LoxFunction {
    name: Token,
    params: Rc<Vec<Token>>,
    body: Rc<Vec<Stmt>>,
    closure: usize,
}

/// The mathematical value of a [`LoxFunction`].
pub struct LoxFunctionView {
    pub name: TokenView,
    pub params: Seq<TokenView>,
    pub body: Seq<StmtView>,
    pub closure: usize,
}

impl View for LoxFunction {
    type V = LoxFunctionView;

    closed spec fn view(&self) -> LoxFunctionView {
        LoxFunctionView {
            name: self.name@,
            params: tokens_view(self.params@),
            body: stmts_view(self.body@),
            closure: self.closure,
        }
    }
}

impl Clone for LoxFunction {
    fn clone(&self) -> (r: Self)
        ensures
            r == *self,
    {
        LoxFunction {
            name: self.name.clone(),
            params: share(&self.params),
            body: share(&self.body),
            closure: self.closure,
        }
    }
}

impl LoxFunction {
    /// The function that `decl` declares, closed over the scope `closure`.
    pub fn new(decl: Rc<Stmt>, closure: usize) -> (f: Self)
        requires
            *decl is Function,
        ensures
            decl@ == (StmtView::Function { name: f@.name, params: f@.params, body: f@.body }),
            f@.closure == closure,
    {
        match &*decl {
            Stmt::Function { name, params, body } => LoxFunction {
                name: name.clone(),
                params: share(params),
                body: share(body),
                closure,
            },
            _ => {
                proof {
                    assert(false);
                }
                vstd::pervasive::unreached()
            },
        }
    }

    /// The function of the given name, parameters and body, closed over the
    /// scope `closure`.
    pub fn of(name: &Token, params: &Rc<Vec<Token>>, body: &Rc<Vec<Stmt>>, closure: usize) -> (f:
        Self)
        ensures
            f@ == (LoxFunctionView {
                name: name@,
                params: tokens_view(params@),
                body: stmts_view(body@),
                closure,
            }),
    {
        LoxFunction { name: name.clone(), params: share(params), body: share(body), closure }
    }

    /// The token that names the function.
    pub fn name(&self) -> (t: &Token)
        ensures
            t@ == self@.name,
    {
        &self.name
    }

    /// The parameters' names.
    pub fn params(&self) -> (p: &Rc<Vec<Token>>)
        ensures
            tokens_view(p@) == self@.params,
    {
        &self.params
    }

    /// The statements of the body.
    pub fn body(&self) -> (b: &Rc<Vec<Stmt>>)
        ensures
            stmts_view(b@) == self@.body,
    {
        &self.body
    }

    /// The scope the function was declared in.
    pub fn closure(&self) -> (c: usize)
        ensures
            c == self@.closure,
    {
        self.closure
    }
}

/// A value of the language.
#[derive(Debug, PartialEq)]
pub enum LitVal {
    Number(Number),
    String(String),
    Bool(bool),
    Nil,
    Function(LoxFunction),
    Clock(Clock),
}

/// The mathematical value of a [`LitVal`].
pub enum LitValView {
    Number(Number),
    String(Seq<char>),
    Bool(bool),
    Nil,
    Function(LoxFunctionView),
    Clock,
}

impl View for LitVal {
    type V = LitValView;

    open spec fn view(&self) -> LitValView {
        match self {
            LitVal::Number(n) => LitValView::Number(*n),
            LitVal::String(s) => LitValView::String(s@),
            LitVal::Bool(b) => LitValView::Bool(*b),
            LitVal::Nil => LitValView::Nil,
            LitVal::Function(f) => LitValView::Function(f@),
            LitVal::Clock(_) => LitValView::Clock,
        }
    }
}

impl Clone for LitVal {
    fn clone(&self) -> (r: Self)
        ensures
            r == *self,
    {
        match self {
            LitVal::Number(n) => LitVal::Number(*n),
            LitVal::String(s) => LitVal::String(s.clone()),
            LitVal::Bool(b) => LitVal::Bool(*b),
            LitVal::Nil => LitVal::Nil,
            LitVal::Function(f) => LitVal::Function(f.clone()),
            LitVal::Clock(c) => LitVal::Clock(*c),
        }
    }
}

impl LitValView {
    /// `nil` and `false` count as false; every other value, `0` and the empty
    /// string too, counts as true.
    pub open spec fn truthy(self) -> bool {
        match self {
            LitValView::Bool(b) => b,
            LitValView::Nil => false,
            _ => true,
        }
    }

    /// `==` of the language. Values of different kinds are never equal.
    /// Numbers are equal as doubles are. Two function values are equal when
    /// one declaration, in one scope, gave both: the name, the parameters,
    /// the body and the scope are the same.
    pub open spec fn equals(self, other: LitValView) -> bool {
        match (self, other) {
            (LitValView::Number(a), LitValView::Number(b)) => a.same(b),
            (LitValView::String(a), LitValView::String(b)) => a == b,
            (LitValView::Bool(a), LitValView::Bool(b)) => a == b,
            (LitValView::Nil, LitValView::Nil) => true,
            (LitValView::Function(f), LitValView::Function(g)) => f == g,
            (LitValView::Clock, LitValView::Clock) => true,
            _ => false,
        }
    }

    /// What `print` writes for a value that is no number: a string as it is,
    /// `true`, `false`, `nil`, and a function under its name.
    pub open spec fn display(self) -> Seq<char> {
        match self {
            LitValView::Number(_) => Seq::empty(),
            LitValView::String(s) => s,
            LitValView::Bool(b) => if b {
                "true"@
            } else {
                "false"@
            },
            LitValView::Nil => "nil"@,
            LitValView::Function(f) => "<fn "@ + f.name.lexeme + ">"@,
            LitValView::Clock => "<native fn>"@,
        }
    }
}

/// What can be called: a function, or a built-in.
pub trait LoxCallable {
    /// The number of arguments that a call takes.
    spec fn parameters(&self) -> nat;

    /// The state and the request that a call with `arguments` leads to from
    /// the state `machine`.
    spec fn called(&self, machine: InterpreterView, arguments: Seq<LitValView>) -> (
        InterpreterView,
        RequestView,
    );

    /// The number of arguments that a call takes.
    fn arity(&self) -> (n: usize)
        ensures
            n == self.parameters(),
    ;

    /// Begins a call with `arguments`, as many as `arity` says.
    fn call(&self, interpreter: &mut Interpreter, arguments: Vec<LitVal>) -> (r: Request)
        requires
            arguments.len() == self.parameters(),
        ensures
            (final(interpreter)@, r@) == self.called(old(interpreter)@, values_view(arguments@)),
    ;
}

/// Whether a value counts as true in a condition.
pub fn is_truthy(val: &LitVal) -> (r: bool)
    ensures
        r == val@.truthy(),
{
    match val {
        LitVal::Bool(b) => *b,
        LitVal::Nil => false,
        _ => true,
    }
}

impl LitVal {
    /// `==` of the language.
    pub fn equals(&self, other: &LitVal) -> (r: bool)
        ensures
            r == self@.equals(other@),
    {
        match (self, other) {
            (LitVal::Number(a), LitVal::Number(b)) => a.eq_number(b),
            (LitVal::String(a), LitVal::String(b)) => *a == *b,
            (LitVal::Bool(a), LitVal::Bool(b)) => *a == *b,
            (LitVal::Nil, LitVal::Nil) => true,
            (LitVal::Function(f), LitVal::Function(g)) => f.closure == g.closure && f.name.same(
                &g.name,
            ) && same_tokens(&*f.params, &*g.params) && same_stmts(&*f.body, &*g.body),
            (LitVal::Clock(_), LitVal::Clock(_)) => true,
            _ => false,
        }
    }

    /// What `print` writes for this value, unless it is a number: a number's
    /// text is the host's to give.
    pub fn to_string(&self) -> (r: Option<String>)
        ensures
            self@ is Number <==> r is None,
            r matches Some(s) ==> s@ == self@.display(),
    {
        match self {
            LitVal::Number(_) => None,
            LitVal::String(s) => Some(s.clone()),
            LitVal::Bool(b) => if *b {
                Some("true".to_owned())
            } else {
                Some("false".to_owned())
            },
            LitVal::Nil => Some("nil".to_owned()),
            LitVal::Function(f) => {
                let mut s = "<fn ".to_owned();
                s.append(f.name.lexeme.as_str());
                s.append(">");
                Some(s)
            },
            LitVal::Clock(_) => Some("<native fn>".to_owned()),
        }
    }
}

} // verus!
