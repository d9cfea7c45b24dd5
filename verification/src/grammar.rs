//! The grammar: what each rule of the parser makes of the tokens from a given
//! place on. A rule is given the errors reported before it. It gives a value
//! or fails, says where the next rule begins, and gives back the errors with
//! its own added, in order.
//!
//! From lowest to highest binding power:
//! assignment, `or`, `and`, equality, comparison, term, factor, unary, call,
//! primary. Binary and logical operators group to the left; unary operators
//! and assignment group to the right.

use vstd::prelude::*;
use crate::expr::ExprView;
use crate::stmt::StmtView;
use crate::token::{LiteralView, TokenType, TokenView};
use crate::{location_of, DiagnosticView, ErrorKind};

verus! {

/// What a rule gives.
pub struct Parsed<T> {
    /// What was parsed; `None` where the rule failed.
    pub value: Option<T>,
    /// The place of the first token that the rule left.
    pub pos: int,
    /// The errors reported so far: those before the rule, then its own.
    pub errors: Seq<DiagnosticView>,
}

/// The result of a rule that gives `value`, leaves the token at `pos`, and
/// has reported no error of its own.
pub open spec fn ok<T>(value: T, pos: int, errors: Seq<DiagnosticView>) -> Parsed<T> {
    Parsed { value: Some(value), pos, errors }
}

impl<T> Parsed<T> {
    /// The failure that this failure is for a rule of another type.
    pub open spec fn failed<U>(self) -> Parsed<U> {
        Parsed { value: None, pos: self.pos, errors: self.errors }
    }

    /// This result with `value` in place of its own.
    pub open spec fn with<U>(self, value: U) -> Parsed<U> {
        Parsed { value: Some(value), pos: self.pos, errors: self.errors }
    }

    /// This result, given that it ends at a place of `ts` from `pos` on. The
    /// result of every rule that began at `pos` does, where the tokens end
    /// with the token that marks the end: this is shown in `grammar_laws`.
    pub open spec fn onward(self, ts: Seq<TokenView>, pos: int) -> Parsed<T> {
        if pos <= self.pos < ts.len() {
            self
        } else {
            Parsed { value: None, pos, errors: self.errors }
        }
    }
}

/// The report of a syntax error at `token`.
pub open spec fn syntax_error(token: TokenView, message: Seq<char>) -> DiagnosticView {
    DiagnosticView {
        kind: ErrorKind::Syntax,
        line: token.line,
        location: location_of(token),
        message,
    }
}

/// The failure of a rule at `pos` with one more error, reported at the token
/// there.
pub open spec fn fail<T>(
    ts: Seq<TokenView>,
    pos: int,
    errors: Seq<DiagnosticView>,
    message: Seq<char>,
) -> Parsed<T> {
    Parsed { value: None, pos, errors: errors.push(syntax_error(ts[pos], message)) }
}

/// Whether no token is left at `pos` but the one that marks the end.
pub open spec fn at_end(ts: Seq<TokenView>, pos: int) -> bool {
    !(0 <= pos < ts.len()) || ts[pos].type_ == TokenType::Eof
}

/// Whether the token at `pos` is of kind `t`. The token that marks the end
/// is of no kind.
pub open spec fn check(ts: Seq<TokenView>, pos: int, t: TokenType) -> bool {
    !at_end(ts, pos) && ts[pos].type_ == t
}

/// The token at `pos` if it is of kind `t`; else the error `message`.
pub open spec fn consume(
    ts: Seq<TokenView>,
    pos: int,
    errors: Seq<DiagnosticView>,
    t: TokenType,
    message: Seq<char>,
) -> Parsed<TokenView> {
    if check(ts, pos, t) {
        ok(ts[pos], pos + 1, errors)
    } else {
        fail(ts, pos, errors, message)
    }
}

/// Whether a statement begins with a token of this kind.
pub open spec fn starts_statement(t: TokenType) -> bool {
    t == TokenType::Class || t == TokenType::Fun || t == TokenType::Var || t == TokenType::For || t
        == TokenType::If || t == TokenType::While || t == TokenType::Print || t
        == TokenType::Return
}

/// The first place from `pos` on where a statement may begin: after a
/// semicolon, at a token that starts a statement, or at the end.
pub open spec fn boundary(ts: Seq<TokenView>, pos: int) -> int
    decreases ts.len() - pos,
{
    if at_end(ts, pos) {
        pos
    } else if pos >= 1 && ts[pos - 1].type_ == TokenType::Semicolon {
        pos
    } else if starts_statement(ts[pos].type_) {
        pos
    } else {
        boundary(ts, pos + 1)
    }
}

/// Where parsing goes on after an error at `pos`: the token there is given
/// up, and so are those after it up to the next place where a statement may
/// begin.
pub open spec fn synchronize(ts: Seq<TokenView>, pos: int) -> int {
    if at_end(ts, pos) {
        pos
    } else {
        boundary(ts, pos + 1)
    }
}

/// The binary and logical operators by level, the loosest first: `or`,
/// `and`, equality, comparison, term, factor.
pub open spec fn operator(level: nat, t: TokenType) -> bool {
    if level == 0 {
        t == TokenType::Or
    } else if level == 1 {
        t == TokenType::And
    } else if level == 2 {
        t == TokenType::BangEqual || t == TokenType::EqualEqual
    } else if level == 3 {
        t == TokenType::Greater || t == TokenType::GreaterEqual || t == TokenType::Less || t
            == TokenType::LessEqual
    } else if level == 4 {
        t == TokenType::Minus || t == TokenType::Plus
    } else {
        t == TokenType::Slash || t == TokenType::Star
    }
}

/// The expression that an operator of level `level` makes of two operands.
pub open spec fn node(level: nat, left: ExprView, op: TokenView, right: ExprView) -> ExprView {
    if level < 2 {
        ExprView::Logical { left: Box::new(left), op, right: Box::new(right) }
    } else {
        ExprView::Binary { left: Box::new(left), op, right: Box::new(right) }
    }
}

/// An expression: an assignment, or what binds tighter.
pub open spec fn expression(ts: Seq<TokenView>, pos: int, errors: Seq<DiagnosticView>) -> Parsed<
    ExprView,
>
    decreases ts.len() - pos, 40int,
{
    assignment(ts, pos, errors)
}

/// `target = value`, where the target is a name; or what `or` gives.
pub open spec fn assignment(ts: Seq<TokenView>, pos: int, errors: Seq<DiagnosticView>) -> Parsed<
    ExprView,
>
    decreases ts.len() - pos, 39int,
{
    let left = binary(0, ts, pos, errors).onward(ts, pos);
    match left.value {
        Some(target) => if check(ts, left.pos, TokenType::Equal) {
            let right = assignment(ts, left.pos + 1, left.errors).onward(ts, left.pos + 1);
            match right.value {
                Some(value) => match target {
                    ExprView::Variable(name) => right.with(
                        ExprView::Assign { name, value: Box::new(value) },
                    ),
                    _ => Parsed {
                        value: None,
                        pos: right.pos,
                        errors: right.errors.push(
                            syntax_error(ts[left.pos], "Invalid assignment target."@),
                        ),
                    },
                },
                None => right,
            }
        } else {
            left
        },
        None => left,
    }
}

/// An operand of level `level`, then operators of that level and operands
/// as long as they come. Beyond the last level stands a unary expression.
pub open spec fn binary(level: nat, ts: Seq<TokenView>, pos: int, errors: Seq<DiagnosticView>) -> Parsed<
    ExprView,
>
    decreases ts.len() - pos, (if level <= 5 {
        38 - 2 * level
    } else {
        11
    }),
{
    if level > 5 {
        unary(ts, pos, errors)
    } else {
        let left = binary(level + 1, ts, pos, errors).onward(ts, pos);
        match left.value {
            Some(e) => binary_rest(level, ts, left.pos, left.errors, e),
            None => left,
        }
    }
}

/// What follows the operand `left` on level `level`.
pub open spec fn binary_rest(
    level: nat,
    ts: Seq<TokenView>,
    pos: int,
    errors: Seq<DiagnosticView>,
    left: ExprView,
) -> Parsed<ExprView>
    decreases ts.len() - pos, 37 - 2 * level,
{
    if level <= 5 && !at_end(ts, pos) && operator(level, ts[pos].type_) {
        let right = binary(level + 1, ts, pos + 1, errors).onward(ts, pos + 1);
        match right.value {
            Some(e) => binary_rest(
                level,
                ts,
                right.pos,
                right.errors,
                node(level, left, ts[pos], e),
            ),
            None => right,
        }
    } else {
        ok(left, pos, errors)
    }
}

/// `!` or `-` before a unary expression; or a call.
pub open spec fn unary(ts: Seq<TokenView>, pos: int, errors: Seq<DiagnosticView>) -> Parsed<
    ExprView,
>
    decreases ts.len() - pos, 10int,
{
    if check(ts, pos, TokenType::Bang) || check(ts, pos, TokenType::Minus) {
        let right = unary(ts, pos + 1, errors);
        match right.value {
            Some(e) => right.with(ExprView::Unary { op: ts[pos], right: Box::new(e) }),
            None => right,
        }
    } else {
        call(ts, pos, errors)
    }
}

/// A primary expression, then argument lists as long as they come.
pub open spec fn call(ts: Seq<TokenView>, pos: int, errors: Seq<DiagnosticView>) -> Parsed<
    ExprView,
>
    decreases ts.len() - pos, 9int,
{
    let callee = primary(ts, pos, errors).onward(ts, pos);
    match callee.value {
        Some(e) => call_rest(ts, callee.pos, callee.errors, e),
        None => callee,
    }
}

/// What follows the callee `callee`.
pub open spec fn call_rest(
    ts: Seq<TokenView>,
    pos: int,
    errors: Seq<DiagnosticView>,
    callee: ExprView,
) -> Parsed<ExprView>
    decreases ts.len() - pos, 7int,
{
    if check(ts, pos, TokenType::LeftParen) {
        let made = finish_call(ts, pos + 1, errors, callee).onward(ts, pos + 1);
        match made.value {
            Some(e) => call_rest(ts, made.pos, made.errors, e),
            None => made,
        }
    } else {
        ok(callee, pos, errors)
    }
}

/// The arguments of a call and its closing parenthesis; the opening one is
/// taken already.
pub open spec fn finish_call(
    ts: Seq<TokenView>,
    pos: int,
    errors: Seq<DiagnosticView>,
    callee: ExprView,
) -> Parsed<ExprView>
    decreases ts.len() - pos, 42int,
{
    let list = if check(ts, pos, TokenType::RightParen) {
        ok(Seq::empty(), pos, errors)
    } else {
        arguments(ts, pos, errors, Seq::empty())
    };
    match list.value {
        Some(arguments) => {
            let close = consume(
                ts,
                list.pos,
                list.errors,
                TokenType::RightParen,
                "Expect ')' after arguments."@,
            );
            match close.value {
                Some(paren) => close.with(
                    ExprView::Call { callee: Box::new(callee), paren, arguments },
                ),
                None => close.failed(),
            }
        },
        None => list.failed(),
    }
}

/// The errors after the count of a list was checked at `pos`: where 255
/// items stand before, one more is reported, and parsed all the same.
pub open spec fn counted(
    ts: Seq<TokenView>,
    pos: int,
    errors: Seq<DiagnosticView>,
    before: nat,
    message: Seq<char>,
) -> Seq<DiagnosticView> {
    if before >= 255 {
        errors.push(syntax_error(ts[pos], message))
    } else {
        errors
    }
}

/// One argument after `before`, and those after it.
pub open spec fn arguments(
    ts: Seq<TokenView>,
    pos: int,
    errors: Seq<DiagnosticView>,
    before: Seq<ExprView>,
) -> Parsed<Seq<ExprView>>
    decreases ts.len() - pos, 41int,
{
    let one = expression(
        ts,
        pos,
        counted(ts, pos, errors, before.len(), "Can't have more than 255 arguments."@),
    ).onward(ts, pos);
    match one.value {
        Some(e) => if check(ts, one.pos, TokenType::Comma) {
            arguments(ts, one.pos + 1, one.errors, before.push(e))
        } else {
            one.with(before.push(e))
        },
        None => one.failed(),
    }
}

/// A literal, a name, or an expression in parentheses. A closing
/// parenthesis that is missing is reported, and the expression stands.
pub open spec fn primary(ts: Seq<TokenView>, pos: int, errors: Seq<DiagnosticView>) -> Parsed<
    ExprView,
>
    decreases ts.len() - pos, 8int,
{
    if check(ts, pos, TokenType::False) {
        ok(ExprView::Literal(LiteralView::Bool(false)), pos + 1, errors)
    } else if check(ts, pos, TokenType::True) {
        ok(ExprView::Literal(LiteralView::Bool(true)), pos + 1, errors)
    } else if check(ts, pos, TokenType::Nil) {
        ok(ExprView::Literal(LiteralView::Nil), pos + 1, errors)
    } else if check(ts, pos, TokenType::Number) || check(ts, pos, TokenType::String) {
        ok(ExprView::Literal(ts[pos].literal), pos + 1, errors)
    } else if check(ts, pos, TokenType::Identifier) {
        ok(ExprView::Variable(ts[pos]), pos + 1, errors)
    } else if check(ts, pos, TokenType::LeftParen) {
        let inner = expression(ts, pos + 1, errors).onward(ts, pos + 1);
        match inner.value {
            Some(e) => {
                let close = consume(
                    ts,
                    inner.pos,
                    inner.errors,
                    TokenType::RightParen,
                    "Expect ')' after expression."@,
                );
                Parsed {
                    value: Some(ExprView::Grouping { expression: Box::new(e) }),
                    pos: close.pos,
                    errors: close.errors,
                }
            },
            None => inner,
        }
    } else {
        fail(ts, pos, errors, "Expect expression."@)
    }
}

/// A declaration, or nothing where it was malformed: then parsing goes on
/// at the next place where a statement may begin. `inside` says whether the
/// declaration stands in a function's body.
pub open spec fn declaration(
    ts: Seq<TokenView>,
    pos: int,
    errors: Seq<DiagnosticView>,
    inside: bool,
) -> Parsed<StmtView>
    decreases ts.len() - pos, 60int,
{
    let made = declaration_helper(ts, pos, errors, inside).onward(ts, pos);
    match made.value {
        Some(_) => made,
        None => Parsed { value: None, pos: synchronize(ts, made.pos), errors: made.errors },
    }
}

/// A function, a variable, or a statement.
pub open spec fn declaration_helper(
    ts: Seq<TokenView>,
    pos: int,
    errors: Seq<DiagnosticView>,
    inside: bool,
) -> Parsed<StmtView>
    decreases ts.len() - pos, 59int,
{
    if check(ts, pos, TokenType::Fun) {
        function(ts, pos + 1, errors, "function"@)
    } else if check(ts, pos, TokenType::Var) {
        var_decl(ts, pos + 1, errors)
    } else {
        statement(ts, pos, errors, inside)
    }
}

/// A statement: `for`, `if`, `print`, `return`, `while`, a block in braces,
/// or an expression with a semicolon.
pub open spec fn statement(
    ts: Seq<TokenView>,
    pos: int,
    errors: Seq<DiagnosticView>,
    inside: bool,
) -> Parsed<StmtView>
    decreases ts.len() - pos, 58int,
{
    if check(ts, pos, TokenType::For) {
        for_stmt(ts, pos + 1, errors, inside)
    } else if check(ts, pos, TokenType::If) {
        if_stmt(ts, pos + 1, errors, inside)
    } else if check(ts, pos, TokenType::Print) {
        print_stmt(ts, pos + 1, errors)
    } else if check(ts, pos, TokenType::Return) {
        return_stmt(ts, pos + 1, errors, inside)
    } else if check(ts, pos, TokenType::While) {
        while_stmt(ts, pos + 1, errors, inside)
    } else if check(ts, pos, TokenType::LeftBrace) {
        let body = block(ts, pos + 1, errors, inside);
        match body.value {
            Some(stmts) => body.with(StmtView::Block(stmts)),
            None => body.failed(),
        }
    } else {
        expr_stmt(ts, pos, errors)
    }
}

/// The statement that a `for` loop stands for: the body, and after it the
/// increment where there is one, in a `while` on the condition, which is
/// `true` where there is none; and before that, in one block with it, the
/// initializer where there is one.
pub open spec fn for_loop(
    initializer: Option<StmtView>,
    condition: Option<ExprView>,
    increment: Option<ExprView>,
    body: StmtView,
) -> StmtView {
    let body = match increment {
        Some(e) => StmtView::Block(seq![body, StmtView::Expr(e)]),
        None => body,
    };
    let condition = match condition {
        Some(e) => e,
        None => ExprView::Literal(LiteralView::Bool(true)),
    };
    let body = StmtView::While { condition, body: Box::new(body) };
    match initializer {
        Some(s) => StmtView::Block(seq![s, body]),
        None => body,
    }
}

/// An expression, unless the token at `pos` is of kind `closing`: then
/// nothing.
pub open spec fn clause(
    ts: Seq<TokenView>,
    pos: int,
    errors: Seq<DiagnosticView>,
    closing: TokenType,
) -> Parsed<Option<ExprView>>
    decreases ts.len() - pos, 41int,
{
    if !check(ts, pos, closing) {
        let e = expression(ts, pos, errors).onward(ts, pos);
        match e.value {
            Some(c) => e.with(Some(c)),
            None => e.failed(),
        }
    } else {
        ok(None, pos, errors)
    }
}

/// A `for` loop after its keyword: the three clauses in parentheses, of
/// which each may be empty, and the body.
pub open spec fn for_stmt(
    ts: Seq<TokenView>,
    pos: int,
    errors: Seq<DiagnosticView>,
    inside: bool,
) -> Parsed<StmtView>
    decreases ts.len() - pos, 57int,
{
    let open = consume(ts, pos, errors, TokenType::LeftParen, "Expect '(' after 'for'."@);
    if open.value is None {
        open.failed()
    } else {
        let first: Parsed<Option<StmtView>> = if check(ts, open.pos, TokenType::Semicolon) {
            ok(None, open.pos + 1, open.errors)
        } else if check(ts, open.pos, TokenType::Var) {
            let v = var_decl(ts, open.pos + 1, open.errors).onward(ts, open.pos + 1);
            match v.value {
                Some(s) => v.with(Some(s)),
                None => v.failed(),
            }
        } else {
            let e = expr_stmt(ts, open.pos, open.errors).onward(ts, open.pos);
            match e.value {
                Some(s) => e.with(Some(s)),
                None => e.failed(),
            }
        };
        match first.value {
            Some(initializer) => for_rest(ts, first.pos, first.errors, inside, initializer),
            None => first.failed(),
        }
    }
}

/// A `for` loop after its first clause, which was `initializer`.
pub open spec fn for_rest(
    ts: Seq<TokenView>,
    pos: int,
    errors: Seq<DiagnosticView>,
    inside: bool,
    initializer: Option<StmtView>,
) -> Parsed<StmtView>
    decreases ts.len() - pos, 56int,
{
    let second = clause(ts, pos, errors, TokenType::Semicolon).onward(ts, pos);
    match second.value {
        Some(condition) => {
            let semi = consume(
                ts,
                second.pos,
                second.errors,
                TokenType::Semicolon,
                "Expect ';' after loop condition."@,
            );
            if semi.value is None {
                semi.failed()
            } else {
                let third = clause(ts, semi.pos, semi.errors, TokenType::RightParen).onward(
                    ts,
                    semi.pos,
                );
                match third.value {
                    Some(increment) => {
                        let close = consume(
                            ts,
                            third.pos,
                            third.errors,
                            TokenType::RightParen,
                            "Expect ')' after for clauses."@,
                        );
                        if close.value is None {
                            close.failed()
                        } else {
                            let body = statement(ts, close.pos, close.errors, inside);
                            match body.value {
                                Some(s) => body.with(
                                    for_loop(initializer, condition, increment, s),
                                ),
                                None => body,
                            }
                        }
                    },
                    None => third.failed(),
                }
            }
        },
        None => second.failed(),
    }
}

/// An `if` after its keyword: the condition in parentheses, a statement,
/// and after `else`, where it follows, another.
pub open spec fn if_stmt(
    ts: Seq<TokenView>,
    pos: int,
    errors: Seq<DiagnosticView>,
    inside: bool,
) -> Parsed<StmtView>
    decreases ts.len() - pos, 57int,
{
    let open = consume(ts, pos, errors, TokenType::LeftParen, "Expect '(' after 'if'."@);
    if open.value is None {
        open.failed()
    } else {
        let test = expression(ts, open.pos, open.errors).onward(ts, open.pos);
        match test.value {
            Some(condition) => {
                let close = consume(
                    ts,
                    test.pos,
                    test.errors,
                    TokenType::RightParen,
                    "Expect ')' after if condition."@,
                );
                if close.value is None {
                    close.failed()
                } else {
                    let first = statement(ts, close.pos, close.errors, inside).onward(
                        ts,
                        close.pos,
                    );
                    match first.value {
                        Some(then_branch) => if check(ts, first.pos, TokenType::Else) {
                            let second = statement(ts, first.pos + 1, first.errors, inside);
                            match second.value {
                                Some(else_branch) => second.with(
                                    StmtView::If {
                                        condition,
                                        then_branch: Box::new(then_branch),
                                        else_branch: Some(Box::new(else_branch)),
                                    },
                                ),
                                None => second,
                            }
                        } else {
                            first.with(
                                StmtView::If {
                                    condition,
                                    then_branch: Box::new(then_branch),
                                    else_branch: None,
                                },
                            )
                        },
                        None => first,
                    }
                }
            },
            None => test.failed(),
        }
    }
}

/// A `print` after its keyword: an expression and a semicolon.
pub open spec fn print_stmt(ts: Seq<TokenView>, pos: int, errors: Seq<DiagnosticView>) -> Parsed<
    StmtView,
>
    decreases ts.len() - pos, 57int,
{
    let value = expression(ts, pos, errors).onward(ts, pos);
    match value.value {
        Some(e) => {
            let semi = consume(
                ts,
                value.pos,
                value.errors,
                TokenType::Semicolon,
                "Expect ';' after value."@,
            );
            if semi.value is None {
                semi.failed()
            } else {
                semi.with(StmtView::Print(e))
            }
        },
        None => value.failed(),
    }
}

/// A `return` after its keyword, which stands just before `pos`: an
/// expression or none, and a semicolon. Outside a function's body it is an
/// error.
pub open spec fn return_stmt(
    ts: Seq<TokenView>,
    pos: int,
    errors: Seq<DiagnosticView>,
    inside: bool,
) -> Parsed<StmtView>
    decreases ts.len() - pos, 57int,
{
    if !inside {
        Parsed {
            value: None,
            pos,
            errors: errors.push(syntax_error(ts[pos - 1], "Can't return from top-level code."@)),
        }
    } else {
        let value = clause(ts, pos, errors, TokenType::Semicolon).onward(ts, pos);
        match value.value {
            Some(v) => {
                let semi = consume(
                    ts,
                    value.pos,
                    value.errors,
                    TokenType::Semicolon,
                    "Expect ';' after return value."@,
                );
                if semi.value is None {
                    semi.failed()
                } else {
                    semi.with(StmtView::Return { keyword: ts[pos - 1], value: v })
                }
            },
            None => value.failed(),
        }
    }
}

/// A `while` after its keyword: the condition in parentheses and a
/// statement.
pub open spec fn while_stmt(
    ts: Seq<TokenView>,
    pos: int,
    errors: Seq<DiagnosticView>,
    inside: bool,
) -> Parsed<StmtView>
    decreases ts.len() - pos, 57int,
{
    let open = consume(ts, pos, errors, TokenType::LeftParen, "Expect '(' after 'while'."@);
    if open.value is None {
        open.failed()
    } else {
        let test = expression(ts, open.pos, open.errors).onward(ts, open.pos);
        match test.value {
            Some(condition) => {
                let close = consume(
                    ts,
                    test.pos,
                    test.errors,
                    TokenType::RightParen,
                    "Expect ')' after condition."@,
                );
                if close.value is None {
                    close.failed()
                } else {
                    let body = statement(ts, close.pos, close.errors, inside);
                    match body.value {
                        Some(s) => body.with(StmtView::While { condition, body: Box::new(s) }),
                        None => body,
                    }
                }
            },
            None => test.failed(),
        }
    }
}

/// An expression and a semicolon.
pub open spec fn expr_stmt(ts: Seq<TokenView>, pos: int, errors: Seq<DiagnosticView>) -> Parsed<
    StmtView,
>
    decreases ts.len() - pos, 50int,
{
    let value = expression(ts, pos, errors).onward(ts, pos);
    match value.value {
        Some(e) => {
            let semi = consume(
                ts,
                value.pos,
                value.errors,
                TokenType::Semicolon,
                "Expect ';' after expression."@,
            );
            if semi.value is None {
                semi.failed()
            } else {
                semi.with(StmtView::Expr(e))
            }
        },
        None => value.failed(),
    }
}

/// A function after `fun`: its name, the parameters' names in parentheses,
/// and a block. `kind` is what the function is called in messages.
pub open spec fn function(
    ts: Seq<TokenView>,
    pos: int,
    errors: Seq<DiagnosticView>,
    kind: Seq<char>,
) -> Parsed<StmtView>
    decreases ts.len() - pos, 57int,
{
    let named = consume(ts, pos, errors, TokenType::Identifier, "Expect "@ + kind + " name."@);
    match named.value {
        Some(name) => {
            let open = consume(
                ts,
                named.pos,
                named.errors,
                TokenType::LeftParen,
                "Expect '(' after "@ + kind + " name."@,
            );
            if open.value is None {
                open.failed()
            } else {
                let list = if check(ts, open.pos, TokenType::RightParen) {
                    ok(Seq::empty(), open.pos, open.errors)
                } else {
                    parameters(ts, open.pos, open.errors, Seq::empty())
                }.onward(ts, open.pos);
                match list.value {
                    Some(params) => {
                        let close = consume(
                            ts,
                            list.pos,
                            list.errors,
                            TokenType::RightParen,
                            "Expect ')' after parameters."@,
                        );
                        if close.value is None {
                            close.failed()
                        } else {
                            let brace = consume(
                                ts,
                                close.pos,
                                close.errors,
                                TokenType::LeftBrace,
                                "Expect '{' before "@ + kind + " body."@,
                            );
                            if brace.value is None {
                                brace.failed()
                            } else {
                                let body = block(ts, brace.pos, brace.errors, true);
                                match body.value {
                                    Some(stmts) => body.with(
                                        StmtView::Function { name, params, body: stmts },
                                    ),
                                    None => body.failed(),
                                }
                            }
                        }
                    },
                    None => list.failed(),
                }
            }
        },
        None => named.failed(),
    }
}

/// One parameter after `before`, and those after it.
pub open spec fn parameters(
    ts: Seq<TokenView>,
    pos: int,
    errors: Seq<DiagnosticView>,
    before: Seq<TokenView>,
) -> Parsed<Seq<TokenView>>
    decreases ts.len() - pos,
{
    let one = consume(
        ts,
        pos,
        counted(ts, pos, errors, before.len(), "Can't have more than 255 parameters."@),
        TokenType::Identifier,
        "Expect parameter name."@,
    );
    match one.value {
        Some(name) => if check(ts, one.pos, TokenType::Comma) {
            parameters(ts, one.pos + 1, one.errors, before.push(name))
        } else {
            one.with(before.push(name))
        },
        None => one.failed(),
    }
}

/// The declarations of a block and its closing brace; the opening one is
/// taken already.
pub open spec fn block(
    ts: Seq<TokenView>,
    pos: int,
    errors: Seq<DiagnosticView>,
    inside: bool,
) -> Parsed<Seq<StmtView>>
    decreases ts.len() - pos, 62int,
{
    block_rest(ts, pos, errors, inside, Seq::empty())
}

/// What follows the declarations `before` in a block.
pub open spec fn block_rest(
    ts: Seq<TokenView>,
    pos: int,
    errors: Seq<DiagnosticView>,
    inside: bool,
    before: Seq<StmtView>,
) -> Parsed<Seq<StmtView>>
    decreases ts.len() - pos, 61int,
{
    if !check(ts, pos, TokenType::RightBrace) && !at_end(ts, pos) {
        let one = declaration(ts, pos, errors, inside).onward(ts, pos);
        let so_far = match one.value {
            Some(s) => before.push(s),
            None => before,
        };
        if one.pos > pos {
            block_rest(ts, one.pos, one.errors, inside, so_far)
        } else {
            one.with(so_far)
        }
    } else {
        let close = consume(ts, pos, errors, TokenType::RightBrace, "Expect '}' after block."@);
        if close.value is None {
            close.failed()
        } else {
            close.with(before)
        }
    }
}

/// A variable after `var`: its name, an initializer after `=` where there
/// is one, and a semicolon. A semicolon that is missing is reported, and
/// the declaration stands.
pub open spec fn var_decl(ts: Seq<TokenView>, pos: int, errors: Seq<DiagnosticView>) -> Parsed<
    StmtView,
>
    decreases ts.len() - pos, 57int,
{
    let named = consume(ts, pos, errors, TokenType::Identifier, "Expect variable name."@);
    match named.value {
        Some(name) => {
            let init: Parsed<Option<ExprView>> = if check(ts, named.pos, TokenType::Equal) {
                let e = expression(ts, named.pos + 1, named.errors).onward(ts, named.pos + 1);
                match e.value {
                    Some(v) => e.with(Some(v)),
                    None => e.failed(),
                }
            } else {
                ok(None, named.pos, named.errors)
            };
            match init.value {
                Some(initializer) => {
                    let semi = consume(
                        ts,
                        init.pos,
                        init.errors,
                        TokenType::Semicolon,
                        "Expect ';' after variable declaration."@,
                    );
                    Parsed {
                        value: Some(StmtView::Var { name, initializer }),
                        pos: semi.pos,
                        errors: semi.errors,
                    }
                },
                None => init.failed(),
            }
        },
        None => named.failed(),
    }
}

/// What follows the declarations `before` of a program.
pub open spec fn program_rest(
    ts: Seq<TokenView>,
    pos: int,
    errors: Seq<DiagnosticView>,
    before: Seq<StmtView>,
) -> Parsed<Seq<StmtView>>
    decreases ts.len() - pos, 61int,
{
    if !at_end(ts, pos) {
        let one = declaration(ts, pos, errors, false).onward(ts, pos);
        let so_far = match one.value {
            Some(s) => before.push(s),
            None => before,
        };
        if one.pos > pos {
            program_rest(ts, one.pos, one.errors, so_far)
        } else {
            one.with(so_far)
        }
    } else {
        ok(before, pos, errors)
    }
}

/// The statements of a program, in order, and the errors reported. A
/// malformed declaration is left out and reported; those after it are
/// parsed as if it had not been there.
pub open spec fn program(ts: Seq<TokenView>) -> Parsed<Seq<StmtView>> {
    program_rest(ts, 0, Seq::empty(), Seq::empty())
}

} // verus!
