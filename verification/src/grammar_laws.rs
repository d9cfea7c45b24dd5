//! What holds of the grammar, for tokens that end with the token that marks
//! the end: every rule ends at a place from where it began on, a rule that
//! fails has reported an error, a rule that gives a value has taken a token,
//! what is parsed has the operators and names in it that the grammar puts
//! there, and a `return` is parsed only inside a function's body. So a
//! program is parsed to its end, whatever errors are met on the way.

use vstd::prelude::*;
use crate::expr::ExprView;
use crate::grammar::{
    arguments, assignment, at_end, binary, binary_rest, block, block_rest, boundary, call,
    call_rest, check, clause, consume, counted, declaration, declaration_helper, expr_stmt,
    expression, finish_call, for_loop, for_rest, for_stmt, function, if_stmt, parameters, primary,
    print_stmt, program, program_rest, return_stmt, statement, synchronize, unary, var_decl,
    while_stmt, Parsed,
};
use crate::stmt::StmtView;
use crate::token::{TokenType, TokenView};
use crate::DiagnosticView;

verus! {

/// The tokens end with the token that marks the end.
pub open spec fn well_ended(ts: Seq<TokenView>) -> bool {
    ts.len() > 0 && ts[ts.len() - 1].type_ == TokenType::Eof
}

/// What holds of the result `r` of a rule that began at `pos` after the
/// errors `errors`: it ends at a place from `pos` on, the errors reported
/// before are still there, first and in their order, and where the rule
/// fails an error was added.
pub open spec fn sound<T>(
    r: Parsed<T>,
    ts: Seq<TokenView>,
    pos: int,
    errors: Seq<DiagnosticView>,
) -> bool {
    &&& pos <= r.pos < ts.len()
    &&& errors.is_prefix_of(r.errors)
    &&& r.value is None ==> errors.len() < r.errors.len()
}

/// `sound`, and where the rule gives a value it has taken a token.
pub open spec fn strict<T>(
    r: Parsed<T>,
    ts: Seq<TokenView>,
    pos: int,
    errors: Seq<DiagnosticView>,
) -> bool {
    &&& sound(r, ts, pos, errors)
    &&& r.value is Some ==> pos < r.pos
}

/// Whether every `return` in the statement stands in a function's body;
/// `inside` says whether the statement itself does.
pub open spec fn enclosed(s: StmtView, inside: bool) -> bool
    decreases s,
{
    match s {
        StmtView::Return { .. } => inside,
        StmtView::Block(stmts) => forall|i: int|
            0 <= i < stmts.len() ==> enclosed(#[trigger] stmts[i], inside),
        StmtView::If { condition, then_branch, else_branch } => enclosed(*then_branch, inside)
            && match else_branch {
            Some(e) => enclosed(*e, inside),
            None => true,
        },
        StmtView::While { condition, body } => enclosed(*body, inside),
        StmtView::Function { name, params, body } => forall|i: int|
            0 <= i < body.len() ==> enclosed(#[trigger] body[i], true),
        _ => true,
    }
}

/// Whether an expression is one that the grammar makes: a unary operator is
/// `!` or `-`, a logical one `or` or `and`, a binary one an operator of
/// equality, comparison, term or factor; a name that is read or assigned to
/// is an identifier; and a call ends with a closing parenthesis.
pub open spec fn formed(e: ExprView) -> bool
    decreases e,
{
    match e {
        ExprView::Binary { left, op, right } => formed(*left) && formed(*right) && (
        crate::grammar::operator(2, op.type_) || crate::grammar::operator(3, op.type_)
            || crate::grammar::operator(4, op.type_) || crate::grammar::operator(5, op.type_)),
        ExprView::Assign { name, value } => formed(*value) && name.type_ == TokenType::Identifier,
        ExprView::Call { callee, paren, arguments } => formed(*callee) && paren.type_
            == TokenType::RightParen && forall|i: int|
            0 <= i < arguments.len() ==> formed(#[trigger] arguments[i]),
        ExprView::Grouping { expression } => formed(*expression),
        ExprView::Literal(_) => true,
        ExprView::Logical { left, op, right } => formed(*left) && formed(*right) && (op.type_
            == TokenType::Or || op.type_ == TokenType::And),
        ExprView::Unary { op, right } => formed(*right) && (op.type_ == TokenType::Bang || op.type_
            == TokenType::Minus),
        ExprView::Variable(name) => name.type_ == TokenType::Identifier,
    }
}

/// Whether every expression of `list` is `formed`.
pub open spec fn all_formed(list: Seq<ExprView>) -> bool {
    forall|i: int| 0 <= i < list.len() ==> formed(#[trigger] list[i])
}

/// Whether a statement is one that the grammar makes: its expressions are
/// `formed`, what it names is named by identifiers, and a `return` begins
/// with that keyword.
pub open spec fn shaped(s: StmtView) -> bool
    decreases s,
{
    match s {
        StmtView::Block(stmts) => forall|i: int|
            0 <= i < stmts.len() ==> shaped(#[trigger] stmts[i]),
        StmtView::Expr(e) => formed(e),
        StmtView::Function { name, params, body } => name.type_ == TokenType::Identifier && (
        forall|i: int| 0 <= i < params.len() ==> (#[trigger] params[i]).type_
            == TokenType::Identifier) && forall|i: int|
            0 <= i < body.len() ==> shaped(#[trigger] body[i]),
        StmtView::If { condition, then_branch, else_branch } => formed(condition) && shaped(
            *then_branch,
        ) && match else_branch {
            Some(e) => shaped(*e),
            None => true,
        },
        StmtView::Print(e) => formed(e),
        StmtView::Return { keyword, value } => keyword.type_ == TokenType::Return && match value {
            Some(e) => formed(e),
            None => true,
        },
        StmtView::Var { name, initializer } => name.type_ == TokenType::Identifier
            && match initializer {
            Some(e) => formed(e),
            None => true,
        },
        StmtView::While { condition, body } => formed(condition) && shaped(*body),
    }
}

/// Whether every statement of `stmts` is `shaped`.
pub open spec fn all_shaped(stmts: Seq<StmtView>) -> bool {
    forall|i: int| 0 <= i < stmts.len() ==> shaped(#[trigger] stmts[i])
}

/// Whether every statement of `stmts` is `enclosed`.
pub open spec fn all_enclosed(stmts: Seq<StmtView>, inside: bool) -> bool {
    forall|i: int| 0 <= i < stmts.len() ==> enclosed(#[trigger] stmts[i], inside)
}

proof fn lemma_consume(
    ts: Seq<TokenView>,
    pos: int,
    errors: Seq<DiagnosticView>,
    t: TokenType,
    message: Seq<char>,
)
    requires
        well_ended(ts),
        0 <= pos < ts.len(),
    ensures
        strict(consume(ts, pos, errors, t, message), ts, pos, errors),
{
}

/// The place where a statement may begin, looked for from `pos` on, is a
/// place of the tokens from `pos` on, and is what it is looked for: the end, a
/// place after a semicolon, or a token that starts a statement.
pub proof fn lemma_boundary(ts: Seq<TokenView>, pos: int)
    requires
        well_ended(ts),
        0 <= pos < ts.len(),
    ensures
        pos <= boundary(ts, pos) < ts.len(),
        ({
            let b = boundary(ts, pos);
            ||| at_end(ts, b)
            ||| (b >= 1 && ts[b - 1].type_ == TokenType::Semicolon)
            ||| crate::grammar::starts_statement(ts[b].type_)
        }),
    decreases ts.len() - pos,
{
    if !at_end(ts, pos) && !(pos >= 1 && ts[pos - 1].type_ == TokenType::Semicolon)
        && !crate::grammar::starts_statement(ts[pos].type_) {
        lemma_boundary(ts, pos + 1);
    }
}

/// After an error parsing goes on at a place from the error on, and beyond
/// it unless the error was met at the end.
pub proof fn lemma_synchronize(ts: Seq<TokenView>, pos: int)
    requires
        well_ended(ts),
        0 <= pos < ts.len(),
    ensures
        pos <= synchronize(ts, pos) < ts.len(),
        !at_end(ts, pos) ==> pos < synchronize(ts, pos),
{
    if !at_end(ts, pos) {
        lemma_boundary(ts, pos + 1);
    }
}

/// An expression ends at a place from where it began on, and beyond it if
/// it gives a value; the errors reported before it are still there; if it
/// fails, an error was added; and if it gives a value, that is as the grammar
/// makes it.
pub proof fn lemma_expression(ts: Seq<TokenView>, pos: int, errors: Seq<DiagnosticView>)
    requires
        well_ended(ts),
        0 <= pos < ts.len(),
    ensures
        expression(ts, pos, errors).value matches Some(e) ==> formed(e),
        strict(expression(ts, pos, errors), ts, pos, errors),
    decreases ts.len() - pos, 40int,
{
    lemma_assignment(ts, pos, errors);
}

proof fn lemma_assignment(ts: Seq<TokenView>, pos: int, errors: Seq<DiagnosticView>)
    requires
        well_ended(ts),
        0 <= pos < ts.len(),
    ensures
        assignment(ts, pos, errors).value matches Some(e) ==> formed(e),
        strict(assignment(ts, pos, errors), ts, pos, errors),
    decreases ts.len() - pos, 39int,
{
    lemma_binary(0, ts, pos, errors);
    let left = binary(0, ts, pos, errors);
    if left.value is Some && check(ts, left.pos, TokenType::Equal) {
        lemma_assignment(ts, left.pos + 1, left.errors);
    }
}

proof fn lemma_binary(level: nat, ts: Seq<TokenView>, pos: int, errors: Seq<DiagnosticView>)
    requires
        well_ended(ts),
        0 <= pos < ts.len(),
    ensures
        binary(level, ts, pos, errors).value matches Some(e) ==> formed(e),
        strict(binary(level, ts, pos, errors), ts, pos, errors),
    decreases ts.len() - pos, (if level <= 5 {
        38 - 2 * level
    } else {
        11
    }),
{
    if level > 5 {
        lemma_unary(ts, pos, errors);
    } else {
        lemma_binary(level + 1, ts, pos, errors);
        let left = binary(level + 1, ts, pos, errors);
        if left.value is Some {
            lemma_binary_rest(level, ts, left.pos, left.errors, left.value->0);
        }
    }
}

proof fn lemma_binary_rest(
    level: nat,
    ts: Seq<TokenView>,
    pos: int,
    errors: Seq<DiagnosticView>,
    left: ExprView,
)
    requires
        formed(left),
        well_ended(ts),
        0 <= pos < ts.len(),
    ensures
        binary_rest(level, ts, pos, errors, left).value matches Some(e) ==> formed(e),
        sound(binary_rest(level, ts, pos, errors, left), ts, pos, errors),
    decreases ts.len() - pos, 37 - 2 * level,
{
    if level <= 5 && !at_end(ts, pos) && crate::grammar::operator(level, ts[pos].type_) {
        lemma_binary(level + 1, ts, pos + 1, errors);
        let right = binary(level + 1, ts, pos + 1, errors);
        if right.value is Some {
            lemma_binary_rest(
                level,
                ts,
                right.pos,
                right.errors,
                crate::grammar::node(level, left, ts[pos], right.value->0),
            );
        }
    }
}

proof fn lemma_unary(ts: Seq<TokenView>, pos: int, errors: Seq<DiagnosticView>)
    requires
        well_ended(ts),
        0 <= pos < ts.len(),
    ensures
        unary(ts, pos, errors).value matches Some(e) ==> formed(e),
        strict(unary(ts, pos, errors), ts, pos, errors),
    decreases ts.len() - pos, 10int,
{
    if check(ts, pos, TokenType::Bang) || check(ts, pos, TokenType::Minus) {
        lemma_unary(ts, pos + 1, errors);
    } else {
        lemma_call(ts, pos, errors);
    }
}

proof fn lemma_call(ts: Seq<TokenView>, pos: int, errors: Seq<DiagnosticView>)
    requires
        well_ended(ts),
        0 <= pos < ts.len(),
    ensures
        call(ts, pos, errors).value matches Some(e) ==> formed(e),
        strict(call(ts, pos, errors), ts, pos, errors),
    decreases ts.len() - pos, 9int,
{
    lemma_primary(ts, pos, errors);
    let callee = primary(ts, pos, errors);
    if callee.value is Some {
        lemma_call_rest(ts, callee.pos, callee.errors, callee.value->0);
    }
}

proof fn lemma_call_rest(
    ts: Seq<TokenView>,
    pos: int,
    errors: Seq<DiagnosticView>,
    callee: ExprView,
)
    requires
        formed(callee),
        well_ended(ts),
        0 <= pos < ts.len(),
    ensures
        call_rest(ts, pos, errors, callee).value matches Some(e) ==> formed(e),
        sound(call_rest(ts, pos, errors, callee), ts, pos, errors),
    decreases ts.len() - pos, 7int,
{
    if check(ts, pos, TokenType::LeftParen) {
        lemma_finish_call(ts, pos + 1, errors, callee);
        let made = finish_call(ts, pos + 1, errors, callee);
        if made.value is Some {
            lemma_call_rest(ts, made.pos, made.errors, made.value->0);
        }
    }
}

proof fn lemma_finish_call(
    ts: Seq<TokenView>,
    pos: int,
    errors: Seq<DiagnosticView>,
    callee: ExprView,
)
    requires
        formed(callee),
        well_ended(ts),
        0 <= pos < ts.len(),
    ensures
        finish_call(ts, pos, errors, callee).value matches Some(e) ==> formed(e),
        strict(finish_call(ts, pos, errors, callee), ts, pos, errors),
    decreases ts.len() - pos, 42int,
{
    let list = if check(ts, pos, TokenType::RightParen) {
        crate::grammar::ok(Seq::<ExprView>::empty(), pos, errors)
    } else {
        arguments(ts, pos, errors, Seq::empty())
    };
    if !check(ts, pos, TokenType::RightParen) {
        lemma_arguments(ts, pos, errors, Seq::empty());
    }
    if list.value is Some {
        lemma_consume(
            ts,
            list.pos,
            list.errors,
            TokenType::RightParen,
            "Expect ')' after arguments."@,
        );
    }
}

proof fn lemma_arguments(
    ts: Seq<TokenView>,
    pos: int,
    errors: Seq<DiagnosticView>,
    before: Seq<ExprView>,
)
    requires
        all_formed(before),
        well_ended(ts),
        0 <= pos < ts.len(),
    ensures
        arguments(ts, pos, errors, before).value matches Some(list) ==> all_formed(list),
        strict(arguments(ts, pos, errors, before), ts, pos, errors),
    decreases ts.len() - pos, 41int,
{
    let start = counted(ts, pos, errors, before.len(), "Can't have more than 255 arguments."@);
    assert(errors.is_prefix_of(start));
    lemma_expression(ts, pos, start);
    let one = expression(ts, pos, start);
    if one.value is Some && check(ts, one.pos, TokenType::Comma) {
        lemma_arguments(ts, one.pos + 1, one.errors, before.push(one.value->0));
    }
}

proof fn lemma_primary(ts: Seq<TokenView>, pos: int, errors: Seq<DiagnosticView>)
    requires
        well_ended(ts),
        0 <= pos < ts.len(),
    ensures
        primary(ts, pos, errors).value matches Some(e) ==> formed(e),
        strict(primary(ts, pos, errors), ts, pos, errors),
    decreases ts.len() - pos, 8int,
{
    if check(ts, pos, TokenType::False) {
    } else if check(ts, pos, TokenType::True) {
    } else if check(ts, pos, TokenType::Nil) {
    } else if check(ts, pos, TokenType::Number) || check(ts, pos, TokenType::String) {
    } else if check(ts, pos, TokenType::Identifier) {
    } else if check(ts, pos, TokenType::LeftParen) {
        lemma_expression(ts, pos + 1, errors);
        let inner = expression(ts, pos + 1, errors);
        if inner.value is Some {
            lemma_consume(
                ts,
                inner.pos,
                inner.errors,
                TokenType::RightParen,
                "Expect ')' after expression."@,
            );
        }
    }
}

proof fn lemma_clause(
    ts: Seq<TokenView>,
    pos: int,
    errors: Seq<DiagnosticView>,
    closing: TokenType,
)
    requires
        well_ended(ts),
        0 <= pos < ts.len(),
    ensures
        clause(ts, pos, errors, closing).value matches Some(Some(e)) ==> formed(e),
        sound(clause(ts, pos, errors, closing), ts, pos, errors),
    decreases ts.len() - pos, 41int,
{
    if !check(ts, pos, closing) {
        lemma_expression(ts, pos, errors);
    }
}

/// A declaration ends beyond the place where it began, unless it began at
/// the end; where it is left out, an error was reported; and it holds no
/// `return` outside a function's body.
pub proof fn lemma_declaration(
    ts: Seq<TokenView>,
    pos: int,
    errors: Seq<DiagnosticView>,
    inside: bool,
)
    requires
        well_ended(ts),
        0 <= pos < ts.len(),
    ensures
        declaration(ts, pos, errors, inside).value matches Some(s) ==> shaped(s),
        sound(declaration(ts, pos, errors, inside), ts, pos, errors),
        !at_end(ts, pos) ==> pos < declaration(ts, pos, errors, inside).pos,
        declaration(ts, pos, errors, inside).value matches Some(s) ==> enclosed(s, inside),
    decreases ts.len() - pos, 60int,
{
    lemma_declaration_helper(ts, pos, errors, inside);
    let made = declaration_helper(ts, pos, errors, inside);
    if made.value is None {
        lemma_synchronize(ts, made.pos);
    }
}

proof fn lemma_declaration_helper(
    ts: Seq<TokenView>,
    pos: int,
    errors: Seq<DiagnosticView>,
    inside: bool,
)
    requires
        well_ended(ts),
        0 <= pos < ts.len(),
    ensures
        declaration_helper(ts, pos, errors, inside).value matches Some(s) ==> shaped(s),
        strict(declaration_helper(ts, pos, errors, inside), ts, pos, errors),
        declaration_helper(ts, pos, errors, inside).value matches Some(s) ==> enclosed(s, inside),
    decreases ts.len() - pos, 59int,
{
    if check(ts, pos, TokenType::Fun) {
        lemma_function(ts, pos + 1, errors, "function"@);
    } else if check(ts, pos, TokenType::Var) {
        lemma_var_decl(ts, pos + 1, errors);
    } else {
        lemma_statement(ts, pos, errors, inside);
    }
}

/// What `lemma_expression` says of an expression holds of a statement; and a
/// statement that was parsed is as the grammar makes it, and holds no `return`
/// outside a function's body.
pub proof fn lemma_statement(
    ts: Seq<TokenView>,
    pos: int,
    errors: Seq<DiagnosticView>,
    inside: bool,
)
    requires
        well_ended(ts),
        0 <= pos < ts.len(),
    ensures
        statement(ts, pos, errors, inside).value matches Some(s) ==> shaped(s),
        strict(statement(ts, pos, errors, inside), ts, pos, errors),
        statement(ts, pos, errors, inside).value matches Some(s) ==> enclosed(s, inside),
    decreases ts.len() - pos, 58int,
{
    if check(ts, pos, TokenType::For) {
        lemma_for_stmt(ts, pos + 1, errors, inside);
    } else if check(ts, pos, TokenType::If) {
        lemma_if_stmt(ts, pos + 1, errors, inside);
    } else if check(ts, pos, TokenType::Print) {
        lemma_print_stmt(ts, pos + 1, errors);
    } else if check(ts, pos, TokenType::Return) {
        lemma_return_stmt(ts, pos + 1, errors, inside);
    } else if check(ts, pos, TokenType::While) {
        lemma_while_stmt(ts, pos + 1, errors, inside);
    } else if check(ts, pos, TokenType::LeftBrace) {
        lemma_block(ts, pos + 1, errors, inside);
    } else {
        lemma_expr_stmt(ts, pos, errors);
    }
}

/// The statement that a `for` loop stands for holds a `return` only where
/// its parts do.
pub proof fn lemma_for_loop(
    initializer: Option<StmtView>,
    condition: Option<ExprView>,
    increment: Option<ExprView>,
    body: StmtView,
    inside: bool,
)
    requires
        enclosed(body, inside),
        initializer matches Some(s) ==> enclosed(s, inside),
    ensures
        enclosed(for_loop(initializer, condition, increment, body), inside),
        shaped(body) && (initializer matches Some(s) ==> shaped(s)) && (condition matches Some(
            e,
        ) ==> formed(e)) && (increment matches Some(e) ==> formed(e)) ==> shaped(
            for_loop(initializer, condition, increment, body),
        ),
{
    let stepped = match increment {
        Some(e) => StmtView::Block(seq![body, StmtView::Expr(e)]),
        None => body,
    };
    assert(enclosed(stepped, inside)) by {
        if let Some(e) = increment {
            assert(enclosed(StmtView::Expr(e), inside));
        }
    }
    let test = match condition {
        Some(e) => e,
        None => ExprView::Literal(crate::token::LiteralView::Bool(true)),
    };
    let looping = StmtView::While { condition: test, body: Box::new(stepped) };
    assert(enclosed(looping, inside));
    if shaped(body) && (initializer matches Some(s) ==> shaped(s)) && (condition matches Some(e)
        ==> formed(e)) && (increment matches Some(e) ==> formed(e)) {
        assert(shaped(stepped)) by {
            if let Some(e) = increment {
                assert(shaped(StmtView::Expr(e)));
            }
        }
        assert(formed(test));
        assert(shaped(looping));
    }
}

proof fn lemma_for_stmt(
    ts: Seq<TokenView>,
    pos: int,
    errors: Seq<DiagnosticView>,
    inside: bool,
)
    requires
        well_ended(ts),
        0 <= pos < ts.len(),
    ensures
        for_stmt(ts, pos, errors, inside).value matches Some(s) ==> shaped(s),
        sound(for_stmt(ts, pos, errors, inside), ts, pos, errors),
        for_stmt(ts, pos, errors, inside).value matches Some(s) ==> enclosed(s, inside),
    decreases ts.len() - pos, 57int,
{
    lemma_consume(ts, pos, errors, TokenType::LeftParen, "Expect '(' after 'for'."@);
    let open = consume(ts, pos, errors, TokenType::LeftParen, "Expect '(' after 'for'."@);
    if open.value is Some {
        if check(ts, open.pos, TokenType::Semicolon) {
            lemma_for_rest(ts, open.pos + 1, open.errors, inside, None);
        } else if check(ts, open.pos, TokenType::Var) {
            lemma_var_decl(ts, open.pos + 1, open.errors);
            let v = var_decl(ts, open.pos + 1, open.errors);
            if v.value is Some {
                lemma_for_rest(ts, v.pos, v.errors, inside, Some(v.value->0));
            }
        } else {
            lemma_expr_stmt(ts, open.pos, open.errors);
            let e = expr_stmt(ts, open.pos, open.errors);
            if e.value is Some {
                lemma_for_rest(ts, e.pos, e.errors, inside, Some(e.value->0));
            }
        }
    }
}

proof fn lemma_for_rest(
    ts: Seq<TokenView>,
    pos: int,
    errors: Seq<DiagnosticView>,
    inside: bool,
    initializer: Option<StmtView>,
)
    requires
        initializer matches Some(s) ==> shaped(s),
        well_ended(ts),
        0 <= pos < ts.len(),
        initializer matches Some(s) ==> enclosed(s, inside),
    ensures
        for_rest(ts, pos, errors, inside, initializer).value matches Some(s) ==> shaped(s),
        sound(for_rest(ts, pos, errors, inside, initializer), ts, pos, errors),
        for_rest(ts, pos, errors, inside, initializer).value matches Some(s) ==> enclosed(
            s,
            inside,
        ),
    decreases ts.len() - pos, 56int,
{
    lemma_clause(ts, pos, errors, TokenType::Semicolon);
    let second = clause(ts, pos, errors, TokenType::Semicolon);
    if second.value is Some {
        lemma_consume(
            ts,
            second.pos,
            second.errors,
            TokenType::Semicolon,
            "Expect ';' after loop condition."@,
        );
        let semi = consume(
            ts,
            second.pos,
            second.errors,
            TokenType::Semicolon,
            "Expect ';' after loop condition."@,
        );
        if semi.value is Some {
            lemma_clause(ts, semi.pos, semi.errors, TokenType::RightParen);
            let third = clause(ts, semi.pos, semi.errors, TokenType::RightParen);
            if third.value is Some {
                lemma_consume(
                    ts,
                    third.pos,
                    third.errors,
                    TokenType::RightParen,
                    "Expect ')' after for clauses."@,
                );
                let close = consume(
                    ts,
                    third.pos,
                    third.errors,
                    TokenType::RightParen,
                    "Expect ')' after for clauses."@,
                );
                if close.value is Some {
                    lemma_statement(ts, close.pos, close.errors, inside);
                    let body = statement(ts, close.pos, close.errors, inside);
                    if body.value is Some {
                        lemma_for_loop(
                            initializer,
                            second.value->0,
                            third.value->0,
                            body.value->0,
                            inside,
                        );
                    }
                }
            }
        }
    }
}

proof fn lemma_if_stmt(ts: Seq<TokenView>, pos: int, errors: Seq<DiagnosticView>, inside: bool)
    requires
        well_ended(ts),
        0 <= pos < ts.len(),
    ensures
        if_stmt(ts, pos, errors, inside).value matches Some(s) ==> shaped(s),
        sound(if_stmt(ts, pos, errors, inside), ts, pos, errors),
        if_stmt(ts, pos, errors, inside).value matches Some(s) ==> enclosed(s, inside),
    decreases ts.len() - pos, 57int,
{
    lemma_consume(ts, pos, errors, TokenType::LeftParen, "Expect '(' after 'if'."@);
    let open = consume(ts, pos, errors, TokenType::LeftParen, "Expect '(' after 'if'."@);
    if open.value is Some {
        lemma_expression(ts, open.pos, open.errors);
        let test = expression(ts, open.pos, open.errors);
        if test.value is Some {
            lemma_consume(
                ts,
                test.pos,
                test.errors,
                TokenType::RightParen,
                "Expect ')' after if condition."@,
            );
            let close = consume(
                ts,
                test.pos,
                test.errors,
                TokenType::RightParen,
                "Expect ')' after if condition."@,
            );
            if close.value is Some {
                lemma_statement(ts, close.pos, close.errors, inside);
                let first = statement(ts, close.pos, close.errors, inside);
                if first.value is Some && check(ts, first.pos, TokenType::Else) {
                    lemma_statement(ts, first.pos + 1, first.errors, inside);
                }
            }
        }
    }
}

proof fn lemma_print_stmt(ts: Seq<TokenView>, pos: int, errors: Seq<DiagnosticView>)
    requires
        well_ended(ts),
        0 <= pos < ts.len(),
    ensures
        print_stmt(ts, pos, errors).value matches Some(s) ==> shaped(s),
        strict(print_stmt(ts, pos, errors), ts, pos, errors),
        print_stmt(ts, pos, errors).value matches Some(s) ==> s is Print,
    decreases ts.len() - pos, 57int,
{
    lemma_expression(ts, pos, errors);
    let value = expression(ts, pos, errors);
    if value.value is Some {
        lemma_consume(
            ts,
            value.pos,
            value.errors,
            TokenType::Semicolon,
            "Expect ';' after value."@,
        );
    }
}

proof fn lemma_return_stmt(
    ts: Seq<TokenView>,
    pos: int,
    errors: Seq<DiagnosticView>,
    inside: bool,
)
    requires
        pos >= 1 && ts[pos - 1].type_ == TokenType::Return,
        well_ended(ts),
        0 <= pos < ts.len(),
    ensures
        return_stmt(ts, pos, errors, inside).value matches Some(s) ==> shaped(s),
        sound(return_stmt(ts, pos, errors, inside), ts, pos, errors),
        return_stmt(ts, pos, errors, inside).value matches Some(s) ==> enclosed(s, inside),
    decreases ts.len() - pos, 57int,
{
    if inside {
        lemma_clause(ts, pos, errors, TokenType::Semicolon);
        let value = clause(ts, pos, errors, TokenType::Semicolon);
        if value.value is Some {
            lemma_consume(
                ts,
                value.pos,
                value.errors,
                TokenType::Semicolon,
                "Expect ';' after return value."@,
            );
        }
    }
}

proof fn lemma_while_stmt(
    ts: Seq<TokenView>,
    pos: int,
    errors: Seq<DiagnosticView>,
    inside: bool,
)
    requires
        well_ended(ts),
        0 <= pos < ts.len(),
    ensures
        while_stmt(ts, pos, errors, inside).value matches Some(s) ==> shaped(s),
        sound(while_stmt(ts, pos, errors, inside), ts, pos, errors),
        while_stmt(ts, pos, errors, inside).value matches Some(s) ==> enclosed(s, inside),
    decreases ts.len() - pos, 57int,
{
    lemma_consume(ts, pos, errors, TokenType::LeftParen, "Expect '(' after 'while'."@);
    let open = consume(ts, pos, errors, TokenType::LeftParen, "Expect '(' after 'while'."@);
    if open.value is Some {
        lemma_expression(ts, open.pos, open.errors);
        let test = expression(ts, open.pos, open.errors);
        if test.value is Some {
            lemma_consume(
                ts,
                test.pos,
                test.errors,
                TokenType::RightParen,
                "Expect ')' after condition."@,
            );
            let close = consume(
                ts,
                test.pos,
                test.errors,
                TokenType::RightParen,
                "Expect ')' after condition."@,
            );
            if close.value is Some {
                lemma_statement(ts, close.pos, close.errors, inside);
            }
        }
    }
}

proof fn lemma_expr_stmt(ts: Seq<TokenView>, pos: int, errors: Seq<DiagnosticView>)
    requires
        well_ended(ts),
        0 <= pos < ts.len(),
    ensures
        expr_stmt(ts, pos, errors).value matches Some(s) ==> shaped(s),
        strict(expr_stmt(ts, pos, errors), ts, pos, errors),
        expr_stmt(ts, pos, errors).value matches Some(s) ==> s is Expr,
    decreases ts.len() - pos, 50int,
{
    lemma_expression(ts, pos, errors);
    let value = expression(ts, pos, errors);
    if value.value is Some {
        lemma_consume(
            ts,
            value.pos,
            value.errors,
            TokenType::Semicolon,
            "Expect ';' after expression."@,
        );
    }
}

proof fn lemma_parameters(
    ts: Seq<TokenView>,
    pos: int,
    errors: Seq<DiagnosticView>,
    before: Seq<TokenView>,
)
    requires
        forall|i: int| 0 <= i < before.len() ==> (#[trigger] before[i]).type_ == TokenType::Identifier,
        well_ended(ts),
        0 <= pos < ts.len(),
    ensures
        parameters(ts, pos, errors, before).value matches Some(list) ==> forall|i: int|
            0 <= i < list.len() ==> (#[trigger] list[i]).type_ == TokenType::Identifier,
        strict(parameters(ts, pos, errors, before), ts, pos, errors),
    decreases ts.len() - pos,
{
    let start = counted(ts, pos, errors, before.len(), "Can't have more than 255 parameters."@);
    lemma_consume(ts, pos, start, TokenType::Identifier, "Expect parameter name."@);
    let one = consume(ts, pos, start, TokenType::Identifier, "Expect parameter name."@);
    if one.value is Some && check(ts, one.pos, TokenType::Comma) {
        lemma_parameters(ts, one.pos + 1, one.errors, before.push(one.value->0));
    }
}

proof fn lemma_function(
    ts: Seq<TokenView>,
    pos: int,
    errors: Seq<DiagnosticView>,
    kind: Seq<char>,
)
    requires
        well_ended(ts),
        0 <= pos < ts.len(),
    ensures
        function(ts, pos, errors, kind).value matches Some(s) ==> shaped(s),
        sound(function(ts, pos, errors, kind), ts, pos, errors),
        function(ts, pos, errors, kind).value matches Some(s) ==> enclosed(s, false) && enclosed(
            s,
            true,
        ),
    decreases ts.len() - pos, 57int,
{
    let expect_name = "Expect "@ + kind + " name."@;
    lemma_consume(ts, pos, errors, TokenType::Identifier, expect_name);
    let named = consume(ts, pos, errors, TokenType::Identifier, expect_name);
    if named.value is Some {
        let expect_paren = "Expect '(' after "@ + kind + " name."@;
        lemma_consume(ts, named.pos, named.errors, TokenType::LeftParen, expect_paren);
        let open = consume(ts, named.pos, named.errors, TokenType::LeftParen, expect_paren);
        if open.value is Some {
            if !check(ts, open.pos, TokenType::RightParen) {
                lemma_parameters(ts, open.pos, open.errors, Seq::empty());
            }
            let list = if check(ts, open.pos, TokenType::RightParen) {
                crate::grammar::ok(Seq::<TokenView>::empty(), open.pos, open.errors)
            } else {
                parameters(ts, open.pos, open.errors, Seq::empty())
            };
            if list.value is Some {
                lemma_consume(
                    ts,
                    list.pos,
                    list.errors,
                    TokenType::RightParen,
                    "Expect ')' after parameters."@,
                );
                let close = consume(
                    ts,
                    list.pos,
                    list.errors,
                    TokenType::RightParen,
                    "Expect ')' after parameters."@,
                );
                if close.value is Some {
                    let expect_brace = "Expect '{' before "@ + kind + " body."@;
                    lemma_consume(ts, close.pos, close.errors, TokenType::LeftBrace, expect_brace);
                    let brace = consume(
                        ts,
                        close.pos,
                        close.errors,
                        TokenType::LeftBrace,
                        expect_brace,
                    );
                    if brace.value is Some {
                        lemma_block(ts, brace.pos, brace.errors, true);
                    }
                }
            }
        }
    }
}

proof fn lemma_block(ts: Seq<TokenView>, pos: int, errors: Seq<DiagnosticView>, inside: bool)
    requires
        well_ended(ts),
        0 <= pos < ts.len(),
    ensures
        block(ts, pos, errors, inside).value matches Some(stmts) ==> all_shaped(stmts),
        strict(block(ts, pos, errors, inside), ts, pos, errors),
        block(ts, pos, errors, inside).value matches Some(stmts) ==> all_enclosed(stmts, inside),
    decreases ts.len() - pos, 62int,
{
    lemma_block_rest(ts, pos, errors, inside, Seq::empty());
}

proof fn lemma_block_rest(
    ts: Seq<TokenView>,
    pos: int,
    errors: Seq<DiagnosticView>,
    inside: bool,
    before: Seq<StmtView>,
)
    requires
        all_shaped(before),
        well_ended(ts),
        0 <= pos < ts.len(),
        all_enclosed(before, inside),
    ensures
        block_rest(ts, pos, errors, inside, before).value matches Some(stmts) ==> all_shaped(stmts),
        strict(block_rest(ts, pos, errors, inside, before), ts, pos, errors),
        block_rest(ts, pos, errors, inside, before).value matches Some(stmts) ==> all_enclosed(
            stmts,
            inside,
        ),
    decreases ts.len() - pos, 61int,
{
    if !check(ts, pos, TokenType::RightBrace) && !at_end(ts, pos) {
        lemma_declaration(ts, pos, errors, inside);
        let one = declaration(ts, pos, errors, inside);
        let so_far = match one.value {
            Some(s) => before.push(s),
            None => before,
        };
        lemma_block_rest(ts, one.pos, one.errors, inside, so_far);
    } else {
        lemma_consume(ts, pos, errors, TokenType::RightBrace, "Expect '}' after block."@);
    }
}

proof fn lemma_var_decl(ts: Seq<TokenView>, pos: int, errors: Seq<DiagnosticView>)
    requires
        well_ended(ts),
        0 <= pos < ts.len(),
    ensures
        var_decl(ts, pos, errors).value matches Some(s) ==> shaped(s),
        strict(var_decl(ts, pos, errors), ts, pos, errors),
        var_decl(ts, pos, errors).value matches Some(s) ==> s is Var,
    decreases ts.len() - pos, 57int,
{
    lemma_consume(ts, pos, errors, TokenType::Identifier, "Expect variable name."@);
    let named = consume(ts, pos, errors, TokenType::Identifier, "Expect variable name."@);
    if named.value is Some {
        if check(ts, named.pos, TokenType::Equal) {
            lemma_expression(ts, named.pos + 1, named.errors);
        }
        let init: Parsed<Option<ExprView>> = if check(ts, named.pos, TokenType::Equal) {
            let e = expression(ts, named.pos + 1, named.errors);
            match e.value {
                Some(v) => e.with(Some(v)),
                None => e.failed(),
            }
        } else {
            crate::grammar::ok(None, named.pos, named.errors)
        };
        if init.value is Some {
            lemma_consume(
                ts,
                init.pos,
                init.errors,
                TokenType::Semicolon,
                "Expect ';' after variable declaration."@,
            );
        }
    }
}

/// What follows some declarations of a program is parsed to the end of the
/// tokens; the errors reported before are still there; and where the
/// declarations before hold no `return` outside a function's body, neither do
/// all of them together.
pub proof fn lemma_program_rest(
    ts: Seq<TokenView>,
    pos: int,
    errors: Seq<DiagnosticView>,
    before: Seq<StmtView>,
)
    requires
        all_shaped(before),
        well_ended(ts),
        0 <= pos < ts.len(),
        all_enclosed(before, false),
    ensures
        ({
            let r = program_rest(ts, pos, errors, before);
            &&& pos <= r.pos < ts.len()
            &&& at_end(ts, r.pos)
            &&& errors.is_prefix_of(r.errors)
            &&& r.value matches Some(stmts) && all_enclosed(stmts, false) && all_shaped(stmts)
        }),
    decreases ts.len() - pos, 61int,
{
    if !at_end(ts, pos) {
        lemma_declaration(ts, pos, errors, false);
        let one = declaration(ts, pos, errors, false);
        let so_far = match one.value {
            Some(s) => before.push(s),
            None => before,
        };
        lemma_program_rest(ts, one.pos, one.errors, so_far);
    }
}

/// A program is parsed to its end: none of its tokens is left over, whatever
/// errors were met. What was parsed is as the grammar makes it, and no
/// `return` in it stands outside a function's body.
pub proof fn lemma_program(ts: Seq<TokenView>)
    requires
        well_ended(ts),
    ensures
        at_end(ts, program(ts).pos),
        0 <= program(ts).pos < ts.len(),
        program(ts).value matches Some(stmts) && all_enclosed(stmts, false) && all_shaped(stmts),
{
    lemma_program_rest(ts, 0, Seq::empty(), Seq::empty());
}

} // verus!
