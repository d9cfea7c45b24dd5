use rustlox::expr::Expr;
use rustlox::parser::Parser;
use rustlox::scanner::Scanner;
use rustlox::stmt::Stmt;
use rustlox::token::{Literal, TokenType};

fn parser(source: &str) -> Parser {
    let mut scanner = Scanner::new(source.to_string());
    let tokens = scanner.scan_tokens().clone();
    assert!(scanner.diagnostics().is_empty());
    Parser::new(tokens)
}

fn program(source: &str) -> (Vec<Stmt>, Vec<String>) {
    let mut parser = parser(source);
    let stmts = parser.parse();
    let errors = parser.diagnostics().iter().map(|d| d.to_string()).collect();
    (stmts, errors)
}

fn statements(source: &str) -> Vec<Stmt> {
    let (stmts, errors) = program(source);
    assert!(errors.is_empty(), "{:?}", errors);
    stmts
}

fn errors(source: &str) -> Vec<String> {
    program(source).1
}

fn prefix(source: &str) -> String {
    let mut parser = parser(source);
    let expr = parser.expression().expect("an expression");
    assert!(parser.diagnostics().is_empty());
    expr.stringify()
}

/// A statement, written so that its shape shows.
fn shape(stmt: &Stmt) -> String {
    match stmt {
        Stmt::Block(stmts) => format!("{{{}}}", shapes(stmts)),
        Stmt::Expr(e) => format!("{};", e.stringify()),
        Stmt::Function { name, params, body } => format!(
            "fun {}({}) {{{}}}",
            name.lexeme,
            params.iter().map(|p| p.lexeme.clone()).collect::<Vec<_>>().join(","),
            shapes(body)
        ),
        Stmt::If { condition, then_branch, else_branch } => match else_branch {
            Some(e) => format!("if {} {} else {}", condition.stringify(), shape(then_branch), shape(e)),
            None => format!("if {} {}", condition.stringify(), shape(then_branch)),
        },
        Stmt::Print(e) => format!("print {};", e.stringify()),
        Stmt::Return { value, .. } => match value {
            Some(e) => format!("return {};", e.stringify()),
            None => "return;".to_string(),
        },
        Stmt::Var { name, initializer } => match initializer {
            Some(e) => format!("var {} = {};", name.lexeme, e.stringify()),
            None => format!("var {};", name.lexeme),
        },
        Stmt::While { condition, body } => format!("while {} {}", condition.stringify(), shape(body)),
    }
}

fn shapes(stmts: &[Stmt]) -> String {
    stmts.iter().map(shape).collect::<Vec<_>>().join(" ")
}

#[test]
fn the_prefix_form_of_a_product() {
    assert_eq!(prefix("-1 * (2 + 3)"), "(* (- 1) (group (+ 2 3)))");
}

#[test]
fn the_prefix_form_is_the_same_each_time() {
    let mut first = parser("-1 * (2 + 3) == f(x, \"s\") or !done");
    let mut second = parser("-1 * (2 + 3) == f(x, \"s\") or !done");
    let a = first.expression().unwrap();
    let b = second.expression().unwrap();
    assert_eq!(a, b);
    assert_eq!(a.stringify(), a.stringify());
    assert_eq!(a.stringify(), b.stringify());
    assert_eq!(
        a.stringify(),
        "(or (== (* (- 1) (group (+ 2 3))) (call f x s)) (! done))"
    );
}

#[test]
fn the_prefix_form_of_every_kind_of_expression() {
    assert_eq!(prefix("nil"), "nil");
    assert_eq!(prefix("true"), "true");
    assert_eq!(prefix("false"), "false");
    assert_eq!(prefix("12"), "12");
    assert_eq!(prefix("1.5"), "1.5");
    assert_eq!(prefix("\"text\""), "text");
    assert_eq!(prefix("name"), "name");
    assert_eq!(prefix("a = 1"), "(= a 1)");
    assert_eq!(prefix("a and b"), "(and a b)");
    assert_eq!(prefix("f()"), "(call f)");
    assert_eq!(prefix("f(1)(2, 3)"), "(call (call f 1) 2 3)");
    assert_eq!(prefix("(a)"), "(group a)");
    assert_eq!(prefix("!a"), "(! a)");
    assert_eq!(prefix("a <= b"), "(<= a b)");
}

#[test]
fn binding_power_from_lowest_to_highest() {
    assert_eq!(prefix("a = b or c"), "(= a (or b c))");
    assert_eq!(prefix("a or b and c"), "(or a (and b c))");
    assert_eq!(prefix("a and b == c"), "(and a (== b c))");
    assert_eq!(prefix("a == b < c"), "(== a (< b c))");
    assert_eq!(prefix("a < b + c"), "(< a (+ b c))");
    assert_eq!(prefix("a + b * c"), "(+ a (* b c))");
    assert_eq!(prefix("a * -b"), "(* a (- b))");
    assert_eq!(prefix("-f(x)"), "(- (call f x))");
    assert_eq!(prefix("a * b + c"), "(+ (* a b) c)");
    assert_eq!(prefix("a != b > c - d / e"), "(!= a (> b (- c (/ d e))))");
}

#[test]
fn binary_operators_group_to_the_left() {
    assert_eq!(prefix("a - b - c"), "(- (- a b) c)");
    assert_eq!(prefix("a / b * c"), "(* (/ a b) c)");
    assert_eq!(prefix("a < b >= c"), "(>= (< a b) c)");
    assert_eq!(prefix("a == b != c"), "(!= (== a b) c)");
    assert_eq!(prefix("a or b or c"), "(or (or a b) c)");
    assert_eq!(prefix("a and b and c"), "(and (and a b) c)");
}

#[test]
fn unary_operators_and_assignment_group_to_the_right() {
    assert_eq!(prefix("!!a"), "(! (! a))");
    assert_eq!(prefix("-!-a"), "(- (! (- a)))");
    assert_eq!(prefix("a = b = c"), "(= a (= b c))");
}

#[test]
fn literals_carry_what_was_written() {
    let mut p = parser("\"two words\"");
    assert_eq!(
        p.expression().unwrap(),
        Expr::Literal(Literal::String("two words".to_string()))
    );
    let mut p = parser("007");
    assert_eq!(
        p.expression().unwrap(),
        Expr::Literal(Literal::Number("007".to_string()))
    );
}

#[test]
fn an_expression_stops_where_it_ends() {
    let mut p = parser("1 + 2 3");
    assert_eq!(p.expression().unwrap().stringify(), "(+ 1 2)");
    assert_eq!(p.expression().unwrap().stringify(), "3");
    assert!(p.expression().is_err());
    assert_eq!(
        p.diagnostics()[0].to_string(),
        "[line 1] Error at end: Expect expression."
    );
}

#[test]
fn only_a_name_is_assigned_to() {
    assert_eq!(
        errors("a + b = c;"),
        vec!["[line 1] Error at '=': Invalid assignment target."]
    );
    assert_eq!(
        errors("(a) = 1;"),
        vec!["[line 1] Error at '=': Invalid assignment target."]
    );
    assert_eq!(
        errors("1 = 2;"),
        vec!["[line 1] Error at '=': Invalid assignment target."]
    );
    assert!(errors("a = 1;").is_empty());
}

#[test]
fn an_expression_is_expected() {
    assert_eq!(errors("print ;"), vec!["[line 1] Error at ';': Expect expression."]);
    assert_eq!(errors("1 +"), vec!["[line 1] Error at end: Expect expression."]);
    assert_eq!(errors(")"), vec!["[line 1] Error at ')': Expect expression."]);
    assert_eq!(errors("\n\n* 2;"), vec!["[line 3] Error at '*': Expect expression."]);
}

#[test]
fn one_error_for_one_malformed_statement() {
    let (stmts, errors) = program("var = 1 + + 2 nonsense ( ; print 1; var a = 2;");
    assert_eq!(errors, vec!["[line 1] Error at '=': Expect variable name."]);
    assert_eq!(shapes(&stmts), "print 1; var a = 2;");
    assert_eq!(stmts.len(), 2);
}

#[test]
fn parsing_goes_on_at_the_next_statement() {
    let (stmts, errors) = program("print 1 2 3 while (a) b; print 4;");
    assert_eq!(errors, vec!["[line 1] Error at '2': Expect ';' after value."]);
    assert_eq!(shapes(&stmts), "while a b; print 4;");

    let (stmts, errors) = program("(1; (2; 3;");
    assert_eq!(
        errors,
        vec![
            "[line 1] Error at ';': Expect ')' after expression.",
            "[line 1] Error at ';': Expect ')' after expression."
        ]
    );
    assert_eq!(shapes(&stmts), "(group 1); (group 2); 3;");
}

#[test]
fn a_malformed_statement_in_a_block_leaves_the_block_standing() {
    let (stmts, errors) = program("{ print 1; print ; print 2; } print 3;");
    assert_eq!(errors, vec!["[line 1] Error at ';': Expect expression."]);
    assert_eq!(shapes(&stmts), "{print 1; print 2;} print 3;");
}

#[test]
fn a_missing_semicolon_after_a_variable_is_reported_and_the_variable_stands() {
    let (stmts, errors) = program("var a = 1 print a;");
    assert_eq!(
        errors,
        vec!["[line 1] Error at 'print': Expect ';' after variable declaration."]
    );
    assert_eq!(shapes(&stmts), "var a = 1; print a;");
}

#[test]
fn statements_of_every_kind() {
    assert_eq!(shapes(&statements("1;")), "1;");
    assert_eq!(shapes(&statements("print 1;")), "print 1;");
    assert_eq!(shapes(&statements("var a;")), "var a;");
    assert_eq!(shapes(&statements("var a = nil;")), "var a = nil;");
    assert_eq!(shapes(&statements("{}")), "{}");
    assert_eq!(shapes(&statements("{ 1; { 2; } }")), "{1; {2;}}");
    assert_eq!(shapes(&statements("if (a) b;")), "if a b;");
    assert_eq!(shapes(&statements("if (a) b; else c;")), "if a b; else c;");
    assert_eq!(shapes(&statements("while (a) b;")), "while a b;");
    assert_eq!(shapes(&statements("fun f() {}")), "fun f() {}");
    assert_eq!(
        shapes(&statements("fun f(a, b) { return a; return; }")),
        "fun f(a,b) {return a; return;}"
    );
}

#[test]
fn else_goes_with_the_nearest_if() {
    assert_eq!(
        shapes(&statements("if (a) if (b) c; else d;")),
        "if a if b c; else d;"
    );
}

#[test]
fn a_for_loop_is_written_as_a_while_loop() {
    assert_eq!(
        shapes(&statements("for (var i = 0; i < 3; i = i + 1) print i;")),
        "{var i = 0; while (< i 3) {print i; (= i (+ i 1));}}"
    );
    assert_eq!(shapes(&statements("for (;;) a;")), "while true a;");
    assert_eq!(shapes(&statements("for (a; b; c) d;")), "{a; while b {d; c;}}");
    assert_eq!(shapes(&statements("for (; nil;) d;")), "while nil d;");
    assert_eq!(shapes(&statements("for (;; c) {}")), "while true {{} c;}");
}

#[test]
fn the_parts_of_a_for_loop_are_expected() {
    assert_eq!(errors("for i;"), vec!["[line 1] Error at 'i': Expect '(' after 'for'."]);
    assert_eq!(
        errors("for (;a b) c;"),
        vec!["[line 1] Error at 'b': Expect ';' after loop condition."]
    );
    assert_eq!(
        errors("for (;;a b) c;"),
        vec!["[line 1] Error at 'b': Expect ')' after for clauses."]
    );
}

#[test]
fn the_parts_of_statements_are_expected() {
    assert_eq!(errors("if a) b;"), vec!["[line 1] Error at 'a': Expect '(' after 'if'."]);
    assert_eq!(
        errors("if (a b;"),
        vec!["[line 1] Error at 'b': Expect ')' after if condition."]
    );
    assert_eq!(errors("while a) b;"), vec!["[line 1] Error at 'a': Expect '(' after 'while'."]);
    assert_eq!(
        errors("while (a b;"),
        vec!["[line 1] Error at 'b': Expect ')' after condition."]
    );
    assert_eq!(errors("a"), vec!["[line 1] Error at end: Expect ';' after expression."]);
    assert_eq!(errors("{ a;"), vec!["[line 1] Error at end: Expect '}' after block."]);
    assert_eq!(errors("f(a;"), vec!["[line 1] Error at ';': Expect ')' after arguments."]);
    assert_eq!(
        errors("fun f() { return 1 }"),
        vec![
            "[line 1] Error at '}': Expect ';' after return value.",
            "[line 1] Error at end: Expect '}' after block."
        ]
    );
}

#[test]
fn the_parts_of_a_function_are_expected() {
    assert_eq!(errors("fun (a) {}"), vec!["[line 1] Error at '(': Expect function name."]);
    assert_eq!(errors("fun f {}"), vec!["[line 1] Error at '{': Expect '(' after function name."]);
    assert_eq!(errors("fun f(1) {}"), vec!["[line 1] Error at '1': Expect parameter name."]);
    assert_eq!(errors("fun f(a b) {}"), vec!["[line 1] Error at 'b': Expect ')' after parameters."]);
    assert_eq!(errors("fun f(a,) {}"), vec!["[line 1] Error at ')': Expect parameter name."]);
    assert_eq!(errors("fun f() a;"), vec!["[line 1] Error at 'a': Expect '{' before function body."]);
}

#[test]
fn return_stands_in_a_function_only() {
    assert_eq!(
        errors("return 1;"),
        vec!["[line 1] Error at 'return': Can't return from top-level code."]
    );
    assert_eq!(
        errors("{ if (a) return; }"),
        vec!["[line 1] Error at 'return': Can't return from top-level code."]
    );
    assert!(errors("fun f() { if (a) { while (b) return 1; } }").is_empty());
    assert!(errors("fun f() { fun g() { return; } return g; }").is_empty());
    assert_eq!(
        errors("fun f() { return; } return;"),
        vec!["[line 1] Error at 'return': Can't return from top-level code."]
    );
}

fn call_with(count: usize) -> String {
    let arguments = vec!["nil"; count].join(", ");
    format!("f({});", arguments)
}

#[test]
fn a_call_takes_up_to_255_arguments() {
    assert!(errors(&call_with(255)).is_empty());
    assert_eq!(
        errors(&call_with(256)),
        vec!["[line 1] Error at 'nil': Can't have more than 255 arguments."]
    );
    let (stmts, found) = program(&call_with(257));
    assert_eq!(found.len(), 2);
    // Reported, and parsed all the same.
    match &stmts[0] {
        Stmt::Expr(e) => match &**e {
            Expr::Call { arguments, paren, .. } => {
                assert_eq!(arguments.len(), 257);
                assert_eq!(paren.type_, TokenType::RightParen);
            }
            other => panic!("{:?}", other),
        },
        other => panic!("{:?}", other),
    }
}

#[test]
fn a_function_takes_up_to_255_parameters() {
    let names = |count: usize| {
        (0..count).map(|i| format!("p{}", i)).collect::<Vec<_>>().join(", ")
    };
    assert!(errors(&format!("fun f({}) {{}}", names(255))).is_empty());
    assert_eq!(
        errors(&format!("fun f({}) {{}}", names(256))),
        vec!["[line 1] Error at 'p255': Can't have more than 255 parameters."]
    );
}

#[test]
fn parsing_again_finds_nothing_more() {
    let mut p = parser("print 1;");
    assert_eq!(p.parse().len(), 1);
    assert_eq!(p.parse().len(), 0);
    assert!(p.diagnostics().is_empty());
}

#[test]
fn an_empty_program() {
    assert!(statements("").is_empty());
    assert!(statements("// nothing\n").is_empty());
}
