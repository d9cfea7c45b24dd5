use rustlox::expr::Expr;
use rustlox::interpreter::{Interpreter, Request, RuntimeError};
use rustlox::parser::Parser;
use rustlox::scanner::Scanner;
use rustlox::semantics::Arith;
use rustlox::stmt::Stmt;
use rustlox::token::{Literal, Token, TokenType};
use rustlox::types::Number;
use rustlox::{ErrorKind, Lox};
use std::rc::Rc;

fn number(x: f64) -> Number {
    Number::from_bits(x.to_bits())
}

fn double(n: Number) -> f64 {
    f64::from_bits(n.to_bits())
}

/// Steps the machine to its end, doing what it asks: the lines it wrote, and
/// the error it stopped on, if any.
fn drive(interpreter: &mut Interpreter) -> (Vec<String>, Option<RuntimeError>) {
    let mut lines = Vec::new();
    let mut steps = 0u64;
    loop {
        steps += 1;
        assert!(steps < 10_000_000, "the program does not end");
        match interpreter.step() {
            Request::Step => {}
            Request::Parse(numeral) => interpreter.answer(number(numeral.parse().unwrap())),
            Request::Arith(op, a, b) => {
                let (a, b) = (double(a), double(b));
                interpreter.answer(number(match op {
                    Arith::Add => a + b,
                    Arith::Sub => a - b,
                    Arith::Mul => a * b,
                    Arith::Div => a / b,
                }))
            }
            Request::Clock => interpreter.answer(number(1234.5)),
            Request::Print(line) => lines.push(line),
            Request::PrintNumber(n) => lines.push(format!("{}", double(n))),
            Request::Done => return (lines, None),
            Request::Failed(error) => return (lines, Some(error)),
        }
    }
}

/// Runs a source text that has no syntax error.
fn run(source: &str) -> (Vec<String>, Option<RuntimeError>) {
    let mut lox = Lox::new();
    let found = lox.run(source.to_string());
    assert!(found.is_empty(), "{:?}", found);
    drive(&mut lox.interpreter)
}

fn output(source: &str) -> Vec<String> {
    let (lines, error) = run(source);
    assert!(error.is_none(), "{:?}", error);
    lines
}

fn failure(source: &str) -> (Vec<String>, RuntimeError) {
    let (lines, error) = run(source);
    (lines, error.expect("a runtime error"))
}

#[test]
fn evaluate() {
    fn f(s: &str, expected: &str) {
        let mut scanner = Scanner::new(s.to_string());
        let tokens = scanner.scan_tokens().clone();

        let mut parser = Parser::new(tokens);
        let expr = parser.expression();

        let mut interpreter = Interpreter::new();
        interpreter.interpret(vec![Stmt::Print(Rc::new(expr.unwrap()))]);
        let (lines, error) = drive(&mut interpreter);
        assert!(error.is_none());
        assert_eq!(lines, vec![expected.to_string()]);
    }
    f("(5 - (3 - 1)) + -1", "2");
    f("\"hello \" + \"world\"", "hello world");
    f("!1", &false.to_string());
}

#[test]
fn interpret() {
    let mut lox = Lox::new();
    let _ = lox.run("print true;".to_string());
    assert_eq!(drive(&mut lox.interpreter).0, vec!["true"]);
    let _ = lox.run("print \"one\";".to_string());
    assert_eq!(drive(&mut lox.interpreter).0, vec!["one"]);
    let _ = lox.run("print 2 + 1;".to_string());
    assert_eq!(drive(&mut lox.interpreter).0, vec!["3"]);
}

#[test]
fn assignment() {
    let mut lox = Lox::new();
    let s = "var a = 1;
        print a = 2;"
        .to_string();
    let _ = lox.run(s);
    assert_eq!(drive(&mut lox.interpreter).0, vec!["2"]);
}

#[test]
fn ast() {
    let x = Expr::Binary {
        left: Rc::new(Expr::Unary {
            op: Token {
                type_: TokenType::Minus,
                lexeme: "-".to_string(),
                line: 1,
                literal: Literal::NotExist,
            },
            right: Rc::new(Expr::Literal(Literal::Number("123.0".to_string()))),
        }),
        op: Token {
            type_: TokenType::Star,
            lexeme: "*".to_string(),
            line: 1,
            literal: Literal::NotExist,
        },
        right: Rc::new(Expr::Grouping {
            expression: Rc::new(Expr::Literal(Literal::Number("45.67".to_string()))),
        }),
    };
    assert_eq!(x.stringify(), "(* (- 123.0) (group 45.67))");
}

#[test]
fn parse() {
    let mut scanner = Scanner::new("(5 - (3 - 1)) + -1".to_string());
    let tokens = scanner.scan_tokens().clone();

    let mut parser = Parser::new(tokens);
    let expr = parser.expression();

    assert_eq!(
        expr.unwrap().stringify(),
        "(+ (group (- 5 (group (- 3 1)))) (- 1))"
    );
}

#[test]
fn scanner() {
    let mut scanner = Scanner::new(
        "andy formless fo _ _123 _abc ab123
abcdefghijklmnopqrstuvwxyzABCDEFGHIJKLMNOPQRSTUVWXYZ1234567890_"
            .to_string(),
    );
    let tokens = scanner.scan_tokens();

    let expected: Vec<_> = "IDENTIFIER andy null
IDENTIFIER formless null
IDENTIFIER fo null
IDENTIFIER _ null
IDENTIFIER _123 null
IDENTIFIER _abc null
IDENTIFIER ab123 null
IDENTIFIER abcdefghijklmnopqrstuvwxyzABCDEFGHIJKLMNOPQRSTUVWXYZ1234567890_ null
EOF  null"
        .split('\n')
        .collect();

    assert_eq!(tokens.len(), expected.len());
    for (token, e) in std::iter::zip(tokens, expected) {
        assert_eq!(&token.to_string(), e);
    }
}

#[test]
fn arithmetic_is_done_on_doubles() {
    assert_eq!(output("print (5 - (3 - 1)) + -1;"), vec!["2"]);
    assert_eq!(output("print 1 + 2 * 3;"), vec!["7"]);
    assert_eq!(output("print (1 + 2) * 3;"), vec!["9"]);
    assert_eq!(output("print 7 / 2;"), vec!["3.5"]);
    assert_eq!(output("print 0.1 + 0.2;"), vec!["0.30000000000000004"]);
    assert_eq!(output("print 10 - 4 - 3;"), vec!["3"]);
    assert_eq!(output("print 8 / 4 / 2;"), vec!["1"]);
    assert_eq!(output("print -(-3);"), vec!["3"]);
}

#[test]
fn division_by_zero_follows_the_doubles() {
    assert_eq!(output("print 1 / 0;"), vec!["inf"]);
    assert_eq!(output("print -1 / 0;"), vec!["-inf"]);
    assert_eq!(output("print 0 / 0;"), vec!["NaN"]);
    assert_eq!(output("print 0 / 0 == 0 / 0;"), vec!["false"]);
    assert_eq!(output("print 0 / 0 != 0 / 0;"), vec!["true"]);
}

#[test]
fn strings_are_joined_by_plus() {
    assert_eq!(output("print \"hello \" + \"world\";"), vec!["hello world"]);
    assert_eq!(output("print \"\" + \"\";"), vec![""]);
}

#[test]
fn a_string_and_a_number_do_not_add() {
    let (lines, error) = failure("print \"a\" + 1;");
    assert!(lines.is_empty());
    assert_eq!(error.message, "Operands must be two numbers or two strings.");
    assert_eq!(error.token.type_, TokenType::Plus);
    assert_eq!(failure("print 1 + \"a\";").1.message, "Operands must be two numbers or two strings.");
    assert_eq!(failure("print nil + \"a\";").1.message, "Operands must be two numbers or two strings.");
    assert_eq!(failure("print \"a\" + true;").1.message, "Operands must be two numbers or two strings.");
}

#[test]
fn arithmetic_and_ordering_take_numbers() {
    for op in ["-", "*", "/", "<", "<=", ">", ">="] {
        let (_, error) = failure(&format!("print 1 {} \"a\";", op));
        assert_eq!(error.message, "Operands must be numbers.");
        let (_, error) = failure(&format!("print nil {} 2;", op));
        assert_eq!(error.message, "Operands must be numbers.");
    }
    assert_eq!(failure("print -\"a\";").1.message, "Operand must be a number.");
}

#[test]
fn negation_follows_truthiness() {
    assert_eq!(output("print !1;"), vec!["false"]);
    assert_eq!(output("print !nil;"), vec!["true"]);
    assert_eq!(output("print !false;"), vec!["true"]);
    assert_eq!(output("print !true;"), vec!["false"]);
    assert_eq!(output("print !0;"), vec!["false"]);
    assert_eq!(output("print !\"\";"), vec!["false"]);
    assert_eq!(output("print !!nil;"), vec!["false"]);
}

#[test]
fn equality_takes_any_two_values() {
    assert_eq!(output("print 1 == 1;"), vec!["true"]);
    assert_eq!(output("print 1 == 2;"), vec!["false"]);
    assert_eq!(output("print 1 != 2;"), vec!["true"]);
    assert_eq!(output("print 1 == \"1\";"), vec!["false"]);
    assert_eq!(output("print nil == false;"), vec!["false"]);
    assert_eq!(output("print nil == nil;"), vec!["true"]);
    assert_eq!(output("print \"a\" == \"a\";"), vec!["true"]);
    assert_eq!(output("print \"a\" != \"b\";"), vec!["true"]);
    assert_eq!(output("print true == true;"), vec!["true"]);
    assert_eq!(output("print 0 == -0;"), vec!["true"]);
    assert_eq!(output("fun f() {} fun g() {} print f == f; print f == g;"), vec!["true", "false"]);
    assert_eq!(output("print clock == clock;"), vec!["true"]);
}

#[test]
fn ordering_of_numbers() {
    assert_eq!(output("print 1 < 2; print 2 < 1; print 1 < 1;"), vec!["true", "false", "false"]);
    assert_eq!(output("print 1 <= 2; print 2 <= 1; print 1 <= 1;"), vec!["true", "false", "true"]);
    assert_eq!(output("print 1 > 2; print 2 > 1; print 1 > 1;"), vec!["false", "true", "false"]);
    assert_eq!(output("print 1 >= 2; print 2 >= 1; print 1 >= 1;"), vec!["false", "true", "true"]);
    assert_eq!(output("print -1 < 1; print -2 < -1; print -1 < -2;"), vec!["true", "true", "false"]);
    assert_eq!(output("print 0 / 0 < 1; print 0 / 0 >= 1;"), vec!["false", "false"]);
}

#[test]
fn logical_operators_give_an_operand() {
    assert_eq!(output("print nil or \"yes\";"), vec!["yes"]);
    assert_eq!(output("print 1 or 2;"), vec!["1"]);
    assert_eq!(output("print nil and 2;"), vec!["nil"]);
    assert_eq!(output("print 1 and 2;"), vec!["2"]);
    assert_eq!(output("print false or false;"), vec!["false"]);
}

#[test]
fn logical_operators_stop_early() {
    assert_eq!(output("var a = 1; true or (a = 2); print a;"), vec!["1"]);
    assert_eq!(output("var a = 1; false and (a = 2); print a;"), vec!["1"]);
    assert_eq!(output("var a = 1; false or (a = 2); print a;"), vec!["2"]);
    assert_eq!(output("var a = 1; true and (a = 2); print a;"), vec!["2"]);
}

#[test]
fn a_block_shadows_and_gives_back() {
    let lines = output("var a = 1; { var a = 2; print a; } print a;");
    assert_eq!(lines, vec!["2", "1"]);
}

#[test]
fn a_block_sees_and_changes_what_is_outside() {
    assert_eq!(output("var a = 1; { a = a + 1; var b = a; print b; } print a;"), vec!["2", "2"]);
}

#[test]
fn a_name_may_be_defined_again() {
    assert_eq!(output("var a = 1; var a = 2; print a;"), vec!["2"]);
    assert_eq!(output("var a; print a;"), vec!["nil"]);
}

#[test]
fn assigning_to_an_unknown_name_fails() {
    let (lines, error) = failure("print 1; a = 2; print 3;");
    assert_eq!(lines, vec!["1"]);
    assert_eq!(error.message, "Undefined variable 'a'.");
    assert_eq!(error.token.lexeme, "a");
    assert_eq!(error.token.line, 1);
}

#[test]
fn a_failed_assignment_defines_nothing() {
    let mut lox = Lox::new();
    assert!(lox.run("a = 2;".to_string()).is_empty());
    let (_, error) = drive(&mut lox.interpreter);
    assert_eq!(error.unwrap().message, "Undefined variable 'a'.");
    lox.interpreter.interpret(Vec::new());
    let name = Token {
        type_: TokenType::Identifier,
        lexeme: "a".to_string(),
        literal: Literal::String("a".to_string()),
        line: 1,
    };
    lox.interpreter.interpret(vec![Stmt::Print(Rc::new(Expr::Variable(name)))]);
    let (lines, error) = drive(&mut lox.interpreter);
    assert!(lines.is_empty());
    assert_eq!(error.unwrap().message, "Undefined variable 'a'.");
}

#[test]
fn reading_an_unknown_name_fails() {
    let (_, error) = failure("print\nb;");
    assert_eq!(error.message, "Undefined variable 'b'.");
    assert_eq!(error.token.line, 2);
    assert_eq!(Lox::runtime_error(error).to_string(), "Undefined variable 'b'.\n[line 2]");
}

#[test]
fn closures_count_on_their_own() {
    let lines = output(
        "fun makeCounter() {
           var i = 0;
           fun count() {
             i = i + 1;
             return i;
           }
           return count;
         }
         var a = makeCounter();
         var b = makeCounter();
         print a(); print a(); print a();
         print b();
         print a();",
    );
    assert_eq!(lines, vec!["1", "2", "3", "1", "4"]);
}

#[test]
fn a_closure_sees_later_assignments() {
    let lines = output(
        "var x = \"before\";
         fun show() { print x; }
         show();
         x = \"after\";
         show();",
    );
    assert_eq!(lines, vec!["before", "after"]);
}

#[test]
fn a_function_looks_names_up_where_it_was_declared() {
    let lines = output(
        "var a = \"global\";
         fun show() { print a; }
         {
           var a = \"block\";
           show();
           print a;
         }",
    );
    assert_eq!(lines, vec!["global", "block"]);
}

#[test]
fn a_function_sees_what_its_scope_holds_when_it_is_called() {
    let lines = output(
        "var a = \"global\";
         {
           fun show() { print a; }
           show();
           var a = \"block\";
           show();
         }",
    );
    assert_eq!(lines, vec!["global", "block"]);
}

#[test]
fn functions_call_themselves() {
    let lines = output(
        "fun fib(n) { if (n < 2) return n; return fib(n - 1) + fib(n - 2); }
         print fib(15);",
    );
    assert_eq!(lines, vec!["610"]);
}

#[test]
fn a_function_without_return_gives_nil() {
    assert_eq!(output("fun f() { 1; } print f();"), vec!["nil"]);
    assert_eq!(output("fun f() { return; } print f();"), vec!["nil"]);
    assert_eq!(output("fun f() { return 1; print 2; } print f();"), vec!["1"]);
}

#[test]
fn return_leaves_loops_and_blocks() {
    let lines = output(
        "fun first() { var i = 0; while (true) { { if (i == 3) return i; } i = i + 1; } }
         print first();
         print \"after\";",
    );
    assert_eq!(lines, vec!["3", "after"]);
}

#[test]
fn arguments_are_evaluated_left_to_right() {
    let lines = output(
        "fun say(x) { print x; return x; }
         fun add(a, b, c) { return a + b + c; }
         print add(say(1), say(2), say(3));",
    );
    assert_eq!(lines, vec!["1", "2", "3", "6"]);
}

#[test]
fn a_call_takes_as_many_arguments_as_parameters() {
    let (_, error) = failure("fun f(a, b) {} f(1);");
    assert_eq!(error.message, "Expected 2 arguments but got 1.");
    assert_eq!(error.token.type_, TokenType::RightParen);
    let (_, error) = failure("fun f() {} f(1, 2, 3);");
    assert_eq!(error.message, "Expected 0 arguments but got 3.");
    let (_, error) = failure("clock(1);");
    assert_eq!(error.message, "Expected 0 arguments but got 1.");
}

#[test]
fn only_functions_are_called() {
    assert_eq!(failure("\"text\"();").1.message, "Can only call functions and classes.");
    assert_eq!(failure("var a = 1; a();").1.message, "Can only call functions and classes.");
    assert_eq!(failure("nil();").1.message, "Can only call functions and classes.");
}

#[test]
fn endless_recursion_is_an_error() {
    let (_, error) = failure("fun f() { f(); } f();");
    assert_eq!(error.message, "Stack overflow.");
}

#[test]
fn clock_asks_the_host() {
    assert_eq!(output("print clock();"), vec!["1234.5"]);
    assert_eq!(output("print clock;"), vec!["<native fn>"]);
}

#[test]
fn values_are_printed_in_their_display_form() {
    assert_eq!(output("print nil;"), vec!["nil"]);
    assert_eq!(output("print true; print false;"), vec!["true", "false"]);
    assert_eq!(output("print \"text\";"), vec!["text"]);
    assert_eq!(output("print 12; print 1.5; print -0.25;"), vec!["12", "1.5", "-0.25"]);
    assert_eq!(output("fun named() {} print named;"), vec!["<fn named>"]);
}

#[test]
fn a_for_loop_counts() {
    assert_eq!(output("for (var i = 0; i < 3; i = i + 1) print i;"), vec!["0", "1", "2"]);
}

#[test]
fn the_clauses_of_a_for_loop_may_be_empty() {
    assert_eq!(
        output("var i = 0; for (; i < 2;) { print i; i = i + 1; }"),
        vec!["0", "1"]
    );
    assert_eq!(
        output("fun f() { for (;;) { return \"out\"; } } print f();"),
        vec!["out"]
    );
    assert_eq!(output("var i; for (i = 5; i < 7; i = i + 1) print i; print i;"), vec!["5", "6", "7"]);
}

#[test]
fn the_variable_of_a_for_loop_is_its_own() {
    let (lines, error) = failure("for (var i = 0; i < 1; i = i + 1) print i; print i;");
    assert_eq!(lines, vec!["0"]);
    assert_eq!(error.message, "Undefined variable 'i'.");
}

#[test]
fn while_tests_before_each_round() {
    assert_eq!(output("var i = 0; while (i < 3) { print i; i = i + 1; }"), vec!["0", "1", "2"]);
    assert_eq!(output("while (false) print 1; print 2;"), vec!["2"]);
}

#[test]
fn if_chooses_a_branch() {
    assert_eq!(output("if (1) print \"then\"; else print \"else\";"), vec!["then"]);
    assert_eq!(output("if (nil) print \"then\"; else print \"else\";"), vec!["else"]);
    assert_eq!(output("if (false) print \"then\"; print \"after\";"), vec!["after"]);
    assert_eq!(
        output("if (true) if (false) print 1; else print 2;"),
        vec!["2"]
    );
}

#[test]
fn a_runtime_error_stops_the_run() {
    let (lines, error) = failure("print 1; print -nil; print 2;");
    assert_eq!(lines, vec!["1"]);
    assert_eq!(error.message, "Operand must be a number.");
    let mut lox = Lox::new();
    lox.run("print 1; print -nil; print 2;".to_string());
    assert!(drive(&mut lox.interpreter).1.is_some());
    assert_eq!(lox.interpreter.step(), Request::Done);
}

#[test]
fn a_new_run_starts_afresh() {
    let mut lox = Lox::new();
    assert!(lox.run("var kept = 1; print -nil;".to_string()).is_empty());
    assert!(drive(&mut lox.interpreter).1.is_some());
    assert!(lox.run("print 2;".to_string()).is_empty());
    assert_eq!(drive(&mut lox.interpreter), (vec!["2".to_string()], None));
    assert!(lox.run("print kept;".to_string()).is_empty());
    assert_eq!(
        drive(&mut lox.interpreter).1.unwrap().message,
        "Undefined variable 'kept'."
    );
}

#[test]
fn a_source_with_errors_is_not_run() {
    let mut lox = Lox::new();
    let found = lox.run("print 1; print ; print 2;".to_string());
    assert_eq!(found.len(), 1);
    assert_eq!(found[0].kind, ErrorKind::Syntax);
    assert_eq!(found[0].to_string(), "[line 1] Error at ';': Expect expression.");
    assert_eq!(drive(&mut lox.interpreter), (Vec::new(), None));
}

#[test]
fn lexical_errors_come_before_syntax_errors() {
    let mut lox = Lox::new();
    let found = lox.run("print ;\n@".to_string());
    assert_eq!(found.len(), 2);
    assert_eq!(found[0].kind, ErrorKind::Lexical);
    assert_eq!(found[0].to_string(), "[line 2] Error: Unexpected character.");
    assert_eq!(found[1].kind, ErrorKind::Syntax);
    assert_eq!(found[1].line, 1);
}

#[test]
fn the_machine_asks_again_until_it_is_answered() {
    let mut lox = Lox::new();
    assert!(lox.run("print 1.5;".to_string()).is_empty());
    let mut request = lox.interpreter.step();
    while request == Request::Step {
        request = lox.interpreter.step();
    }
    assert_eq!(request, Request::Parse("1.5".to_string()));
    assert_eq!(lox.interpreter.step(), Request::Parse("1.5".to_string()));
    lox.interpreter.answer(number(1.5));
    assert_eq!(drive(&mut lox.interpreter).0, vec!["1.5"]);
}

#[test]
fn an_answer_that_was_not_asked_for_changes_nothing() {
    let mut lox = Lox::new();
    assert!(lox.run("print \"a\";".to_string()).is_empty());
    lox.interpreter.answer(number(7.0));
    assert_eq!(drive(&mut lox.interpreter).0, vec!["a"]);
}

#[test]
fn arithmetic_is_asked_of_the_host() {
    let mut lox = Lox::new();
    assert!(lox.run("print 6 / 3;".to_string()).is_empty());
    let mut asked = Vec::new();
    loop {
        match lox.interpreter.step() {
            Request::Step => {}
            Request::Parse(n) => {
                lox.interpreter.answer(number(n.parse().unwrap()));
                asked.push(format!("parse {}", n));
            }
            Request::Arith(op, a, b) => {
                asked.push(format!("{:?} {} {}", op, double(a), double(b)));
                lox.interpreter.answer(number(42.0));
            }
            Request::PrintNumber(n) => asked.push(format!("print {}", double(n))),
            Request::Done => break,
            other => panic!("{:?}", other),
        }
    }
    assert_eq!(asked, vec!["parse 6", "parse 3", "Div 6 3", "print 42"]);
}

#[test]
fn a_long_loop_comes_to_its_end() {
    let lines = output(
        "var sum = 0;
         for (var i = 1; i <= 50000; i = i + 1) { var twice = i + i; sum = sum + twice; }
         print sum;",
    );
    assert_eq!(lines, vec!["2500050000"]);
}

#[test]
fn calls_may_nest_deeply() {
    let lines = output(
        "fun depth(n) { if (n == 0) return 0; return 1 + depth(n - 1); }
         print depth(5000);",
    );
    assert_eq!(lines, vec!["5000"]);
}

#[test]
fn functions_are_values() {
    let lines = output(
        "fun twice(f, x) { return f(f(x)); }
         fun addOne(n) { return n + 1; }
         fun compose(f, g) { fun both(x) { return f(g(x)); } return both; }
         print twice(addOne, 5);
         var addTwo = compose(addOne, addOne);
         print addTwo(40);
         print twice(addTwo, 0);",
    );
    assert_eq!(lines, vec!["7", "42", "4"]);
}

#[test]
fn a_parameter_shadows_what_is_outside() {
    let lines = output(
        "var x = \"outer\";
         fun show(x) { print x; x = \"changed\"; print x; }
         show(\"inner\");
         print x;",
    );
    assert_eq!(lines, vec!["inner", "changed", "outer"]);
}

#[test]
fn each_call_has_its_own_variables() {
    let lines = output(
        "fun count(n) { var local = n; if (n > 0) count(n - 1); print local; }
         count(2);",
    );
    assert_eq!(lines, vec!["0", "1", "2"]);
}

#[test]
fn each_round_of_a_loop_has_its_own_scope() {
    let lines = output(
        "var first; var second;
         var i = 0;
         while (i < 2) {
           var captured = i;
           fun get() { return captured; }
           if (i == 0) first = get; else second = get;
           i = i + 1;
         }
         print first();
         print second();",
    );
    assert_eq!(lines, vec!["0", "1"]);
}

#[test]
fn primes_below_thirty() {
    let lines = output(
        "fun isPrime(n) {
           if (n < 2) return false;
           for (var d = 2; d * d <= n; d = d + 1) {
             var q = n / d;
             var whole = 0;
             while (whole + 1 <= q) whole = whole + 1;
             if (whole * d == n) return false;
           }
           return true;
         }
         var found = \"\";
         for (var n = 0; n < 30; n = n + 1) {
           if (isPrime(n)) { if (found == \"\") found = \"p\"; else found = found + \"p\"; print n; }
         }
         print found;",
    );
    assert_eq!(
        lines,
        vec!["2", "3", "5", "7", "11", "13", "17", "19", "23", "29", "pppppppppp"]
    );
}

#[test]
fn an_error_is_reported_on_its_line() {
    let (lines, error) = failure("// a comment\nvar a = 1; // another\n\nprint a;\nprint\n  a + nil;\n");
    assert_eq!(lines, vec!["1"]);
    assert_eq!(error.message, "Operands must be two numbers or two strings.");
    assert_eq!(error.token.line, 6);
    assert_eq!(
        Lox::runtime_error(error).to_string(),
        "Operands must be two numbers or two strings.\n[line 6]"
    );
}

#[test]
fn an_error_deep_in_a_program_leaves_the_global_scope() {
    let mut lox = Lox::new();
    let found = lox.run(
        "fun f(n) { while (true) { { if (n > 2) { print missing; } n = n + 1; } } }\n\
         { var a = 1; { f(a); } }"
            .to_string(),
    );
    assert!(found.is_empty(), "{:?}", found);
    let (lines, error) = drive(&mut lox.interpreter);
    assert!(lines.is_empty());
    assert_eq!(error.expect("a runtime error").message, "Undefined variable 'missing'.");
    assert_eq!(lox.interpreter.scope(), lox.interpreter.globals);
    assert_eq!(lox.interpreter.step(), Request::Done);
    assert_eq!(lox.interpreter.scope(), lox.interpreter.globals);
}

#[test]
fn a_program_that_ends_leaves_the_global_scope() {
    let mut lox = Lox::new();
    let found = lox.run("fun f() { { return 1; } } { { print f(); } }".to_string());
    assert!(found.is_empty(), "{:?}", found);
    let (lines, error) = drive(&mut lox.interpreter);
    assert_eq!(lines, vec!["1".to_string()]);
    assert!(error.is_none());
    assert_eq!(lox.interpreter.scope(), lox.interpreter.globals);
}
