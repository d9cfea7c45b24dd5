use rustlox::environment::Environment;
use rustlox::expr::Expr;
use rustlox::interpreter::{Interpreter, Request, RuntimeError};
use rustlox::semantics::Arith;
use rustlox::stmt::Stmt;
use rustlox::token::{Literal, Token, TokenType};
use rustlox::types::{is_truthy, Clock, LitVal, LoxCallable, LoxFunction, Number};
use std::rc::Rc;

fn number(x: f64) -> Number {
    Number::from_bits(x.to_bits())
}

fn name(text: &str) -> Token {
    Token {
        type_: TokenType::Identifier,
        lexeme: text.to_string(),
        literal: Literal::String(text.to_string()),
        line: 1,
    }
}

fn text(s: &str) -> LitVal {
    LitVal::String(s.to_string())
}

fn samples() -> Vec<f64> {
    vec![
        0.0,
        -0.0,
        1.0,
        -1.0,
        0.5,
        -0.5,
        2.0,
        1e-320,
        -1e-320,
        5e-324,
        f64::MIN_POSITIVE,
        f64::MAX,
        f64::MIN,
        f64::INFINITY,
        f64::NEG_INFINITY,
        f64::NAN,
        -f64::NAN,
        f64::from_bits(0x7ff0_0000_0000_0001),
        f64::from_bits(0xfff8_0000_0000_1234),
        1234.5678,
        1e300,
        -1e300,
        3.0,
        2.9999999999999996,
    ]
}

#[test]
fn numbers_compare_as_doubles_do() {
    for a in samples() {
        for b in samples() {
            let (x, y) = (number(a), number(b));
            assert_eq!(x.eq_number(&y), a == b, "{} == {}", a, b);
            assert_eq!(x.lt(&y), a < b, "{} < {}", a, b);
            assert_eq!(x.le(&y), a <= b, "{} <= {}", a, b);
            assert_eq!(y.lt(&x), a > b, "{} > {}", a, b);
            assert_eq!(y.le(&x), a >= b, "{} >= {}", a, b);
        }
    }
}

#[test]
fn numbers_are_negated_as_doubles_are() {
    for a in samples() {
        assert_eq!(number(a).neg().to_bits(), (-a).to_bits(), "-{}", a);
        assert_eq!(number(a).nan(), a.is_nan());
        assert_eq!(number(a).neg().neg(), number(a));
    }
}

#[test]
fn a_number_is_its_bits() {
    assert_eq!(Number::from_bits(0x3ff0_0000_0000_0000).to_bits(), 1.0f64.to_bits());
    assert_eq!(number(2.5).bits, 0x4004_0000_0000_0000);
}

#[test]
fn truthiness() {
    assert!(!is_truthy(&LitVal::Nil));
    assert!(!is_truthy(&LitVal::Bool(false)));
    assert!(is_truthy(&LitVal::Bool(true)));
    assert!(is_truthy(&LitVal::Number(number(0.0))));
    assert!(is_truthy(&LitVal::Number(number(f64::NAN))));
    assert!(is_truthy(&text("")));
    assert!(is_truthy(&LitVal::Clock(Clock)));
}

fn function(fname: &str, closure: usize) -> LoxFunction {
    let decl = Stmt::Function {
        name: name(fname),
        params: Rc::new(vec![name("a"), name("b")]),
        body: Rc::new(vec![Stmt::Print(Rc::new(Expr::Variable(name("a"))))]),
    };
    LoxFunction::new(Rc::new(decl), closure)
}

#[test]
fn values_of_different_kinds_are_not_equal() {
    let values = vec![
        LitVal::Nil,
        LitVal::Bool(false),
        LitVal::Bool(true),
        LitVal::Number(number(0.0)),
        LitVal::Number(number(1.0)),
        text(""),
        text("0"),
        text("nil"),
        LitVal::Clock(Clock),
        LitVal::Function(function("f", 0)),
        LitVal::Function(function("g", 0)),
        LitVal::Function(function("f", 1)),
    ];
    for (i, a) in values.iter().enumerate() {
        for (j, b) in values.iter().enumerate() {
            assert_eq!(a.equals(b), i == j, "{:?} == {:?}", a, b);
        }
    }
    assert!(LitVal::Number(number(0.0)).equals(&LitVal::Number(number(-0.0))));
    assert!(!LitVal::Number(number(f64::NAN)).equals(&LitVal::Number(number(f64::NAN))));
    assert!(LitVal::Function(function("f", 3)).equals(&LitVal::Function(function("f", 3))));
}

#[test]
fn values_are_displayed() {
    assert_eq!(LitVal::Nil.to_string(), Some("nil".to_string()));
    assert_eq!(LitVal::Bool(true).to_string(), Some("true".to_string()));
    assert_eq!(LitVal::Bool(false).to_string(), Some("false".to_string()));
    assert_eq!(text("a b").to_string(), Some("a b".to_string()));
    assert_eq!(text("").to_string(), Some(String::new()));
    assert_eq!(LitVal::Clock(Clock).to_string(), Some("<native fn>".to_string()));
    assert_eq!(
        LitVal::Function(function("area", 0)).to_string(),
        Some("<fn area>".to_string())
    );
    assert_eq!(LitVal::Number(number(1.0)).to_string(), None);
}

#[test]
fn a_function_value_keeps_its_declaration() {
    let f = function("f", 7);
    assert_eq!(f.name().lexeme, "f");
    assert_eq!(f.params().len(), 2);
    assert_eq!(f.params()[1].lexeme, "b");
    assert_eq!(f.body().len(), 1);
    assert_eq!(f.closure(), 7);
    assert_eq!(f.arity(), 2);
    assert_eq!(Clock.arity(), 0);
    let g = LoxFunction::of(f.name(), f.params(), f.body(), 7);
    assert_eq!(f, g);
    assert_eq!(f.clone(), f);
}

#[test]
fn a_new_environment_is_the_global_scope() {
    let env = Environment::new();
    assert_eq!(env.len(), 1);
    let e = env.get(0, &name("a")).unwrap_err();
    assert_eq!(e.message, "Undefined variable 'a'.");
    assert_eq!(e.token, name("a"));
}

#[test]
fn define_then_get() {
    let mut env = Environment::new();
    env.define(0, "a".to_string(), text("one"));
    assert_eq!(env.get(0, &name("a")), Ok(text("one")));
    env.define(0, "a".to_string(), text("two"));
    assert_eq!(env.get(0, &name("a")), Ok(text("two")));
    env.define(0, "b".to_string(), LitVal::Nil);
    assert_eq!(env.get(0, &name("a")), Ok(text("two")));
    assert_eq!(env.get(0, &name("b")), Ok(LitVal::Nil));
    assert!(env.get(0, &name("A")).is_err());
    assert!(env.get(0, &name("")).is_err());
}

#[test]
fn lookup_goes_outwards() {
    let mut env = Environment::new();
    env.define(0, "a".to_string(), text("global a"));
    env.define(0, "b".to_string(), text("global b"));
    let block = env.new_with_enclosing(0);
    assert_eq!(block, 1);
    let inner = env.new_with_enclosing(block);
    assert_eq!(inner, 2);
    let other = env.new_with_enclosing(0);
    assert_eq!(other, 3);
    assert_eq!(env.len(), 4);
    env.define(block, "a".to_string(), text("block a"));
    env.define(inner, "c".to_string(), text("inner c"));

    assert_eq!(env.get(inner, &name("a")), Ok(text("block a")));
    assert_eq!(env.get(inner, &name("b")), Ok(text("global b")));
    assert_eq!(env.get(inner, &name("c")), Ok(text("inner c")));
    assert_eq!(env.get(block, &name("a")), Ok(text("block a")));
    assert!(env.get(block, &name("c")).is_err());
    assert_eq!(env.get(other, &name("a")), Ok(text("global a")));
    assert_eq!(env.get(0, &name("a")), Ok(text("global a")));
    assert!(env.get(0, &name("c")).is_err());
}

#[test]
fn assign_changes_the_nearest_scope_that_holds_the_name() {
    let mut env = Environment::new();
    env.define(0, "a".to_string(), text("global"));
    let block = env.new_with_enclosing(0);
    let inner = env.new_with_enclosing(block);
    let other = env.new_with_enclosing(0);

    assert_eq!(env.assign(inner, &name("a"), &text("first")), Ok(text("first")));
    // No scope nearer than the global one held it: the global one changed.
    assert_eq!(env.get(other, &name("a")), Ok(text("first")));
    assert_eq!(env.get(0, &name("a")), Ok(text("first")));

    env.define(block, "a".to_string(), text("shadow"));
    assert_eq!(env.assign(inner, &name("a"), &text("second")), Ok(text("second")));
    assert_eq!(env.get(block, &name("a")), Ok(text("second")));
    assert_eq!(env.get(inner, &name("a")), Ok(text("second")));
    assert_eq!(env.get(0, &name("a")), Ok(text("first")));
    assert_eq!(env.get(other, &name("a")), Ok(text("first")));
}

#[test]
fn assign_never_defines() {
    let mut env = Environment::new();
    let block = env.new_with_enclosing(0);
    let e = env.assign(block, &name("a"), &LitVal::Nil).unwrap_err();
    assert_eq!(e.message, "Undefined variable 'a'.");
    assert!(env.get(block, &name("a")).is_err());
    assert!(env.get(0, &name("a")).is_err());
    assert_eq!(env.len(), 2);
}

#[test]
fn what_is_no_scope_holds_nothing() {
    let mut env = Environment::new();
    env.define(0, "a".to_string(), LitVal::Nil);
    assert!(env.get(5, &name("a")).is_err());
    assert!(env.assign(5, &name("a"), &LitVal::Nil).is_err());
    env.define(5, "b".to_string(), LitVal::Nil);
    assert!(env.get(0, &name("b")).is_err());
    assert_eq!(env.len(), 1);
    // A scope made inside what is no scope stands alone.
    let alone = env.new_with_enclosing(9);
    assert_eq!(alone, 1);
    assert!(env.get(alone, &name("a")).is_err());
}

#[test]
fn a_runtime_error_is_a_token_and_a_message() {
    let e = RuntimeError::new(name("x"), "Boom.");
    assert_eq!(e.token, name("x"));
    assert_eq!(e.message, "Boom.");
    assert_eq!(e.clone(), e);
}

fn finish(interpreter: &mut Interpreter) -> Vec<String> {
    let mut lines = Vec::new();
    for _ in 0..10_000 {
        match interpreter.step() {
            Request::Step => {}
            Request::Print(line) => lines.push(line),
            Request::Done => return lines,
            other => panic!("{:?}", other),
        }
    }
    panic!("the program does not end");
}

#[test]
fn a_new_interpreter_has_nothing_to_do() {
    let mut interpreter = Interpreter::new();
    assert_eq!(interpreter.globals, 0);
    assert_eq!(interpreter.step(), Request::Done);
    assert_eq!(interpreter.step(), Request::Done);
    interpreter.interpret(Vec::new());
    assert_eq!(finish(&mut interpreter), Vec::<String>::new());
}

fn print(e: Expr) -> Stmt {
    Stmt::Print(Rc::new(e))
}

fn var(n: &str, s: &str) -> Stmt {
    Stmt::Var {
        name: name(n),
        initializer: Some(Rc::new(Expr::Literal(Literal::String(s.to_string())))),
    }
}

#[test]
fn what_was_defined_stays_for_the_next_program() {
    let mut interpreter = Interpreter::new();
    interpreter.interpret(vec![var("a", "kept")]);
    assert!(finish(&mut interpreter).is_empty());
    interpreter.interpret(vec![print(Expr::Variable(name("a")))]);
    assert_eq!(finish(&mut interpreter), vec!["kept"]);
}

#[test]
fn a_block_runs_in_the_scope_it_is_given() {
    let mut interpreter = Interpreter::new();
    interpreter.interpret(vec![var("a", "global")]);
    assert!(finish(&mut interpreter).is_empty());

    // The statements put aside first run last.
    interpreter.interpret(vec![print(Expr::Variable(name("a")))]);
    let inner = Rc::new(vec![print(Expr::Variable(name("a"))), var("a", "inner")]);
    assert_eq!(interpreter.exec_block(&inner, interpreter.globals), Request::Step);
    assert_eq!(finish(&mut interpreter), vec!["global", "inner"]);
}

#[test]
fn a_block_in_what_is_no_scope_finds_nothing() {
    let mut interpreter = Interpreter::new();
    interpreter.interpret(vec![var("a", "global")]);
    assert!(finish(&mut interpreter).is_empty());
    interpreter.interpret(Vec::new());
    let inner = Rc::new(vec![print(Expr::Variable(name("a")))]);
    assert_eq!(interpreter.exec_block(&inner, 99), Request::Step);
    let mut request = interpreter.step();
    while request == Request::Step {
        request = interpreter.step();
    }
    match request {
        Request::Failed(e) => assert_eq!(e.message, "Undefined variable 'a'."),
        other => panic!("{:?}", other),
    }
}

#[test]
fn a_call_begins_the_body_in_a_new_scope() {
    let mut interpreter = Interpreter::new();
    interpreter.interpret(Vec::new());
    let f = function("f", interpreter.globals);
    let started = f.call(&mut interpreter, vec![text("first"), text("second")]);
    assert_eq!(started, Request::Step);
    assert_eq!(finish(&mut interpreter), vec!["first"]);
    assert_eq!(Clock.call(&mut interpreter, Vec::new()), Request::Clock);
    assert_eq!(interpreter.step(), Request::Clock);
}

fn token(type_: TokenType, lexeme: &str) -> Token {
    Token { type_, lexeme: lexeme.to_string(), literal: Literal::NotExist, line: 3 }
}

fn literal(l: Literal) -> Rc<Expr> {
    Rc::new(Expr::Literal(l))
}

fn failure_of(stmts: Vec<Stmt>) -> RuntimeError {
    let mut interpreter = Interpreter::new();
    interpreter.interpret(stmts);
    for _ in 0..10_000 {
        match interpreter.step() {
            Request::Step => {}
            Request::Failed(e) => return e,
            other => panic!("{:?}", other),
        }
    }
    panic!("the program does not end");
}

#[test]
fn an_operator_that_is_none_is_an_error() {
    let e = failure_of(vec![print(Expr::Unary {
        op: token(TokenType::Plus, "+"),
        right: literal(Literal::Nil),
    })]);
    assert_eq!(e.message, "Unknown operator.");
    assert_eq!(e.token.line, 3);
    let e = failure_of(vec![print(Expr::Binary {
        left: literal(Literal::Nil),
        op: token(TokenType::Bang, "!"),
        right: literal(Literal::Nil),
    })]);
    assert_eq!(e.message, "Unknown operator.");
    assert_eq!(e.token.type_, TokenType::Bang);
}

#[test]
fn a_logical_operator_that_is_not_or_is_and() {
    let mut interpreter = Interpreter::new();
    interpreter.interpret(vec![print(Expr::Logical {
        left: literal(Literal::Bool(false)),
        op: token(TokenType::Plus, "+"),
        right: literal(Literal::String("right".to_string())),
    })]);
    assert_eq!(finish(&mut interpreter), vec!["false"]);
}

#[test]
fn no_literal_counts_as_nil() {
    let mut interpreter = Interpreter::new();
    interpreter.interpret(vec![print(Expr::Literal(Literal::NotExist))]);
    assert_eq!(finish(&mut interpreter), vec!["nil"]);
}

#[test]
fn a_return_outside_any_call_ends_the_run() {
    let mut interpreter = Interpreter::new();
    interpreter.interpret(vec![
        print(Expr::Literal(Literal::String("before".to_string()))),
        Stmt::Block(Rc::new(vec![Stmt::Return {
            keyword: token(TokenType::Return, "return"),
            value: Some(literal(Literal::Nil)),
        }])),
        print(Expr::Literal(Literal::String("after".to_string()))),
    ]);
    assert_eq!(finish(&mut interpreter), vec!["before"]);
    assert_eq!(interpreter.step(), Request::Done);
}

#[test]
fn loading_gives_up_what_was_running() {
    let mut interpreter = Interpreter::new();
    interpreter.interpret(vec![
        print(Expr::Literal(Literal::String("one".to_string()))),
        print(Expr::Literal(Literal::String("two".to_string()))),
    ]);
    let mut request = interpreter.step();
    while request == Request::Step {
        request = interpreter.step();
    }
    assert_eq!(request, Request::Print("one".to_string()));
    interpreter.interpret(vec![print(Expr::Literal(Literal::String("three".to_string())))]);
    assert_eq!(finish(&mut interpreter), vec!["three"]);
}

fn until_it_stops(interpreter: &mut Interpreter) -> Request {
    for _ in 0..10_000 {
        match interpreter.step() {
            Request::Step => {}
            other => return other,
        }
    }
    panic!("the program does not end");
}

#[test]
fn an_error_in_a_block_leaves_the_block() {
    let mut interpreter = Interpreter::new();
    let inner = Stmt::Block(Rc::new(vec![print(Expr::Variable(name("missing")))]));
    let outer = Rc::new(vec![inner]);
    assert_eq!(interpreter.scope(), interpreter.globals);
    interpreter.exec_block(&outer, interpreter.globals);
    match until_it_stops(&mut interpreter) {
        Request::Failed(e) => assert_eq!(e.message, "Undefined variable 'missing'."),
        other => panic!("{:?}", other),
    }
    assert_eq!(interpreter.scope(), interpreter.globals);
    assert_eq!(interpreter.step(), Request::Done);
}

#[test]
fn an_error_in_a_call_leaves_the_call() {
    let mut interpreter = Interpreter::new();
    interpreter.interpret(vec![var("a", "global")]);
    assert!(finish(&mut interpreter).is_empty());
    let decl = Stmt::Function {
        name: name("f"),
        params: Rc::new(vec![name("a")]),
        body: Rc::new(vec![Stmt::Block(Rc::new(vec![
            var("a", "inner"),
            print(Expr::Variable(name("missing"))),
        ]))]),
    };
    let f = LoxFunction::new(Rc::new(decl), interpreter.globals);
    f.call(&mut interpreter, vec![text("argument")]);
    assert!(matches!(until_it_stops(&mut interpreter), Request::Failed(_)));
    assert_eq!(interpreter.scope(), interpreter.globals);
    // What runs next runs in the scope that the call was made from.
    let after = Rc::new(vec![print(Expr::Variable(name("a")))]);
    interpreter.exec_block(&after, interpreter.scope());
    assert_eq!(finish(&mut interpreter), vec!["global"]);
}

#[test]
fn a_return_leaves_the_blocks_it_passes() {
    let mut interpreter = Interpreter::new();
    let inner = Stmt::Block(Rc::new(vec![Stmt::Return {
        keyword: token(TokenType::Return, "return"),
        value: None,
    }]));
    interpreter.exec_block(&Rc::new(vec![inner]), interpreter.globals);
    assert_eq!(until_it_stops(&mut interpreter), Request::Done);
    assert_eq!(interpreter.scope(), interpreter.globals);
}

#[test]
fn a_block_that_ends_leaves_the_machine_where_it_was() {
    let mut interpreter = Interpreter::new();
    let inner = Stmt::Block(Rc::new(vec![var("a", "inner")]));
    interpreter.exec_block(&Rc::new(vec![inner]), interpreter.globals);
    assert_eq!(until_it_stops(&mut interpreter), Request::Done);
    assert_eq!(interpreter.scope(), interpreter.globals);
}

fn declared(fname: &str, params: Vec<Token>, body: Vec<Stmt>, closure: usize) -> LitVal {
    LitVal::Function(LoxFunction::of(&name(fname), &Rc::new(params), &Rc::new(body), closure))
}

#[test]
fn functions_are_equal_when_every_part_is() {
    let f = declared("f", vec![name("a")], vec![print(Expr::Variable(name("a")))], 0);
    assert!(f.equals(&declared("f", vec![name("a")], vec![print(Expr::Variable(name("a")))], 0)));
    assert!(!f.equals(&declared("g", vec![name("a")], vec![print(Expr::Variable(name("a")))], 0)));
    assert!(!f.equals(&declared("f", vec![name("b")], vec![print(Expr::Variable(name("a")))], 0)));
    assert!(!f.equals(&declared("f", vec![], vec![print(Expr::Variable(name("a")))], 0)));
    assert!(!f.equals(&declared("f", vec![name("a")], vec![print(Expr::Variable(name("b")))], 0)));
    assert!(!f.equals(&declared("f", vec![name("a")], vec![], 0)));
    assert!(!f.equals(&declared("f", vec![name("a")], vec![print(Expr::Variable(name("a")))], 1)));
}

#[test]
fn two_declarations_of_one_name_are_two_functions() {
    let mut lox_env = Environment::new();
    let globals = 0;
    lox_env.define(globals, "f".to_string(), declared("f", vec![], vec![var("x", "one")], globals));
    let first = lox_env.get(globals, &name("f")).unwrap();
    lox_env.define(globals, "f".to_string(), declared("f", vec![], vec![var("x", "two")], globals));
    let second = lox_env.get(globals, &name("f")).unwrap();
    assert!(!first.equals(&second));
    assert!(second.equals(&second));
}

#[test]
fn syntax_trees_are_compared_part_by_part() {
    let a = Expr::Binary {
        left: literal(Literal::Number("1".to_string())),
        op: token(TokenType::Plus, "+"),
        right: literal(Literal::Number("2".to_string())),
    };
    let b = Expr::Binary {
        left: literal(Literal::Number("1".to_string())),
        op: token(TokenType::Plus, "+"),
        right: literal(Literal::Number("2".to_string())),
    };
    let c = Expr::Binary {
        left: literal(Literal::Number("1".to_string())),
        op: token(TokenType::Plus, "+"),
        right: literal(Literal::Number("3".to_string())),
    };
    assert!(a.same(&b));
    assert!(!a.same(&c));
    assert!(!a.same(&Expr::Grouping { expression: Rc::new(b) }));
    assert!(print(Expr::Variable(name("a"))).same(&print(Expr::Variable(name("a")))));
    assert!(!print(Expr::Variable(name("a"))).same(&Stmt::Expr(Rc::new(Expr::Variable(name("a"))))));
    assert!(Stmt::Block(Rc::new(vec![var("x", "s")])).same(&Stmt::Block(Rc::new(vec![var("x", "s")]))));
    assert!(!Stmt::Block(Rc::new(vec![var("x", "s")])).same(&Stmt::Block(Rc::new(vec![]))));
}

#[test]
fn plus_takes_two_numbers_or_two_strings() {
    let plus = || token(TokenType::Plus, "+");
    let mut interpreter = Interpreter::new();
    assert_eq!(interpreter.eval_binary(text("ab"), plus(), text("cd")), Request::Step);
    let mut interpreter = Interpreter::new();
    assert_eq!(
        interpreter.eval_binary(LitVal::Number(number(1.0)), plus(), LitVal::Number(number(2.0))),
        Request::Arith(Arith::Add, number(1.0), number(2.0))
    );
    let mixed = vec![
        (text("a"), LitVal::Number(number(1.0))),
        (LitVal::Number(number(1.0)), text("a")),
        (LitVal::Nil, LitVal::Nil),
        (LitVal::Bool(true), text("a")),
        (LitVal::Number(number(1.0)), LitVal::Nil),
    ];
    for (left, right) in mixed {
        let mut interpreter = Interpreter::new();
        assert_eq!(
            interpreter.eval_binary(left, plus(), right),
            Request::Failed(RuntimeError::new(
                plus(),
                "Operands must be two numbers or two strings."
            ))
        );
    }
}

#[test]
fn arithmetic_and_ordering_take_numbers_only() {
    let operators = vec![
        (TokenType::Minus, "-"),
        (TokenType::Star, "*"),
        (TokenType::Slash, "/"),
        (TokenType::Greater, ">"),
        (TokenType::GreaterEqual, ">="),
        (TokenType::Less, "<"),
        (TokenType::LessEqual, "<="),
    ];
    for (type_, lexeme) in operators {
        let mut interpreter = Interpreter::new();
        assert_eq!(
            interpreter.eval_binary(text("a"), token(type_, lexeme), LitVal::Number(number(1.0))),
            Request::Failed(RuntimeError::new(token(type_, lexeme), "Operands must be numbers."))
        );
        let mut interpreter = Interpreter::new();
        assert_eq!(
            interpreter.eval_binary(LitVal::Number(number(1.0)), token(type_, lexeme), LitVal::Nil),
            Request::Failed(RuntimeError::new(token(type_, lexeme), "Operands must be numbers."))
        );
    }
    let mut interpreter = Interpreter::new();
    assert_eq!(
        interpreter.eval_unary(token(TokenType::Minus, "-"), text("a")),
        Request::Failed(RuntimeError::new(token(TokenType::Minus, "-"), "Operand must be a number."))
    );
}

#[test]
fn a_scope_holds_many_names() {
    let mut environment = Environment::new();
    let inner = environment.new_with_enclosing(0);
    for i in 0..200 {
        let scope = if i % 2 == 0 { 0 } else { inner };
        environment.define(scope, format!("name{}", i), text(&format!("value{}", i)));
    }
    for i in 0..200 {
        let found = environment.get(inner, &name(&format!("name{}", i))).unwrap();
        assert!(found.equals(&text(&format!("value{}", i))));
        let outside = environment.get(0, &name(&format!("name{}", i)));
        assert_eq!(outside.is_ok(), i % 2 == 0);
    }
    assert!(environment.assign(inner, &name("name7"), &text("seven")).is_ok());
    assert!(environment.get(inner, &name("name7")).unwrap().equals(&text("seven")));
    assert!(environment.get(inner, &name("name9")).unwrap().equals(&text("value9")));
    assert!(environment.get(inner, &name("name")).is_err());
    assert_eq!(environment.len(), 2);
}
