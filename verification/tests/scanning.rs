use rustlox::scanner::Scanner;
use rustlox::token::{Literal, Token, TokenType};
use rustlox::{ErrorKind, Lox};

fn scan(source: &str) -> (Vec<Token>, Vec<String>) {
    let mut scanner = Scanner::new(source.to_string());
    let tokens = scanner.scan_tokens().clone();
    let errors = scanner.diagnostics().iter().map(|d| d.to_string()).collect();
    (tokens, errors)
}

fn kinds(source: &str) -> Vec<TokenType> {
    let (tokens, errors) = scan(source);
    assert!(errors.is_empty(), "{:?}", errors);
    tokens.iter().map(|t| t.type_).collect()
}

fn listing(source: &str) -> Vec<String> {
    scan(source).0.iter().map(|t| t.to_string()).collect()
}

#[test]
fn an_empty_source_is_one_token() {
    let (tokens, errors) = scan("");
    assert!(errors.is_empty());
    assert_eq!(
        tokens,
        vec![Token {
            type_: TokenType::Eof,
            lexeme: String::new(),
            literal: Literal::Nil,
            line: 1
        }]
    );
}

#[test]
fn every_scan_ends_with_the_end_token() {
    for source in ["", "1", "@", "\"open", "// only a comment", "a\nb\n"] {
        let (tokens, _) = scan(source);
        assert_eq!(tokens.last().unwrap().type_, TokenType::Eof);
        assert_eq!(
            tokens.iter().filter(|t| t.type_ == TokenType::Eof).count(),
            1
        );
    }
}

#[test]
fn punctuation_and_operators() {
    assert_eq!(
        kinds("(){},.-+;/*"),
        vec![
            TokenType::LeftParen, TokenType::RightParen, TokenType::LeftBrace, TokenType::RightBrace, TokenType::Comma, TokenType::Dot, TokenType::Minus, TokenType::Plus, TokenType::Semicolon,
            TokenType::Slash, TokenType::Star, TokenType::Eof
        ]
    );
    assert_eq!(
        kinds("! != = == < <= > >="),
        vec![
            TokenType::Bang, TokenType::BangEqual, TokenType::Equal, TokenType::EqualEqual, TokenType::Less, TokenType::LessEqual, TokenType::Greater, TokenType::GreaterEqual, TokenType::Eof
        ]
    );
    assert_eq!(kinds("==="), vec![TokenType::EqualEqual, TokenType::Equal, TokenType::Eof]);
    assert_eq!(kinds("!!="), vec![TokenType::Bang, TokenType::BangEqual, TokenType::Eof]);
    assert_eq!(kinds("<=="), vec![TokenType::LessEqual, TokenType::Equal, TokenType::Eof]);
}

#[test]
fn keywords_are_case_sensitive() {
    assert_eq!(
        kinds("and class else false fun for if nil or print return super this true var while"),
        vec![
            TokenType::And, TokenType::Class, TokenType::Else, TokenType::False, TokenType::Fun, TokenType::For, TokenType::If, TokenType::Nil, TokenType::Or, TokenType::Print, TokenType::Return, TokenType::Super, TokenType::This, TokenType::True, TokenType::Var,
            TokenType::While, TokenType::Eof
        ]
    );
    assert_eq!(
        kinds("And CLASS iff fo _if nil_ printer"),
        vec![TokenType::Identifier, TokenType::Identifier, TokenType::Identifier, TokenType::Identifier, TokenType::Identifier, TokenType::Identifier, TokenType::Identifier, TokenType::Eof]
    );
}

#[test]
fn a_word_carries_its_text() {
    let (tokens, _) = scan("foo_1 while");
    assert_eq!(tokens[0].lexeme, "foo_1");
    assert_eq!(tokens[0].literal, Literal::String("foo_1".to_string()));
    assert_eq!(tokens[1].type_, TokenType::While);
    assert_eq!(tokens[1].lexeme, "while");
    assert_eq!(tokens[1].literal, Literal::String("while".to_string()));
}

#[test]
fn numerals() {
    let (tokens, errors) = scan("123 45.67 0.5 007");
    assert!(errors.is_empty());
    let numerals: Vec<_> = tokens
        .iter()
        .filter(|t| t.type_ == TokenType::Number)
        .map(|t| (t.lexeme.clone(), t.literal.clone()))
        .collect();
    assert_eq!(
        numerals,
        vec![
            ("123".to_string(), Literal::Number("123".to_string())),
            ("45.67".to_string(), Literal::Number("45.67".to_string())),
            ("0.5".to_string(), Literal::Number("0.5".to_string())),
            ("007".to_string(), Literal::Number("007".to_string())),
        ]
    );
}

#[test]
fn a_point_needs_digits_on_both_sides() {
    assert_eq!(kinds("1."), vec![TokenType::Number, TokenType::Dot, TokenType::Eof]);
    assert_eq!(kinds(".5"), vec![TokenType::Dot, TokenType::Number, TokenType::Eof]);
    assert_eq!(kinds("1.2.3"), vec![TokenType::Number, TokenType::Dot, TokenType::Number, TokenType::Eof]);
    assert_eq!(kinds("1.a"), vec![TokenType::Number, TokenType::Dot, TokenType::Identifier, TokenType::Eof]);
    let (tokens, _) = scan("1.2.3");
    assert_eq!(tokens[0].lexeme, "1.2");
    assert_eq!(tokens[2].lexeme, "3");
}

#[test]
fn a_numeral_ends_where_letters_begin() {
    let (tokens, _) = scan("12ab");
    assert_eq!(tokens[0].type_, TokenType::Number);
    assert_eq!(tokens[0].lexeme, "12");
    assert_eq!(tokens[1].type_, TokenType::Identifier);
    assert_eq!(tokens[1].lexeme, "ab");
}

#[test]
fn strings_keep_what_is_between_the_quotes() {
    let (tokens, errors) = scan("\"hello\" \"\" \"a\\nb\"");
    assert!(errors.is_empty());
    assert_eq!(tokens[0].type_, TokenType::String);
    assert_eq!(tokens[0].lexeme, "\"hello\"");
    assert_eq!(tokens[0].literal, Literal::String("hello".to_string()));
    assert_eq!(tokens[1].lexeme, "\"\"");
    assert_eq!(tokens[1].literal, Literal::String(String::new()));
    // No escapes: a backslash is a character like any other.
    assert_eq!(tokens[2].literal, Literal::String("a\\nb".to_string()));
}

#[test]
fn a_string_may_run_over_lines() {
    let (tokens, errors) = scan("\"one\ntwo\" after");
    assert!(errors.is_empty());
    assert_eq!(tokens[0].literal, Literal::String("one\ntwo".to_string()));
    assert_eq!(tokens[0].line, 2);
    assert_eq!(tokens[1].line, 2);
}

#[test]
fn a_string_without_its_end_is_reported() {
    let (tokens, errors) = scan("1 \"open\nstill open");
    assert_eq!(errors, vec!["[line 2] Error: Unterminated string."]);
    assert_eq!(
        tokens.iter().map(|t| t.type_).collect::<Vec<_>>(),
        vec![TokenType::Number, TokenType::Eof]
    );
    assert_eq!(tokens[1].line, 2);
}

#[test]
fn an_unknown_character_is_reported_and_scanning_goes_on() {
    let (tokens, errors) = scan("1 @ 2 # 3\n$");
    assert_eq!(
        errors,
        vec![
            "[line 1] Error: Unexpected character.",
            "[line 1] Error: Unexpected character.",
            "[line 2] Error: Unexpected character."
        ]
    );
    assert_eq!(
        tokens.iter().map(|t| t.lexeme.as_str()).collect::<Vec<_>>(),
        vec!["1", "2", "3", ""]
    );
}

#[test]
fn characters_outside_ascii_start_no_token() {
    let (tokens, errors) = scan("é x \"é\" // é");
    assert_eq!(errors, vec!["[line 1] Error: Unexpected character."]);
    assert_eq!(tokens[0].lexeme, "x");
    assert_eq!(tokens[1].literal, Literal::String("é".to_string()));
    assert_eq!(tokens[1].lexeme, "\"é\"");
    assert_eq!(tokens.len(), 3);
}

#[test]
fn comments_run_to_the_end_of_the_line() {
    assert_eq!(kinds("1 // 2 3\n4"), vec![TokenType::Number, TokenType::Number, TokenType::Eof]);
    assert_eq!(kinds("// nothing"), vec![TokenType::Eof]);
    assert_eq!(kinds("/ /"), vec![TokenType::Slash, TokenType::Slash, TokenType::Eof]);
    let (tokens, _) = scan("// one\n// two\nx");
    assert_eq!(tokens[0].line, 3);
}

#[test]
fn blanks_are_skipped_and_lines_counted() {
    let (tokens, errors) = scan(" a\t\r\n\n  b\n");
    assert!(errors.is_empty());
    assert_eq!(tokens[0].line, 1);
    assert_eq!(tokens[1].line, 3);
    assert_eq!(tokens[2].type_, TokenType::Eof);
    assert_eq!(tokens[2].line, 4);
}

#[test]
fn scanning_again_adds_another_end() {
    let mut scanner = Scanner::new("a".to_string());
    assert_eq!(scanner.scan_tokens().len(), 2);
    assert_eq!(scanner.scan_tokens().len(), 3);
}

#[test]
fn tokens_are_listed_by_kind() {
    assert_eq!(
        listing("( != while x \"s t\" 12 3.50"),
        vec![
            "LEFT_PAREN ( null",
            "BANG_EQUAL != null",
            "WHILE while null",
            "IDENTIFIER x null",
            "STRING \"s t\" s t",
            "NUMBER 12 12.0",
            "NUMBER 3.50 3.50",
            "EOF  null"
        ]
    );
}

#[test]
fn kinds_are_spelled() {
    assert_eq!(TokenType::LessEqual.to_string(), "<=");
    assert_eq!(TokenType::Return.to_string(), "return");
    assert_eq!(TokenType::Identifier.to_string(), "");
    assert_eq!(TokenType::Eof.to_string(), "\\d");
    assert_eq!(TokenType::Question.to_string(), "?");
    assert_eq!(TokenType::Colon.name(), "COLON");
    assert_eq!(TokenType::Break.symbol(), "break");
}

#[test]
fn tokens_compare_by_value() {
    let (tokens, _) = scan("a a\na 1 1.0 \"a\"");
    assert!(tokens[0].same(&tokens[1]));
    assert!(!tokens[0].same(&tokens[2]));
    assert!(!tokens[3].same(&tokens[4]));
    assert!(!tokens[0].same(&tokens[5]));
    assert!(tokens[5].same(&tokens[5].clone()));
}

#[test]
fn reports_name_the_line() {
    assert_eq!(Lox::report(7, "", "Boom."), "[line 7] Error: Boom.");
    assert_eq!(Lox::report(0, " at end", "x"), "[line 0] Error at end: x");
    assert_eq!(
        Lox::report(1234567890, " at 'y'", "z"),
        "[line 1234567890] Error at 'y': z"
    );
    assert_eq!(
        Lox::report(usize::MAX, "", ""),
        format!("[line {}] Error: ", usize::MAX)
    );
    let d = Lox::error(12, "Unexpected character.");
    assert_eq!(d.kind, ErrorKind::Lexical);
    assert_eq!(d.line, 12);
    assert_eq!(d.location, "");
    assert_eq!(d.to_string(), "[line 12] Error: Unexpected character.");
}

#[test]
fn syntax_errors_name_the_token() {
    let (tokens, _) = scan("\nfoo");
    let d = Lox::token_error(&tokens[0], "Expect ';'.");
    assert_eq!(d.kind, ErrorKind::Syntax);
    assert_eq!(d.to_string(), "[line 2] Error at 'foo': Expect ';'.");
    let d = Lox::token_error(&tokens[1], "Expect expression.");
    assert_eq!(d.to_string(), "[line 2] Error at end: Expect expression.");
}
