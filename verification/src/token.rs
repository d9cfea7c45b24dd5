//! Tokens: the kinds, the literal a token carries, and how each is written out.

use vstd::prelude::*;
use crate::text::chars_of;

verus! {

/// The kind of a token.
#[derive(Debug, Clone, Copy, PartialEq, Eq, Structural)]
pub enum TokenType {
    // Single-character tokens.
    LeftParen,
    RightParen,
    LeftBrace,
    RightBrace,
    Comma,
    Dot,
    Minus,
    Plus,
    Semicolon,
    Slash,
    Star,

    // One or two character tokens.
    Bang,
    BangEqual,
    Equal,
    EqualEqual,
    Greater,
    GreaterEqual,
    Less,
    LessEqual,

    // Literals.
    Identifier,
    String,
    Number,

    // Keywords.
    And,
    Class,
    Else,
    False,
    Fun,
    For,
    If,
    Nil,
    Or,
    Print,
    Return,
    Super,
    This,
    True,
    Var,
    While,

    // The end of the input, and kinds that no source text gives yet.
    Eof,
    Colon,
    Question,
    Break,
}

impl TokenType {
    /// The name under which a token of this kind is listed.
    pub open spec fn label(self) -> Seq<char> {
        match self {
            TokenType::LeftParen => "LEFT_PAREN"@,
            TokenType::RightParen => "RIGHT_PAREN"@,
            TokenType::LeftBrace => "LEFT_BRACE"@,
            TokenType::RightBrace => "RIGHT_BRACE"@,
            TokenType::Comma => "COMMA"@,
            TokenType::Dot => "DOT"@,
            TokenType::Minus => "MINUS"@,
            TokenType::Plus => "PLUS"@,
            TokenType::Semicolon => "SEMICOLON"@,
            TokenType::Slash => "SLASH"@,
            TokenType::Star => "STAR"@,
            TokenType::Bang => "BANG"@,
            TokenType::BangEqual => "BANG_EQUAL"@,
            TokenType::Equal => "EQUAL"@,
            TokenType::EqualEqual => "EQUAL_EQUAL"@,
            TokenType::Greater => "GREATER"@,
            TokenType::GreaterEqual => "GREATER_EQUAL"@,
            TokenType::Less => "LESS"@,
            TokenType::LessEqual => "LESS_EQUAL"@,
            TokenType::Identifier => "IDENTIFIER"@,
            TokenType::String => "STRING"@,
            TokenType::Number => "NUMBER"@,
            TokenType::And => "AND"@,
            TokenType::Class => "CLASS"@,
            TokenType::Else => "ELSE"@,
            TokenType::False => "FALSE"@,
            TokenType::Fun => "FUN"@,
            TokenType::For => "FOR"@,
            TokenType::If => "IF"@,
            TokenType::Nil => "NIL"@,
            TokenType::Or => "OR"@,
            TokenType::Print => "PRINT"@,
            TokenType::Return => "RETURN"@,
            TokenType::Super => "SUPER"@,
            TokenType::This => "THIS"@,
            TokenType::True => "TRUE"@,
            TokenType::Var => "VAR"@,
            TokenType::While => "WHILE"@,
            TokenType::Eof => "EOF"@,
            TokenType::Colon => "COLON"@,
            TokenType::Question => "QUESTION"@,
            TokenType::Break => "BREAK"@,
        }
    }

    /// How a token of this kind is spelled, where the kind fixes the spelling;
    /// empty for identifiers, strings and numbers.
    pub open spec fn text(self) -> Seq<char> {
        match self {
            TokenType::LeftParen => "("@,
            TokenType::RightParen => ")"@,
            TokenType::LeftBrace => "{"@,
            TokenType::RightBrace => "}"@,
            TokenType::Comma => ","@,
            TokenType::Dot => "."@,
            TokenType::Minus => "-"@,
            TokenType::Plus => "+"@,
            TokenType::Semicolon => ";"@,
            TokenType::Slash => "/"@,
            TokenType::Star => "*"@,
            TokenType::Bang => "!"@,
            TokenType::BangEqual => "!="@,
            TokenType::Equal => "="@,
            TokenType::EqualEqual => "=="@,
            TokenType::Greater => ">"@,
            TokenType::GreaterEqual => ">="@,
            TokenType::Less => "<"@,
            TokenType::LessEqual => "<="@,
            TokenType::Identifier => ""@,
            TokenType::String => ""@,
            TokenType::Number => ""@,
            TokenType::And => "and"@,
            TokenType::Class => "class"@,
            TokenType::Else => "else"@,
            TokenType::False => "false"@,
            TokenType::Fun => "fun"@,
            TokenType::For => "for"@,
            TokenType::If => "if"@,
            TokenType::Nil => "nil"@,
            TokenType::Or => "or"@,
            TokenType::Print => "print"@,
            TokenType::Return => "return"@,
            TokenType::Super => "super"@,
            TokenType::This => "this"@,
            TokenType::True => "true"@,
            TokenType::Var => "var"@,
            TokenType::While => "while"@,
            TokenType::Eof => "\\d"@,
            TokenType::Colon => ":"@,
            TokenType::Question => "?"@,
            TokenType::Break => "break"@,
        }
    }

    /// The listing name of this kind.
    pub fn name(&self) -> (s: &'static str)
        ensures
            s@ == self.label(),
    {
        match self {
            TokenType::LeftParen => "LEFT_PAREN",
            TokenType::RightParen => "RIGHT_PAREN",
            TokenType::LeftBrace => "LEFT_BRACE",
            TokenType::RightBrace => "RIGHT_BRACE",
            TokenType::Comma => "COMMA",
            TokenType::Dot => "DOT",
            TokenType::Minus => "MINUS",
            TokenType::Plus => "PLUS",
            TokenType::Semicolon => "SEMICOLON",
            TokenType::Slash => "SLASH",
            TokenType::Star => "STAR",
            TokenType::Bang => "BANG",
            TokenType::BangEqual => "BANG_EQUAL",
            TokenType::Equal => "EQUAL",
            TokenType::EqualEqual => "EQUAL_EQUAL",
            TokenType::Greater => "GREATER",
            TokenType::GreaterEqual => "GREATER_EQUAL",
            TokenType::Less => "LESS",
            TokenType::LessEqual => "LESS_EQUAL",
            TokenType::Identifier => "IDENTIFIER",
            TokenType::String => "STRING",
            TokenType::Number => "NUMBER",
            TokenType::And => "AND",
            TokenType::Class => "CLASS",
            TokenType::Else => "ELSE",
            TokenType::False => "FALSE",
            TokenType::Fun => "FUN",
            TokenType::For => "FOR",
            TokenType::If => "IF",
            TokenType::Nil => "NIL",
            TokenType::Or => "OR",
            TokenType::Print => "PRINT",
            TokenType::Return => "RETURN",
            TokenType::Super => "SUPER",
            TokenType::This => "THIS",
            TokenType::True => "TRUE",
            TokenType::Var => "VAR",
            TokenType::While => "WHILE",
            TokenType::Eof => "EOF",
            TokenType::Colon => "COLON",
            TokenType::Question => "QUESTION",
            TokenType::Break => "BREAK",
        }
    }

    /// The fixed spelling of this kind.
    pub fn symbol(&self) -> (s: &'static str)
        ensures
            s@ == self.text(),
    {
        match self {
            TokenType::LeftParen => "(",
            TokenType::RightParen => ")",
            TokenType::LeftBrace => "{",
            TokenType::RightBrace => "}",
            TokenType::Comma => ",",
            TokenType::Dot => ".",
            TokenType::Minus => "-",
            TokenType::Plus => "+",
            TokenType::Semicolon => ";",
            TokenType::Slash => "/",
            TokenType::Star => "*",
            TokenType::Bang => "!",
            TokenType::BangEqual => "!=",
            TokenType::Equal => "=",
            TokenType::EqualEqual => "==",
            TokenType::Greater => ">",
            TokenType::GreaterEqual => ">=",
            TokenType::Less => "<",
            TokenType::LessEqual => "<=",
            TokenType::Identifier => "",
            TokenType::String => "",
            TokenType::Number => "",
            TokenType::And => "and",
            TokenType::Class => "class",
            TokenType::Else => "else",
            TokenType::False => "false",
            TokenType::Fun => "fun",
            TokenType::For => "for",
            TokenType::If => "if",
            TokenType::Nil => "nil",
            TokenType::Or => "or",
            TokenType::Print => "print",
            TokenType::Return => "return",
            TokenType::Super => "super",
            TokenType::This => "this",
            TokenType::True => "true",
            TokenType::Var => "var",
            TokenType::While => "while",
            TokenType::Eof => "\\d",
            TokenType::Colon => ":",
            TokenType::Question => "?",
            TokenType::Break => "break",
        }
    }

    /// The fixed spelling of this kind, as an owned string.
    pub fn to_string(&self) -> (s: String)
        ensures
            s@ == self.text(),
    {
        self.symbol().to_owned()
    }
}

/// What a token carries besides its spelling. A number is kept as the numeral
/// that was written: its digits, and a fraction if there is one.
#[derive(Debug, PartialEq)]
pub enum Literal {
    Number(String),
    String(String),
    Bool(bool),
    Nil,
    NotExist,
}

/// The mathematical value of a [`Literal`].
pub enum LiteralView {
    Number(Seq<char>),
    String(Seq<char>),
    Bool(bool),
    Nil,
    NotExist,
}

impl View for Literal {
    type V = LiteralView;

    open spec fn view(&self) -> LiteralView {
        match self {
            Literal::Number(n) => LiteralView::Number(n@),
            Literal::String(s) => LiteralView::String(s@),
            Literal::Bool(b) => LiteralView::Bool(*b),
            Literal::Nil => LiteralView::Nil,
            Literal::NotExist => LiteralView::NotExist,
        }
    }
}

impl LiteralView {
    /// The text of a string literal; empty for any other literal.
    pub open spec fn string_part(self) -> Seq<char> {
        match self {
            LiteralView::String(s) => s,
            _ => Seq::empty(),
        }
    }

    /// The numeral of a number literal; empty for any other literal.
    pub open spec fn number_part(self) -> Seq<char> {
        match self {
            LiteralView::Number(n) => n,
            _ => Seq::empty(),
        }
    }
}

impl Clone for Literal {
    fn clone(&self) -> (r: Self)
        ensures
            r == *self,
    {
        match self {
            Literal::Number(n) => Literal::Number(n.clone()),
            Literal::String(s) => Literal::String(s.clone()),
            Literal::Bool(b) => Literal::Bool(*b),
            Literal::Nil => Literal::Nil,
            Literal::NotExist => Literal::NotExist,
        }
    }
}

/// A numeral as it is listed: one without a fraction gets `.0`.
pub open spec fn with_fraction(numeral: Seq<char>) -> Seq<char> {
    if numeral.contains('.') {
        numeral
    } else {
        numeral + ".0"@
    }
}

/// Appends to `out` the numeral `numeral`, with `.0` where it has no fraction.
pub fn push_with_fraction(out: &mut String, numeral: &str)
    ensures
        final(out)@ == old(out)@ + with_fraction(numeral@),
{
    let chars = chars_of(numeral);
    let mut i: usize = 0;
    let mut found = false;
    while i < chars.len()
        invariant
            i <= chars.len(),
            found <==> chars@.take(i as int).contains('.'),
        decreases chars.len() - i,
    {
        if chars[i] == '.' {
            found = true;
        }
        proof {
            let before = chars@.take(i as int);
            let after = chars@.take(i + 1);
            assert(after =~= before.push(chars@[i as int]));
            if before.contains('.') {
                let k = choose|k: int| 0 <= k < before.len() && before[k] == '.';
                assert(after[k] == '.');
            }
            if chars@[i as int] == '.' {
                assert(after[i as int] == '.');
            }
        }
        i += 1;
    }
    assert(chars@.take(i as int) =~= chars@);
    out.append(numeral);
    if !found {
        out.append(".0");
    }
}

/// A classified piece of source text, with the line it stands on.
#[derive(Debug, PartialEq)]
pub struct Token {
    pub type_: TokenType,
    pub lexeme: String,
    pub literal: Literal,
    pub line: usize,
}

/// The mathematical value of a [`Token`].
pub struct TokenView {
    pub type_: TokenType,
    pub lexeme: Seq<char>,
    pub literal: LiteralView,
    pub line: usize,
}

impl View for Token {
    type V = TokenView;

    open spec fn view(&self) -> TokenView {
        TokenView {
            type_: self.type_,
            lexeme: self.lexeme@,
            literal: self.literal@,
            line: self.line,
        }
    }
}

impl Clone for Token {
    fn clone(&self) -> (r: Self)
        ensures
            r == *self,
    {
        Token {
            type_: self.type_,
            lexeme: self.lexeme.clone(),
            literal: self.literal.clone(),
            line: self.line,
        }
    }
}

impl TokenView {
    /// The line that lists this token: its kind's name, its spelling, and its
    /// literal, or `null` where it has none.
    pub open spec fn text(self) -> Seq<char> {
        match self.type_ {
            TokenType::Identifier => "IDENTIFIER "@ + self.literal.string_part() + " null"@,
            TokenType::String => "STRING \""@ + self.literal.string_part() + "\" "@
                + self.literal.string_part(),
            TokenType::Number => "NUMBER "@ + self.literal.number_part() + " "@ + with_fraction(
                self.literal.number_part(),
            ),
            TokenType::Eof => "EOF  null"@,
            t => t.label() + " "@ + t.text() + " null"@,
        }
    }
}

impl Literal {
    /// The text of a string literal; empty for any other literal.
    pub fn string_text(&self) -> (s: &str)
        ensures
            s@ == self@.string_part(),
    {
        match self {
            Literal::String(t) => t.as_str(),
            _ => {
                let s = "";
                proof {
                    reveal_strlit("");
                }
                assert(s@ =~= Seq::<char>::empty());
                s
            },
        }
    }

    /// The numeral of a number literal; empty for any other literal.
    pub fn number_text(&self) -> (s: &str)
        ensures
            s@ == self@.number_part(),
    {
        match self {
            Literal::Number(n) => n.as_str(),
            _ => {
                let s = "";
                proof {
                    reveal_strlit("");
                }
                assert(s@ =~= Seq::<char>::empty());
                s
            },
        }
    }
}

impl Literal {
    /// Whether two literals have the same value.
    pub fn same(&self, other: &Literal) -> (r: bool)
        ensures
            r == (self@ == other@),
    {
        match (self, other) {
            (Literal::Number(a), Literal::Number(b)) => *a == *b,
            (Literal::String(a), Literal::String(b)) => *a == *b,
            (Literal::Bool(a), Literal::Bool(b)) => *a == *b,
            (Literal::Nil, Literal::Nil) => true,
            (Literal::NotExist, Literal::NotExist) => true,
            _ => false,
        }
    }
}

impl Token {
    /// Whether two tokens have the same value.
    pub fn same(&self, other: &Token) -> (r: bool)
        ensures
            r == (self@ == other@),
    {
        self.type_ == other.type_ && self.lexeme == other.lexeme && self.literal.same(
            &other.literal,
        ) && self.line == other.line
    }

    /// The line that lists this token.
    pub fn to_string(&self) -> (s: String)
        ensures
            s@ == self@.text(),
    {
        let mut s = String::new();
        match self.type_ {
            TokenType::Identifier => {
                s.append("IDENTIFIER ");
                s.append(self.literal.string_text());
                s.append(" null");
            },
            TokenType::String => {
                s.append("STRING \"");
                s.append(self.literal.string_text());
                s.append("\" ");
                s.append(self.literal.string_text());
            },
            TokenType::Number => {
                s.append("NUMBER ");
                s.append(self.literal.number_text());
                s.append(" ");
                push_with_fraction(&mut s, self.literal.number_text());
            },
            TokenType::Eof => s.append("EOF  null"),
            _ => {
                s.append(self.type_.name());
                s.append(" ");
                s.append(self.type_.symbol());
                s.append(" null");
            },
        }
        assert(s@ =~= self@.text());
        s
    }
}

} // verus!
