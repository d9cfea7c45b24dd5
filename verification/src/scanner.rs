//! The scanner: from source text to tokens.

use vstd::prelude::*;
use crate::stmt::tokens_view;
use crate::text::{chars_of, string_of};
use crate::token::{Literal, LiteralView, Token, TokenType, TokenView};
use crate::{diagnostics_view, Diagnostic, DiagnosticView, ErrorKind, Lox};

verus! {

/// One of the ten digits.
pub open spec fn is_digit(c: char) -> bool {
    '0' <= c && c <= '9'
}

/// A letter of the ASCII alphabet, or `_`.
pub open spec fn is_alpha(c: char) -> bool {
    ('a' <= c && c <= 'z') || ('A' <= c && c <= 'Z') || c == '_'
}

/// A letter of the ASCII alphabet, `_`, or a digit.
pub open spec fn is_alpha_numeric(c: char) -> bool {
    is_alpha(c) || is_digit(c)
}

/// Where the digits that begin at `pos` end.
pub open spec fn digits_end(src: Seq<char>, pos: int) -> int
    decreases src.len() - pos,
{
    if 0 <= pos < src.len() && is_digit(src[pos]) {
        digits_end(src, pos + 1)
    } else {
        pos
    }
}

/// Where the numeral that begins at `pos` ends: after its digits, and after
/// a point and more digits if a point and a digit follow them.
pub open spec fn number_end(src: Seq<char>, pos: int) -> int {
    let whole = digits_end(src, pos);
    if whole + 1 < src.len() && src[whole] == '.' && is_digit(src[whole + 1]) {
        digits_end(src, whole + 1)
    } else {
        whole
    }
}

/// Where the letters, digits and `_` that begin at `pos` end.
pub open spec fn word_end(src: Seq<char>, pos: int) -> int
    decreases src.len() - pos,
{
    if 0 <= pos < src.len() && is_alpha_numeric(src[pos]) {
        word_end(src, pos + 1)
    } else {
        pos
    }
}

/// The first line break at or after `pos`, or the end of the text.
pub open spec fn line_end(src: Seq<char>, pos: int) -> int
    decreases src.len() - pos,
{
    if 0 <= pos < src.len() && src[pos] != '\n' {
        line_end(src, pos + 1)
    } else {
        pos
    }
}

/// The first `"` at or after `pos`, or the end of the text.
pub open spec fn quote_at(src: Seq<char>, pos: int) -> int
    decreases src.len() - pos,
{
    if 0 <= pos < src.len() && src[pos] != '"' {
        quote_at(src, pos + 1)
    } else {
        pos
    }
}

/// The number of the line after `line`. The count stops at the largest
/// number a `usize` holds.
pub open spec fn next_line(line: usize) -> usize {
    if line < usize::MAX {
        (line + 1) as usize
    } else {
        line
    }
}

/// The line reached from `line` by going over `src[from..to]`.
pub open spec fn line_after(src: Seq<char>, from: int, to: int, line: usize) -> usize
    decreases to - from,
{
    if to <= from {
        line
    } else if src[to - 1] == '\n' {
        next_line(line_after(src, from, to - 1, line))
    } else {
        line_after(src, from, to - 1, line)
    }
}

/// The kind of the token that a word is: a keyword's own kind, or an
/// identifier.
pub open spec fn keyword(word: Seq<char>) -> TokenType {
    if word == "and"@ {
        TokenType::And
    } else if word == "class"@ {
        TokenType::Class
    } else if word == "else"@ {
        TokenType::Else
    } else if word == "false"@ {
        TokenType::False
    } else if word == "fun"@ {
        TokenType::Fun
    } else if word == "for"@ {
        TokenType::For
    } else if word == "if"@ {
        TokenType::If
    } else if word == "nil"@ {
        TokenType::Nil
    } else if word == "or"@ {
        TokenType::Or
    } else if word == "print"@ {
        TokenType::Print
    } else if word == "return"@ {
        TokenType::Return
    } else if word == "super"@ {
        TokenType::Super
    } else if word == "this"@ {
        TokenType::This
    } else if word == "true"@ {
        TokenType::True
    } else if word == "var"@ {
        TokenType::Var
    } else if word == "while"@ {
        TokenType::While
    } else {
        TokenType::Identifier
    }
}

/// What one round of scanning gives: a token or none, an error or none,
/// where the next round begins, and on which line.
pub struct Scanned {
    pub token: Option<TokenView>,
    pub error: Option<DiagnosticView>,
    pub next: int,
    pub line: usize,
}

/// The token of kind `type_` spelled by `src[start..end]`.
pub open spec fn token_at(
    src: Seq<char>,
    start: int,
    end: int,
    type_: TokenType,
    literal: LiteralView,
    line: usize,
) -> Scanned {
    Scanned {
        token: Some(TokenView { type_, lexeme: src.subrange(start, end), literal, line }),
        error: None,
        next: end,
        line,
    }
}

/// An operator of one character, or of two where `=` follows.
pub open spec fn operator_at(
    src: Seq<char>,
    start: int,
    alone: TokenType,
    with_equal: TokenType,
    line: usize,
) -> Scanned {
    if start + 1 < src.len() && src[start + 1] == '=' {
        token_at(src, start, start + 2, with_equal, LiteralView::NotExist, line)
    } else {
        token_at(src, start, start + 1, alone, LiteralView::NotExist, line)
    }
}

/// A lexical error on line `line`.
pub open spec fn lexical(line: usize, message: Seq<char>) -> DiagnosticView {
    DiagnosticView { kind: ErrorKind::Lexical, line, location: Seq::empty(), message }
}

/// One round of scanning at `start`, a place inside the text, on line `line`.
pub open spec fn scan_token(src: Seq<char>, start: int, line: usize) -> Scanned {
    let c = src[start];
    let none = LiteralView::NotExist;
    if c == '(' {
        token_at(src, start, start + 1, TokenType::LeftParen, none, line)
    } else if c == ')' {
        token_at(src, start, start + 1, TokenType::RightParen, none, line)
    } else if c == '{' {
        token_at(src, start, start + 1, TokenType::LeftBrace, none, line)
    } else if c == '}' {
        token_at(src, start, start + 1, TokenType::RightBrace, none, line)
    } else if c == ',' {
        token_at(src, start, start + 1, TokenType::Comma, none, line)
    } else if c == '.' {
        token_at(src, start, start + 1, TokenType::Dot, none, line)
    } else if c == '-' {
        token_at(src, start, start + 1, TokenType::Minus, none, line)
    } else if c == '+' {
        token_at(src, start, start + 1, TokenType::Plus, none, line)
    } else if c == ';' {
        token_at(src, start, start + 1, TokenType::Semicolon, none, line)
    } else if c == '*' {
        token_at(src, start, start + 1, TokenType::Star, none, line)
    } else if c == '!' {
        operator_at(src, start, TokenType::Bang, TokenType::BangEqual, line)
    } else if c == '=' {
        operator_at(src, start, TokenType::Equal, TokenType::EqualEqual, line)
    } else if c == '<' {
        operator_at(src, start, TokenType::Less, TokenType::LessEqual, line)
    } else if c == '>' {
        operator_at(src, start, TokenType::Greater, TokenType::GreaterEqual, line)
    } else if c == '/' {
        if start + 1 < src.len() && src[start + 1] == '/' {
            Scanned { token: None, error: None, next: line_end(src, start + 2), line }
        } else {
            token_at(src, start, start + 1, TokenType::Slash, none, line)
        }
    } else if c == ' ' || c == '\r' || c == '\t' {
        Scanned { token: None, error: None, next: start + 1, line }
    } else if c == '\n' {
        Scanned { token: None, error: None, next: start + 1, line: next_line(line) }
    } else if c == '"' {
        let end = quote_at(src, start + 1);
        let last = line_after(src, start + 1, end, line);
        if end >= src.len() {
            Scanned {
                token: None,
                error: Some(lexical(last, "Unterminated string."@)),
                next: end,
                line: last,
            }
        } else {
            token_at(
                src,
                start,
                end + 1,
                TokenType::String,
                LiteralView::String(src.subrange(start + 1, end)),
                last,
            )
        }
    } else if is_digit(c) {
        let end = number_end(src, start);
        token_at(
            src,
            start,
            end,
            TokenType::Number,
            LiteralView::Number(src.subrange(start, end)),
            line,
        )
    } else if is_alpha(c) {
        let end = word_end(src, start);
        let word = src.subrange(start, end);
        token_at(src, start, end, keyword(word), LiteralView::String(word), line)
    } else {
        Scanned {
            token: None,
            error: Some(lexical(line, "Unexpected character."@)),
            next: start + 1,
            line,
        }
    }
}

/// A sequence of one item, or of none.
pub open spec fn maybe<A>(item: Option<A>) -> Seq<A> {
    match item {
        Some(a) => seq![a],
        None => Seq::empty(),
    }
}

/// The token that ends every scan.
pub open spec fn eof(line: usize) -> TokenView {
    TokenView {
        type_: TokenType::Eof,
        lexeme: Seq::empty(),
        literal: LiteralView::Nil,
        line,
    }
}

/// The tokens and the errors that scanning gives from place `pos` on line
/// `line` to the end of the text.
pub open spec fn scan_from(src: Seq<char>, pos: int, line: usize) -> (
    Seq<TokenView>,
    Seq<DiagnosticView>,
)
    decreases src.len() - pos,
{
    if 0 <= pos < src.len() {
        let round = scan_token(src, pos, line);
        if pos < round.next <= src.len() {
            let rest = scan_from(src, round.next, round.line);
            (maybe(round.token) + rest.0, maybe(round.error) + rest.1)
        } else {
            (seq![eof(line)], Seq::empty())
        }
    } else {
        (seq![eof(line)], Seq::empty())
    }
}

/// The tokens of a source text, the last of which marks the end, and the
/// errors met on the way. An error ends no scan.
pub open spec fn scan(src: Seq<char>) -> (Seq<TokenView>, Seq<DiagnosticView>) {
    scan_from(src, 0, 1)
}

/// A run of characters ends at or after the place where it begins, and in
/// the text or at its end.
pub proof fn lemma_runs_end(src: Seq<char>, pos: int)
    requires
        0 <= pos <= src.len(),
    ensures
        pos <= digits_end(src, pos) <= src.len(),
        pos <= word_end(src, pos) <= src.len(),
        pos <= line_end(src, pos) <= src.len(),
        pos <= quote_at(src, pos) <= src.len(),
        pos <= number_end(src, pos) <= src.len(),
    decreases src.len() - pos,
{
    if pos < src.len() {
        lemma_runs_end(src, pos + 1);
    }
    let whole = digits_end(src, pos);
    lemma_digits_end(src, pos);
    if whole + 1 < src.len() {
        lemma_digits_end(src, whole + 1);
    }
}

proof fn lemma_digits_end(src: Seq<char>, pos: int)
    requires
        0 <= pos <= src.len(),
    ensures
        pos <= digits_end(src, pos) <= src.len(),
    decreases src.len() - pos,
{
    if pos < src.len() {
        lemma_digits_end(src, pos + 1);
    }
}

/// A round of scanning takes at least one character and stays in the text.
/// The token it gives, if any, is spelled by the characters that the round
/// took, is never the token that marks the end, and comes without an error.
pub proof fn lemma_round(src: Seq<char>, start: int, line: usize)
    requires
        0 <= start < src.len(),
    ensures
        start < scan_token(src, start, line).next <= src.len(),
        scan_token(src, start, line).token matches Some(t) ==> t.type_ != TokenType::Eof
            && t.lexeme == src.subrange(start, scan_token(src, start, line).next),
        scan_token(src, start, line).token is Some ==> scan_token(src, start, line).error is None,
{
    lemma_runs_end(src, start);
    lemma_runs_end(src, start + 1);
    if start + 2 <= src.len() {
        lemma_runs_end(src, start + 2);
    }
}

/// Going over a piece of text and then over the piece that follows it is
/// going over both.
pub proof fn lemma_line_after_joins(src: Seq<char>, from: int, mid: int, to: int, line: usize)
    requires
        from <= mid <= to,
    ensures
        line_after(src, mid, to, line_after(src, from, mid, line)) == line_after(
            src,
            from,
            to,
            line,
        ),
    decreases to - mid,
{
    if mid < to {
        lemma_line_after_joins(src, from, mid, to - 1, line);
    }
}

proof fn lemma_digits_hold_no_break(src: Seq<char>, pos: int, line: usize)
    requires
        0 <= pos <= src.len(),
    ensures
        line_after(src, pos, digits_end(src, pos), line) == line,
    decreases src.len() - pos,
{
    lemma_digits_end(src, pos);
    if pos < src.len() && is_digit(src[pos]) {
        lemma_digits_hold_no_break(src, pos + 1, line);
        lemma_digits_end(src, pos + 1);
        lemma_line_after_joins(src, pos, pos + 1, digits_end(src, pos), line);
        assert(line_after(src, pos, pos + 1, line) == line) by {
            assert(line_after(src, pos, pos, line) == line);
        }
    }
}

proof fn lemma_word_holds_no_break(src: Seq<char>, pos: int, line: usize)
    requires
        0 <= pos <= src.len(),
    ensures
        line_after(src, pos, word_end(src, pos), line) == line,
    decreases src.len() - pos,
{
    lemma_runs_end(src, pos);
    if pos < src.len() && is_alpha_numeric(src[pos]) {
        lemma_word_holds_no_break(src, pos + 1, line);
        lemma_runs_end(src, pos + 1);
        lemma_line_after_joins(src, pos, pos + 1, word_end(src, pos), line);
        assert(line_after(src, pos, pos + 1, line) == line) by {
            assert(line_after(src, pos, pos, line) == line);
        }
    }
}

proof fn lemma_comment_holds_no_break(src: Seq<char>, pos: int, line: usize)
    requires
        0 <= pos <= src.len(),
    ensures
        line_after(src, pos, line_end(src, pos), line) == line,
    decreases src.len() - pos,
{
    lemma_runs_end(src, pos);
    if pos < src.len() && src[pos] != '\n' {
        lemma_comment_holds_no_break(src, pos + 1, line);
        lemma_runs_end(src, pos + 1);
        lemma_line_after_joins(src, pos, pos + 1, line_end(src, pos), line);
        assert(line_after(src, pos, pos + 1, line) == line) by {
            assert(line_after(src, pos, pos, line) == line);
        }
    }
}

proof fn lemma_quote_is_found(src: Seq<char>, pos: int)
    requires
        0 <= pos <= src.len(),
    ensures
        quote_at(src, pos) < src.len() ==> src[quote_at(src, pos)] == '"',
    decreases src.len() - pos,
{
    if pos < src.len() && src[pos] != '"' {
        lemma_quote_is_found(src, pos + 1);
    }
}

/// A round of scanning counts the line breaks that it passes: the line on
/// which the next round begins is the line reached by going over what the
/// round took.
pub proof fn lemma_round_counts_lines(src: Seq<char>, start: int, line: usize)
    requires
        0 <= start < src.len(),
    ensures
        scan_token(src, start, line).line == line_after(
            src,
            start,
            scan_token(src, start, line).next,
            line,
        ),
{
    let c = src[start];
    let round = scan_token(src, start, line);
    lemma_round(src, start, line);
    assert(line_after(src, start, start, line) == line);
    assert(line_after(src, start, start + 1, line) == if c == '\n' {
        next_line(line)
    } else {
        line
    });
    if c == '/' && start + 1 < src.len() && src[start + 1] == '/' {
        lemma_comment_holds_no_break(src, start + 2, line);
        assert(line_after(src, start, start + 2, line) == line);
        lemma_runs_end(src, start + 2);
        lemma_line_after_joins(src, start, start + 2, round.next, line);
    } else if c == '"' {
        let end = quote_at(src, start + 1);
        lemma_runs_end(src, start + 1);
        lemma_line_after_joins(src, start, start + 1, end, line);
        lemma_quote_is_found(src, start + 1);
        if end < src.len() {
            assert(line_after(src, start, end + 1, line) == line_after(src, start, end, line));
        }
    } else if is_digit(c) {
        let whole = digits_end(src, start);
        lemma_digits_hold_no_break(src, start, line);
        lemma_digits_end(src, start);
        if whole + 1 < src.len() && src[whole] == '.' && is_digit(src[whole + 1]) {
            lemma_digits_hold_no_break(src, whole + 1, line);
            lemma_digits_end(src, whole + 1);
            assert(line_after(src, start, whole + 1, line) == line);
            lemma_line_after_joins(src, start, whole + 1, round.next, line);
        }
    } else if is_alpha(c) {
        lemma_word_holds_no_break(src, start, line);
    } else if (c == '!' || c == '=' || c == '<' || c == '>') && start + 1 < src.len()
        && src[start + 1] == '=' {
        assert(line_after(src, start, start + 2, line) == line);
    }
}

/// The line of the token that marks the end is the line reached by going
/// over the whole text: the first line, and one more for each line break.
pub proof fn lemma_scan_counts_lines(src: Seq<char>, pos: int, line: usize)
    requires
        0 <= pos <= src.len(),
    ensures
        scan_from(src, pos, line).0.last().line == line_after(src, pos, src.len() as int, line),
    decreases src.len() - pos,
{
    if pos < src.len() {
        let round = scan_token(src, pos, line);
        lemma_round(src, pos, line);
        lemma_round_counts_lines(src, pos, line);
        lemma_scan_counts_lines(src, round.next, round.line);
        lemma_scan_ends(src, round.next, round.line);
        lemma_line_after_joins(src, pos, round.next, src.len() as int, line);
        let rest = scan_from(src, round.next, round.line);
        assert(scan_from(src, pos, line).0 =~= maybe(round.token) + rest.0);
    } else {
        assert(line_after(src, pos, src.len() as int, line) == line);
    }
}

/// Every scan ends with the token that marks the end, and holds no other
/// such token.
pub proof fn lemma_scan_ends(src: Seq<char>, pos: int, line: usize)
    ensures
        scan_from(src, pos, line).0.len() >= 1,
        scan_from(src, pos, line).0.last().type_ == TokenType::Eof,
        forall|i: int|
            0 <= i < scan_from(src, pos, line).0.len() - 1 ==> (#[trigger] scan_from(
                src,
                pos,
                line,
            ).0[i]).type_ != TokenType::Eof,
    decreases src.len() - pos,
{
    if 0 <= pos < src.len() {
        let round = scan_token(src, pos, line);
        lemma_round(src, pos, line);
        lemma_scan_ends(src, round.next, round.line);
        let rest = scan_from(src, round.next, round.line);
        let all = scan_from(src, pos, line).0;
        assert(all =~= maybe(round.token) + rest.0);
        assert forall|i: int| 0 <= i < all.len() - 1 implies (#[trigger] all[i]).type_
            != TokenType::Eof by {
            if round.token is Some {
                if i > 0 {
                    assert(all[i] == rest.0[i - 1]);
                }
            } else {
                assert(all[i] == rest.0[i]);
            }
        }
    }
}

/// A scanner: the text, the tokens and errors found so far, and the place
/// and line that scanning has reached.
pub struct Scanner {
    source: Vec<char>,
    tokens: Vec<Token>,
    errors: Vec<Diagnostic>,
    start: usize,
    current: usize,
    line: usize,
}

/// Whether the word `word` is spelled by `text`.
fn spells(text: &String, word: &str) -> (r: bool)
    ensures
        r == (text@ == word@),
{
    let s = text.as_str();
    let n = s.unicode_len();
    if n != word.unicode_len() {
        return false;
    }
    let mut i: usize = 0;
    while i < n
        invariant
            i <= n,
            n == s@.len(),
            n == word@.len(),
            s@ == text@,
            s@.take(i as int) == word@.take(i as int),
        decreases n - i,
    {
        if s.get_char(i) != word.get_char(i) {
            assert(s@[i as int] != word@[i as int]);
            return false;
        }
        assert(s@.take(i + 1) =~= s@.take(i as int).push(s@[i as int]));
        assert(word@.take(i + 1) =~= word@.take(i as int).push(word@[i as int]));
        i += 1;
    }
    assert(s@ =~= s@.take(n as int));
    assert(word@ =~= word@.take(n as int));
    true
}

impl Scanner {
    /// The text being scanned.
    pub closed spec fn source(&self) -> Seq<char> {
        self.source@
    }

    /// The tokens found so far.
    pub closed spec fn tokens(&self) -> Seq<TokenView> {
        tokens_view(self.tokens@)
    }

    /// The errors found so far.
    pub closed spec fn errors(&self) -> Seq<DiagnosticView> {
        diagnostics_view(self.errors@)
    }

    /// The place in the text where the next round begins.
    pub closed spec fn position(&self) -> int {
        self.current as int
    }

    /// The line on which the next round begins.
    pub closed spec fn line(&self) -> usize {
        self.line
    }

    /// The token under way begins before the place that scanning has reached,
    /// which is in the text or at its end.
    pub closed spec fn wf(&self) -> bool {
        self.start <= self.current <= self.source.len()
    }

    /// The state after a round that began with `before` and gave `round`.
    spec fn after(&self, before: &Scanner, round: Scanned) -> bool {
        &&& self.source == before.source
        &&& self.start == before.start
        &&& self.current == round.next
        &&& self.line == round.line
        &&& self.tokens() == before.tokens() + maybe(round.token)
        &&& self.errors() == before.errors() + maybe(round.error)
    }

    /// A scanner at the beginning of `source`, on line 1.
    pub fn new(source: String) -> (r: Self)
        ensures
            r.wf(),
            r.source() == source@,
            r.tokens() == Seq::<TokenView>::empty(),
            r.errors() == Seq::<DiagnosticView>::empty(),
            r.position() == 0,
            r.line() == 1,
    {
        let r = Scanner {
            source: chars_of(source.as_str()),
            tokens: Vec::new(),
            errors: Vec::new(),
            start: 0,
            current: 0,
            line: 1,
        };
        assert(r.tokens() =~= Seq::<TokenView>::empty());
        assert(r.errors() =~= Seq::<DiagnosticView>::empty());
        r
    }

    /// Scans the rest of the text. The tokens found are added to those found
    /// before, then the token that marks the end; the errors likewise.
    pub fn scan_tokens(&mut self) -> (r: &Vec<Token>)
        requires
            old(self).wf(),
        ensures
            final(self).wf(),
            final(self).source() == old(self).source(),
            final(self).tokens() == old(self).tokens() + scan_from(
                old(self).source(),
                old(self).position(),
                old(self).line(),
            ).0,
            final(self).errors() == old(self).errors() + scan_from(
                old(self).source(),
                old(self).position(),
                old(self).line(),
            ).1,
            final(self).position() == final(self).source().len(),
            tokens_view(r@) == final(self).tokens(),
            r.len() > 0,
            r[r.len() - 1].type_ == TokenType::Eof,
    {
        let ghost all = scan_from(self.source@, self.current as int, self.line);
        while !self.is_at_end()
            invariant
                self.wf(),
                self.source == old(self).source,
                old(self).tokens() + all.0 == self.tokens() + scan_from(
                    self.source@,
                    self.current as int,
                    self.line,
                ).0,
                old(self).errors() + all.1 == self.errors() + scan_from(
                    self.source@,
                    self.current as int,
                    self.line,
                ).1,
            decreases self.source.len() - self.current,
        {
            self.start = self.current;
            let ghost before = *self;
            let ghost round = scan_token(self.source@, self.current as int, self.line);
            let ghost rest = scan_from(self.source@, round.next, round.line);
            self.scan_token();
            assert(self.tokens() + rest.0 =~= before.tokens() + (maybe(round.token) + rest.0));
            assert(self.errors() + rest.1 =~= before.errors() + (maybe(round.error) + rest.1));
        }
        let end = Token {
            type_: TokenType::Eof,
            lexeme: String::new(),
            literal: Literal::Nil,
            line: self.line,
        };
        assert(end@ == eof(self.line));
        let ghost before = self.tokens();
        self.tokens.push(end);
        assert(self.tokens() =~= before + seq![eof(self.line)]);
        &self.tokens
    }

    /// The errors found so far.
    pub fn diagnostics(&self) -> (r: &Vec<Diagnostic>)
        ensures
            diagnostics_view(r@) == self.errors(),
    {
        &self.errors
    }

    fn scan_token(&mut self)
        requires
            old(self).wf(),
            old(self).start == old(self).current,
            old(self).current < old(self).source.len(),
        ensures
            final(self).wf(),
            final(self).current > old(self).current,
            final(self).after(
                old(self),
                scan_token(old(self).source@, old(self).current as int, old(self).line),
            ),
    {
        let c = self.advance();
        if c == '(' {
            self.add_token_default(TokenType::LeftParen);
        } else if c == ')' {
            self.add_token_default(TokenType::RightParen);
        } else if c == '{' {
            self.add_token_default(TokenType::LeftBrace);
        } else if c == '}' {
            self.add_token_default(TokenType::RightBrace);
        } else if c == ',' {
            self.add_token_default(TokenType::Comma);
        } else if c == '.' {
            self.add_token_default(TokenType::Dot);
        } else if c == '-' {
            self.add_token_default(TokenType::Minus);
        } else if c == '+' {
            self.add_token_default(TokenType::Plus);
        } else if c == ';' {
            self.add_token_default(TokenType::Semicolon);
        } else if c == '*' {
            self.add_token_default(TokenType::Star);
        } else if c == '!' {
            if self.match_('=') {
                self.add_token_default(TokenType::BangEqual);
            } else {
                self.add_token_default(TokenType::Bang);
            }
        } else if c == '=' {
            if self.match_('=') {
                self.add_token_default(TokenType::EqualEqual);
            } else {
                self.add_token_default(TokenType::Equal);
            }
        } else if c == '<' {
            if self.match_('=') {
                self.add_token_default(TokenType::LessEqual);
            } else {
                self.add_token_default(TokenType::Less);
            }
        } else if c == '>' {
            if self.match_('=') {
                self.add_token_default(TokenType::GreaterEqual);
            } else {
                self.add_token_default(TokenType::Greater);
            }
        } else if c == '/' {
            if self.match_('/') {
                while self.peek() != '\n' && !self.is_at_end()
                    invariant
                        self.wf(),
                        self.source == old(self).source,
                        self.start == old(self).start,
                        self.line == old(self).line,
                        self.tokens == old(self).tokens,
                        self.errors == old(self).errors,
                        self.current >= old(self).current + 2,
                        line_end(self.source@, self.current as int) == line_end(
                            self.source@,
                            old(self).current + 2,
                        ),
                    decreases self.source.len() - self.current,
                {
                    self.advance();
                }
                assert(self.tokens() =~= old(self).tokens() + maybe::<TokenView>(None));
                assert(self.errors() =~= old(self).errors() + maybe::<DiagnosticView>(None));
            } else {
                self.add_token_default(TokenType::Slash);
            }
        } else if c == ' ' || c == '\r' || c == '\t' {
            assert(self.tokens() =~= old(self).tokens() + maybe::<TokenView>(None));
            assert(self.errors() =~= old(self).errors() + maybe::<DiagnosticView>(None));
        } else if c == '\n' {
            if self.line < usize::MAX {
                self.line += 1;
            }
            assert(self.tokens() =~= old(self).tokens() + maybe::<TokenView>(None));
            assert(self.errors() =~= old(self).errors() + maybe::<DiagnosticView>(None));
        } else if c == '"' {
            self.string();
        } else if c >= '0' && c <= '9' {
            self.number();
        } else if self.is_alpha(c) {
            self.identifier();
        } else {
            self.report("Unexpected character.");
            assert(self.tokens() =~= old(self).tokens() + maybe::<TokenView>(None));
        }
    }

    /// Adds a lexical error on the line that scanning has reached.
    fn report(&mut self, message: &str)
        ensures
            final(self).source == old(self).source,
            final(self).start == old(self).start,
            final(self).current == old(self).current,
            final(self).line == old(self).line,
            final(self).tokens == old(self).tokens,
            final(self).errors() == old(self).errors() + maybe(
                Some(lexical(old(self).line, message@)),
            ),
    {
        let ghost before = self.errors();
        let d = Lox::error(self.line, message);
        self.errors.push(d);
        assert(self.errors() =~= before + maybe(Some(lexical(old(self).line, message@))));
    }

    /// A word: after its first character, which is taken already, its
    /// letters, digits and `_`.
    fn identifier(&mut self)
        requires
            old(self).wf(),
            old(self).current == old(self).start + 1,
            is_alpha(old(self).source[old(self).start as int]),
        ensures
            final(self).wf(),
            final(self).current > old(self).start,
            final(self).after(
                old(self),
                token_at(
                    old(self).source@,
                    old(self).start as int,
                    word_end(old(self).source@, old(self).start as int),
                    keyword(
                        old(self).source@.subrange(
                            old(self).start as int,
                            word_end(old(self).source@, old(self).start as int),
                        ),
                    ),
                    LiteralView::String(
                        old(self).source@.subrange(
                            old(self).start as int,
                            word_end(old(self).source@, old(self).start as int),
                        ),
                    ),
                    old(self).line,
                ),
            ),
    {
        while self.is_alpha_numeric(self.peek())
            invariant
                self.wf(),
                self.source == old(self).source,
                self.start == old(self).start,
                self.line == old(self).line,
                self.tokens == old(self).tokens,
                self.errors == old(self).errors,
                self.current > self.start,
                word_end(self.source@, self.current as int) == word_end(
                    self.source@,
                    self.start as int,
                ),
            decreases self.source.len() - self.current,
        {
            self.advance();
        }
        let text = string_of(&self.source, self.start, self.current);
        let token = if spells(&text, "and") {
            TokenType::And
        } else if spells(&text, "class") {
            TokenType::Class
        } else if spells(&text, "else") {
            TokenType::Else
        } else if spells(&text, "false") {
            TokenType::False
        } else if spells(&text, "fun") {
            TokenType::Fun
        } else if spells(&text, "for") {
            TokenType::For
        } else if spells(&text, "if") {
            TokenType::If
        } else if spells(&text, "nil") {
            TokenType::Nil
        } else if spells(&text, "or") {
            TokenType::Or
        } else if spells(&text, "print") {
            TokenType::Print
        } else if spells(&text, "return") {
            TokenType::Return
        } else if spells(&text, "super") {
            TokenType::Super
        } else if spells(&text, "this") {
            TokenType::This
        } else if spells(&text, "true") {
            TokenType::True
        } else if spells(&text, "var") {
            TokenType::Var
        } else if spells(&text, "while") {
            TokenType::While
        } else {
            TokenType::Identifier
        };
        self.add_token(token, Literal::String(text));
    }

    /// A string: after its opening quote, which is taken already, all up to
    /// the closing quote. Line breaks inside it count.
    fn string(&mut self)
        requires
            old(self).wf(),
            old(self).current == old(self).start + 1,
            old(self).source[old(self).start as int] == '"',
        ensures
            final(self).wf(),
            final(self).current > old(self).start,
            final(self).after(
                old(self),
                scan_token(old(self).source@, old(self).start as int, old(self).line),
            ),
    {
        while self.peek() != '"' && !self.is_at_end()
            invariant
                self.wf(),
                self.source == old(self).source,
                self.start == old(self).start,
                self.tokens == old(self).tokens,
                self.errors == old(self).errors,
                self.current > self.start,
                quote_at(self.source@, self.current as int) == quote_at(
                    self.source@,
                    self.start + 1,
                ),
                self.line == line_after(
                    self.source@,
                    self.start + 1,
                    self.current as int,
                    old(self).line,
                ),
            decreases self.source.len() - self.current,
        {
            if self.peek() == '\n' {
                if self.line < usize::MAX {
                    self.line += 1;
                }
            }
            self.advance();
        }

        if self.is_at_end() {
            self.report("Unterminated string.");
            assert(self.tokens() =~= old(self).tokens() + maybe::<TokenView>(None));
            return ;
        }
        // The closing quote.

        self.advance();

        // The value is the text between the quotes.
        let value = string_of(&self.source, self.start + 1, self.current - 1);
        self.add_token(TokenType::String, Literal::String(value));
    }

    /// Takes the next character if it is `expected`.
    fn match_(&mut self, expected: char) -> (r: bool)
        requires
            old(self).wf(),
        ensures
            final(self).wf(),
            final(self).source == old(self).source,
            final(self).start == old(self).start,
            final(self).line == old(self).line,
            final(self).tokens == old(self).tokens,
            final(self).errors == old(self).errors,
            r == (old(self).current < old(self).source.len() && old(self).source[old(
                self,
            ).current as int] == expected),
            final(self).current == if r {
                old(self).current + 1
            } else {
                old(self).current as int
            },
    {
        if self.is_at_end() {
            return false;
        }
        if self.source[self.current] != expected {
            return false;
        }
        self.current += 1;
        true
    }

    /// The next character, or `'\0'` at the end of the text.
    fn peek(&self) -> (c: char)
        requires
            self.wf(),
        ensures
            c == if self.current < self.source.len() {
                self.source[self.current as int]
            } else {
                '\0'
            },
    {
        if self.is_at_end() {
            '\0'
        } else {
            self.source[self.current]
        }
    }

    /// The character after the next, or `'\0'` where the text has none.
    fn peek_next(&self) -> (c: char)
        requires
            self.wf(),
        ensures
            c == if self.current + 1 < self.source.len() {
                self.source[self.current + 1]
            } else {
                '\0'
            },
    {
        if self.current >= self.source.len() || self.current + 1 >= self.source.len() {
            '\0'
        } else {
            self.source[self.current + 1]
        }
    }

    fn is_alpha(&self, c: char) -> (r: bool)
        ensures
            r == is_alpha(c),
    {
        (c >= 'a' && c <= 'z') || (c >= 'A' && c <= 'Z') || c == '_'
    }

    fn is_alpha_numeric(&self, c: char) -> (r: bool)
        ensures
            r == is_alpha_numeric(c),
    {
        self.is_alpha(c) || (c >= '0' && c <= '9')
    }

    /// A numeral: after its first digit, which is taken already, the other
    /// digits, then a point and digits where a digit follows the point.
    fn number(&mut self)
        requires
            old(self).wf(),
            old(self).current == old(self).start + 1,
            is_digit(old(self).source[old(self).start as int]),
        ensures
            final(self).wf(),
            final(self).current > old(self).start,
            final(self).after(
                old(self),
                scan_token(old(self).source@, old(self).start as int, old(self).line),
            ),
    {
        while is_digit_char(self.peek())
            invariant
                self.wf(),
                self.source == old(self).source,
                self.start == old(self).start,
                self.line == old(self).line,
                self.tokens == old(self).tokens,
                self.errors == old(self).errors,
                self.current > self.start,
                digits_end(self.source@, self.current as int) == digits_end(
                    self.source@,
                    self.start as int,
                ),
            decreases self.source.len() - self.current,
        {
            self.advance();
        }
        // Look for a fractional part.
        if self.peek() == '.' && is_digit_char(self.peek_next()) {
            // Take the point.
            self.advance();
            let ghost point = self.current;
            while is_digit_char(self.peek())
                invariant
                    self.wf(),
                    self.source == old(self).source,
                    self.start == old(self).start,
                    self.line == old(self).line,
                    self.tokens == old(self).tokens,
                    self.errors == old(self).errors,
                    self.current >= point > self.start,
                    digits_end(self.source@, self.current as int) == digits_end(
                        self.source@,
                        point as int,
                    ),
                decreases self.source.len() - self.current,
            {
                self.advance();
            }
        }
        let value = string_of(&self.source, self.start, self.current);
        self.add_token(TokenType::Number, Literal::Number(value));
    }

    /// Takes the next character.
    fn advance(&mut self) -> (c: char)
        requires
            old(self).wf(),
            old(self).current < old(self).source.len(),
        ensures
            final(self).wf(),
            final(self).source == old(self).source,
            final(self).start == old(self).start,
            final(self).line == old(self).line,
            final(self).tokens == old(self).tokens,
            final(self).errors == old(self).errors,
            final(self).current == old(self).current + 1,
            c == old(self).source[old(self).current as int],
    {
        let c = self.source[self.current];
        self.current += 1;
        c
    }

    /// Adds the token of kind `token` whose text is what was taken since the
    /// round began.
    fn add_token(&mut self, token: TokenType, literal: Literal)
        requires
            old(self).wf(),
        ensures
            final(self).wf(),
            final(self).after(
                &(Scanner { current: old(self).start, ..*old(self) }),
                token_at(
                    old(self).source@,
                    old(self).start as int,
                    old(self).current as int,
                    token,
                    literal@,
                    old(self).line,
                ),
            ),
    {
        let ghost before = self.tokens();
        let text = string_of(&self.source, self.start, self.current);
        let t = Token { type_: token, lexeme: text, literal, line: self.line };
        self.tokens.push(t);
        assert(self.tokens() =~= before + maybe(Some(t@)));
        assert(self.errors() =~= old(self).errors() + maybe::<DiagnosticView>(None));
    }

    fn add_token_default(&mut self, token: TokenType)
        requires
            old(self).wf(),
        ensures
            final(self).wf(),
            final(self).after(
                &(Scanner { current: old(self).start, ..*old(self) }),
                token_at(
                    old(self).source@,
                    old(self).start as int,
                    old(self).current as int,
                    token,
                    LiteralView::NotExist,
                    old(self).line,
                ),
            ),
    {
        self.add_token(token, Literal::NotExist);
    }

    fn is_at_end(&self) -> (r: bool)
        ensures
            r == (self.current >= self.source.len()),
    {
        self.current >= self.source.len()
    }
}

fn is_digit_char(c: char) -> (r: bool)
    ensures
        r == is_digit(c),
{
    c >= '0' && c <= '9'
}

} // verus!
