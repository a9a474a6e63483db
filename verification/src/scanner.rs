//! The lexer: source text to tokens.
//!
//! The grammar of tokens is stated by [`piece_end`] and [`piece_kind`],
//! which say where the piece of text that starts at a position ends and
//! what it is. [`scan_from`] strings the pieces together, and
//! [`Scanner::scan_tokens`] is proved to produce exactly that.

use vstd::prelude::*;
use crate::tokens::{Span, Token, TokenType};

verus! {

/// What the lexer can object to.
#[derive(Clone, Copy, Debug, PartialEq, Eq, Structural)]
pub enum ScanError {
    UnexpectedCharacter,
    UnterminatedString,
}

impl ScanError {
    /// The text of the complaint.
    pub open spec fn message_text(self) -> Seq<char> {
        match self {
            ScanError::UnexpectedCharacter => "Unexpected character."@,
            ScanError::UnterminatedString => "Unterminated string."@,
        }
    }

    /// The text of the complaint.
    pub fn message(&self) -> (msg: &'static str)
        ensures
            msg@ == self.message_text(),
    {
        match self {
            ScanError::UnexpectedCharacter => "Unexpected character.",
            ScanError::UnterminatedString => "Unterminated string.",
        }
    }
}

/// A lexical error and the line it was met on.
#[derive(Clone, Copy, Debug, PartialEq, Eq, Structural)]
pub struct ScanDiagnostic {
    pub line: usize,
    pub error: ScanError,
}

/// What a piece of source text turns out to be.
#[derive(Clone, Copy, Debug, PartialEq, Eq, Structural)]
pub enum Piece {
    /// A token of the given kind.
    Token(TokenType),
    /// White space or a comment.
    Blank,
    /// Something to report.
    Error(ScanError),
}

/// The outcome of lexing: the tokens and the errors, each in source order.
pub struct Lexed {
    pub tokens: Seq<Token>,
    pub errors: Seq<ScanDiagnostic>,
}

pub open spec fn is_digit(c: char) -> bool {
    '0' <= c && c <= '9'
}

pub open spec fn is_alpha(c: char) -> bool {
    ('a' <= c && c <= 'z') || ('A' <= c && c <= 'Z') || c == '_'
}

pub open spec fn is_alphanumeric(c: char) -> bool {
    is_alpha(c) || is_digit(c)
}

/// The character at `pos`, or NUL past the end.
pub open spec fn char_at(s: Seq<char>, pos: int) -> char {
    if 0 <= pos < s.len() {
        s[pos]
    } else {
        '\0'
    }
}

/// The first position at or after `pos` that holds no digit.
pub open spec fn digits_end(s: Seq<char>, pos: int) -> int
    decreases s.len() - pos,
{
    if 0 <= pos < s.len() && is_digit(s[pos]) {
        digits_end(s, pos + 1)
    } else {
        pos
    }
}

/// The first position at or after `pos` that holds no letter, digit or
/// underscore.
pub open spec fn word_end(s: Seq<char>, pos: int) -> int
    decreases s.len() - pos,
{
    if 0 <= pos < s.len() && is_alphanumeric(s[pos]) {
        word_end(s, pos + 1)
    } else {
        pos
    }
}

/// The first position at or after `pos` that holds `stop`, or the length
/// of the text when there is none.
pub open spec fn find_char(s: Seq<char>, pos: int, stop: char) -> int
    decreases s.len() - pos,
{
    if 0 <= pos < s.len() && s[pos] != stop {
        find_char(s, pos + 1, stop)
    } else {
        pos
    }
}

/// How many line feeds stand in `from..to`.
pub open spec fn newlines(s: Seq<char>, from: int, to: int) -> int
    decreases to - from,
{
    if from < to {
        newlines(s, from, to - 1) + if char_at(s, to - 1) == '\n' {
            1int
        } else {
            0int
        }
    } else {
        0
    }
}

/// Where a number that starts at `pos` ends: digits, then optionally a
/// point that a digit follows and more digits.
pub open spec fn number_end(s: Seq<char>, pos: int) -> int {
    let whole = digits_end(s, pos);
    if char_at(s, whole) == '.' && is_digit(char_at(s, whole + 1)) {
        digits_end(s, whole + 1)
    } else {
        whole
    }
}

/// The keyword that `text` spells, if any.
pub open spec fn keyword(text: Seq<char>) -> Option<TokenType> {
    if text == "and"@ {
        Some(TokenType::And)
    } else if text == "break"@ {
        Some(TokenType::Break)
    } else if text == "class"@ {
        Some(TokenType::Class)
    } else if text == "else"@ {
        Some(TokenType::Else)
    } else if text == "false"@ {
        Some(TokenType::False)
    } else if text == "for"@ {
        Some(TokenType::For)
    } else if text == "fun"@ {
        Some(TokenType::Fun)
    } else if text == "if"@ {
        Some(TokenType::If)
    } else if text == "nil"@ {
        Some(TokenType::Nil)
    } else if text == "or"@ {
        Some(TokenType::Or)
    } else if text == "print"@ {
        Some(TokenType::Print)
    } else if text == "return"@ {
        Some(TokenType::Return)
    } else if text == "super"@ {
        Some(TokenType::Super)
    } else if text == "this"@ {
        Some(TokenType::This)
    } else if text == "true"@ {
        Some(TokenType::True)
    } else if text == "var"@ {
        Some(TokenType::Var)
    } else if text == "while"@ {
        Some(TokenType::While)
    } else {
        None
    }
}

/// The kind of the word `start..end`: a keyword's own kind, or an
/// identifier.
pub open spec fn word_kind(s: Seq<char>, start: int, end: int) -> TokenType {
    match keyword(s.subrange(start, end)) {
        Some(kind) => kind,
        None => TokenType::Identifier,
    }
}

/// Where the piece of text that starts at `pos` ends.
pub open spec fn piece_end(s: Seq<char>, pos: int) -> int
    recommends
        0 <= pos < s.len(),
{
    let c = s[pos];
    if c == '!' || c == '=' || c == '<' || c == '>' {
        if char_at(s, pos + 1) == '=' && pos + 1 < s.len() {
            pos + 2
        } else {
            pos + 1
        }
    } else if c == '/' {
        if char_at(s, pos + 1) == '/' && pos + 1 < s.len() {
            find_char(s, pos + 2, '\n')
        } else {
            pos + 1
        }
    } else if c == '"' {
        let quote = find_char(s, pos + 1, '"');
        if quote < s.len() {
            quote + 1
        } else {
            quote
        }
    } else if is_digit(c) {
        number_end(s, pos)
    } else if is_alpha(c) {
        word_end(s, pos)
    } else {
        pos + 1
    }
}

/// What the piece of text that starts at `pos` is.
pub open spec fn piece_kind(s: Seq<char>, pos: int) -> Piece
    recommends
        0 <= pos < s.len(),
{
    let c = s[pos];
    let twin = char_at(s, pos + 1) == '=' && pos + 1 < s.len();
    if c == '(' {
        Piece::Token(TokenType::LeftParen)
    } else if c == ')' {
        Piece::Token(TokenType::RightParen)
    } else if c == '{' {
        Piece::Token(TokenType::LeftBrace)
    } else if c == '}' {
        Piece::Token(TokenType::RightBrace)
    } else if c == ',' {
        Piece::Token(TokenType::Comma)
    } else if c == '.' {
        Piece::Token(TokenType::Dot)
    } else if c == '-' {
        Piece::Token(TokenType::Minus)
    } else if c == '+' {
        Piece::Token(TokenType::Plus)
    } else if c == ';' {
        Piece::Token(TokenType::Semicolon)
    } else if c == '*' {
        Piece::Token(TokenType::Star)
    } else if c == '!' {
        Piece::Token(if twin { TokenType::BangEqual } else { TokenType::Bang })
    } else if c == '=' {
        Piece::Token(if twin { TokenType::EqualEqual } else { TokenType::Equal })
    } else if c == '<' {
        Piece::Token(if twin { TokenType::LessEqual } else { TokenType::Less })
    } else if c == '>' {
        Piece::Token(if twin { TokenType::GreaterEqual } else { TokenType::Greater })
    } else if c == '/' {
        if char_at(s, pos + 1) == '/' && pos + 1 < s.len() {
            Piece::Blank
        } else {
            Piece::Token(TokenType::Slash)
        }
    } else if c == '"' {
        if find_char(s, pos + 1, '"') < s.len() {
            Piece::Token(TokenType::String)
        } else {
            Piece::Error(ScanError::UnterminatedString)
        }
    } else if c == '\n' || c == ' ' || c == '\r' || c == '\t' {
        Piece::Blank
    } else if is_digit(c) {
        Piece::Token(TokenType::Number)
    } else if is_alpha(c) {
        Piece::Token(word_kind(s, pos, word_end(s, pos)))
    } else {
        Piece::Error(ScanError::UnexpectedCharacter)
    }
}

/// The line counter after `count` more line feeds. It stops at the
/// largest number the machine holds.
pub open spec fn line_after(line: usize, count: int) -> usize {
    if line + count <= usize::MAX {
        (line + count) as usize
    } else {
        usize::MAX
    }
}

/// The token that closes every token sequence.
pub open spec fn eof_token(pos: int, line: usize) -> Token {
    Token { token_type: TokenType::Eof, lexeme: Span { start: pos as usize, end: pos as usize }, line }
}

pub proof fn lemma_digits_end_bounds(s: Seq<char>, pos: int)
    requires
        0 <= pos <= s.len(),
    ensures
        pos <= digits_end(s, pos) <= s.len(),
    decreases s.len() - pos,
{
    if pos < s.len() && is_digit(s[pos]) {
        lemma_digits_end_bounds(s, pos + 1);
    }
}

pub proof fn lemma_word_end_bounds(s: Seq<char>, pos: int)
    requires
        0 <= pos <= s.len(),
    ensures
        pos <= word_end(s, pos) <= s.len(),
    decreases s.len() - pos,
{
    if pos < s.len() && is_alphanumeric(s[pos]) {
        lemma_word_end_bounds(s, pos + 1);
    }
}

pub proof fn lemma_find_char_bounds(s: Seq<char>, pos: int, stop: char)
    requires
        0 <= pos <= s.len(),
    ensures
        pos <= find_char(s, pos, stop) <= s.len(),
    decreases s.len() - pos,
{
    if pos < s.len() && s[pos] != stop {
        lemma_find_char_bounds(s, pos + 1, stop);
    }
}

pub proof fn lemma_newlines_bounds(s: Seq<char>, from: int, to: int)
    ensures
        0 <= newlines(s, from, to),
        from <= to ==> newlines(s, from, to) <= to - from,
    decreases to - from,
{
    if from < to {
        lemma_newlines_bounds(s, from, to - 1);
    }
}

/// Every piece holds at least one character and ends inside the text.
pub proof fn lemma_piece_advances(s: Seq<char>, pos: int)
    requires
        0 <= pos < s.len(),
    ensures
        pos < piece_end(s, pos) <= s.len(),
{
    lemma_find_char_bounds(s, pos + 1, '"');
    if pos + 2 <= s.len() {
        lemma_find_char_bounds(s, pos + 2, '\n');
    }
    lemma_word_end_bounds(s, pos + 1);
    lemma_digits_end_bounds(s, pos + 1);
    let whole = digits_end(s, pos);
    if is_digit(s[pos]) {
        assert(whole == digits_end(s, pos + 1));
        if whole + 1 < s.len() {
            lemma_digits_end_bounds(s, whole + 1);
        }
    }
}

/// The tokens and errors of the text from `pos` on, when the line counter
/// stands at `line`. The token sequence ends with the end-of-file token.
pub open spec fn scan_from(s: Seq<char>, pos: int, line: usize) -> Lexed
    decreases s.len() - pos,
{
    if 0 <= pos < s.len() {
        let end = piece_end(s, pos);
        let here = line_after(line, newlines(s, pos, end));
        proof {
            lemma_piece_advances(s, pos);
        }
        let rest = scan_from(s, end, here);
        match piece_kind(s, pos) {
            Piece::Token(token_type) => Lexed {
                tokens: seq![
                    Token {
                        token_type,
                        lexeme: Span { start: pos as usize, end: end as usize },
                        line: here,
                    },
                ] + rest.tokens,
                errors: rest.errors,
            },
            Piece::Blank => rest,
            Piece::Error(error) => Lexed {
                tokens: rest.tokens,
                errors: seq![ScanDiagnostic { line: here, error }] + rest.errors,
            },
        }
    } else {
        Lexed { tokens: seq![eof_token(pos, line)], errors: Seq::empty() }
    }
}

/// The tokens of a text are never empty: the end-of-file token closes
/// them.
pub proof fn lemma_scan_ends(s: Seq<char>, pos: int, line: usize)
    ensures
        scan_from(s, pos, line).tokens.len() > 0,
        scan_from(s, pos, line).tokens.last().token_type == TokenType::Eof,
    decreases s.len() - pos,
{
    if 0 <= pos < s.len() {
        lemma_piece_advances(s, pos);
        let end = piece_end(s, pos);
        let here = line_after(line, newlines(s, pos, end));
        lemma_scan_ends(s, end, here);
    }
}

/// Every token of a text stands inside the text, at or after the
/// position the scan started from.
pub proof fn lemma_tokens_fit(s: Seq<char>, pos: int, line: usize)
    requires
        0 <= pos <= s.len(),
        s.len() <= usize::MAX,
    ensures
        forall|k: int|
            0 <= k < scan_from(s, pos, line).tokens.len() ==> {
                &&& pos <= (#[trigger] scan_from(s, pos, line).tokens[k]).lexeme.start
                &&& scan_from(s, pos, line).tokens[k].lexeme.fits(s.len())
            },
    decreases s.len() - pos,
{
    if pos < s.len() {
        lemma_piece_advances(s, pos);
        let end = piece_end(s, pos);
        let here = line_after(line, newlines(s, pos, end));
        lemma_tokens_fit(s, end, here);
        let rest = scan_from(s, end, here);
        let all = scan_from(s, pos, line);
        assert forall|k: int| 0 <= k < all.tokens.len() implies {
            &&& pos <= (#[trigger] all.tokens[k]).lexeme.start
            &&& all.tokens[k].lexeme.fits(s.len())
        } by {
            match piece_kind(s, pos) {
                Piece::Token(_) => {
                    if k > 0 {
                        assert(all.tokens[k] == rest.tokens[k - 1]);
                    }
                },
                _ => {
                    assert(all.tokens[k] == rest.tokens[k]);
                },
            }
        }
    }
}

/// The tokens and errors of a whole source text.
pub open spec fn lex(source: Seq<char>) -> Lexed {
    scan_from(source, 0, 1)
}

/// The characters of a string slice, one by one.
pub fn chars_of(source: &str) -> (chars: Vec<char>)
    ensures
        chars@ == source@,
{
    let mut chars: Vec<char> = Vec::new();
    for c in it: source.chars()
        invariant
            chars@ == source@.take(it.index() as int),
            it.seq() == source@,
    {
        chars.push(c);
        assert(chars@ =~= source@.take(it.index() + 1));
    }
    assert(chars@ =~= source@);
    chars
}

/// A lexer over one source text.
pub struct Scanner {
    pub source: Vec<char>,
    pub tokens: Vec<Token>,
    pub errors: Vec<ScanDiagnostic>,
    pub current: usize,
    pub start: usize,
    pub line: usize,
}

impl Scanner {
    /// Positions never run past the text.
    pub open spec fn wf(&self) -> bool {
        self.start <= self.current <= self.source.len()
    }

    pub fn new(source: &str) -> (scanner: Scanner)
        ensures
            scanner.source@ == source@,
            scanner.tokens@ == Seq::<Token>::empty(),
            scanner.errors@ == Seq::<ScanDiagnostic>::empty(),
            scanner.current == 0,
            scanner.start == 0,
            scanner.line == 1,
            scanner.wf(),
    {
        Scanner {
            source: chars_of(source),
            tokens: Vec::new(),
            errors: Vec::new(),
            current: 0,
            start: 0,
            line: 1,
        }
    }

    /// Lexes what is left of the source and returns every token found so
    /// far, the end-of-file token last. The errors met are kept in
    /// `errors`.
    pub fn scan_tokens(&mut self) -> (tokens: Vec<Token>)
        requires
            old(self).wf(),
        ensures
            final(self).wf(),
            final(self).source@ == old(self).source@,
            final(self).current == final(self).source.len(),
            tokens@ == old(self).tokens@ + scan_from(
                old(self).source@,
                old(self).current as int,
                old(self).line,
            ).tokens,
            final(self).tokens@ == tokens@,
            final(self).errors@ == old(self).errors@ + scan_from(
                old(self).source@,
                old(self).current as int,
                old(self).line,
            ).errors,
    {
        let ghost goal = scan_from(self.source@, self.current as int, self.line);
        while !self.is_at_end()
            invariant
                self.wf(),
                self.source@ == old(self).source@,
                old(self).tokens@ + goal.tokens == self.tokens@ + scan_from(
                    self.source@,
                    self.current as int,
                    self.line,
                ).tokens,
                old(self).errors@ + goal.errors == self.errors@ + scan_from(
                    self.source@,
                    self.current as int,
                    self.line,
                ).errors,
            decreases self.source.len() - self.current,
        {
            self.start = self.current;
            let ghost before = *self;
            let ghost rest = scan_from(
                self.source@,
                piece_end(self.source@, self.current as int),
                line_after(
                    self.line,
                    newlines(
                        self.source@,
                        self.current as int,
                        piece_end(self.source@, self.current as int),
                    ),
                ),
            );
            self.scan_token();
            proof {
                lemma_piece_advances(before.source@, before.current as int);
                let whole = scan_from(before.source@, before.current as int, before.line);
                match piece_kind(before.source@, before.current as int) {
                    Piece::Token(_) => {
                        assert(before.tokens@ + whole.tokens =~= self.tokens@ + rest.tokens);
                    },
                    Piece::Blank => {},
                    Piece::Error(_) => {
                        assert(before.errors@ + whole.errors =~= self.errors@ + rest.errors);
                    },
                }
            }
        }
        self.tokens.push(Token::new(TokenType::Eof, Span::new(self.current, self.current), self.line));
        proof {
            assert(self.errors@ + Seq::<ScanDiagnostic>::empty() =~= self.errors@);
        }
        self.tokens.clone()
    }

    /// Lexes the one piece of text that starts at the current position.
    pub fn scan_token(&mut self)
        requires
            old(self).start == old(self).current,
            old(self).current < old(self).source.len(),
        ensures
            final(self).wf(),
            final(self).source@ == old(self).source@,
            final(self).start == old(self).start,
            final(self).current == piece_end(old(self).source@, old(self).current as int),
            final(self).line == line_after(
                old(self).line,
                newlines(old(self).source@, old(self).current as int, final(self).current as int),
            ),
            match piece_kind(old(self).source@, old(self).current as int) {
                Piece::Token(token_type) => {
                    &&& final(self).tokens@ == old(self).tokens@.push(
                        Token {
                            token_type,
                            lexeme: Span { start: old(self).current, end: final(self).current },
                            line: final(self).line,
                        },
                    )
                    &&& final(self).errors@ == old(self).errors@
                },
                Piece::Blank => {
                    &&& final(self).tokens@ == old(self).tokens@
                    &&& final(self).errors@ == old(self).errors@
                },
                Piece::Error(error) => {
                    &&& final(self).tokens@ == old(self).tokens@
                    &&& final(self).errors@ == old(self).errors@.push(
                        ScanDiagnostic { line: final(self).line, error },
                    )
                },
            },
    {
        let ghost s = self.source@;
        let ghost pos = self.current as int;
        proof {
            lemma_piece_advances(s, pos);
            reveal_with_fuel(newlines, 3);
        }
        let c = self.advance();
        if c == '(' {
            self.add_token(TokenType::LeftParen)
        } else if c == ')' {
            self.add_token(TokenType::RightParen)
        } else if c == '{' {
            self.add_token(TokenType::LeftBrace)
        } else if c == '}' {
            self.add_token(TokenType::RightBrace)
        } else if c == ',' {
            self.add_token(TokenType::Comma)
        } else if c == '.' {
            self.add_token(TokenType::Dot)
        } else if c == '-' {
            self.add_token(TokenType::Minus)
        } else if c == '+' {
            self.add_token(TokenType::Plus)
        } else if c == ';' {
            self.add_token(TokenType::Semicolon)
        } else if c == '*' {
            self.add_token(TokenType::Star)
        } else if c == '!' {
            if self.match_next('=') {
                self.add_token(TokenType::BangEqual)
            } else {
                self.add_token(TokenType::Bang)
            }
        } else if c == '=' {
            if self.match_next('=') {
                self.add_token(TokenType::EqualEqual)
            } else {
                self.add_token(TokenType::Equal)
            }
        } else if c == '<' {
            if self.match_next('=') {
                self.add_token(TokenType::LessEqual)
            } else {
                self.add_token(TokenType::Less)
            }
        } else if c == '>' {
            if self.match_next('=') {
                self.add_token(TokenType::GreaterEqual)
            } else {
                self.add_token(TokenType::Greater)
            }
        } else if c == '/' {
            if self.match_next('/') {
                while self.peek() != '\n' && !self.is_at_end()
                    invariant
                        self.wf(),
                        self.source@ == s,
                        self.start == pos,
                        self.tokens == old(self).tokens,
                        self.errors == old(self).errors,
                        self.line == old(self).line,
                        pos + 2 <= self.current,
                        find_char(s, pos + 2, '\n') == find_char(s, self.current as int, '\n'),
                        newlines(s, pos, self.current as int) == 0,
                    decreases self.source.len() - self.current,
                {
                    self.advance();
                }
            } else {
                self.add_token(TokenType::Slash);
            }
        } else if c == '"' {
            self.string()
        } else if c == '\n' {
            self.line = if self.line < usize::MAX {
                self.line + 1
            } else {
                self.line
            };
        } else if c == ' ' || c == '\r' || c == '\t' {
        } else if Self::is_digit(c) {
            self.number()
        } else if Self::is_alpha(c) {
            self.identifier()
        } else {
            self.errors.push(
                ScanDiagnostic { line: self.line, error: ScanError::UnexpectedCharacter },
            );
        }
    }

    pub fn is_digit(ch: char) -> (digit: bool)
        ensures
            digit == is_digit(ch),
    {
        '0' <= ch && ch <= '9'
    }

    pub fn is_alpha(ch: char) -> (alpha: bool)
        ensures
            alpha == is_alpha(ch),
    {
        ('a' <= ch && ch <= 'z') || ('A' <= ch && ch <= 'Z') || ch == '_'
    }

    pub fn is_alphanumeric(ch: char) -> (alphanumeric: bool)
        ensures
            alphanumeric == is_alphanumeric(ch),
    {
        Self::is_alpha(ch) || Self::is_digit(ch)
    }

    /// Reads the rest of a word whose first character has been taken, and
    /// adds it as a keyword or an identifier.
    fn identifier(&mut self)
        requires
            old(self).wf(),
            old(self).start < old(self).current,
            old(self).current == old(self).start + 1,
            is_alpha(old(self).source@[old(self).start as int]),
        ensures
            final(self).wf(),
            final(self).source@ == old(self).source@,
            final(self).start == old(self).start,
            final(self).line == old(self).line,
            final(self).errors == old(self).errors,
            final(self).current == word_end(old(self).source@, old(self).start as int),
            final(self).tokens@ == old(self).tokens@.push(
                Token {
                    token_type: word_kind(
                        old(self).source@,
                        old(self).start as int,
                        final(self).current as int,
                    ),
                    lexeme: Span { start: old(self).start, end: final(self).current },
                    line: old(self).line,
                },
            ),
            newlines(old(self).source@, old(self).start as int, final(self).current as int) == 0,
    {
        let ghost s = self.source@;
        proof {
            reveal_with_fuel(newlines, 2);
        }
        while Self::is_alphanumeric(self.peek())
            invariant
                self.wf(),
                self.source@ == s,
                self.start == old(self).start,
                self.start < self.current,
                self.tokens == old(self).tokens,
                self.errors == old(self).errors,
                self.line == old(self).line,
                word_end(s, self.start as int) == word_end(s, self.current as int),
                newlines(s, self.start as int, self.current as int) == 0,
            decreases self.source.len() - self.current,
        {
            self.advance();
        }
        let span = Span::new(self.start, self.current);
        let kind = Self::keyword_of(&span, &self.source);
        self.add_token(kind);
    }

    /// The kind of the word that `span` selects.
    fn keyword_of(span: &Span, source: &Vec<char>) -> (kind: TokenType)
        requires
            span.fits(source@.len()),
        ensures
            kind == word_kind(source@, span.start as int, span.end as int),
    {
        if span.is_word(source, "and") {
            TokenType::And
        } else if span.is_word(source, "break") {
            TokenType::Break
        } else if span.is_word(source, "class") {
            TokenType::Class
        } else if span.is_word(source, "else") {
            TokenType::Else
        } else if span.is_word(source, "false") {
            TokenType::False
        } else if span.is_word(source, "for") {
            TokenType::For
        } else if span.is_word(source, "fun") {
            TokenType::Fun
        } else if span.is_word(source, "if") {
            TokenType::If
        } else if span.is_word(source, "nil") {
            TokenType::Nil
        } else if span.is_word(source, "or") {
            TokenType::Or
        } else if span.is_word(source, "print") {
            TokenType::Print
        } else if span.is_word(source, "return") {
            TokenType::Return
        } else if span.is_word(source, "super") {
            TokenType::Super
        } else if span.is_word(source, "this") {
            TokenType::This
        } else if span.is_word(source, "true") {
            TokenType::True
        } else if span.is_word(source, "var") {
            TokenType::Var
        } else if span.is_word(source, "while") {
            TokenType::While
        } else {
            TokenType::Identifier
        }
    }

    /// Reads the rest of a number whose first digit has been taken, and
    /// adds it.
    fn number(&mut self)
        requires
            old(self).wf(),
            old(self).current == old(self).start + 1,
            is_digit(old(self).source@[old(self).start as int]),
        ensures
            final(self).wf(),
            final(self).source@ == old(self).source@,
            final(self).start == old(self).start,
            final(self).line == old(self).line,
            final(self).errors == old(self).errors,
            final(self).current == number_end(old(self).source@, old(self).start as int),
            final(self).tokens@ == old(self).tokens@.push(
                Token {
                    token_type: TokenType::Number,
                    lexeme: Span { start: old(self).start, end: final(self).current },
                    line: old(self).line,
                },
            ),
            newlines(old(self).source@, old(self).start as int, final(self).current as int) == 0,
    {
        let ghost s = self.source@;
        proof {
            reveal_with_fuel(newlines, 2);
        }
        while Self::is_digit(self.peek())
            invariant
                self.wf(),
                self.source@ == s,
                self.start == old(self).start,
                self.start < self.current,
                self.tokens == old(self).tokens,
                self.errors == old(self).errors,
                self.line == old(self).line,
                digits_end(s, self.start as int) == digits_end(s, self.current as int),
                newlines(s, self.start as int, self.current as int) == 0,
            decreases self.source.len() - self.current,
        {
            self.advance();
        }
        if self.peek() == '.' && Self::is_digit(self.peek_next()) {
            self.advance();
            let ghost whole = (self.current - 1) as int;
            while Self::is_digit(self.peek())
                invariant
                    self.wf(),
                    self.source@ == s,
                    self.start == old(self).start,
                    self.start < self.current,
                    whole < self.current,
                    self.tokens == old(self).tokens,
                    self.errors == old(self).errors,
                    self.line == old(self).line,
                    digits_end(s, whole + 1) == digits_end(s, self.current as int),
                    newlines(s, self.start as int, self.current as int) == 0,
                decreases self.source.len() - self.current,
            {
                self.advance();
            }
        }
        self.add_token(TokenType::Number);
    }

    /// Reads the rest of a string whose opening quote has been taken. Adds
    /// the string with its quotes, or reports that it never closes.
    fn string(&mut self)
        requires
            old(self).wf(),
            old(self).current == old(self).start + 1,
            old(self).source@[old(self).start as int] == '"',
        ensures
            final(self).wf(),
            final(self).source@ == old(self).source@,
            final(self).start == old(self).start,
            final(self).current == piece_end(old(self).source@, old(self).start as int),
            final(self).line == line_after(
                old(self).line,
                newlines(old(self).source@, old(self).start as int, final(self).current as int),
            ),
            find_char(old(self).source@, old(self).start + 1, '"') < old(self).source.len() ==> {
                &&& final(self).tokens@ == old(self).tokens@.push(
                    Token {
                        token_type: TokenType::String,
                        lexeme: Span { start: old(self).start, end: final(self).current },
                        line: final(self).line,
                    },
                )
                &&& final(self).errors == old(self).errors
            },
            find_char(old(self).source@, old(self).start + 1, '"') >= old(self).source.len() ==> {
                &&& final(self).tokens == old(self).tokens
                &&& final(self).errors@ == old(self).errors@.push(
                    ScanDiagnostic { line: final(self).line, error: ScanError::UnterminatedString },
                )
            },
    {
        let ghost s = self.source@;
        proof {
            reveal_with_fuel(newlines, 2);
        }
        while self.peek() != '"' && !self.is_at_end()
            invariant
                self.wf(),
                self.source@ == s,
                self.start == old(self).start,
                self.start < self.current,
                self.tokens == old(self).tokens,
                self.errors == old(self).errors,
                find_char(s, self.start + 1, '"') == find_char(s, self.current as int, '"'),
                self.line == line_after(
                    old(self).line,
                    newlines(s, self.start as int, self.current as int),
                ),
            decreases self.source.len() - self.current,
        {
            proof {
                lemma_newlines_bounds(s, self.start as int, self.current as int);
            }
            if self.peek() == '\n' {
                self.line = if self.line < usize::MAX {
                    self.line + 1
                } else {
                    self.line
                };
            }
            self.advance();
        }
        if self.is_at_end() {
            self.errors.push(
                ScanDiagnostic { line: self.line, error: ScanError::UnterminatedString },
            );
            return ;
        }
        proof {
            lemma_newlines_bounds(s, self.start as int, self.current as int);
        }
        self.advance();
        self.add_token(TokenType::String);
    }

    /// The character at the current position, or NUL at the end.
    fn peek(&self) -> (ch: char)
        requires
            self.wf(),
        ensures
            ch == char_at(self.source@, self.current as int),
    {
        if self.is_at_end() {
            '\0'
        } else {
            self.source[self.current]
        }
    }

    /// The character after the current one, or NUL past the end.
    fn peek_next(&self) -> (ch: char)
        requires
            self.wf(),
        ensures
            ch == char_at(self.source@, self.current + 1),
    {
        if self.current >= self.source.len() || self.current + 1 >= self.source.len() {
            '\0'
        } else {
            self.source[self.current + 1]
        }
    }

    /// Takes the current character if it is `expected`.
    fn match_next(&mut self, expected: char) -> (matched: bool)
        requires
            old(self).wf(),
        ensures
            final(self).wf(),
            matched == (old(self).current < old(self).source.len() && old(self).source@[old(
                self,
            ).current as int] == expected),
            final(self).current == if matched {
                old(self).current + 1
            } else {
                old(self).current as int
            },
            final(self).source@ == old(self).source@,
            final(self).tokens == old(self).tokens,
            final(self).errors == old(self).errors,
            final(self).start == old(self).start,
            final(self).line == old(self).line,
    {
        if self.is_at_end() {
            return false;
        }
        if self.source[self.current] != expected {
            return false;
        }
        self.current += 1;
        true
    }

    /// Takes the current character.
    fn advance(&mut self) -> (ch: char)
        requires
            old(self).start <= old(self).current,
            old(self).current < old(self).source.len(),
        ensures
            final(self).wf(),
            ch == old(self).source@[old(self).current as int],
            final(self).current == old(self).current + 1,
            final(self).source@ == old(self).source@,
            final(self).tokens == old(self).tokens,
            final(self).errors == old(self).errors,
            final(self).start == old(self).start,
            final(self).line == old(self).line,
    {
        let ch = self.source[self.current];
        self.current += 1;
        ch
    }

    /// Adds a token whose text runs from `start` to the current position.
    fn add_token(&mut self, token: TokenType)
        ensures
            final(self).tokens@ == old(self).tokens@.push(
                Token {
                    token_type: token,
                    lexeme: Span { start: old(self).start, end: old(self).current },
                    line: old(self).line,
                },
            ),
            final(self).source@ == old(self).source@,
            final(self).errors == old(self).errors,
            final(self).start == old(self).start,
            final(self).current == old(self).current,
            final(self).line == old(self).line,
    {
        self.tokens.push(Token::new(token, Span::new(self.start, self.current), self.line));
    }

    fn is_at_end(&self) -> (at_end: bool)
        ensures
            at_end == (self.current >= self.source.len()),
    {
        self.current >= self.source.len()
    }
}

/// Lexes a whole source text: its tokens, which end with the end-of-file
/// token, and its errors.
pub fn scan(source: &str) -> (found: (Vec<Token>, Vec<ScanDiagnostic>))
    ensures
        found.0@ == lex(source@).tokens,
        found.1@ == lex(source@).errors,
        found.0@.len() > 0,
        found.0@.last().token_type == TokenType::Eof,
{
    let mut scanner = Scanner::new(source);
    let tokens = scanner.scan_tokens();
    proof {
        lemma_scan_ends(source@, 0, 1);
        assert(tokens@ =~= lex(source@).tokens);
        assert(scanner.errors@ =~= lex(source@).errors);
    }
    (tokens, scanner.errors)
}

} // verus!
