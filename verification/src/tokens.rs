//! Tokens and the text ranges they refer to.

use vstd::prelude::*;
use crate::callable::LoxFunction;
use crate::utils::Clock;

verus! {

/// The kind of a token.
#[derive(Clone, Copy, Debug, PartialEq, Eq, Structural)]
pub enum TokenType {
    // Single character tokens
    LeftParen,
    RightParen,
    LeftBrace,
    RightBrace,
    Comma,
    Dot,
    Minus,
    Plus,
    Semicolon,
    Slash,
    Star,
    // One or two character tokens
    Bang,
    BangEqual,
    Equal,
    EqualEqual,
    Greater,
    GreaterEqual,
    Less,
    LessEqual,
    // Literals
    Identifier,
    String,
    Number,
    // Keywords
    And,
    Break,
    Class,
    Else,
    False,
    Fun,
    For,
    If,
    Nil,
    Or,
    Print,
    Return,
    Super,
    This,
    True,
    Var,
    While,
    Eof,
}

/// A half-open range `start..end` of character positions in a text.
#[derive(Clone, Copy, Debug, PartialEq, Eq, Structural)]
pub struct Span {
    pub start: usize,
    pub end: usize,
}

impl Span {
    /// Whether the range lies inside a text of `len` characters.
    pub open spec fn fits(self, len: nat) -> bool {
        self.start <= self.end && self.end <= len
    }

    /// The characters the range selects; empty when the range does not fit.
    pub open spec fn text(self, source: Seq<char>) -> Seq<char> {
        if self.fits(source.len()) {
            source.subrange(self.start as int, self.end as int)
        } else {
            Seq::empty()
        }
    }

    pub fn new(start: usize, end: usize) -> (span: Span)
        ensures
            span == (Span { start, end }),
    {
        Span { start, end }
    }

    /// Copies the selected characters out of `source`.
    pub fn extract(&self, source: &Vec<char>) -> (out: Vec<char>)
        ensures
            out@ == self.text(source@),
    {
        let mut out: Vec<char> = Vec::new();
        if self.start <= self.end && self.end <= source.len() {
            let mut i: usize = self.start;
            while i < self.end
                invariant
                    self.start <= i <= self.end,
                    self.end <= source.len(),
                    out@ == source@.subrange(self.start as int, i as int),
                decreases self.end - i,
            {
                out.push(source[i]);
                i += 1;
                assert(out@ == source@.subrange(self.start as int, i as int));
            }
        }
        out
    }

    /// Whether two ranges select the same characters of `source`.
    pub fn same_text(&self, other: &Span, source: &Vec<char>) -> (same: bool)
        ensures
            same == (self.text(source@) == other.text(source@)),
    {
        let a_ok = self.start <= self.end && self.end <= source.len();
        let b_ok = other.start <= other.end && other.end <= source.len();
        let a_len: usize = if a_ok { self.end - self.start } else { 0 };
        let b_len: usize = if b_ok { other.end - other.start } else { 0 };
        assert(a_len == self.text(source@).len() && b_len == other.text(source@).len());
        if a_len != b_len {
            return false;
        }
        let mut i: usize = 0;
        while i < a_len
            invariant
                i <= a_len,
                a_len == b_len,
                a_len == self.text(source@).len(),
                b_len == other.text(source@).len(),
                a_len > 0 ==> a_ok && b_ok,
                a_ok ==> self.fits(source@.len()),
                b_ok ==> other.fits(source@.len()),
                forall|j: int| 0 <= j < i ==> self.text(source@)[j] == other.text(source@)[j],
            decreases a_len - i,
        {
            if source[self.start + i] != source[other.start + i] {
                assert(self.text(source@)[i as int] != other.text(source@)[i as int]);
                return false;
            }
            i += 1;
        }
        assert(self.text(source@) =~= other.text(source@));
        true
    }

    /// Whether the range selects exactly the characters of `word`.
    pub fn is_word(&self, source: &Vec<char>, word: &str) -> (same: bool)
        ensures
            same == (self.text(source@) == word@),
    {
        let ok = self.start <= self.end && self.end <= source.len();
        let len: usize = if ok { self.end - self.start } else { 0 };
        let n = word.unicode_len();
        assert(len == self.text(source@).len());
        if len != n {
            return false;
        }
        let mut i: usize = 0;
        while i < len
            invariant
                i <= len,
                len == n,
                n == word@.len(),
                len == self.text(source@).len(),
                len > 0 ==> ok,
                ok ==> self.fits(source@.len()),
                forall|j: int| 0 <= j < i ==> self.text(source@)[j] == word@[j],
            decreases len - i,
        {
            if source[self.start + i] != word.get_char(i) {
                assert(self.text(source@)[i as int] != word@[i as int]);
                return false;
            }
            i += 1;
        }
        assert(self.text(source@) =~= word@);
        true
    }
}

/// One lexical unit: its kind, where its text stands, and the line it ends on.
#[derive(Clone, Copy, Debug, PartialEq, Eq, Structural)]
pub struct Token {
    pub token_type: TokenType,
    pub lexeme: Span,
    pub line: usize,
}

impl Token {
    pub fn new(token_type: TokenType, lexeme: Span, line: usize) -> (token: Token)
        ensures
            token == (Token { token_type, lexeme, line }),
    {
        Token { token_type, lexeme, line }
    }

    /// For a string token, the range between its quotes; for any other
    /// token, its whole lexeme.
    pub open spec fn spec_literal(&self) -> Span {
        if self.token_type == TokenType::String && self.lexeme.start < self.lexeme.end
            && self.lexeme.end - self.lexeme.start >= 2 {
            Span { start: (self.lexeme.start + 1) as usize, end: (self.lexeme.end - 1) as usize }
        } else {
            self.lexeme
        }
    }

    #[verifier::when_used_as_spec(spec_literal)]
    pub fn literal(&self) -> (span: Span)
        ensures
            span == self.spec_literal(),
    {
        if self.token_type == TokenType::String && self.lexeme.start < self.lexeme.end
            && self.lexeme.end - self.lexeme.start >= 2 {
            Span { start: self.lexeme.start + 1, end: self.lexeme.end - 1 }
        } else {
            self.lexeme
        }
    }
}

/// A runtime value.
///
/// A string is held as the range of its characters in the interpreter's
/// text store. A number is held as the bit pattern of a 32-bit IEEE 754
/// value; this library moves such patterns around and never looks inside
/// them. Classes and instances are handles into the interpreter's tables.
#[derive(Clone, Copy, Debug)]
pub enum LoxObject {
    String(Span),
    Number(u32),
    Bool(bool),
    Nil,
    Callable(LoxFunction),
    /// The built-in clock.
    Native(Clock),
    Class(usize),
    Instance(usize),
}

impl LoxObject {
    /// Whether the value counts as true: everything but `nil` and `false`.
    pub open spec fn spec_is_truthy(&self) -> bool {
        match self {
            LoxObject::Nil => false,
            LoxObject::Bool(b) => *b,
            _ => true,
        }
    }

    #[verifier::when_used_as_spec(spec_is_truthy)]
    pub fn is_truthy(&self) -> (truthy: bool)
        ensures
            truthy == self.spec_is_truthy(),
    {
        match self {
            LoxObject::Nil => false,
            LoxObject::Bool(b) => *b,
            _ => true,
        }
    }
}

/// Whether `a` comes before `b` in dictionary order, given that they
/// agree before position `from`.
pub open spec fn text_less(a: Seq<char>, b: Seq<char>, from: nat) -> bool
    decreases a.len() - from,
{
    if from >= b.len() {
        false
    } else if from >= a.len() {
        true
    } else if a[from as int] != b[from as int] {
        (a[from as int] as u32) < (b[from as int] as u32)
    } else {
        text_less(a, b, from + 1)
    }
}

/// Adds the characters of `word` to `out`.
pub fn push_text(out: &mut Vec<char>, word: &str)
    ensures
        final(out)@ == old(out)@ + word@,
{
    let n = word.unicode_len();
    let mut i: usize = 0;
    while i < n
        invariant
            i <= n,
            n == word@.len(),
            out@ == old(out)@ + word@.subrange(0, i as int),
        decreases n - i,
    {
        out.push(word.get_char(i));
        i += 1;
        assert(out@ =~= old(out)@ + word@.subrange(0, i as int));
    }
    assert(word@.subrange(0, i as int) =~= word@);
}

/// Adds the characters that `span` selects in `text` to `out`.
pub fn push_span(out: &mut Vec<char>, text: &Vec<char>, span: Span)
    ensures
        final(out)@ == old(out)@ + span.text(text@),
{
    if span.start <= span.end && span.end <= text.len() {
        let mut i: usize = span.start;
        while i < span.end
            invariant
                span.start <= i <= span.end,
                span.end <= text.len(),
                out@ == old(out)@ + text@.subrange(span.start as int, i as int),
            decreases span.end - i,
        {
            out.push(text[i]);
            i += 1;
            assert(out@ =~= old(out)@ + text@.subrange(span.start as int, i as int));
        }
    } else {
        assert(out@ =~= old(out)@ + span.text(text@));
    }
}

/// Adds the characters that `span` selects in `text` to the end of
/// `text` itself.
pub fn repeat_span(text: &mut Vec<char>, span: Span)
    ensures
        final(text)@ == old(text)@ + span.text(old(text)@),
{
    if span.start <= span.end && span.end <= text.len() {
        let mut i: usize = span.start;
        while i < span.end
            invariant
                span.start <= i <= span.end,
                span.end <= old(text).len(),
                text@ == old(text)@ + old(text)@.subrange(span.start as int, i as int),
            decreases span.end - i,
        {
            let ch = text[i];
            text.push(ch);
            i += 1;
            assert(text@ =~= old(text)@ + old(text)@.subrange(span.start as int, i as int));
        }
    } else {
        assert(text@ =~= old(text)@ + span.text(old(text)@));
    }
}

/// Whether the text of `a` comes before the text of `b` in dictionary
/// order.
pub fn span_less(text: &Vec<char>, a: Span, b: Span) -> (less: bool)
    ensures
        less == text_less(a.text(text@), b.text(text@), 0),
{
    let a_len: usize = if a.start <= a.end && a.end <= text.len() {
        a.end - a.start
    } else {
        0
    };
    let b_len: usize = if b.start <= b.end && b.end <= text.len() {
        b.end - b.start
    } else {
        0
    };
    let ghost left = a.text(text@);
    let ghost right = b.text(text@);
    let mut i: usize = 0;
    loop
        invariant
            i <= a_len,
            a_len == left.len(),
            b_len == right.len(),
            left == a.text(text@),
            right == b.text(text@),
            text_less(left, right, 0) == text_less(left, right, i as nat),
        decreases a_len - i,
    {
        if i >= b_len {
            return false;
        }
        if i >= a_len {
            return true;
        }
        let x = text[a.start + i];
        let y = text[b.start + i];
        assert(x == left[i as int] && y == right[i as int]);
        if x != y {
            return (x as u32) < (y as u32);
        }
        i += 1;
    }
}

} // verus!
