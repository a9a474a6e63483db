//! The text of diagnostics.
//!
//! Nothing is printed here: each function returns the line that reports
//! an error, for the caller to show.

use vstd::prelude::*;
use crate::tokens::{push_span, push_text, Span, Token, TokenType};

verus! {

/// Adds one character to the end of a string.
///
/// Specifies `String::push` of the standard library: afterwards the
/// string holds what it held before and then `ch`.
pub assume_specification[ std::string::String::push ](target: &mut std::string::String, ch: char)
    ensures
        final(target)@ == old(target)@.push(ch),
;

/// The character for a digit below ten.
pub open spec fn digit(d: nat) -> char {
    if d == 0 {
        '0'
    } else if d == 1 {
        '1'
    } else if d == 2 {
        '2'
    } else if d == 3 {
        '3'
    } else if d == 4 {
        '4'
    } else if d == 5 {
        '5'
    } else if d == 6 {
        '6'
    } else if d == 7 {
        '7'
    } else if d == 8 {
        '8'
    } else {
        '9'
    }
}

/// A number written in decimal, without leading zeros.
pub open spec fn decimal(n: nat) -> Seq<char>
    decreases n,
{
    if n < 10 {
        seq![digit(n)]
    } else {
        decimal(n / 10).push(digit(n % 10))
    }
}

/// The line that reports `message` for a place in the source:
/// `[line N] Error` and the place, a colon, and the message.
pub open spec fn report_text(line: nat, location: Seq<char>, message: Seq<char>) -> Seq<char> {
    "[line "@ + decimal(line) + "] Error"@ + location + ": "@ + message
}

/// Where a token stands, in words: at the end, or at its own text.
pub open spec fn location_text(token: Token, source: Seq<char>) -> Seq<char> {
    if token.token_type == TokenType::Eof {
        "  at end"@
    } else {
        " at '"@ + token.lexeme.text(source) + "'"@
    }
}

fn digit_char(d: usize) -> (ch: char)
    requires
        d < 10,
    ensures
        ch == digit(d as nat),
{
    if d == 0 {
        '0'
    } else if d == 1 {
        '1'
    } else if d == 2 {
        '2'
    } else if d == 3 {
        '3'
    } else if d == 4 {
        '4'
    } else if d == 5 {
        '5'
    } else if d == 6 {
        '6'
    } else if d == 7 {
        '7'
    } else if d == 8 {
        '8'
    } else {
        '9'
    }
}

/// Adds `n`, written in decimal, to `out`.
pub fn push_decimal(out: &mut Vec<char>, n: usize)
    ensures
        final(out)@ == old(out)@ + decimal(n as nat),
    decreases n,
{
    if n < 10 {
        out.push(digit_char(n));
        assert(out@ =~= old(out)@ + decimal(n as nat));
    } else {
        push_decimal(out, n / 10);
        out.push(digit_char(n % 10));
        assert(out@ =~= old(out)@ + decimal(n as nat));
    }
}

/// The characters as a string.
pub fn to_string(chars: &Vec<char>) -> (text: String)
    ensures
        text@ == chars@,
{
    let mut text = String::new();
    let mut i: usize = 0;
    while i < chars.len()
        invariant
            i <= chars.len(),
            text@ == chars@.subrange(0, i as int),
        decreases chars.len() - i,
    {
        text.push(chars[i]);
        i += 1;
        assert(text@ =~= chars@.subrange(0, i as int));
    }
    assert(chars@.subrange(0, i as int) =~= chars@);
    text
}

/// The line that reports `message` for a place in the source.
fn report(line: usize, location: &Vec<char>, message: &str) -> (text: String)
    ensures
        text@ == report_text(line as nat, location@, message@),
{
    let mut out: Vec<char> = Vec::new();
    push_text(&mut out, "[line ");
    push_decimal(&mut out, line);
    push_text(&mut out, "] Error");
    let whole = Span::new(0, location.len());
    push_span(&mut out, location, whole);
    assert(whole.text(location@) =~= location@);
    push_text(&mut out, ": ");
    push_text(&mut out, message);
    assert(out@ =~= report_text(line as nat, location@, message@));
    to_string(&out)
}

/// The line that reports `message` for a line of the source.
pub fn error(line: usize, message: &str) -> (text: String)
    ensures
        text@ == report_text(line as nat, Seq::empty(), message@),
{
    let location: Vec<char> = Vec::new();
    report(line, &location, message)
}

/// The line that reports `message` for a token of `source`.
pub fn error_token(token: Token, source: &Vec<char>, message: &str) -> (text: String)
    ensures
        text@ == report_text(token.line as nat, location_text(token, source@), message@),
{
    let mut location: Vec<char> = Vec::new();
    if token.token_type == TokenType::Eof {
        push_text(&mut location, "  at end");
        assert(location@ =~= "  at end"@);
    } else {
        push_text(&mut location, " at '");
        push_span(&mut location, source, token.lexeme);
        push_text(&mut location, "'");
        assert(location@ =~= " at '"@ + token.lexeme.text(source@) + "'"@);
    }
    report(token.line, &location, message)
}

} // verus!
