//! Character classes the lexer is built on.
//!
//! Every Unicode scalar falls into exactly one of four classes: whitespace,
//! newline, punctuation, or "literal" (anything else; identifiers are maximal
//! runs of literal characters).

use vstd::prelude::*;

verus! {

/// The 23 code points recognized as horizontal whitespace.
pub open spec fn is_whitespace_char(c: char) -> bool {
    ||| c == ' '
    ||| c == '\t'
    ||| c == '\u{000B}'
    ||| c == '\u{000C}'
    ||| c == '\u{00A0}'
    ||| c == '\u{1680}'
    ||| c == '\u{180E}'
    ||| c == '\u{2000}'
    ||| c == '\u{2001}'
    ||| c == '\u{2002}'
    ||| c == '\u{2003}'
    ||| c == '\u{2004}'
    ||| c == '\u{2005}'
    ||| c == '\u{2006}'
    ||| c == '\u{2007}'
    ||| c == '\u{2008}'
    ||| c == '\u{2009}'
    ||| c == '\u{200A}'
    ||| c == '\u{200B}'
    ||| c == '\u{202F}'
    ||| c == '\u{205F}'
    ||| c == '\u{3000}'
    ||| c == '\u{FEFF}'
}

/// The two code points that can begin a newline token.
pub open spec fn is_newline_char(c: char) -> bool {
    c == '\n' || c == '\r'
}

/// The 26 punctuation characters; no identifier may contain one.
pub open spec fn is_punctuation_char(c: char) -> bool {
    ||| c == '+'
    ||| c == '-'
    ||| c == '*'
    ||| c == '/'
    ||| c == '%'
    ||| c == '&'
    ||| c == '|'
    ||| c == '!'
    ||| c == '='
    ||| c == '^'
    ||| c == '<'
    ||| c == '>'
    ||| c == ';'
    ||| c == ':'
    ||| c == ','
    ||| c == '.'
    ||| c == '('
    ||| c == ')'
    ||| c == '['
    ||| c == ']'
    ||| c == '{'
    ||| c == '}'
    ||| c == '~'
    ||| c == '?'
    ||| c == '\''
    ||| c == '"'
}

/// A literal character: any scalar that is not punctuation, whitespace or a
/// newline. Identifiers and keywords are maximal runs of these.
pub open spec fn is_literal_char(c: char) -> bool {
    !is_punctuation_char(c) && !is_whitespace_char(c) && !is_newline_char(c)
}

/// Decimal digit.
pub open spec fn is_dec_digit(c: char) -> bool {
    '0' as u32 <= c as u32 && c as u32 <= '9' as u32
}

/// Binary digit.
pub open spec fn is_bin_digit(c: char) -> bool {
    c == '0' || c == '1'
}

/// Octal digit.
pub open spec fn is_oct_digit(c: char) -> bool {
    '0' as u32 <= c as u32 && c as u32 <= '7' as u32
}

/// Hexadecimal digit, either case.
pub open spec fn is_hex_digit(c: char) -> bool {
    ||| ('0' as u32 <= c as u32 && c as u32 <= '9' as u32)
    ||| ('a' as u32 <= c as u32 && c as u32 <= 'f' as u32)
    ||| ('A' as u32 <= c as u32 && c as u32 <= 'F' as u32)
}

/// Runtime test for [`is_whitespace_char`].
pub fn potential_whitespace(c: char) -> (b: bool)
    ensures
        b == is_whitespace_char(c),
{
    c == ' ' || c == '\t' || c == '\u{000B}' || c == '\u{000C}' || c == '\u{00A0}'
        || c == '\u{1680}' || c == '\u{180E}' || c == '\u{2000}' || c == '\u{2001}'
        || c == '\u{2002}' || c == '\u{2003}' || c == '\u{2004}' || c == '\u{2005}'
        || c == '\u{2006}' || c == '\u{2007}' || c == '\u{2008}' || c == '\u{2009}'
        || c == '\u{200A}' || c == '\u{200B}' || c == '\u{202F}' || c == '\u{205F}'
        || c == '\u{3000}' || c == '\u{FEFF}'
}

/// Runtime test for [`is_newline_char`].
pub fn potential_eol(c: char) -> (b: bool)
    ensures
        b == is_newline_char(c),
{
    c == '\n' || c == '\r'
}

/// Runtime test for [`is_punctuation_char`].
pub fn is_punctuation(c: char) -> (b: bool)
    ensures
        b == is_punctuation_char(c),
{
    c == '+' || c == '-' || c == '*' || c == '/' || c == '%' || c == '&' || c == '|'
        || c == '!' || c == '=' || c == '^' || c == '<' || c == '>' || c == ';' || c == ':'
        || c == ',' || c == '.' || c == '(' || c == ')' || c == '[' || c == ']' || c == '{'
        || c == '}' || c == '~' || c == '?' || c == '\'' || c == '"'
}

/// Runtime test for [`is_literal_char`].
pub fn is_literal(c: char) -> (b: bool)
    ensures
        b == is_literal_char(c),
{
    !is_punctuation(c) && !potential_whitespace(c) && !potential_eol(c)
}

} // verus!
