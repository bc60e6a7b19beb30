//! The token model: kinds, the [`Token`] record, and the specification of
//! what the next token of a given input must look like.
//!
//! [`token_form`] pins down, for any non-empty remaining input, the kind, the
//! text and the length of the token the lexer must produce, including the
//! maximal-munch rule for operators and the termination attributes of string,
//! character, number and comment tokens.

use vstd::prelude::*;

use crate::chars::is_bin_digit;
use crate::chars::is_dec_digit;
use crate::chars::is_hex_digit;
use crate::chars::is_literal_char;
use crate::chars::is_newline_char;
use crate::chars::is_oct_digit;
use crate::chars::is_whitespace_char;

verus! {

/// The base of a number literal.
#[derive(Clone, Copy, Debug, PartialEq, Eq, Structural)]
pub enum Base {
    Binary,
    Hexadecimal,
    Octal,
    Decimal,
}

/// Classification of a source slice.
#[derive(Clone, Copy, Debug, PartialEq, Eq, Structural)]
pub enum TokenKind {
    /// A run of whitespace characters.
    Whitespace,
    /// `\r\n`, `\r`, or `\n`.
    Newline,
    /// From `//` to the end of the line.
    LineComment,
    /// From `/*` to `*/`; `terminated` is false when the input ends first.
    MultilineComment { terminated: bool },
    /// `/`
    Slash,
    /// `*`
    Star,
    /// `-`
    Minus,
    /// `--`
    MinusMinus,
    /// `+`
    Plus,
    /// `++`
    PlusPlus,
    /// `^`
    Caret,
    /// `%`
    Percent,
    /// `~`
    Tilde,
    /// `&`
    Amp,
    /// `&&`
    AmpAmp,
    /// `|`
    Bar,
    /// `||`
    BarBar,
    /// `>`
    Greater,
    /// `>>`
    GreaterGreater,
    /// `<`
    Less,
    /// `<<`
    LessLess,
    /// `==`
    EqualEqual,
    /// `=>`
    EqualsGreater,
    /// `->`
    MinusGreater,
    /// `=`
    Equal,
    /// `+=`
    PlusEqual,
    /// `-=`
    MinusEqual,
    /// `%=`
    PercentEqual,
    /// `*=`
    StarEqual,
    /// `/=`
    SlashEqual,
    /// `&=`
    AmpEqual,
    /// `|=`
    BarEqual,
    /// `!=`
    BangEqual,
    /// `>=`
    GreaterEqual,
    /// `<=`
    LessEqual,
    /// `^=`
    CaretEqual,
    /// `~=`
    TildeEqual,
    /// `<<=`
    LessLessEqual,
    /// `>>=`
    GreaterGreaterEqual,
    /// `??=`
    QuestionQuestionEquals,
    /// `?[`
    QuestionLBracket,
    /// `[`
    LBracket,
    /// `]`
    RBracket,
    /// `{`
    LBrace,
    /// `}`
    RBrace,
    /// `(`
    LParen,
    /// `)`
    RParen,
    /// `?.`
    QuestionDot,
    /// `.`
    Dot,
    /// `..`
    DotDot,
    /// `..=`
    DotDotEqual,
    /// `,`
    Comma,
    /// `;`
    Semicolon,
    /// `:`
    Colon,
    /// `::`
    ColonColon,
    /// `!`
    Bang,
    /// `?`
    Question,
    /// `??`
    QuestionQuestion,
    /// A string literal; `terminated` is false when the closing `"` is missing.
    StringLiteral { terminated: bool },
    /// A character literal; `terminated` is false when the closing `'` is
    /// missing before a newline or the end of the input.
    CharLiteral { terminated: bool },
    /// A number literal; `has_digits` is false when a base prefix such as `0b`
    /// is followed by no digit of that base.
    NumberLiteral { base: Base, has_digits: bool },
    /// Any maximal run of literal characters that is not a keyword.
    Identifier,
    /// `true`
    TrueKeyword,
    /// `false`
    FalseKeyword,
    /// `let`
    LetKeyword,
    /// `mut`
    MutKeyword,
    /// `match`
    MatchKeyword,
    /// `if`
    IfKeyword,
    /// `else`
    ElseKeyword,
    /// `for`
    ForKeyword,
    /// `in`
    InKeyword,
    /// `while`
    WhileKeyword,
    /// `fn`
    FunctionKeyword,
    /// `return`
    ReturnKeyword,
    /// `break`
    BreakKeyword,
    /// Fallback for input no other rule recognizes.
    Unknown,
}

/// A classified source slice: its kind, its text, and its length in
/// characters. The concatenation of the `value` fields of all tokens lexed
/// from an input reproduces that input exactly.
#[derive(Debug)]
pub struct Token {
    pub kind: TokenKind,
    pub value: String,
    pub len: usize,
}

impl Token {
    /// Pack a classification, a text and a character count into a token.
    pub fn new(kind: TokenKind, value: String, len: usize) -> (t: Token)
        ensures
            t.kind == kind,
            t.value == value,
            t.len == len,
    {
        Token { kind, value, len }
    }
}

impl Clone for Token {
    fn clone(&self) -> (t: Self)
        ensures
            t == *self,
    {
        let t = Token { kind: self.kind, value: self.value.clone(), len: self.len };
        proof {
            assert(t == *self);
        }
        t
    }
}

/// The token a given text is, when the whole text is one token of the given
/// kind: its value is exactly `v` and its length is the character count of `v`.
pub open spec fn tok_is(t: Token, kind: TokenKind, v: Seq<char>) -> bool {
    &&& t.kind == kind
    &&& t.value@ == v
    &&& t.len == v.len()
}

/// The keyword kind for an identifier text, if it is a keyword.
pub open spec fn keyword_kind(v: Seq<char>) -> Option<TokenKind> {
    if v == seq!['l', 'e', 't'] {
        Some(TokenKind::LetKeyword)
    } else if v == seq!['m', 'u', 't'] {
        Some(TokenKind::MutKeyword)
    } else if v == seq!['m', 'a', 't', 'c', 'h'] {
        Some(TokenKind::MatchKeyword)
    } else if v == seq!['f', 'o', 'r'] {
        Some(TokenKind::ForKeyword)
    } else if v == seq!['i', 'n'] {
        Some(TokenKind::InKeyword)
    } else if v == seq!['w', 'h', 'i', 'l', 'e'] {
        Some(TokenKind::WhileKeyword)
    } else if v == seq!['i', 'f'] {
        Some(TokenKind::IfKeyword)
    } else if v == seq!['e', 'l', 's', 'e'] {
        Some(TokenKind::ElseKeyword)
    } else if v == seq!['f', 'n'] {
        Some(TokenKind::FunctionKeyword)
    } else if v == seq!['r', 'e', 't', 'u', 'r', 'n'] {
        Some(TokenKind::ReturnKeyword)
    } else if v == seq!['b', 'r', 'e', 'a', 'k'] {
        Some(TokenKind::BreakKeyword)
    } else if v == seq!['t', 'r', 'u', 'e'] {
        Some(TokenKind::TrueKeyword)
    } else if v == seq!['f', 'a', 'l', 's', 'e'] {
        Some(TokenKind::FalseKeyword)
    } else {
        None
    }
}

/// First index at or after `i` whose character is not whitespace.
pub open spec fn whitespace_end(s: Seq<char>, i: int) -> int
    decreases s.len() - i,
{
    if i < 0 || i >= s.len() {
        i
    } else if is_whitespace_char(s[i]) {
        whitespace_end(s, i + 1)
    } else {
        i
    }
}

/// First index at or after `i` whose character is not a literal character.
pub open spec fn literal_end(s: Seq<char>, i: int) -> int
    decreases s.len() - i,
{
    if i < 0 || i >= s.len() {
        i
    } else if is_literal_char(s[i]) {
        literal_end(s, i + 1)
    } else {
        i
    }
}

/// First index at or after `i` whose character is a newline, or the input
/// length; where a line comment ends.
pub open spec fn line_end(s: Seq<char>, i: int) -> int
    decreases s.len() - i,
{
    if i < 0 || i >= s.len() {
        i
    } else if is_newline_char(s[i]) {
        i
    } else {
        line_end(s, i + 1)
    }
}

/// Whether a character continues a number literal of base 2, 8 or 16: a
/// digit of that base or the `_` separator.
pub open spec fn continues_base(c: char, base: Base) -> bool {
    match base {
        Base::Binary => c == '_' || is_bin_digit(c),
        Base::Octal => c == '_' || is_oct_digit(c),
        Base::Hexadecimal => c == '_' || is_hex_digit(c),
        Base::Decimal => c == '_' || is_dec_digit(c),
    }
}

/// Whether a character is a digit of the given base (`_` excluded).
pub open spec fn digit_of(c: char, base: Base) -> bool {
    match base {
        Base::Binary => is_bin_digit(c),
        Base::Octal => is_oct_digit(c),
        Base::Hexadecimal => is_hex_digit(c),
        Base::Decimal => is_dec_digit(c),
    }
}

/// First index at or after `i` that does not continue a based number literal.
pub open spec fn based_end(s: Seq<char>, i: int, base: Base) -> int
    decreases s.len() - i,
{
    if i < 0 || i >= s.len() {
        i
    } else if continues_base(s[i], base) {
        based_end(s, i + 1, base)
    } else {
        i
    }
}

/// Whether some digit of `base` occurs in `s` at an index in `[i, j)`.
pub open spec fn has_digit_between(s: Seq<char>, i: int, j: int, base: Base) -> bool {
    exists|k: int| i <= k < j && k < s.len() && digit_of(s[k], base)
}

/// Where a decimal literal ends, scanning from `i`; `had_dot` records whether
/// a decimal point was already consumed. At most one `.` is taken, and a `.`
/// followed by another `.` is left alone (it is the range operator).
pub open spec fn decimal_end(s: Seq<char>, i: int, had_dot: bool) -> int
    decreases s.len() - i,
{
    if i < 0 || i >= s.len() {
        i
    } else if s[i] == '_' || is_dec_digit(s[i]) {
        decimal_end(s, i + 1, had_dot)
    } else if s[i] == '.' && !had_dot {
        if i + 1 < s.len() && s[i + 1] == '.' {
            i
        } else {
            decimal_end(s, i + 1, true)
        }
    } else {
        i
    }
}

/// Where a string literal body ends, scanning from `i` (just after the
/// opening quote), and whether it was closed. The scan consumes `\"` as a
/// pair, stops after a closing `"`, and ends unterminated at end of input.
/// The result's first component is the index just past the token.
pub open spec fn string_scan(s: Seq<char>, i: int) -> (int, bool)
    decreases s.len() - i,
{
    if i < 0 || i >= s.len() {
        (i, false)
    } else if s[i] == '"' {
        (i + 1, true)
    } else if s[i] == '\\' && i + 1 < s.len() && s[i + 1] == '"' {
        string_scan(s, i + 2)
    } else {
        string_scan(s, i + 1)
    }
}

/// Where a character literal body ends, scanning from `i` (just after the
/// opening quote), and whether it was closed. The scan consumes `\'` as a
/// pair, stops after a closing `'`, and ends unterminated at a newline or at
/// end of input. The result's first component is the index just past the token.
pub open spec fn char_scan(s: Seq<char>, i: int) -> (int, bool)
    decreases s.len() - i,
{
    if i < 0 || i >= s.len() {
        (i, false)
    } else if s[i] == '\'' {
        (i + 1, true)
    } else if is_newline_char(s[i]) {
        (i, false)
    } else if s[i] == '\\' && i + 1 < s.len() && s[i + 1] == '\'' {
        char_scan(s, i + 2)
    } else {
        char_scan(s, i + 1)
    }
}

/// Where a multi-line comment ends, scanning from `i` (just after the opening
/// `/*`), and whether a closing `*/` was found. The first `*/` closes the
/// comment; nesting is not recognized. The result's first component is the
/// index just past the token.
pub open spec fn multiline_scan(s: Seq<char>, i: int) -> (int, bool)
    decreases s.len() - i,
{
    if i < 0 || i >= s.len() {
        (i, false)
    } else if s[i] == '*' && i + 1 < s.len() && s[i + 1] == '/' {
        (i + 2, true)
    } else {
        multiline_scan(s, i + 1)
    }
}

/// The token an identifier-or-keyword run is.
pub open spec fn word_form(s: Seq<char>, t: Token) -> bool {
    let e = literal_end(s, 1);
    let kind = match keyword_kind(s.take(e)) {
        Some(k) => k,
        None => TokenKind::Identifier,
    };
    tok_is(t, kind, s.take(e))
}

/// The token produced at the head of `s` when `s` begins with `/`.
pub open spec fn slash_form(s: Seq<char>, t: Token) -> bool {
    if s.len() > 1 && s[1] == '/' {
        tok_is(t, TokenKind::LineComment, s.take(line_end(s, 2)))
    } else if s.len() > 1 && s[1] == '*' {
        let (e, term) = multiline_scan(s, 2);
        tok_is(t, TokenKind::MultilineComment { terminated: term }, s.take(e))
    } else if s.len() > 1 && s[1] == '=' {
        tok_is(t, TokenKind::SlashEqual, s.take(2))
    } else {
        tok_is(t, TokenKind::Slash, s.take(1))
    }
}

/// The token produced at the head of `s` when `s` begins with a decimal digit.
pub open spec fn number_form(s: Seq<char>, t: Token) -> bool {
    if s[0] == '0' && s.len() > 1 && s[1] == 'b' {
        let e = based_end(s, 2, Base::Binary);
        tok_is(
            t,
            TokenKind::NumberLiteral {
                base: Base::Binary,
                has_digits: has_digit_between(s, 2, e, Base::Binary),
            },
            s.take(e),
        )
    } else if s[0] == '0' && s.len() > 1 && s[1] == 'o' {
        let e = based_end(s, 2, Base::Octal);
        tok_is(
            t,
            TokenKind::NumberLiteral {
                base: Base::Octal,
                has_digits: has_digit_between(s, 2, e, Base::Octal),
            },
            s.take(e),
        )
    } else if s[0] == '0' && s.len() > 1 && s[1] == 'x' {
        let e = based_end(s, 2, Base::Hexadecimal);
        tok_is(
            t,
            TokenKind::NumberLiteral {
                base: Base::Hexadecimal,
                has_digits: has_digit_between(s, 2, e, Base::Hexadecimal),
            },
            s.take(e),
        )
    } else {
        let e = decimal_end(s, 1, false);
        tok_is(
            t,
            TokenKind::NumberLiteral { base: Base::Decimal, has_digits: true },
            s.take(e),
        )
    }
}

/// Helper for two-way operator choices: `second` when the character after the
/// head equals `c1`, otherwise `single` of length one.
pub open spec fn op2_form(s: Seq<char>, t: Token, c1: char, k2: TokenKind, k1: TokenKind) -> bool {
    if s.len() > 1 && s[1] == c1 {
        tok_is(t, k2, s.take(2))
    } else {
        tok_is(t, k1, s.take(1))
    }
}

/// The token produced at the head of a non-empty input `s`. This is the whole
/// contract of single-token lexing: kind, attributes, text and length.
pub open spec fn token_form(s: Seq<char>, t: Token) -> bool
    recommends
        s.len() > 0,
{
    let c = s[0];
    if c == '\r' {
        if s.len() > 1 && s[1] == '\n' {
            tok_is(t, TokenKind::Newline, s.take(2))
        } else {
            tok_is(t, TokenKind::Newline, s.take(1))
        }
    } else if c == '\n' {
        tok_is(t, TokenKind::Newline, s.take(1))
    } else if is_whitespace_char(c) {
        tok_is(t, TokenKind::Whitespace, s.take(whitespace_end(s, 1)))
    } else if c == '/' {
        slash_form(s, t)
    } else if c == '*' {
        op2_form(s, t, '=', TokenKind::StarEqual, TokenKind::Star)
    } else if c == '+' {
        if s.len() > 1 && s[1] == '=' {
            tok_is(t, TokenKind::PlusEqual, s.take(2))
        } else if s.len() > 1 && s[1] == '+' {
            tok_is(t, TokenKind::PlusPlus, s.take(2))
        } else {
            tok_is(t, TokenKind::Plus, s.take(1))
        }
    } else if c == '-' {
        if s.len() > 1 && s[1] == '=' {
            tok_is(t, TokenKind::MinusEqual, s.take(2))
        } else if s.len() > 1 && s[1] == '>' {
            tok_is(t, TokenKind::MinusGreater, s.take(2))
        } else if s.len() > 1 && s[1] == '-' {
            tok_is(t, TokenKind::MinusMinus, s.take(2))
        } else {
            tok_is(t, TokenKind::Minus, s.take(1))
        }
    } else if c == '&' {
        if s.len() > 1 && s[1] == '=' {
            tok_is(t, TokenKind::AmpEqual, s.take(2))
        } else if s.len() > 1 && s[1] == '&' {
            tok_is(t, TokenKind::AmpAmp, s.take(2))
        } else {
            tok_is(t, TokenKind::Amp, s.take(1))
        }
    } else if c == '|' {
        if s.len() > 1 && s[1] == '=' {
            tok_is(t, TokenKind::BarEqual, s.take(2))
        } else if s.len() > 1 && s[1] == '|' {
            tok_is(t, TokenKind::BarBar, s.take(2))
        } else {
            tok_is(t, TokenKind::Bar, s.take(1))
        }
    } else if c == '>' {
        if s.len() > 1 && s[1] == '=' {
            tok_is(t, TokenKind::GreaterEqual, s.take(2))
        } else if s.len() > 1 && s[1] == '>' {
            if s.len() > 2 && s[2] == '=' {
                tok_is(t, TokenKind::GreaterGreaterEqual, s.take(3))
            } else {
                tok_is(t, TokenKind::GreaterGreater, s.take(2))
            }
        } else {
            tok_is(t, TokenKind::Greater, s.take(1))
        }
    } else if c == '<' {
        if s.len() > 1 && s[1] == '=' {
            tok_is(t, TokenKind::LessEqual, s.take(2))
        } else if s.len() > 1 && s[1] == '<' {
            if s.len() > 2 && s[2] == '=' {
                tok_is(t, TokenKind::LessLessEqual, s.take(3))
            } else {
                tok_is(t, TokenKind::LessLess, s.take(2))
            }
        } else {
            tok_is(t, TokenKind::Less, s.take(1))
        }
    } else if c == '?' {
        if s.len() > 1 && s[1] == '?' {
            if s.len() > 2 && s[2] == '=' {
                tok_is(t, TokenKind::QuestionQuestionEquals, s.take(3))
            } else {
                tok_is(t, TokenKind::QuestionQuestion, s.take(2))
            }
        } else if s.len() > 1 && s[1] == '.' {
            tok_is(t, TokenKind::QuestionDot, s.take(2))
        } else if s.len() > 1 && s[1] == '[' {
            tok_is(t, TokenKind::QuestionLBracket, s.take(2))
        } else {
            tok_is(t, TokenKind::Question, s.take(1))
        }
    } else if c == '=' {
        if s.len() > 1 && s[1] == '=' {
            tok_is(t, TokenKind::EqualEqual, s.take(2))
        } else if s.len() > 1 && s[1] == '>' {
            tok_is(t, TokenKind::EqualsGreater, s.take(2))
        } else {
            tok_is(t, TokenKind::Equal, s.take(1))
        }
    } else if c == '!' {
        op2_form(s, t, '=', TokenKind::BangEqual, TokenKind::Bang)
    } else if c == '%' {
        op2_form(s, t, '=', TokenKind::PercentEqual, TokenKind::Percent)
    } else if c == ':' {
        op2_form(s, t, ':', TokenKind::ColonColon, TokenKind::Colon)
    } else if c == '.' {
        if s.len() > 1 && s[1] == '.' {
            if s.len() > 2 && s[2] == '=' {
                tok_is(t, TokenKind::DotDotEqual, s.take(3))
            } else {
                tok_is(t, TokenKind::DotDot, s.take(2))
            }
        } else {
            tok_is(t, TokenKind::Dot, s.take(1))
        }
    } else if c == '~' {
        op2_form(s, t, '=', TokenKind::TildeEqual, TokenKind::Tilde)
    } else if c == '^' {
        op2_form(s, t, '=', TokenKind::CaretEqual, TokenKind::Caret)
    } else if c == ',' {
        tok_is(t, TokenKind::Comma, s.take(1))
    } else if c == ';' {
        tok_is(t, TokenKind::Semicolon, s.take(1))
    } else if c == '(' {
        tok_is(t, TokenKind::LParen, s.take(1))
    } else if c == ')' {
        tok_is(t, TokenKind::RParen, s.take(1))
    } else if c == '[' {
        tok_is(t, TokenKind::LBracket, s.take(1))
    } else if c == ']' {
        tok_is(t, TokenKind::RBracket, s.take(1))
    } else if c == '{' {
        tok_is(t, TokenKind::LBrace, s.take(1))
    } else if c == '}' {
        tok_is(t, TokenKind::RBrace, s.take(1))
    } else if c == '"' {
        let (e, term) = string_scan(s, 1);
        tok_is(t, TokenKind::StringLiteral { terminated: term }, s.take(e))
    } else if c == '\'' {
        let (e, term) = char_scan(s, 1);
        tok_is(t, TokenKind::CharLiteral { terminated: term }, s.take(e))
    } else if is_dec_digit(c) {
        number_form(s, t)
    } else {
        word_form(s, t)
    }
}

} // verus!

// Concatenation of token texts, and its algebra.

verus! {

/// The text of a token sequence: the concatenation of the `value` fields.
pub open spec fn toks_text(ts: Seq<Token>) -> Seq<char>
    decreases ts.len(),
{
    if ts.len() == 0 {
        Seq::empty()
    } else {
        ts[0].value@ + toks_text(ts.drop_first())
    }
}

/// Where in the source the `i`-th token of a lexed sequence begins.
pub open spec fn lex_offset(ts: Seq<Token>, i: int) -> int {
    toks_text(ts.take(i)).len() as int
}

/// Appending one token appends its text.
pub proof fn lemma_toks_text_push(ts: Seq<Token>, t: Token)
    ensures
        toks_text(ts.push(t)) == toks_text(ts) + t.value@,
    decreases ts.len(),
{
    if ts.len() == 0 {
        assert(ts.push(t).drop_first() =~= Seq::empty());
        assert(toks_text(ts.push(t)) =~= t.value@ + toks_text(Seq::empty()));
        assert(toks_text(ts.push(t)) =~= toks_text(ts) + t.value@);
    } else {
        assert(ts.push(t).drop_first() =~= ts.drop_first().push(t));
        lemma_toks_text_push(ts.drop_first(), t);
        assert(toks_text(ts.push(t)) =~= toks_text(ts) + t.value@);
    }
}

/// Concatenation of token sequences concatenates their texts.
pub proof fn lemma_toks_text_add(a: Seq<Token>, b: Seq<Token>)
    ensures
        toks_text(a + b) == toks_text(a) + toks_text(b),
    decreases b.len(),
{
    if b.len() == 0 {
        assert(a + b =~= a);
        assert(toks_text(a) + toks_text(b) =~= toks_text(a));
    } else {
        lemma_toks_text_add(a, b.drop_last());
        assert(a + b =~= (a + b.drop_last()).push(b.last()));
        lemma_toks_text_push(a + b.drop_last(), b.last());
        lemma_toks_text_push(b.drop_last(), b.last());
        assert(b.drop_last().push(b.last()) =~= b);
        assert(toks_text(a + b) =~= toks_text(a) + toks_text(b));
    }
}

} // verus!

// Real tokens: the tokens of a tree that came from the input, as opposed to
// synthesized zero-length placeholders, which have empty text.

verus! {

/// Every token in the sequence has non-empty text. True of everything the
/// lexer produces.
pub open spec fn toks_nonempty(ts: Seq<Token>) -> bool {
    forall|i: int| 0 <= i < ts.len() ==> (#[trigger] ts[i]).value@.len() > 0
}

/// The subsequence of tokens with non-empty text. On the token list of a
/// parse tree this drops exactly the synthesized placeholders.
pub open spec fn real_toks(ts: Seq<Token>) -> Seq<Token>
    decreases ts.len(),
{
    if ts.len() == 0 {
        Seq::empty()
    } else if ts[0].value@.len() > 0 {
        seq![ts[0]] + real_toks(ts.drop_first())
    } else {
        real_toks(ts.drop_first())
    }
}

/// Dropping empty-text tokens distributes over concatenation.
pub proof fn lemma_real_add(a: Seq<Token>, b: Seq<Token>)
    ensures
        real_toks(a + b) == real_toks(a) + real_toks(b),
    decreases a.len(),
{
    if a.len() == 0 {
        assert(a + b =~= b);
        assert(real_toks(a) + real_toks(b) =~= real_toks(b));
    } else {
        assert((a + b).drop_first() =~= a.drop_first() + b);
        lemma_real_add(a.drop_first(), b);
        if a[0].value@.len() > 0 {
            assert(seq![a[0]] + (real_toks(a.drop_first()) + real_toks(b)) =~= real_toks(a)
                + real_toks(b));
        }
    }
}

/// A sequence of non-empty tokens is all real.
pub proof fn lemma_real_id(ts: Seq<Token>)
    requires
        toks_nonempty(ts),
    ensures
        real_toks(ts) == ts,
    decreases ts.len(),
{
    if ts.len() > 0 {
        assert(toks_nonempty(ts.drop_first()));
        lemma_real_id(ts.drop_first());
        assert(seq![ts[0]] + ts.drop_first() =~= ts);
    }
}

/// A slice of a sequence of non-empty tokens is all real.
pub proof fn lemma_real_subrange(ts: Seq<Token>, a: int, b: int)
    requires
        toks_nonempty(ts),
        0 <= a <= b <= ts.len(),
    ensures
        real_toks(ts.subrange(a, b)) == ts.subrange(a, b),
{
    assert(toks_nonempty(ts.subrange(a, b)));
    lemma_real_id(ts.subrange(a, b));
}

/// Dropping empty-text tokens does not change the text.
pub proof fn lemma_real_text(ts: Seq<Token>)
    ensures
        toks_text(real_toks(ts)) == toks_text(ts),
    decreases ts.len(),
{
    if ts.len() > 0 {
        lemma_real_text(ts.drop_first());
        if ts[0].value@.len() > 0 {
            lemma_toks_text_add(seq![ts[0]], real_toks(ts.drop_first()));
            assert(seq![ts[0]].drop_first() =~= Seq::<Token>::empty());
            assert(toks_text(Seq::<Token>::empty()) =~= Seq::<char>::empty());
            assert(toks_text(seq![ts[0]]) == ts[0].value@ + toks_text(Seq::<Token>::empty()));
            assert(toks_text(seq![ts[0]]) =~= ts[0].value@);
            assert(toks_text(real_toks(ts)) =~= toks_text(ts));
        } else {
            assert(ts[0].value@ =~= Seq::<char>::empty());
            assert(toks_text(ts) =~= toks_text(ts.drop_first()));
        }
    }
}

/// Adjacent slices of one consumed range join.
pub proof fn lemma_real_join(ts: Seq<Token>, a: int, b: int, c: int, x: Seq<Token>, y: Seq<Token>)
    requires
        0 <= a <= b <= c <= ts.len(),
        real_toks(x) == ts.subrange(a, b),
        real_toks(y) == ts.subrange(b, c),
    ensures
        real_toks(x + y) == ts.subrange(a, c),
{
    lemma_real_add(x, y);
    assert(ts.subrange(a, b) + ts.subrange(b, c) =~= ts.subrange(a, c));
}

} // verus!

verus! {

/// The empty sequence has no real tokens.
pub proof fn lemma_real_empty()
    ensures
        real_toks(Seq::<Token>::empty()) == Seq::<Token>::empty(),
{
}

/// One token is real exactly when its text is non-empty.
pub proof fn lemma_real_singleton(t: Token)
    ensures
        real_toks(seq![t]) == if t.value@.len() > 0 {
            seq![t]
        } else {
            Seq::<Token>::empty()
        },
{
    assert(seq![t].drop_first() =~= Seq::<Token>::empty());
    lemma_real_empty();
    if t.value@.len() > 0 {
        assert(real_toks(seq![t]) =~= seq![t]);
    } else {
        assert(real_toks(seq![t]) =~= Seq::<Token>::empty());
    }
}

} // verus!

// Interleavings: how a consumed token range splits into the tokens a tree
// keeps and the tokens error recovery throws away.

verus! {

/// `ts` is an in-order merge of `a` and `b`: every token of `ts` belongs to
/// exactly one of the two, and each keeps its order.
pub open spec fn is_interleaving(ts: Seq<Token>, a: Seq<Token>, b: Seq<Token>) -> bool
    decreases ts.len(),
{
    if ts.len() == 0 {
        a.len() == 0 && b.len() == 0
    } else {
        ||| (a.len() > 0 && a[0] == ts[0] && is_interleaving(ts.drop_first(), a.drop_first(), b))
        ||| (b.len() > 0 && b[0] == ts[0] && is_interleaving(ts.drop_first(), a, b.drop_first()))
    }
}

/// A sequence is the merge of itself with nothing.
pub proof fn lemma_interleaving_id(ts: Seq<Token>)
    ensures
        is_interleaving(ts, ts, Seq::<Token>::empty()),
    decreases ts.len(),
{
    if ts.len() > 0 {
        lemma_interleaving_id(ts.drop_first());
    }
}

/// Merging with nothing changes nothing.
pub proof fn lemma_interleaving_empty(ts: Seq<Token>, a: Seq<Token>)
    requires
        is_interleaving(ts, a, Seq::<Token>::empty()),
    ensures
        a == ts,
    decreases ts.len(),
{
    if ts.len() == 0 {
        assert(a =~= ts);
    } else {
        assert(Seq::<Token>::empty().len() == 0);
        assert(is_interleaving(ts, a, Seq::<Token>::empty()) == ((a.len() > 0 && a[0] == ts[0]
            && is_interleaving(ts.drop_first(), a.drop_first(), Seq::<Token>::empty())) || (
        Seq::<Token>::empty().len() > 0 && Seq::<Token>::empty()[0] == ts[0] && is_interleaving(
            ts.drop_first(),
            a,
            Seq::<Token>::empty().drop_first(),
        ))));
        assert(a.len() > 0 && a[0] == ts[0] && is_interleaving(
            ts.drop_first(),
            a.drop_first(),
            Seq::<Token>::empty(),
        ));
        lemma_interleaving_empty(ts.drop_first(), a.drop_first());
        assert(a.len() == ts.len());
        assert forall|i: int| 0 <= i < ts.len() implies a[i] == ts[i] by {
            if i > 0 {
                assert(a.drop_first()[i - 1] == ts.drop_first()[i - 1]);
            }
        }
        assert(a =~= ts);
    }
}

/// Interleavings of adjacent ranges concatenate.
pub proof fn lemma_interleaving_add(
    t1: Seq<Token>,
    a1: Seq<Token>,
    b1: Seq<Token>,
    t2: Seq<Token>,
    a2: Seq<Token>,
    b2: Seq<Token>,
)
    requires
        is_interleaving(t1, a1, b1),
        is_interleaving(t2, a2, b2),
    ensures
        is_interleaving(t1 + t2, a1 + a2, b1 + b2),
    decreases t1.len(),
{
    if t1.len() == 0 {
        assert(t1 + t2 =~= t2);
        assert(a1 + a2 =~= a2);
        assert(b1 + b2 =~= b2);
    } else {
        assert((t1 + t2).drop_first() =~= t1.drop_first() + t2);
        if a1.len() > 0 && a1[0] == t1[0] && is_interleaving(t1.drop_first(), a1.drop_first(), b1) {
            lemma_interleaving_add(t1.drop_first(), a1.drop_first(), b1, t2, a2, b2);
            assert((a1 + a2).drop_first() =~= a1.drop_first() + a2);
            assert((a1 + a2)[0] == (t1 + t2)[0]);
        } else {
            lemma_interleaving_add(t1.drop_first(), a1, b1.drop_first(), t2, a2, b2);
            assert((b1 + b2).drop_first() =~= b1.drop_first() + b2);
            assert((b1 + b2)[0] == (t1 + t2)[0]);
        }
    }
}

/// A discarded token at the front goes to the discard side of the merge.
pub proof fn lemma_interleaving_junk_head(ts: Seq<Token>, a: Seq<Token>, b: Seq<Token>, j: Token)
    requires
        is_interleaving(ts, a, b),
    ensures
        is_interleaving(seq![j] + ts, a, seq![j] + b),
{
    assert((seq![j] + ts).drop_first() =~= ts);
    assert((seq![j] + b).drop_first() =~= b);
    assert((seq![j] + b)[0] == (seq![j] + ts)[0]);
}

/// An element of a prefix is the same element of the whole.
pub proof fn lemma_prefix_index<A>(a: Seq<A>, b: Seq<A>, i: int)
    requires
        a.is_prefix_of(b),
        0 <= i < a.len(),
    ensures
        a[i] == b[i],
{
    assert(a[i] == b.subrange(0, a.len() as int)[i]);
}

/// A suffix taken in two steps, across an intermediate prefix.
pub proof fn lemma_skip_chain<A>(a: Seq<A>, b: Seq<A>, c: Seq<A>)
    requires
        a.is_prefix_of(b),
        b.is_prefix_of(c),
    ensures
        c.skip(a.len() as int) =~= b.skip(a.len() as int) + c.skip(b.len() as int),
{
    assert forall|i: int| 0 <= i < c.len() - a.len() implies c.skip(a.len() as int)[i] == (b.skip(
        a.len() as int,
    ) + c.skip(b.len() as int))[i] by {
        if i < b.len() - a.len() {
            lemma_prefix_index(b, c, a.len() + i);
        }
    }
}

} // verus!
