//! The scanner: classifies the head of the remaining input into one token.
//!
//! Every routine here is proved against [`token_form`]: the token it returns
//! is exactly the one the specification assigns to the remaining input, it
//! consumes exactly that token's characters, and it always consumes at least
//! one, so lexing terminates on every input.

use vstd::prelude::*;
use vstd::string::StringExecFns;

use crate::chars::is_bin_digit;
use crate::chars::is_dec_digit;
use crate::chars::is_hex_digit;
use crate::chars::is_literal_char;
use crate::chars::is_newline_char;
use crate::chars::is_oct_digit;
use crate::chars::is_whitespace_char;
use crate::chars::is_literal;
use crate::chars::potential_eol;
use crate::chars::potential_whitespace;
use crate::cursor::Cursor;
use crate::tokens::Base;
use crate::tokens::Token;
use crate::tokens::TokenKind;
use crate::tokens::based_end;
use crate::tokens::char_scan;
use crate::tokens::continues_base;
use crate::tokens::decimal_end;
use crate::tokens::digit_of;
use crate::tokens::has_digit_between;
use crate::tokens::keyword_kind;
use crate::tokens::lemma_toks_text_push;
use crate::tokens::lex_offset;
use crate::tokens::line_end;
use crate::tokens::toks_text;
use crate::tokens::literal_end;
use crate::tokens::multiline_scan;
use crate::tokens::string_scan;
use crate::tokens::token_form;
use crate::tokens::whitespace_end;

verus! {

/// Runtime test for [`is_dec_digit`].
fn dec_digit(c: char) -> (b: bool)
    ensures
        b == is_dec_digit(c),
{
    let u = c as u32;
    48 <= u && u <= 57
}

/// Runtime test for [`is_bin_digit`].
fn bin_digit(c: char) -> (b: bool)
    ensures
        b == is_bin_digit(c),
{
    c == '0' || c == '1'
}

/// Runtime test for [`is_oct_digit`].
fn oct_digit(c: char) -> (b: bool)
    ensures
        b == is_oct_digit(c),
{
    let u = c as u32;
    48 <= u && u <= 55
}

/// Runtime test for [`is_hex_digit`].
fn hex_digit(c: char) -> (b: bool)
    ensures
        b == is_hex_digit(c),
{
    let u = c as u32;
    (48 <= u && u <= 57) || (97 <= u && u <= 102) || (65 <= u && u <= 70)
}

/// The keyword kind for an identifier text, if any.
pub fn bake_keyword(identifier: &String) -> (r: Option<TokenKind>)
    ensures
        r == keyword_kind(identifier@),
{
    proof {
        reveal_strlit("let");
        reveal_strlit("mut");
        reveal_strlit("match");
        reveal_strlit("for");
        reveal_strlit("in");
        reveal_strlit("while");
        reveal_strlit("if");
        reveal_strlit("else");
        reveal_strlit("fn");
        reveal_strlit("return");
        reveal_strlit("break");
        reveal_strlit("true");
        reveal_strlit("false");
        assert("let"@ =~= seq!['l', 'e', 't']);
        assert("mut"@ =~= seq!['m', 'u', 't']);
        assert("match"@ =~= seq!['m', 'a', 't', 'c', 'h']);
        assert("for"@ =~= seq!['f', 'o', 'r']);
        assert("in"@ =~= seq!['i', 'n']);
        assert("while"@ =~= seq!['w', 'h', 'i', 'l', 'e']);
        assert("if"@ =~= seq!['i', 'f']);
        assert("else"@ =~= seq!['e', 'l', 's', 'e']);
        assert("fn"@ =~= seq!['f', 'n']);
        assert("return"@ =~= seq!['r', 'e', 't', 'u', 'r', 'n']);
        assert("break"@ =~= seq!['b', 'r', 'e', 'a', 'k']);
        assert("true"@ =~= seq!['t', 'r', 'u', 'e']);
        assert("false"@ =~= seq!['f', 'a', 'l', 's', 'e']);
    }
    if *identifier == String::from_str("let") {
        Some(TokenKind::LetKeyword)
    } else if *identifier == String::from_str("mut") {
        Some(TokenKind::MutKeyword)
    } else if *identifier == String::from_str("match") {
        Some(TokenKind::MatchKeyword)
    } else if *identifier == String::from_str("for") {
        Some(TokenKind::ForKeyword)
    } else if *identifier == String::from_str("in") {
        Some(TokenKind::InKeyword)
    } else if *identifier == String::from_str("while") {
        Some(TokenKind::WhileKeyword)
    } else if *identifier == String::from_str("if") {
        Some(TokenKind::IfKeyword)
    } else if *identifier == String::from_str("else") {
        Some(TokenKind::ElseKeyword)
    } else if *identifier == String::from_str("fn") {
        Some(TokenKind::FunctionKeyword)
    } else if *identifier == String::from_str("return") {
        Some(TokenKind::ReturnKeyword)
    } else if *identifier == String::from_str("break") {
        Some(TokenKind::BreakKeyword)
    } else if *identifier == String::from_str("true") {
        Some(TokenKind::TrueKeyword)
    } else if *identifier == String::from_str("false") {
        Some(TokenKind::FalseKeyword)
    } else {
        None
    }
}

impl<'a> Cursor<'a> {
    /// Build the token for the characters consumed since `start`.
    fn token_at(&self, start: usize, kind: TokenKind) -> (t: Token)
        requires
            self.wf(),
            start <= self.at(),
        ensures
            t.kind == kind,
            t.value@ == self.all().subrange(start as int, self.at()),
            t.len == self.at() - start,
    {
        let v = self.taken_since(start);
        let n = self.mark() - start;
        Token::new(kind, v, n)
    }

    /// Lex the token that starts at `start`, whose first character `c` has
    /// already been consumed, when `c` opens a newline token.
    fn lex_newline(&mut self, start: usize, c: char) -> (r: Option<Token>)
        requires
            old(self).wf(),
            start + 1 == old(self).at(),
            old(self).all()[start as int] == c,
        ensures
            final(self).wf(),
            final(self).all() == old(self).all(),
            old(self).at() <= final(self).at(),
            r is Some <==> is_newline_char(c),
            r is None ==> *final(self) == *old(self),
            r is Some ==> token_form(old(self).all().skip(start as int), r->Some_0)
                && r->Some_0.len == final(self).at() - start
                && r->Some_0.value@ == old(self).all().subrange(start as int, final(self).at()),
    {
        let ghost s = self.all().skip(start as int);
        if c == '\r' {
            if self.peek() == '\n' {
                let _ = self.eat();
                let t = self.token_at(start, TokenKind::Newline);
                proof {
                    assert(t.value@ =~= s.take(2));
                    assert(token_form(s, t));
                }
                Some(t)
            } else {
                let t = self.token_at(start, TokenKind::Newline);
                proof {
                    assert(t.value@ =~= s.take(1));
                    assert(token_form(s, t));
                }
                Some(t)
            }
        } else if c == '\n' {
            let t = self.token_at(start, TokenKind::Newline);
            proof {
                assert(t.value@ =~= s.take(1));
                assert(token_form(s, t));
            }
            Some(t)
        } else {
            None
        }
    }

    /// Lex trivia: a newline token, or a maximal run of whitespace. Returns
    /// `None`, leaving the cursor untouched, when `c` opens neither.
    fn eat_trivia(&mut self, start: usize, c: char) -> (r: Option<Token>)
        requires
            old(self).wf(),
            start + 1 == old(self).at(),
            old(self).all()[start as int] == c,
        ensures
            final(self).wf(),
            final(self).all() == old(self).all(),
            old(self).at() <= final(self).at(),
            r is Some <==> (is_newline_char(c) || is_whitespace_char(c)),
            r is None ==> *final(self) == *old(self),
            r is Some ==> token_form(old(self).all().skip(start as int), r->Some_0)
                && r->Some_0.len == final(self).at() - start
                && r->Some_0.value@ == old(self).all().subrange(start as int, final(self).at()),
    {
        let newline = self.lex_newline(start, c);
        if newline.is_some() {
            return newline;
        }
        if !potential_whitespace(c) {
            return None;
        }
        let ghost all0 = self.all();
        let ghost s = all0.skip(start as int);
        loop
            invariant
                s == all0.skip(start as int),
                self.wf(),
                self.all() == all0,
                start < self.at() <= all0.len(),
                whitespace_end(s, 1) == whitespace_end(s, self.at() - start),
            ensures
                self.wf(),
                self.all() == all0,
                start < self.at() <= all0.len(),
                whitespace_end(s, 1) == self.at() - start,
            decreases all0.len() - self.at(),
        {
            proof {
                assert(self.at() < all0.len() ==> s[self.at() - start] == all0[self.at()]);
            }
            if self.is_eof() || !potential_whitespace(self.peek()) {
                proof {
                    let rel = self.at() - start;
                    assert(whitespace_end(s, rel) == rel);
                }
                break;
            }
            let _ = self.eat();
        }
        let t = self.token_at(start, TokenKind::Whitespace);
        proof {
            assert(t.value@ =~= s.take(whitespace_end(s, 1)));
            assert(token_form(s, t));
        }
        Some(t)
    }

    /// Lex to the end of the current line, for line comments.
    fn lex_to_eol(&mut self)
        requires
            old(self).wf(),
        ensures
            final(self).wf(),
            final(self).all() == old(self).all(),
            old(self).at() <= final(self).at() <= old(self).all().len(),
            line_end(old(self).all(), old(self).at()) == final(self).at(),
    {
        let ghost all0 = self.all();
        let ghost p0 = self.at();
        loop
            invariant
                self.wf(),
                self.all() == all0,
                p0 <= self.at() <= all0.len(),
                line_end(all0, p0) == line_end(all0, self.at()),
            ensures
                self.wf(),
                self.all() == all0,
                p0 <= self.at() <= all0.len(),
                line_end(all0, p0) == self.at(),
            decreases all0.len() - self.at(),
        {
            if self.is_eof() || potential_eol(self.peek()) {
                break;
            }
            let _ = self.eat();
        }
    }

    /// Lex a line comment; `//` has been consumed.
    fn lex_line_comment(&mut self, start: usize) -> (t: Token)
        requires
            old(self).wf(),
            start + 2 == old(self).at(),
            old(self).all()[start as int] == '/',
            old(self).all()[start + 1] == '/',
        ensures
            final(self).wf(),
            final(self).all() == old(self).all(),
            old(self).at() <= final(self).at() <= old(self).all().len(),
            token_form(old(self).all().skip(start as int), t),
            t.len == final(self).at() - start,
            t.value@ == old(self).all().subrange(start as int, final(self).at()),
    {
        let ghost all0 = self.all();
        let ghost s = all0.skip(start as int);
        self.lex_to_eol();
        proof {
            lemma_line_end_shift(all0, start as int, start + 2);
        }
        let t = self.token_at(start, TokenKind::LineComment);
        proof {
            assert(t.value@ =~= s.take(line_end(s, 2)));
            assert(token_form(s, t));
        }
        t
    }

    /// Lex a multi-line comment; `/*` has been consumed. The first `*/`
    /// closes it; at end of input the token is marked unterminated.
    fn lex_multiline_comment(&mut self, start: usize) -> (t: Token)
        requires
            old(self).wf(),
            start + 2 == old(self).at(),
            old(self).all()[start as int] == '/',
            old(self).all()[start + 1] == '*',
        ensures
            final(self).wf(),
            final(self).all() == old(self).all(),
            old(self).at() <= final(self).at() <= old(self).all().len(),
            token_form(old(self).all().skip(start as int), t),
            t.len == final(self).at() - start,
            t.value@ == old(self).all().subrange(start as int, final(self).at()),
    {
        let ghost all0 = self.all();
        let ghost s = all0.skip(start as int);
        let mut terminated = false;
        loop
            invariant_except_break
                s == all0.skip(start as int),
                self.wf(),
                self.all() == all0,
                start + 2 <= self.at() <= all0.len(),
                !terminated,
                multiline_scan(s, 2) == multiline_scan(s, self.at() - start),
            ensures
                self.wf(),
                self.all() == all0,
                start + 2 <= self.at() <= all0.len(),
                multiline_scan(s, 2) == (self.at() - start, terminated),
            decreases all0.len() - self.at(),
        {
            proof {
                let rel = self.at() - start;
                assert(s == all0.skip(start as int));
                assert(rel < s.len() ==> s[rel] == all0[self.at()]);
                assert(rel + 1 < s.len() ==> s[rel + 1] == all0[self.at() + 1]);
            }
            if self.peek() == '*' && self.peekn(1) == '/' {
                let _ = self.eat();
                let _ = self.eat();
                terminated = true;
                break;
            }
            if self.is_eof() {
                break;
            }
            let _ = self.eat();
        }
        let t = self.token_at(start, TokenKind::MultilineComment { terminated });
        proof {
            assert(t.value@ =~= s.take(multiline_scan(s, 2).0));
            assert(token_form(s, t));
        }
        t
    }

    /// Lex a string literal; the opening `"` has been consumed. `\"` does not
    /// close it; at end of input the token is marked unterminated.
    fn lex_string_literal(&mut self, start: usize) -> (t: Token)
        requires
            old(self).wf(),
            start + 1 == old(self).at(),
            old(self).all()[start as int] == '"',
        ensures
            final(self).wf(),
            final(self).all() == old(self).all(),
            old(self).at() <= final(self).at() <= old(self).all().len(),
            token_form(old(self).all().skip(start as int), t),
            t.len == final(self).at() - start,
            t.value@ == old(self).all().subrange(start as int, final(self).at()),
    {
        let ghost all0 = self.all();
        let ghost s = all0.skip(start as int);
        let mut terminated = false;
        loop
            invariant_except_break
                s == all0.skip(start as int),
                self.wf(),
                self.all() == all0,
                start + 1 <= self.at() <= all0.len(),
                !terminated,
                string_scan(s, 1) == string_scan(s, self.at() - start),
            ensures
                self.wf(),
                self.all() == all0,
                start + 1 <= self.at() <= all0.len(),
                string_scan(s, 1) == (self.at() - start, terminated),
            decreases all0.len() - self.at(),
        {
            proof {
                let rel = self.at() - start;
                assert(s == all0.skip(start as int));
                assert(rel < s.len() ==> s[rel] == all0[self.at()]);
                assert(rel + 1 < s.len() ==> s[rel + 1] == all0[self.at() + 1]);
            }
            if self.is_eof() {
                break;
            }
            if self.peek() == '"' {
                let _ = self.eat();
                terminated = true;
                break;
            }
            if self.peek() == '\\' && self.peekn(1) == '"' {
                let _ = self.eat();
            }
            let _ = self.eat();
        }
        let t = self.token_at(start, TokenKind::StringLiteral { terminated });
        proof {
            assert(t.value@ =~= s.take(string_scan(s, 1).0));
            assert(token_form(s, t));
        }
        t
    }

    /// Lex a character literal; the opening `'` has been consumed. `\'` does
    /// not close it; a newline or the end of the input leaves it unterminated.
    fn lex_char_literal(&mut self, start: usize) -> (t: Token)
        requires
            old(self).wf(),
            start + 1 == old(self).at(),
            old(self).all()[start as int] == '\'',
        ensures
            final(self).wf(),
            final(self).all() == old(self).all(),
            old(self).at() <= final(self).at() <= old(self).all().len(),
            token_form(old(self).all().skip(start as int), t),
            t.len == final(self).at() - start,
            t.value@ == old(self).all().subrange(start as int, final(self).at()),
    {
        let ghost all0 = self.all();
        let ghost s = all0.skip(start as int);
        let mut terminated = false;
        loop
            invariant_except_break
                s == all0.skip(start as int),
                self.wf(),
                self.all() == all0,
                start + 1 <= self.at() <= all0.len(),
                !terminated,
                char_scan(s, 1) == char_scan(s, self.at() - start),
            ensures
                self.wf(),
                self.all() == all0,
                start + 1 <= self.at() <= all0.len(),
                char_scan(s, 1) == (self.at() - start, terminated),
            decreases all0.len() - self.at(),
        {
            proof {
                let rel = self.at() - start;
                assert(s == all0.skip(start as int));
                assert(rel < s.len() ==> s[rel] == all0[self.at()]);
                assert(rel + 1 < s.len() ==> s[rel + 1] == all0[self.at() + 1]);
            }
            if self.is_eof() {
                break;
            }
            if self.peek() == '\'' {
                let _ = self.eat();
                terminated = true;
                break;
            }
            if potential_eol(self.peek()) {
                break;
            }
            if self.peek() == '\\' && self.peekn(1) == '\'' {
                let _ = self.eat();
            }
            let _ = self.eat();
        }
        let t = self.token_at(start, TokenKind::CharLiteral { terminated });
        proof {
            assert(t.value@ =~= s.take(char_scan(s, 1).0));
            assert(token_form(s, t));
        }
        t
    }

    /// Lex the digits of a number literal with a base prefix; the prefix
    /// (`0b`, `0o` or `0x`) has been consumed.
    fn lex_based(&mut self, start: usize, base: Base) -> (t: Token)
        requires
            old(self).wf(),
            start + 2 == old(self).at(),
            base != Base::Decimal,
        ensures
            final(self).wf(),
            final(self).all() == old(self).all(),
            old(self).at() <= final(self).at() <= old(self).all().len(),
            ({
                let s = old(self).all().skip(start as int);
                let e = based_end(s, 2, base);
                &&& final(self).at() - start == e
                &&& t.kind == TokenKind::NumberLiteral {
                    base,
                    has_digits: has_digit_between(s, 2, e, base),
                }
                &&& t.value@ == s.take(e)
                &&& t.len == e
            }),
    {
        let ghost all0 = self.all();
        let ghost s = all0.skip(start as int);
        let mut has_digits = false;
        loop
            invariant
                base != Base::Decimal,
                s == all0.skip(start as int),
                self.wf(),
                self.all() == all0,
                start + 2 <= self.at() <= all0.len(),
                based_end(s, 2, base) == based_end(s, self.at() - start, base),
                has_digits == has_digit_between(s, 2, self.at() - start, base),
            ensures
                self.wf(),
                self.all() == all0,
                start + 2 <= self.at() <= all0.len(),
                based_end(s, 2, base) == self.at() - start,
                has_digits == has_digit_between(s, 2, self.at() - start, base),
            decreases all0.len() - self.at(),
        {
            proof {
                let rel = self.at() - start;
                assert(s == all0.skip(start as int));
                assert(rel < s.len() ==> s[rel] == all0[self.at()]);
            }
            let ghost rel = self.at() - start;
            if self.is_eof() {
                proof {
                    assert(rel >= s.len());
                    assert(based_end(s, rel, base) == rel);
                }
                break;
            }
            let c = self.peek();
            let continues = match base {
                Base::Binary => c == '_' || bin_digit(c),
                Base::Octal => c == '_' || oct_digit(c),
                Base::Hexadecimal => c == '_' || hex_digit(c),
                Base::Decimal => false,
            };
            if !continues {
                proof {
                    assert(!continues_base(s[rel], base));
                    assert(based_end(s, rel, base) == rel);
                }
                break;
            }
            let is_digit = match base {
                Base::Binary => bin_digit(c),
                Base::Octal => oct_digit(c),
                Base::Hexadecimal => hex_digit(c),
                Base::Decimal => false,
            };
            if is_digit {
                has_digits = true;
            }
            let _ = self.eat();
            proof {
                if is_digit {
                    assert(digit_of(s[rel], base));
                    assert(has_digit_between(s, 2, rel + 1, base));
                } else {
                    assert(forall|k: int| 2 <= k < rel + 1 && k < s.len() && digit_of(
                        #[trigger] s[k],
                        base,
                    ) ==> k < rel);
                    assert(has_digit_between(s, 2, rel + 1, base) == has_digit_between(
                        s,
                        2,
                        rel,
                        base,
                    ));
                }
            }
        }
        let t = self.token_at(
            start,
            TokenKind::NumberLiteral { base, has_digits },
        );
        proof {
            assert(t.value@ =~= s.take(based_end(s, 2, base)));
        }
        t
    }

    /// Lex a binary number literal; `0b` has been consumed.
    fn lex_binary(&mut self, start: usize) -> (t: Token)
        requires
            old(self).wf(),
            start + 2 == old(self).at(),
            old(self).all()[start as int] == '0',
            old(self).all()[start + 1] == 'b',
        ensures
            final(self).wf(),
            final(self).all() == old(self).all(),
            old(self).at() <= final(self).at() <= old(self).all().len(),
            token_form(old(self).all().skip(start as int), t),
            t.len == final(self).at() - start,
            t.value@ == old(self).all().subrange(start as int, final(self).at()),
    {
        let t = self.lex_based(start, Base::Binary);
        proof {
            let s = old(self).all().skip(start as int);
            assert(s[0] == '0' && s[1] == 'b');
            assert(token_form(s, t));
        }
        t
    }

    /// Lex an octal number literal; `0o` has been consumed.
    fn lex_octal(&mut self, start: usize) -> (t: Token)
        requires
            old(self).wf(),
            start + 2 == old(self).at(),
            old(self).all()[start as int] == '0',
            old(self).all()[start + 1] == 'o',
        ensures
            final(self).wf(),
            final(self).all() == old(self).all(),
            old(self).at() <= final(self).at() <= old(self).all().len(),
            token_form(old(self).all().skip(start as int), t),
            t.len == final(self).at() - start,
            t.value@ == old(self).all().subrange(start as int, final(self).at()),
    {
        let t = self.lex_based(start, Base::Octal);
        proof {
            let s = old(self).all().skip(start as int);
            assert(s[0] == '0' && s[1] == 'o');
            assert(token_form(s, t));
        }
        t
    }

    /// Lex a hexadecimal number literal; `0x` has been consumed.
    fn lex_hexadecimal(&mut self, start: usize) -> (t: Token)
        requires
            old(self).wf(),
            start + 2 == old(self).at(),
            old(self).all()[start as int] == '0',
            old(self).all()[start + 1] == 'x',
        ensures
            final(self).wf(),
            final(self).all() == old(self).all(),
            old(self).at() <= final(self).at() <= old(self).all().len(),
            token_form(old(self).all().skip(start as int), t),
            t.len == final(self).at() - start,
            t.value@ == old(self).all().subrange(start as int, final(self).at()),
    {
        let t = self.lex_based(start, Base::Hexadecimal);
        proof {
            let s = old(self).all().skip(start as int);
            assert(s[0] == '0' && s[1] == 'x');
            assert(token_form(s, t));
        }
        t
    }

    /// Lex a decimal number literal; its first digit has been consumed. At
    /// most one `.` is taken, and a `.` that begins the range operator `..`
    /// is left for the next token.
    fn lex_decimal(&mut self, start: usize) -> (t: Token)
        requires
            old(self).wf(),
            start + 1 == old(self).at(),
            is_dec_digit(old(self).all()[start as int]),
            !(old(self).all()[start as int] == '0' && start + 1 < old(self).all().len() && (
            old(self).all()[start + 1] == 'b' || old(self).all()[start + 1] == 'o' || old(
                self,
            ).all()[start + 1] == 'x')),
        ensures
            final(self).wf(),
            final(self).all() == old(self).all(),
            old(self).at() <= final(self).at() <= old(self).all().len(),
            token_form(old(self).all().skip(start as int), t),
            t.len == final(self).at() - start,
            t.value@ == old(self).all().subrange(start as int, final(self).at()),
    {
        let ghost all0 = self.all();
        let ghost s = all0.skip(start as int);
        let mut had_dot = false;
        loop
            invariant
                s == all0.skip(start as int),
                self.wf(),
                self.all() == all0,
                start + 1 <= self.at() <= all0.len(),
                decimal_end(s, 1, false) == decimal_end(s, self.at() - start, had_dot),
            ensures
                self.wf(),
                self.all() == all0,
                start + 1 <= self.at() <= all0.len(),
                decimal_end(s, 1, false) == self.at() - start,
            decreases all0.len() - self.at(),
        {
            proof {
                let rel = self.at() - start;
                assert(s == all0.skip(start as int));
                assert(rel < s.len() ==> s[rel] == all0[self.at()]);
                assert(rel + 1 < s.len() ==> s[rel + 1] == all0[self.at() + 1]);
            }
            if self.is_eof() {
                break;
            }
            let c = self.peek();
            if c == '_' || dec_digit(c) {
                let _ = self.eat();
            } else if c == '.' && !had_dot {
                if self.peekn(1) == '.' {
                    break;
                }
                had_dot = true;
                let _ = self.eat();
            } else {
                break;
            }
        }
        let t = self.token_at(
            start,
            TokenKind::NumberLiteral { base: Base::Decimal, has_digits: true },
        );
        proof {
            assert(t.value@ =~= s.take(decimal_end(s, 1, false)));
            assert(token_form(s, t));
        }
        t
    }

    /// Dispatch on the two-character prefix of a number literal; the first
    /// digit `c` has been consumed.
    fn lex_number_literal(&mut self, start: usize, c: char) -> (t: Token)
        requires
            old(self).wf(),
            start + 1 == old(self).at(),
            old(self).all()[start as int] == c,
            is_dec_digit(c),
        ensures
            final(self).wf(),
            final(self).all() == old(self).all(),
            old(self).at() <= final(self).at() <= old(self).all().len(),
            token_form(old(self).all().skip(start as int), t),
            t.len == final(self).at() - start,
            t.value@ == old(self).all().subrange(start as int, final(self).at()),
    {
        proof {
            let s = old(self).all().skip(start as int);
            assert(s.len() > 1 ==> s[1] == old(self).all()[start + 1]);
        }
        if c == '0' && self.peek() == 'b' {
            let _ = self.eat();
            self.lex_binary(start)
        } else if c == '0' && self.peek() == 'o' {
            let _ = self.eat();
            self.lex_octal(start)
        } else if c == '0' && self.peek() == 'x' {
            let _ = self.eat();
            self.lex_hexadecimal(start)
        } else {
            self.lex_decimal(start)
        }
    }

    /// Lex an identifier or keyword; its first character has been consumed.
    fn lex_identifier(&mut self, start: usize) -> (t: Token)
        requires
            old(self).wf(),
            start + 1 == old(self).at(),
            is_literal_char(old(self).all()[start as int]),
            !is_dec_digit(old(self).all()[start as int]),
            old(self).all()[start as int] != '\r',
        ensures
            final(self).wf(),
            final(self).all() == old(self).all(),
            old(self).at() <= final(self).at() <= old(self).all().len(),
            token_form(old(self).all().skip(start as int), t),
            t.len == final(self).at() - start,
            t.value@ == old(self).all().subrange(start as int, final(self).at()),
    {
        let ghost all0 = self.all();
        let ghost s = all0.skip(start as int);
        loop
            invariant
                s == all0.skip(start as int),
                self.wf(),
                self.all() == all0,
                start + 1 <= self.at() <= all0.len(),
                literal_end(s, 1) == literal_end(s, self.at() - start),
            ensures
                self.wf(),
                self.all() == all0,
                start + 1 <= self.at() <= all0.len(),
                literal_end(s, 1) == self.at() - start,
            decreases all0.len() - self.at(),
        {
            proof {
                let rel = self.at() - start;
                assert(s == all0.skip(start as int));
                assert(rel < s.len() ==> s[rel] == all0[self.at()]);
            }
            if self.is_eof() || !is_literal(self.peek()) {
                break;
            }
            let _ = self.eat();
        }
        let v = self.taken_since(start);
        let kind = match bake_keyword(&v) {
            Some(k) => k,
            None => TokenKind::Identifier,
        };
        let n = self.mark() - start;
        let t = Token::new(kind, v, n);
        proof {
            assert(t.value@ =~= s.take(literal_end(s, 1)));
            assert(token_form(s, t));
        }
        t
    }

    /// Lex the token at the head of the remaining input. Consumes exactly the
    /// characters of the returned token, always at least one, and the token
    /// is the one [`token_form`] assigns to the input.
    pub fn advance_token(&mut self) -> (t: Token)
        requires
            old(self).wf(),
            old(self).rest().len() > 0,
        ensures
            final(self).wf(),
            final(self).all() == old(self).all(),
            old(self).at() < final(self).at() <= old(self).all().len(),
            token_form(old(self).rest(), t),
            t.value@ == old(self).all().subrange(old(self).at(), final(self).at()),
            t.len == final(self).at() - old(self).at(),
    {
        let ghost s = self.rest();
        let start = self.mark();
        let c = self.eat();
        proof {
            assert(s == old(self).all().skip(start as int));
            assert(s[0] == c);
            assert(s.len() > 1 ==> s[1] == old(self).all()[start + 1]);
        }
        let trivia = self.eat_trivia(start, c);
        let t = match trivia {
            Some(t) => t,
            None => {
                if c == '/' {
                    if self.peek() == '/' {
                        let _ = self.eat();
                        self.lex_line_comment(start)
                    } else if self.peek() == '*' {
                        let _ = self.eat();
                        self.lex_multiline_comment(start)
                    } else if self.peek() == '=' {
                        let _ = self.eat();
                        let t = self.token_at(start, TokenKind::SlashEqual);
                        proof {
                            assert(t.value@ =~= s.take(2));
                        }
                        t
                    } else {
                        let t = self.token_at(start, TokenKind::Slash);
                        proof {
                            assert(t.value@ =~= s.take(1));
                        }
                        t
                    }
                } else if c == '*' {
                    self.op_or_single(start, '=', TokenKind::StarEqual, TokenKind::Star)
                } else if c == '+' {
                    if self.peek() == '=' {
                        let _ = self.eat();
                        let t = self.token_at(start, TokenKind::PlusEqual);
                        proof {
                            assert(t.value@ =~= s.take(2));
                        }
                        t
                    } else if self.peek() == '+' {
                        let _ = self.eat();
                        let t = self.token_at(start, TokenKind::PlusPlus);
                        proof {
                            assert(t.value@ =~= s.take(2));
                        }
                        t
                    } else {
                        let t = self.token_at(start, TokenKind::Plus);
                        proof {
                            assert(t.value@ =~= s.take(1));
                        }
                        t
                    }
                } else if c == '-' {
                    if self.peek() == '=' {
                        let _ = self.eat();
                        let t = self.token_at(start, TokenKind::MinusEqual);
                        proof {
                            assert(t.value@ =~= s.take(2));
                        }
                        t
                    } else if self.peek() == '>' {
                        let _ = self.eat();
                        let t = self.token_at(start, TokenKind::MinusGreater);
                        proof {
                            assert(t.value@ =~= s.take(2));
                        }
                        t
                    } else if self.peek() == '-' {
                        let _ = self.eat();
                        let t = self.token_at(start, TokenKind::MinusMinus);
                        proof {
                            assert(t.value@ =~= s.take(2));
                        }
                        t
                    } else {
                        let t = self.token_at(start, TokenKind::Minus);
                        proof {
                            assert(t.value@ =~= s.take(1));
                        }
                        t
                    }
                } else if c == '&' {
                    if self.peek() == '=' {
                        let _ = self.eat();
                        let t = self.token_at(start, TokenKind::AmpEqual);
                        proof {
                            assert(t.value@ =~= s.take(2));
                        }
                        t
                    } else if self.peek() == '&' {
                        let _ = self.eat();
                        let t = self.token_at(start, TokenKind::AmpAmp);
                        proof {
                            assert(t.value@ =~= s.take(2));
                        }
                        t
                    } else {
                        let t = self.token_at(start, TokenKind::Amp);
                        proof {
                            assert(t.value@ =~= s.take(1));
                        }
                        t
                    }
                } else if c == '|' {
                    if self.peek() == '=' {
                        let _ = self.eat();
                        let t = self.token_at(start, TokenKind::BarEqual);
                        proof {
                            assert(t.value@ =~= s.take(2));
                        }
                        t
                    } else if self.peek() == '|' {
                        let _ = self.eat();
                        let t = self.token_at(start, TokenKind::BarBar);
                        proof {
                            assert(t.value@ =~= s.take(2));
                        }
                        t
                    } else {
                        let t = self.token_at(start, TokenKind::Bar);
                        proof {
                            assert(t.value@ =~= s.take(1));
                        }
                        t
                    }
                } else if c == '>' {
                    if self.peek() == '=' {
                        let _ = self.eat();
                        let t = self.token_at(start, TokenKind::GreaterEqual);
                        proof {
                            assert(t.value@ =~= s.take(2));
                        }
                        t
                    } else if self.peek() == '>' {
                        let _ = self.eat();
                        proof {
                            assert(s.len() > 2 ==> s[2] == old(self).all()[start + 2]);
                        }
                        if self.peek() == '=' {
                            let _ = self.eat();
                            let t = self.token_at(start, TokenKind::GreaterGreaterEqual);
                            proof {
                                assert(t.value@ =~= s.take(3));
                            }
                            t
                        } else {
                            let t = self.token_at(start, TokenKind::GreaterGreater);
                            proof {
                                assert(t.value@ =~= s.take(2));
                            }
                            t
                        }
                    } else {
                        let t = self.token_at(start, TokenKind::Greater);
                        proof {
                            assert(t.value@ =~= s.take(1));
                        }
                        t
                    }
                } else if c == '<' {
                    if self.peek() == '=' {
                        let _ = self.eat();
                        let t = self.token_at(start, TokenKind::LessEqual);
                        proof {
                            assert(t.value@ =~= s.take(2));
                        }
                        t
                    } else if self.peek() == '<' {
                        let _ = self.eat();
                        proof {
                            assert(s.len() > 2 ==> s[2] == old(self).all()[start + 2]);
                        }
                        if self.peek() == '=' {
                            let _ = self.eat();
                            let t = self.token_at(start, TokenKind::LessLessEqual);
                            proof {
                                assert(t.value@ =~= s.take(3));
                            }
                            t
                        } else {
                            let t = self.token_at(start, TokenKind::LessLess);
                            proof {
                                assert(t.value@ =~= s.take(2));
                            }
                            t
                        }
                    } else {
                        let t = self.token_at(start, TokenKind::Less);
                        proof {
                            assert(t.value@ =~= s.take(1));
                        }
                        t
                    }
                } else if c == '?' {
                    if self.peek() == '?' {
                        let _ = self.eat();
                        proof {
                            assert(s.len() > 2 ==> s[2] == old(self).all()[start + 2]);
                        }
                        if self.peek() == '=' {
                            let _ = self.eat();
                            let t = self.token_at(start, TokenKind::QuestionQuestionEquals);
                            proof {
                                assert(t.value@ =~= s.take(3));
                            }
                            t
                        } else {
                            let t = self.token_at(start, TokenKind::QuestionQuestion);
                            proof {
                                assert(t.value@ =~= s.take(2));
                            }
                            t
                        }
                    } else if self.peek() == '.' {
                        let _ = self.eat();
                        let t = self.token_at(start, TokenKind::QuestionDot);
                        proof {
                            assert(t.value@ =~= s.take(2));
                        }
                        t
                    } else if self.peek() == '[' {
                        let _ = self.eat();
                        let t = self.token_at(start, TokenKind::QuestionLBracket);
                        proof {
                            assert(t.value@ =~= s.take(2));
                        }
                        t
                    } else {
                        let t = self.token_at(start, TokenKind::Question);
                        proof {
                            assert(t.value@ =~= s.take(1));
                        }
                        t
                    }
                } else if c == '=' {
                    if self.peek() == '=' {
                        let _ = self.eat();
                        let t = self.token_at(start, TokenKind::EqualEqual);
                        proof {
                            assert(t.value@ =~= s.take(2));
                        }
                        t
                    } else if self.peek() == '>' {
                        let _ = self.eat();
                        let t = self.token_at(start, TokenKind::EqualsGreater);
                        proof {
                            assert(t.value@ =~= s.take(2));
                        }
                        t
                    } else {
                        let t = self.token_at(start, TokenKind::Equal);
                        proof {
                            assert(t.value@ =~= s.take(1));
                        }
                        t
                    }
                } else if c == '!' {
                    self.op_or_single(start, '=', TokenKind::BangEqual, TokenKind::Bang)
                } else if c == '%' {
                    self.op_or_single(start, '=', TokenKind::PercentEqual, TokenKind::Percent)
                } else if c == ':' {
                    self.op_or_single(start, ':', TokenKind::ColonColon, TokenKind::Colon)
                } else if c == '.' {
                    if self.peek() == '.' {
                        let _ = self.eat();
                        proof {
                            assert(s.len() > 2 ==> s[2] == old(self).all()[start + 2]);
                        }
                        if self.peek() == '=' {
                            let _ = self.eat();
                            let t = self.token_at(start, TokenKind::DotDotEqual);
                            proof {
                                assert(t.value@ =~= s.take(3));
                            }
                            t
                        } else {
                            let t = self.token_at(start, TokenKind::DotDot);
                            proof {
                                assert(t.value@ =~= s.take(2));
                            }
                            t
                        }
                    } else {
                        let t = self.token_at(start, TokenKind::Dot);
                        proof {
                            assert(t.value@ =~= s.take(1));
                        }
                        t
                    }
                } else if c == '~' {
                    self.op_or_single(start, '=', TokenKind::TildeEqual, TokenKind::Tilde)
                } else if c == '^' {
                    self.op_or_single(start, '=', TokenKind::CaretEqual, TokenKind::Caret)
                } else if c == ',' {
                    self.single(start, TokenKind::Comma)
                } else if c == ';' {
                    self.single(start, TokenKind::Semicolon)
                } else if c == '(' {
                    self.single(start, TokenKind::LParen)
                } else if c == ')' {
                    self.single(start, TokenKind::RParen)
                } else if c == '[' {
                    self.single(start, TokenKind::LBracket)
                } else if c == ']' {
                    self.single(start, TokenKind::RBracket)
                } else if c == '{' {
                    self.single(start, TokenKind::LBrace)
                } else if c == '}' {
                    self.single(start, TokenKind::RBrace)
                } else if c == '"' {
                    self.lex_string_literal(start)
                } else if c == '\'' {
                    self.lex_char_literal(start)
                } else if dec_digit(c) {
                    self.lex_number_literal(start, c)
                } else {
                    self.lex_identifier(start)
                }
            },
        };
        proof {
            assert(token_form(s, t));
            assert(t.value@ =~= old(self).all().subrange(old(self).at(), self.at()));
        }
        t
    }

    /// One- or two-character operator: `k2` when the next character is `c1`,
    /// else `k1`. The first character has been consumed.
    fn op_or_single(&mut self, start: usize, c1: char, k2: TokenKind, k1: TokenKind) -> (t: Token)
        requires
            old(self).wf(),
            start + 1 == old(self).at(),
            c1 != '\0',
        ensures
            final(self).wf(),
            final(self).all() == old(self).all(),
            old(self).at() <= final(self).at() <= old(self).all().len(),
            ({
                let s = old(self).all().skip(start as int);
                if s.len() > 1 && s[1] == c1 {
                    t.kind == k2 && t.value@ == s.take(2) && t.len == 2 && final(self).at() == start
                        + 2
                } else {
                    t.kind == k1 && t.value@ == s.take(1) && t.len == 1 && final(self).at() == start
                        + 1
                }
            }),
    {
        let ghost s = old(self).all().skip(start as int);
        proof {
            assert(s.len() > 1 ==> s[1] == old(self).all()[start + 1]);
        }
        if self.peek() == c1 {
            let _ = self.eat();
            let t = self.token_at(start, k2);
            proof {
                assert(t.value@ =~= s.take(2));
            }
            t
        } else {
            let t = self.token_at(start, k1);
            proof {
                assert(t.value@ =~= s.take(1));
            }
            t
        }
    }

    /// A single-character token; its character has been consumed.
    fn single(&self, start: usize, kind: TokenKind) -> (t: Token)
        requires
            self.wf(),
            start + 1 == self.at(),
        ensures
            t.kind == kind,
            t.value@ == self.all().skip(start as int).take(1),
            t.len == 1,
    {
        let t = self.token_at(start, kind);
        proof {
            assert(t.value@ =~= self.all().skip(start as int).take(1));
        }
        t
    }
}

/// Helper: the tail a line comment stops at is the same whether measured in
/// the whole text or in the token's suffix.
proof fn lemma_line_end_shift(all: Seq<char>, start: int, i: int)
    requires
        0 <= start <= i <= all.len(),
    ensures
        line_end(all, i) - start == line_end(all.skip(start), i - start),
    decreases all.len() - i,
{
    let s = all.skip(start);
    assert(i - start < s.len() ==> s[i - start] == all[i]);
    if i < all.len() && !is_newline_char(all[i]) {
        lemma_line_end_shift(all, start, i + 1);
    }
}

} // verus!

verus! {

/// The first token of a non-empty source.
pub fn current_token(src: &str) -> (t: Token)
    requires
        src@.len() > 0,
    ensures
        token_form(src@, t),
        0 < t.len <= src@.len(),
        t.value@ == src@.take(t.len as int),
        t.len == t.value@.len(),
{
    let mut cursor = Cursor::new(src);
    let t = cursor.advance_token();
    proof {
        assert(src@.skip(0) =~= src@);
        assert(src@.subrange(0, t.len as int) =~= src@.take(t.len as int));
    }
    t
}

/// Lex a whole source into tokens.
///
/// The tokens are lossless: their texts concatenate back to exactly the
/// input. Every token's `len` is the character count of its `value`, every
/// token is non-empty, and each one is the token [`token_form`] assigns to
/// the input at its offset.
#[verifier::loop_isolation(false)]
pub fn tokenize(src: &str) -> (r: Vec<Token>)
    ensures
        toks_text(r@) == src@,
        forall|i: int|
            0 <= i < r@.len() ==> (#[trigger] r@[i]).len == r@[i].value@.len(),
        forall|i: int| 0 <= i < r@.len() ==> (#[trigger] r@[i]).value@.len() > 0,
        forall|i: int|
            0 <= i < r@.len() ==> token_form(src@.skip(lex_offset(r@, i)), #[trigger] r@[i]),
{
    let mut cursor = Cursor::new(src);
    let mut out: Vec<Token> = Vec::new();
    proof {
        assert(src@.take(0) =~= Seq::<char>::empty());
    }
    while !cursor.is_eof()
        invariant
            cursor.wf(),
            cursor.all() == src@,
            toks_text(out@) == src@.take(cursor.at()),
            forall|i: int|
                0 <= i < out@.len() ==> (#[trigger] out@[i]).len == out@[i].value@.len(),
            forall|i: int| 0 <= i < out@.len() ==> (#[trigger] out@[i]).value@.len() > 0,
            forall|i: int|
                0 <= i < out@.len() ==> token_form(
                    src@.skip(lex_offset(out@, i)),
                    #[trigger] out@[i],
                ),
        decreases src@.len() - cursor.at(),
    {
        let ghost prior = out@;
        let ghost p0 = cursor.at();
        let t = cursor.advance_token();
        out.push(t);
        proof {
            lemma_toks_text_push(prior, t);
            assert(toks_text(out@) =~= src@.take(cursor.at())) by {
                assert(src@.take(p0) + src@.subrange(p0, cursor.at()) =~= src@.take(cursor.at()));
            }
            assert forall|i: int| 0 <= i < out@.len() implies token_form(
                src@.skip(lex_offset(out@, i)),
                #[trigger] out@[i],
            ) by {
                if i < prior.len() {
                    assert(out@.take(i) =~= prior.take(i));
                    assert(out@[i] == prior[i]);
                } else {
                    assert(out@.take(i) =~= prior);
                    assert(lex_offset(out@, i) == p0);
                    assert(src@.skip(p0) =~= src@.skip(p0));
                }
            }
        }
    }
    proof {
        assert(src@.take(cursor.at()) =~= src@);
    }
    out
}

} // verus!
