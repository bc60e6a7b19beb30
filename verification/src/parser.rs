//! The recursive-descent parser with a Pratt expression engine.
//!
//! The parser owns an indexed token buffer. Trivia are not filtered out:
//! every significant token, when lifted into a [`SyntaxToken`], drains the
//! trivia that follow it. A missing expected token is synthesized as a
//! zero-length placeholder with a [`Diagnostic`], so parsing never fails and
//! the tree is always fully populated.
//!
//! Every parsing routine carries the same conservation contract: the tokens
//! it consumed are an in-order merge of the real (non-synthesized) tokens of
//! the subtree it returns with the tokens error recovery discarded, which the
//! ghost `discarded` log records — and a discarded token is always one that
//! can start no statement. When the log did not grow, the merge collapses to
//! an equality: the tree holds exactly the consumed tokens.

use vstd::prelude::*;

use crate::nodes::ArgumentList;
use crate::nodes::Argument;
use crate::nodes::CompilationUnit;
use crate::nodes::Diagnostic;
use crate::nodes::EqualsValue;
use crate::nodes::ErrorKind;
use crate::nodes::Expr;
use crate::nodes::FunctionBody;
use crate::nodes::Identifier;
use crate::nodes::InitializerItem;
use crate::nodes::LiteralKind;
use crate::nodes::MatchArm;
use crate::nodes::MatchBody;
use crate::nodes::MatchPattern;
use crate::nodes::Parameter;
use crate::nodes::ParameterList;
use crate::nodes::ReturnType;
use crate::nodes::Stat;
use crate::nodes::SyntaxToken;
use crate::nodes::Trivia;
use crate::nodes::TypeId;
use crate::nodes::TypeKind;
use crate::nodes::arglist_toks;
use crate::nodes::args_toks;
use crate::nodes::arms_toks;
use crate::nodes::cu_toks;
use crate::nodes::expr_toks;
use crate::nodes::fnbody_toks;
use crate::nodes::ident_toks;
use crate::nodes::items_toks;
use crate::nodes::matchbody_toks;
use crate::nodes::opt_boxed_stat_toks;
use crate::nodes::opt_equals_value_toks;
use crate::nodes::opt_expr_toks;
use crate::nodes::opt_rettype_toks;
use crate::nodes::opt_st_toks;
use crate::nodes::opt_type_id_toks;
use crate::nodes::param_toks;
use crate::nodes::paramlist_toks;
use crate::nodes::params_toks;
use crate::nodes::pattern_toks;
use crate::nodes::st_toks;
use crate::nodes::stat_toks;
use crate::nodes::stats_toks;
use crate::nodes::trivia_toks;
use crate::nodes::type_id_toks;
use crate::nodes::type_kind_toks;
use crate::tokens::Token;
use crate::tokens::TokenKind;
use crate::tokens::is_interleaving;
use crate::tokens::lemma_interleaving_add;
use crate::tokens::lemma_interleaving_id;
use crate::tokens::lemma_interleaving_junk_head;
use crate::tokens::lemma_prefix_index;
use crate::tokens::lemma_skip_chain;
use crate::tokens::lemma_real_add;
use crate::tokens::lemma_real_empty;
use crate::tokens::lemma_real_singleton;
use crate::tokens::lemma_real_join;
use crate::tokens::lemma_real_subrange;
use crate::tokens::real_toks;
use crate::tokens::toks_nonempty;

verus! {

/// A trivia kind: whitespace, newline or a comment.
pub open spec fn is_trivia_kind(k: TokenKind) -> bool {
    ||| k is Whitespace
    ||| k is Newline
    ||| k is LineComment
    ||| k is MultilineComment
}

/// Whether some statement production would consume this token: one of the
/// eight dispatch keywords, or a token an expression may start at. Error
/// recovery discards only tokens that satisfy neither.
pub open spec fn can_start_statement(t: Token) -> bool {
    ||| t.kind is LetKeyword
    ||| t.kind is LBrace
    ||| t.kind is IfKeyword
    ||| t.kind is BreakKeyword
    ||| t.kind is ReturnKeyword
    ||| t.kind is WhileKeyword
    ||| t.kind is FunctionKeyword
    ||| t.kind is ForKeyword
    ||| is_expression_start(Some(t))
}

/// The tokens that `final_junk` adds past `prior_junk`: what one call
/// discarded.
pub open spec fn junk_delta(prior_junk: Seq<Token>, final_junk: Seq<Token>) -> Seq<Token> {
    final_junk.skip(prior_junk.len() as int)
}

/// Every token the range `[lo, hi)` of `junk` holds can start no statement.
pub open spec fn junk_tokens_dead(junk: Seq<Token>, lo: int, hi: int) -> bool {
    forall|i: int| lo <= i < hi ==> !can_start_statement(#[trigger] junk[i])
}

/// First index at or after `i` whose token is not trivia: where the leading
/// trivia of a token sequence end.
pub open spec fn trivia_run_end(ts: Seq<Token>, i: int) -> int
    decreases ts.len() - i,
{
    if i < 0 || i >= ts.len() {
        i
    } else if is_trivia_kind(ts[i].kind) {
        trivia_run_end(ts, i + 1)
    } else {
        i
    }
}

/// A run of trivia tokens that stops at a non-trivia token (or the end) runs
/// exactly to [`trivia_run_end`].
proof fn lemma_trivia_run(ts: Seq<Token>, i: int, j: int)
    requires
        0 <= i <= j <= ts.len(),
        forall|k: int| i <= k < j ==> is_trivia_kind((#[trigger] ts[k]).kind),
        j == ts.len() || !is_trivia_kind(ts[j].kind),
    ensures
        trivia_run_end(ts, i) == j,
    decreases j - i,
{
    if i < j {
        lemma_trivia_run(ts, i + 1, j);
    }
}

/// The token at position `i` of a buffer, if any.
pub open spec fn token_at(ts: Seq<Token>, i: int) -> Option<Token> {
    if 0 <= i < ts.len() {
        Some(ts[i])
    } else {
        None
    }
}

/// The token at the parser's position, if any.
pub open spec fn peek_tok(p: Parser) -> Option<Token> {
    if p.at() < p.toks().len() {
        Some(p.toks()[p.at()])
    } else {
        None
    }
}

/// Whether `o` holds a token of kind `k`.
pub open spec fn opt_kind_is(o: Option<Token>, k: TokenKind) -> bool {
    o is Some && o->Some_0.kind == k
}

/// A synthesized placeholder for a missing expected token: zero-length, with
/// exactly one diagnostic recording what was expected and what stood there.
pub open spec fn is_missing_token(st: SyntaxToken, expected_kind: TokenKind, actual: Option<
    Token,
>) -> bool {
    &&& st.token.kind == expected_kind
    &&& st.token.value@ == Seq::<char>::empty()
    &&& st.token.len == 0
    &&& st.diagnostics@.len() == 1
    &&& match st.diagnostics@[0].kind {
        ErrorKind::MissingToken { expected, actual: a } => expected == st.token && a == actual,
    }
}

/// Like [`is_missing_token`], with whatever stood in the expected token's
/// place left unsaid: the form of any synthesized placeholder.
pub open spec fn is_missing_of(st: SyntaxToken, expected_kind: TokenKind) -> bool {
    &&& st.token.kind == expected_kind
    &&& st.token.value@ == Seq::<char>::empty()
    &&& st.token.len == 0
    &&& st.diagnostics@.len() == 1
    &&& match st.diagnostics@[0].kind {
        ErrorKind::MissingToken { expected, actual: _ } => expected == st.token,
    }
}

/// An optional type annotation whose type name is not a synthesized
/// placeholder; `None` counts as clean. Where this holds, the annotation's
/// token count in the tree equals what the parser consumed for it.
pub open spec fn type_id_clean(o: Option<TypeId>) -> bool {
    match o {
        None => true,
        Some(t) => type_kind_ident(t.type_kind).identifier.diagnostics@.len() == 0,
    }
}

/// The closing token of a statement that requires one is of the right kind,
/// and where it was synthesized it carries the missing-token diagnostic:
/// `;` after variable definitions, expression statements, `break` and
/// `return`, `}` after blocks.
pub open spec fn stat_closers_ok(s: Stat) -> bool {
    &&& s is VarDefinition ==> s->VarDefinition_semicolon_token.token.kind is Semicolon && (
    s->VarDefinition_semicolon_token.diagnostics@.len() != 0 ==> is_missing_of(
        s->VarDefinition_semicolon_token,
        TokenKind::Semicolon,
    ))
    &&& s is Expr ==> s->Expr_semicolon_token.token.kind is Semicolon && (
    s->Expr_semicolon_token.diagnostics@.len() != 0 ==> is_missing_of(
        s->Expr_semicolon_token,
        TokenKind::Semicolon,
    ))
    &&& s is Break ==> s->Break_semicolon_token.token.kind is Semicolon && (
    s->Break_semicolon_token.diagnostics@.len() != 0 ==> is_missing_of(
        s->Break_semicolon_token,
        TokenKind::Semicolon,
    ))
    &&& s is Return ==> s->Return_semicolon_token.token.kind is Semicolon && (
    s->Return_semicolon_token.diagnostics@.len() != 0 ==> is_missing_of(
        s->Return_semicolon_token,
        TokenKind::Semicolon,
    ))
    &&& s is Block ==> s->Block_r_brace.token.kind is RBrace && (
    s->Block_r_brace.diagnostics@.len() != 0 ==> is_missing_of(
        s->Block_r_brace,
        TokenKind::RBrace,
    ))
}

/// Every expression a statement holds is well-formed at the binding power it
/// was parsed at (see [`expr_wf`]): conditions, ranges, initializers and
/// expression statements at power zero, and so on into nested statements.
pub open spec fn stat_exprs_wf(s: Stat) -> bool
    decreases s,
{
    match s {
        Stat::VarDefinition { initial_value, .. } => initial_value is Some ==> expr_wf(
            initial_value->Some_0.expression,
            0,
        ),
        Stat::Expr { expr, .. } => expr_wf(expr, 0),
        Stat::Block { statements, .. } => forall|i: int|
            0 <= i < statements@.len() ==> stat_exprs_wf(#[trigger] statements@[i]),
        Stat::For { range, statement, .. } => expr_wf(range, 0) && stat_exprs_wf(*statement),
        Stat::While { expression, statement, .. } => expr_wf(expression, 0) && stat_exprs_wf(
            *statement,
        ),
        Stat::FunctionDefinition { body, .. } => fnbody_exprs_wf(*body),
        Stat::If { expression, statement, else_statement, .. } => expr_wf(expression, 0)
            && stat_exprs_wf(*statement) && (else_statement is Some ==> stat_exprs_wf(
            *else_statement->Some_0,
        )),
        Stat::Else { statement, .. } => stat_exprs_wf(*statement),
        Stat::Break { .. } => true,
        Stat::Return { expression, .. } => expression is Some ==> expr_wf(expression->Some_0, 0),
    }
}

/// [`stat_exprs_wf`] for a function body.
pub open spec fn fnbody_exprs_wf(b: FunctionBody) -> bool
    decreases b,
{
    match b {
        FunctionBody::BlockStatement { block } => stat_exprs_wf(block),
        FunctionBody::ExpressionBody { statement, .. } => stat_exprs_wf(statement),
    }
}

/// The parser: a token buffer, a position, and a ghost log of the tokens
/// that statement-level error recovery discarded.
pub struct Parser {
    tokens: Vec<Token>,
    pos: usize,
    discarded: Ghost<Seq<Token>>,
}

impl Parser {
    /// The token buffer.
    pub closed spec fn toks(self) -> Seq<Token> {
        self.tokens@
    }

    /// The current position.
    pub closed spec fn at(self) -> int {
        self.pos as int
    }

    /// The tokens discarded by error recovery so far, in order.
    pub closed spec fn junk(self) -> Seq<Token> {
        self.discarded@
    }

    /// The position is inside the buffer.
    pub open spec fn wf(self) -> bool {
        0 <= self.at() <= self.toks().len()
    }

    /// A parser at the start of a token buffer, with nothing discarded.
    pub fn new(tokens: Vec<Token>) -> (p: Parser)
        ensures
            p.wf(),
            p.toks() == tokens@,
            p.at() == 0,
            p.junk() == Seq::<Token>::empty(),
    {
        Parser { tokens, pos: 0, discarded: Ghost(Seq::empty()) }
    }

    /// The next token, if any.
    fn peek(&self) -> (r: Option<Token>)
        requires
            self.wf(),
        ensures
            r == peek_tok(*self),
    {
        self.peek_n(0)
    }

    /// The token `n` places ahead, if any.
    fn peek_n(&self, n: usize) -> (r: Option<Token>)
        requires
            self.wf(),
        ensures
            r == if self.at() + n < self.toks().len() {
                Some(self.toks()[self.at() + n])
            } else {
                None::<Token>
            },
    {
        if n < self.tokens.len() - self.pos {
            Some(self.tokens[self.pos + n].clone())
        } else {
            None
        }
    }

    /// Consume and return the next token, if any.
    fn eat(&mut self) -> (r: Option<Token>)
        requires
            old(self).wf(),
        ensures
            final(self).wf(),
            final(self).toks() == old(self).toks(),
            final(self).junk() == old(self).junk(),
            r == peek_tok(*old(self)),
            r is Some ==> final(self).at() == old(self).at() + 1,
            r is None ==> final(self).at() == old(self).at(),
    {
        let token = self.peek();
        if self.pos < self.tokens.len() {
            self.pos = self.pos + 1;
        }
        token
    }

    /// Drain the trivia at the current position into a list.
    fn eat_trivia(&mut self) -> (r: Vec<Trivia>)
        requires
            old(self).wf(),
        ensures
            final(self).wf(),
            final(self).toks() == old(self).toks(),
            final(self).junk() == old(self).junk(),
            old(self).at() <= final(self).at(),
            trivia_toks(r@) == old(self).toks().subrange(old(self).at(), final(self).at()),
            forall|i: int|
                0 <= i < r@.len() ==> is_trivia_kind((#[trigger] r@[i]).trivia_token.kind),
            final(self).at() == final(self).toks().len() || !is_trivia_kind(
                final(self).toks()[final(self).at()].kind,
            ),
            toks_nonempty(old(self).toks()) ==> real_toks(trivia_toks(r@)) == old(self).toks().subrange(old(self).at(), final(self).at()),
            final(self).at() == trivia_run_end(old(self).toks(), old(self).at()),
    {
        let ghost t0 = self.toks();
        let ghost p0 = self.at();
        let ghost j0 = self.junk();
        let mut out: Vec<Trivia> = Vec::new();
        proof {
            assert(trivia_toks(out@) =~= t0.subrange(p0, p0));
        }
        loop
            invariant
                self.wf(),
                self.toks() == t0,
                self.junk() == j0,
                0 <= p0 <= self.at() <= t0.len(),
                trivia_toks(out@) == t0.subrange(p0, self.at()),
                forall|i: int|
                    0 <= i < out@.len() ==> is_trivia_kind(
                        (#[trigger] out@[i]).trivia_token.kind,
                    ),
            ensures
                self.wf(),
                self.toks() == t0,
                self.junk() == j0,
                0 <= p0 <= self.at() <= t0.len(),
                trivia_toks(out@) == t0.subrange(p0, self.at()),
                forall|i: int|
                    0 <= i < out@.len() ==> is_trivia_kind(
                        (#[trigger] out@[i]).trivia_token.kind,
                    ),
                self.at() == t0.len() || !is_trivia_kind(t0[self.at()].kind),
            decreases t0.len() - self.at(),
        {
            let next = self.peek();
            let is_trivia = match &next {
                Some(t) => match t.kind {
                    TokenKind::Whitespace => true,
                    TokenKind::Newline => true,
                    TokenKind::LineComment => true,
                    TokenKind::MultilineComment { .. } => true,
                    _ => false,
                },
                None => false,
            };
            if !is_trivia {
                break;
            }
            let ghost prior = out@;
            let ghost pmid = self.at();
            let trivia_token = self.eat().unwrap();
            out.push(Trivia { trivia_token });
            proof {
                assert(prior.len() == pmid - p0) by {
                    assert(trivia_toks(prior).len() == prior.len());
                }
                assert(out@[prior.len() as int].trivia_token == t0[pmid]);
                assert forall|i: int| 0 <= i < out@.len() implies trivia_toks(out@)[i]
                    == t0.subrange(p0, self.at())[i] by {
                    assert(trivia_toks(out@)[i] == out@[i].trivia_token);
                    if i < prior.len() {
                        assert(out@[i] == prior[i]);
                        assert(trivia_toks(prior)[i] == prior[i].trivia_token);
                        assert(trivia_toks(prior)[i] == t0.subrange(p0, pmid)[i]);
                        assert(t0.subrange(p0, pmid)[i] == t0[p0 + i]);
                    } else {
                        assert(i == prior.len());
                        assert(out@[i].trivia_token == t0[p0 + i]);
                    }
                    assert(t0.subrange(p0, self.at())[i] == t0[p0 + i]);
                }
                assert(trivia_toks(out@).len() == t0.subrange(p0, self.at()).len());
                assert(trivia_toks(out@) =~= t0.subrange(p0, self.at()));
            }
        }
        proof {
            if toks_nonempty(t0) {
                lemma_real_subrange(t0, p0, self.at());
            }
            assert forall|k: int| p0 <= k < self.at() implies is_trivia_kind(
                (#[trigger] t0[k]).kind,
            ) by {
                assert(trivia_toks(out@)[k - p0] == t0.subrange(p0, self.at())[k - p0]);
                assert(out@[k - p0].trivia_token == t0[k]);
            }
            lemma_trivia_run(t0, p0, self.at());
        }
        out
    }

    /// Lift the token at the current position into a [`SyntaxToken`],
    /// draining the trivia that follow it.
    fn parse_token(&mut self) -> (st: SyntaxToken)
        requires
            old(self).wf(),
            old(self).at() < old(self).toks().len(),
        ensures
            final(self).wf(),
            final(self).toks() == old(self).toks(),
            final(self).junk() == old(self).junk(),
            old(self).at() < final(self).at(),
            st.token == old(self).toks()[old(self).at()],
            st.diagnostics@.len() == 0,
            st_toks(st) == old(self).toks().subrange(old(self).at(), final(self).at()),
            toks_nonempty(old(self).toks()) ==> real_toks(st_toks(st)) == old(self).toks().subrange(old(self).at(), final(self).at()),
    {
        let ghost t0 = self.toks();
        let ghost p0 = self.at();
        let token = self.eat().unwrap();
        let trivia = self.eat_trivia();
        let st = SyntaxToken { token, trivia, diagnostics: Vec::new() };
        proof {
            assert(st_toks(st) =~= t0.subrange(p0, self.at()));
            if toks_nonempty(t0) {
                lemma_real_subrange(t0, p0, self.at());
            }
        }
        st
    }

    /// Lift the next token when it has the expected kind; otherwise
    /// synthesize a zero-length placeholder of that kind, record a
    /// [`Diagnostic`], and stay put (trivia are still drained).
    fn parse_expected_token(&mut self, expected_kind: TokenKind) -> (st: SyntaxToken)
        requires
            old(self).wf(),
        ensures
            final(self).wf(),
            final(self).toks() == old(self).toks(),
            final(self).junk() == old(self).junk(),
            old(self).at() <= final(self).at(),
            toks_nonempty(old(self).toks()) ==> real_toks(st_toks(st)) == old(self).toks().subrange(old(self).at(), final(self).at()),
            opt_kind_is(peek_tok(*old(self)), expected_kind) ==> st.diagnostics@.len() == 0
                && st.token == old(self).toks()[old(self).at()] && old(self).at() < final(self).at(),
            !opt_kind_is(peek_tok(*old(self)), expected_kind) ==> is_missing_token(
                st,
                expected_kind,
                peek_tok(*old(self)),
            ),
            st.token.kind == expected_kind,
            st.diagnostics@.len() != 0 ==> is_missing_of(st, expected_kind),
            st.diagnostics@.len() == 0 ==> st_toks(st) == old(self).toks().subrange(
                old(self).at(),
                final(self).at(),
            ) && old(self).at() < final(self).at(),
            st.diagnostics@.len() == 0 <==> opt_kind_is(peek_tok(*old(self)), expected_kind),
    {
        let ghost t0 = self.toks();
        let ghost p0 = self.at();
        let next = self.peek();
        let matches_kind = match &next {
            Some(t) => t.kind == expected_kind,
            None => false,
        };
        if matches_kind {
            self.parse_token()
        } else {
            let expected = Token::new(expected_kind, String::new(), 0);
            let diagnostic = Diagnostic {
                kind: ErrorKind::MissingToken { expected: expected.clone(), actual: next },
            };
            let mut diagnostics: Vec<Diagnostic> = Vec::new();
            diagnostics.push(diagnostic);
            let trivia = self.eat_trivia();
            let st = SyntaxToken { token: expected, trivia, diagnostics };
            proof {
                if toks_nonempty(t0) {
                    assert(st_toks(st) =~= seq![st.token] + trivia_toks(st.trivia@));
                    lemma_real_add(seq![st.token], trivia_toks(st.trivia@));
                    lemma_real_singleton(st.token);
                    lemma_real_subrange(t0, p0, self.at());
                    assert(real_toks(st_toks(st)) =~= t0.subrange(p0, self.at()));
                }
            }
            st
        }
    }
}

} // verus!

// Token classification used by the statement dispatcher and the Pratt engine.

verus! {

/// The 44 token kinds the expression engine treats as operators.
pub open spec fn is_operator_kind(k: TokenKind) -> bool {
    ||| k is Plus
    ||| k is Minus
    ||| k is Star
    ||| k is Slash
    ||| k is Bang
    ||| k is LBracket
    ||| k is QuestionLBracket
    ||| k is Dot
    ||| k is QuestionDot
    ||| k is DotDot
    ||| k is DotDotEqual
    ||| k is ColonColon
    ||| k is MinusMinus
    ||| k is PlusPlus
    ||| k is Caret
    ||| k is Percent
    ||| k is Tilde
    ||| k is Amp
    ||| k is AmpAmp
    ||| k is Bar
    ||| k is BarBar
    ||| k is Greater
    ||| k is GreaterGreater
    ||| k is Less
    ||| k is LessLess
    ||| k is EqualEqual
    ||| k is Equal
    ||| k is PlusEqual
    ||| k is MinusEqual
    ||| k is PercentEqual
    ||| k is StarEqual
    ||| k is SlashEqual
    ||| k is AmpEqual
    ||| k is BarEqual
    ||| k is BangEqual
    ||| k is GreaterEqual
    ||| k is LessEqual
    ||| k is CaretEqual
    ||| k is TildeEqual
    ||| k is LessLessEqual
    ||| k is GreaterGreaterEqual
    ||| k is QuestionQuestionEquals
    ||| k is Question
    ||| k is QuestionQuestion
}

/// The kinds an expression atom can start with.
pub open spec fn is_atom_start_kind(k: TokenKind) -> bool {
    ||| k is NumberLiteral
    ||| k is StringLiteral
    ||| k is CharLiteral
    ||| k is TrueKeyword
    ||| k is FalseKeyword
    ||| k is LBracket
    ||| k is MatchKeyword
    ||| k is Identifier
}

/// Whether an expression may start at this token: any operator (taken as a
/// prefix), a literal, `true`/`false`, `match`, or an identifier.
pub open spec fn is_expression_start(o: Option<Token>) -> bool {
    o is Some && (is_operator_kind(o->Some_0.kind) || is_atom_start_kind(o->Some_0.kind))
}

/// Whether a match arm may start at this token: a literal or `true`/`false`.
pub open spec fn is_match_arm_start(o: Option<Token>) -> bool {
    o is Some && {
        let k = o->Some_0.kind;
        ||| k is StringLiteral
        ||| k is NumberLiteral
        ||| k is CharLiteral
        ||| k is FalseKeyword
        ||| k is TrueKeyword
    }
}

/// The kinds that open an `= <expr>` initializer.
pub open spec fn is_assignment_kind(k: TokenKind) -> bool {
    k is Equal || k is QuestionQuestionEquals
}

/// Runtime test: is this an operator token?
fn op_kind(k: TokenKind) -> (b: bool)
    ensures
        b == is_operator_kind(k),
{
    match k {
        TokenKind::Plus | TokenKind::Minus | TokenKind::Star | TokenKind::Slash
            | TokenKind::Bang | TokenKind::LBracket | TokenKind::QuestionLBracket
            | TokenKind::Dot | TokenKind::QuestionDot | TokenKind::DotDot
            | TokenKind::DotDotEqual | TokenKind::ColonColon | TokenKind::MinusMinus
            | TokenKind::PlusPlus | TokenKind::Caret | TokenKind::Percent | TokenKind::Tilde
            | TokenKind::Amp | TokenKind::AmpAmp | TokenKind::Bar | TokenKind::BarBar
            | TokenKind::Greater | TokenKind::GreaterGreater | TokenKind::Less
            | TokenKind::LessLess | TokenKind::EqualEqual | TokenKind::Equal
            | TokenKind::PlusEqual | TokenKind::MinusEqual | TokenKind::PercentEqual
            | TokenKind::StarEqual | TokenKind::SlashEqual | TokenKind::AmpEqual
            | TokenKind::BarEqual | TokenKind::BangEqual | TokenKind::GreaterEqual
            | TokenKind::LessEqual | TokenKind::CaretEqual | TokenKind::TildeEqual
            | TokenKind::LessLessEqual | TokenKind::GreaterGreaterEqual
            | TokenKind::QuestionQuestionEquals | TokenKind::Question
            | TokenKind::QuestionQuestion => true,
        _ => false,
    }
}

/// Runtime test: does this optional token hold the given kind?
fn is_some_and_kind(token: &Option<Token>, kind: TokenKind) -> (b: bool)
    ensures
        b == opt_kind_is(*token, kind),
{
    match token {
        Some(t) => t.kind == kind,
        None => false,
    }
}

/// Runtime test: is this an operator token?
fn is_operator(token: &Option<Token>) -> (b: bool)
    ensures
        b == (token is Some && is_operator_kind(token->Some_0.kind)),
{
    match token {
        Some(t) => op_kind(t.kind),
        None => false,
    }
}

/// Runtime test for [`is_expression_start`].
fn is_possible_expression(token: &Option<Token>) -> (b: bool)
    ensures
        b == is_expression_start(*token),
{
    match token {
        Some(t) => op_kind(t.kind) || match t.kind {
            TokenKind::StringLiteral { .. } | TokenKind::CharLiteral { .. }
                | TokenKind::NumberLiteral { .. } | TokenKind::TrueKeyword
                | TokenKind::FalseKeyword | TokenKind::MatchKeyword
                | TokenKind::Identifier => true,
            _ => false,
        },
        None => false,
    }
}

/// Runtime test for [`is_match_arm_start`].
fn is_possible_match_arm(token: &Option<Token>) -> (b: bool)
    ensures
        b == is_match_arm_start(*token),
{
    match token {
        Some(t) => match t.kind {
            TokenKind::StringLiteral { .. } | TokenKind::NumberLiteral { .. }
                | TokenKind::CharLiteral { .. } | TokenKind::FalseKeyword
                | TokenKind::TrueKeyword => true,
            _ => false,
        },
        None => false,
    }
}

/// The right binding power of a prefix operator: 29 for the six defined
/// prefixes, `None` for any other kind.
pub open spec fn spec_prefix_bp(k: TokenKind) -> Option<u8> {
    if k is MinusMinus || k is PlusPlus || k is Plus || k is Minus || k is Tilde || k is Bang {
        Some(29u8)
    } else {
        None
    }
}

/// Runtime table for [`spec_prefix_bp`].
fn prefix_binding_power(kind: TokenKind) -> (r: Option<u8>)
    ensures
        r == spec_prefix_bp(kind),
{
    match kind {
        TokenKind::MinusMinus | TokenKind::PlusPlus | TokenKind::Plus | TokenKind::Minus
            | TokenKind::Tilde | TokenKind::Bang => Some(29),
        _ => None,
    }
}

/// The binding powers of an infix operator. A left-associative operator has
/// a smaller left than right power; a right-associative one the reverse.
pub open spec fn spec_infix_bp(k: TokenKind) -> Option<(u8, u8)> {
    if k is QuestionDot || k is Dot || k is ColonColon {
        Some((32u8, 31u8))
    } else if k is DotDot || k is DotDotEqual {
        Some((28u8, 27u8))
    } else if k is Star || k is Slash || k is Percent {
        Some((25u8, 26u8))
    } else if k is Plus || k is Minus {
        Some((23u8, 24u8))
    } else if k is LessLess || k is GreaterGreater {
        Some((21u8, 22u8))
    } else if k is Greater || k is Less || k is GreaterEqual || k is LessEqual {
        Some((19u8, 20u8))
    } else if k is EqualEqual || k is BangEqual {
        Some((17u8, 18u8))
    } else if k is Amp {
        Some((15u8, 16u8))
    } else if k is Caret {
        Some((13u8, 14u8))
    } else if k is Bar {
        Some((11u8, 12u8))
    } else if k is AmpAmp {
        Some((9u8, 10u8))
    } else if k is BarBar {
        Some((7u8, 8u8))
    } else if k is QuestionQuestion {
        Some((6u8, 5u8))
    } else if k is Question {
        Some((4u8, 3u8))
    } else if k is Equal || k is PlusEqual || k is MinusEqual || k is PercentEqual
        || k is StarEqual || k is SlashEqual || k is AmpEqual || k is BarEqual
        || k is LessLessEqual || k is GreaterGreaterEqual || k is QuestionQuestionEquals
        || k is CaretEqual || k is TildeEqual {
        Some((2u8, 1u8))
    } else {
        None
    }
}

/// Runtime table for [`spec_infix_bp`].
fn infix_binding_power(kind: TokenKind) -> (r: Option<(u8, u8)>)
    ensures
        r == spec_infix_bp(kind),
{
    match kind {
        TokenKind::QuestionDot | TokenKind::Dot | TokenKind::ColonColon => Some((32, 31)),
        TokenKind::DotDot | TokenKind::DotDotEqual => Some((28, 27)),
        TokenKind::Star | TokenKind::Slash | TokenKind::Percent => Some((25, 26)),
        TokenKind::Plus | TokenKind::Minus => Some((23, 24)),
        TokenKind::LessLess | TokenKind::GreaterGreater => Some((21, 22)),
        TokenKind::Greater | TokenKind::Less | TokenKind::GreaterEqual
            | TokenKind::LessEqual => Some((19, 20)),
        TokenKind::EqualEqual | TokenKind::BangEqual => Some((17, 18)),
        TokenKind::Amp => Some((15, 16)),
        TokenKind::Caret => Some((13, 14)),
        TokenKind::Bar => Some((11, 12)),
        TokenKind::AmpAmp => Some((9, 10)),
        TokenKind::BarBar => Some((7, 8)),
        TokenKind::QuestionQuestion => Some((6, 5)),
        TokenKind::Question => Some((4, 3)),
        TokenKind::Equal | TokenKind::PlusEqual | TokenKind::MinusEqual
            | TokenKind::PercentEqual | TokenKind::StarEqual | TokenKind::SlashEqual
            | TokenKind::AmpEqual | TokenKind::BarEqual | TokenKind::LessLessEqual
            | TokenKind::GreaterGreaterEqual | TokenKind::QuestionQuestionEquals
            | TokenKind::CaretEqual | TokenKind::TildeEqual => Some((2, 1)),
        _ => None,
    }
}

/// The left binding power of a postfix operator: 30 for the four defined
/// postfixes, `None` for any other kind.
pub open spec fn spec_postfix_bp(k: TokenKind) -> Option<u8> {
    if k is MinusMinus || k is PlusPlus || k is QuestionLBracket || k is LBracket {
        Some(30u8)
    } else {
        None
    }
}

/// Runtime table for [`spec_postfix_bp`].
fn postfix_binding_power(kind: TokenKind) -> (r: Option<u8>)
    ensures
        r == spec_postfix_bp(kind),
{
    match kind {
        TokenKind::MinusMinus | TokenKind::PlusPlus | TokenKind::QuestionLBracket
            | TokenKind::LBracket => Some(30),
        _ => None,
    }
}

/// The loosest right binding power still open along an expression's right
/// edge: the smallest `r_bp` among the parses that would still absorb an
/// operator appearing right after this expression. `1000` means the right
/// edge is closed (an atom, parentheses, a subscript, a postfix operator):
/// nothing to its right can be pulled inside.
pub open spec fn right_min(e: Expr) -> int
    decreases e,
{
    match e {
        Expr::Unary { operand, postfix, .. } => if postfix {
            1000
        } else {
            if right_min(*operand) < 29 {
                right_min(*operand)
            } else {
                29
            }
        },
        Expr::Binary { op, rhs, .. } => {
            let r = match spec_infix_bp(op.token.kind) {
                Some(p) => p.1 as int,
                None => 1000,
            };
            if right_min(*rhs) < r {
                right_min(*rhs)
            } else {
                r
            }
        },
        Expr::Ternary { rhs, .. } => if right_min(*rhs) < 3 {
            right_min(*rhs)
        } else {
            3
        },
        _ => 1000,
    }
}

/// A well-formed result of the precedence climb at `min_bp`: every operator
/// node respects the binding-power tables. An infix or postfix operator's
/// left power reaches `min_bp` but is too weak to have been absorbed into
/// its left operand's open right edge; each right operand is parsed at the
/// operator's right power; parenthesized, bracketed and listed positions
/// restart at power zero. Together with [`next_op_bound`] this fixes the
/// grouping: for instance `a + b * c` can only nest the `*` under the `+`,
/// and `a = b = c` can only nest to the right.
pub open spec fn expr_wf(e: Expr, m: u8) -> bool
    decreases e,
{
    match e {
        Expr::Literal { .. } => true,
        Expr::IdentifierUsage { .. } => true,
        Expr::Decorated { expr, .. } => expr_wf(*expr, 0),
        Expr::Call { argument_list, .. } => forall|i: int|
            0 <= i < argument_list.arguments@.len() ==> expr_wf(
                (#[trigger] argument_list.arguments@[i]).expr,
                0,
            ),
        Expr::ArrayInitializer { items, .. } => forall|i: int|
            0 <= i < items@.len() ==> expr_wf((#[trigger] items@[i]).expr, 0),
        Expr::Match { expr, body, .. } => expr_wf(*expr, 0) && forall|i: int|
            0 <= i < body.arms@.len() ==> expr_wf((#[trigger] body.arms@[i]).expr, 0),
        Expr::Unary { op, operand, postfix } => if postfix {
            &&& spec_postfix_bp(op.token.kind) is Some
            &&& !(op.token.kind is LBracket)
            &&& !(op.token.kind is QuestionLBracket)
            &&& spec_postfix_bp(op.token.kind)->Some_0 >= m
            &&& (spec_postfix_bp(op.token.kind)->Some_0 as int) < right_min(*operand)
            &&& expr_wf(*operand, m)
        } else {
            &&& is_operator_kind(op.token.kind)
            &&& !(op.token.kind is LBracket)
            &&& expr_wf(*operand, 29)
        },
        Expr::Index { lhs, lbracket, expr, .. } => {
            &&& (lbracket.token.kind is LBracket || lbracket.token.kind is QuestionLBracket)
            &&& 30 >= m
            &&& 30 < right_min(*lhs)
            &&& expr_wf(*lhs, m)
            &&& expr_wf(*expr, 0)
        },
        Expr::Binary { lhs, op, rhs } => {
            let bp = spec_infix_bp(op.token.kind);
            &&& bp is Some
            &&& !(op.token.kind is Question)
            &&& bp->Some_0.0 >= m
            &&& (bp->Some_0.0 as int) < right_min(*lhs)
            &&& expr_wf(*lhs, m)
            &&& expr_wf(*rhs, bp->Some_0.1)
        },
        Expr::Ternary { lhs, op1, mhs, op2, rhs } => {
            &&& op1.token.kind is Question
            &&& op2.token.kind is Colon
            &&& 4 >= m
            &&& 4 < right_min(*lhs)
            &&& expr_wf(*lhs, m)
            &&& expr_wf(*mhs, 0)
            &&& expr_wf(*rhs, 3)
        },
    }
}

/// Where a precedence climb at `min_bp` stops: at the end of the tokens, at
/// a non-operator, at an operator whose left power falls short of `min_bp`,
/// or at an operator with no postfix or infix power at all.
pub open spec fn expr_stop(o: Option<Token>, m: u8) -> bool {
    match o {
        None => true,
        Some(t) => {
            if !is_operator_kind(t.kind) {
                true
            } else if spec_postfix_bp(t.kind) is Some {
                spec_postfix_bp(t.kind)->Some_0 < m
            } else if spec_infix_bp(t.kind) is Some {
                spec_infix_bp(t.kind)->Some_0.0 < m
            } else {
                true
            }
        },
    }
}

/// The token after a parsed expression is too weak to belong inside it: its
/// left power, if it has one, is below the expression's open right edge.
pub open spec fn next_op_bound(o: Option<Token>, e: Expr) -> bool {
    match o {
        None => true,
        Some(t) => {
            if spec_postfix_bp(t.kind) is Some {
                (spec_postfix_bp(t.kind)->Some_0 as int) < right_min(e)
            } else if spec_infix_bp(t.kind) is Some {
                (spec_infix_bp(t.kind)->Some_0.0 as int) < right_min(e)
            } else {
                true
            }
        },
    }
}

/// Wrap an operand in a unary expression, on the side `postfix` says.
fn bake_unary_expression(op: SyntaxToken, operand: Expr, postfix: bool) -> (r: Expr)
    ensures
        expr_toks(r) == if postfix {
            expr_toks(operand) + st_toks(op)
        } else {
            st_toks(op) + expr_toks(operand)
        },
        r is Unary,
        r->Unary_op == op,
        *r->Unary_operand == operand,
        r->Unary_postfix == postfix,
{
    let r = Expr::Unary { op, operand: Box::new(operand), postfix };
    r
}

/// Join two operands with an infix operator.
fn bake_binary_expression(lhs: Expr, op: SyntaxToken, rhs: Expr) -> (r: Expr)
    ensures
        expr_toks(r) == expr_toks(lhs) + st_toks(op) + expr_toks(rhs),
        r is Binary,
        *r->Binary_lhs == lhs,
        r->Binary_op == op,
        *r->Binary_rhs == rhs,
{
    Expr::Binary { lhs: Box::new(lhs), op, rhs: Box::new(rhs) }
}

/// Join condition, then-value and else-value into a ternary expression.
fn bake_ternary_expression(
    lhs: Expr,
    op1: SyntaxToken,
    mhs: Expr,
    op2: SyntaxToken,
    rhs: Expr,
) -> (r: Expr)
    ensures
        expr_toks(r) == expr_toks(lhs) + st_toks(op1) + expr_toks(mhs) + st_toks(op2) + expr_toks(
            rhs,
        ),
        r is Ternary,
        *r->Ternary_lhs == lhs,
        r->Ternary_op1 == op1,
        *r->Ternary_mhs == mhs,
        r->Ternary_op2 == op2,
        *r->Ternary_rhs == rhs,
{
    Expr::Ternary { lhs: Box::new(lhs), op1, mhs: Box::new(mhs), op2, rhs: Box::new(rhs) }
}

/// Wrap an expression in its surrounding parentheses.
fn decorate_expression(l: SyntaxToken, r: SyntaxToken, expr: Expr) -> (d: Expr)
    ensures
        expr_toks(d) == st_toks(l) + expr_toks(expr) + st_toks(r),
        d is Decorated,
        d->Decorated_l == l,
        *d->Decorated_expr == expr,
        d->Decorated_r == r,
{
    Expr::Decorated { l, expr: Box::new(expr), r }
}

} // verus!

// Identifiers, type names and initializers.

verus! {

/// The built-in type names; any other type name is user-defined.
pub open spec fn is_internal_name(v: Seq<char>) -> bool {
    ||| v == seq!['s', 'b', 'y', 't', 'e']
    ||| v == seq!['i', '8']
    ||| v == seq!['s', 'h', 'o', 'r', 't']
    ||| v == seq!['i', '1', '6']
    ||| v == seq!['i', 'n', 't']
    ||| v == seq!['i', '3', '2']
    ||| v == seq!['l', 'o', 'n', 'g']
    ||| v == seq!['i', '6', '4']
    ||| v == seq!['b', 'y', 't', 'e']
    ||| v == seq!['u', '8']
    ||| v == seq!['u', 's', 'h', 'o', 'r', 't']
    ||| v == seq!['u', '1', '6']
    ||| v == seq!['u', 'i', 'n', 't']
    ||| v == seq!['u', '3', '2']
    ||| v == seq!['u', 'l', 'o', 'n', 'g']
    ||| v == seq!['u', '6', '4']
    ||| v == seq!['f', 'l', 'o', 'a', 't']
    ||| v == seq!['f', '3', '2']
    ||| v == seq!['d', 'o', 'u', 'b', 'l', 'e']
    ||| v == seq!['f', '6', '4']
    ||| v == seq!['s', 't', 'r', 'i', 'n', 'g']
    ||| v == seq!['c', 'h', 'a', 'r']
    ||| v == seq!['b', 'o', 'o', 'l']
}

/// Runtime test for [`is_internal_name`].
fn is_internal_type_name(v: &String) -> (b: bool)
    ensures
        b == is_internal_name(v@),
{
    proof {
        reveal_strlit("sbyte");
        reveal_strlit("i8");
        reveal_strlit("short");
        reveal_strlit("i16");
        reveal_strlit("int");
        reveal_strlit("i32");
        reveal_strlit("long");
        reveal_strlit("i64");
        reveal_strlit("byte");
        reveal_strlit("u8");
        reveal_strlit("ushort");
        reveal_strlit("u16");
        reveal_strlit("uint");
        reveal_strlit("u32");
        reveal_strlit("ulong");
        reveal_strlit("u64");
        reveal_strlit("float");
        reveal_strlit("f32");
        reveal_strlit("double");
        reveal_strlit("f64");
        reveal_strlit("string");
        reveal_strlit("char");
        reveal_strlit("bool");
        assert("sbyte"@ =~= seq!['s', 'b', 'y', 't', 'e']);
        assert("i8"@ =~= seq!['i', '8']);
        assert("short"@ =~= seq!['s', 'h', 'o', 'r', 't']);
        assert("i16"@ =~= seq!['i', '1', '6']);
        assert("int"@ =~= seq!['i', 'n', 't']);
        assert("i32"@ =~= seq!['i', '3', '2']);
        assert("long"@ =~= seq!['l', 'o', 'n', 'g']);
        assert("i64"@ =~= seq!['i', '6', '4']);
        assert("byte"@ =~= seq!['b', 'y', 't', 'e']);
        assert("u8"@ =~= seq!['u', '8']);
        assert("ushort"@ =~= seq!['u', 's', 'h', 'o', 'r', 't']);
        assert("u16"@ =~= seq!['u', '1', '6']);
        assert("uint"@ =~= seq!['u', 'i', 'n', 't']);
        assert("u32"@ =~= seq!['u', '3', '2']);
        assert("ulong"@ =~= seq!['u', 'l', 'o', 'n', 'g']);
        assert("u64"@ =~= seq!['u', '6', '4']);
        assert("float"@ =~= seq!['f', 'l', 'o', 'a', 't']);
        assert("f32"@ =~= seq!['f', '3', '2']);
        assert("double"@ =~= seq!['d', 'o', 'u', 'b', 'l', 'e']);
        assert("f64"@ =~= seq!['f', '6', '4']);
        assert("string"@ =~= seq!['s', 't', 'r', 'i', 'n', 'g']);
        assert("char"@ =~= seq!['c', 'h', 'a', 'r']);
        assert("bool"@ =~= seq!['b', 'o', 'o', 'l']);
    }
    *v == String::from_str("sbyte") || *v == String::from_str("i8")
        || *v == String::from_str("short") || *v == String::from_str("i16")
        || *v == String::from_str("int") || *v == String::from_str("i32")
        || *v == String::from_str("long") || *v == String::from_str("i64")
        || *v == String::from_str("byte") || *v == String::from_str("u8")
        || *v == String::from_str("ushort") || *v == String::from_str("u16")
        || *v == String::from_str("uint") || *v == String::from_str("u32")
        || *v == String::from_str("ulong") || *v == String::from_str("u64")
        || *v == String::from_str("float") || *v == String::from_str("f32")
        || *v == String::from_str("double") || *v == String::from_str("f64")
        || *v == String::from_str("string") || *v == String::from_str("char")
        || *v == String::from_str("bool")
}

/// The identifier inside a classified type name.
pub open spec fn type_kind_ident(tk: TypeKind) -> Identifier {
    match tk {
        TypeKind::UserDefined { identifier } => identifier,
        TypeKind::Internal { identifier } => identifier,
    }
}

impl Parser {
    /// Parse an identifier; a missing one is synthesized with a diagnostic.
    fn parse_identifier(&mut self) -> (r: Identifier)
        requires
            old(self).wf(),
        ensures
            final(self).wf(),
            final(self).toks() == old(self).toks(),
            final(self).junk() == old(self).junk(),
            old(self).at() <= final(self).at(),
            toks_nonempty(old(self).toks()) ==> real_toks(ident_toks(r)) == old(
                self).toks().subrange(old(self).at(), final(self).at()),
            opt_kind_is(peek_tok(*old(self)), TokenKind::Identifier) ==> r.identifier.token == old(
                self).toks()[old(self).at()] && r.identifier.diagnostics@.len() == 0 && old(
                self).at() < final(self).at(),
            !opt_kind_is(peek_tok(*old(self)), TokenKind::Identifier) ==> is_missing_token(
                r.identifier,
                TokenKind::Identifier,
                peek_tok(*old(self)),
            ),
            r.identifier.token.kind is Identifier,
            r.identifier.diagnostics@.len() == 0 ==> ident_toks(r) == old(self).toks().subrange(
                old(self).at(),
                final(self).at(),
            ),
            r.identifier.diagnostics@.len() == 0 <==> opt_kind_is(
                peek_tok(*old(self)),
                TokenKind::Identifier,
            ),
    {
        Identifier { identifier: self.parse_expected_token(TokenKind::Identifier) }
    }

    /// Parse a type name and classify it as built-in or user-defined.
    fn parse_type(&mut self) -> (r: TypeKind)
        requires
            old(self).wf(),
        ensures
            final(self).wf(),
            final(self).toks() == old(self).toks(),
            final(self).junk() == old(self).junk(),
            old(self).at() <= final(self).at(),
            toks_nonempty(old(self).toks()) ==> real_toks(type_kind_toks(r)) == old(
                self).toks().subrange(old(self).at(), final(self).at()),
            r is Internal <==> is_internal_name(type_kind_ident(r).identifier.token.value@),
            type_kind_ident(r).identifier.token.kind is Identifier,
            type_kind_ident(r).identifier.diagnostics@.len() == 0 ==> type_kind_toks(r) == old(
                self).toks().subrange(old(self).at(), final(self).at()),
            type_kind_ident(r).identifier.diagnostics@.len() == 0 <==> opt_kind_is(
                peek_tok(*old(self)),
                TokenKind::Identifier,
            ),
    {
        let identifier = self.parse_identifier();
        if is_internal_type_name(&identifier.identifier.token.value) {
            TypeKind::Internal { identifier }
        } else {
            TypeKind::UserDefined { identifier }
        }
    }

    /// Parse `: <type>` when a colon is next; otherwise `None`.
    fn parse_type_id(&mut self) -> (r: Option<TypeId>)
        requires
            old(self).wf(),
        ensures
            final(self).wf(),
            final(self).toks() == old(self).toks(),
            final(self).junk() == old(self).junk(),
            old(self).at() <= final(self).at(),
            toks_nonempty(old(self).toks()) ==> real_toks(opt_type_id_toks(r)) == old(
                self).toks().subrange(old(self).at(), final(self).at()),
            r is Some <==> opt_kind_is(peek_tok(*old(self)), TokenKind::Colon),
            r is Some ==> (r->Some_0.type_kind is Internal <==> is_internal_name(
                type_kind_ident(r->Some_0.type_kind).identifier.token.value@,
            )) && r->Some_0.colon_token.token.kind is Colon
                && r->Some_0.colon_token.diagnostics@.len() == 0,
            r is None ==> final(self).at() == old(self).at(),
            type_id_clean(r) ==> opt_type_id_toks(r) == old(self).toks().subrange(
                old(self).at(),
                final(self).at(),
            ),
    {
        let ghost t0 = self.toks();
        let ghost p0 = self.at();
        let next = self.peek();
        if !is_some_and_kind(&next, TokenKind::Colon) {
            return None;
        }
        let colon_token = self.parse_token();
        let ghost p1 = self.at();
        let type_kind = self.parse_type();
        let r = Some(TypeId { colon_token, type_kind });
        proof {
            if toks_nonempty(t0) {
                lemma_real_join(t0, p0, p1, self.at(), st_toks(colon_token), type_kind_toks(
                    type_kind));
            }
        }
        r
    }
}

} // verus!

// The expression engine: a Pratt precedence climb over the binding-power
// tables, with atoms, calls, array initializers and match expressions.

verus! {

impl Parser {
    /// Lift the next token when it has the given kind; otherwise `None`,
    /// leaving the parser untouched. Serves optional pieces such as trailing
    /// commas and the `mut` of a variable definition.
    fn parse_token_if(&mut self, kind: TokenKind) -> (r: Option<SyntaxToken>)
        requires
            old(self).wf(),
        ensures
            final(self).wf(),
            final(self).toks() == old(self).toks(),
            final(self).junk() == old(self).junk(),
            old(self).at() <= final(self).at(),
            toks_nonempty(old(self).toks()) ==> real_toks(opt_st_toks(r)) == old(
                self).toks().subrange(old(self).at(), final(self).at()),
            r is Some <==> opt_kind_is(peek_tok(*old(self)), kind),
            r is Some ==> r->Some_0.diagnostics@.len() == 0 && old(self).at() < final(self).at()
                && r->Some_0.token.kind == kind && opt_st_toks(r) == old(self).toks().subrange(
                old(self).at(),
                final(self).at(),
            ),
            r is None ==> final(self).at() == old(self).at(),
    {
        let next = self.peek();
        if is_some_and_kind(&next, kind) {
            Some(self.parse_token())
        } else {
            proof {
                lemma_real_empty();
                assert(old(self).toks().subrange(old(self).at(), old(self).at()) =~= Seq::<
                    Token,
                >::empty());
            }
            None
        }
    }

    /// Parse one expression.
    fn parse_expression(&mut self) -> (r: Expr)
        requires
            old(self).wf(),
        ensures
            final(self).wf(),
            final(self).toks() == old(self).toks(),
            final(self).junk() == old(self).junk(),
            old(self).at() <= final(self).at(),
            toks_nonempty(old(self).toks()) ==> real_toks(expr_toks(r)) == old(
                self).toks().subrange(old(self).at(), final(self).at()),
            is_expression_start(peek_tok(*old(self))) ==> old(self).at() < final(self).at(),
            expr_wf(r, 0),
            expr_stop(peek_tok(*final(self)), 0),
            next_op_bound(peek_tok(*final(self)), r),
        decreases self.toks().len() - self.at(), 6int,
    {
        self.parse_expression_bp(0)
    }

    /// The precedence climb: parse a left operand, then fold in postfix and
    /// infix operators whose left binding power reaches `min_bp`.
    ///
    /// At the front, any operator other than `[` is taken as a prefix; one
    /// without a prefix binding power is given the common prefix power, which
    /// keeps the parser total where aborting would be the alternative.
    fn parse_expression_bp(&mut self, min_bp: u8) -> (r: Expr)
        requires
            old(self).wf(),
        ensures
            final(self).wf(),
            final(self).toks() == old(self).toks(),
            final(self).junk() == old(self).junk(),
            old(self).at() <= final(self).at(),
            toks_nonempty(old(self).toks()) ==> real_toks(expr_toks(r)) == old(
                self).toks().subrange(old(self).at(), final(self).at()),
            is_expression_start(peek_tok(*old(self))) ==> old(self).at() < final(self).at(),
            expr_wf(r, min_bp),
            expr_stop(peek_tok(*final(self)), min_bp),
            next_op_bound(peek_tok(*final(self)), r),
        decreases self.toks().len() - self.at(), 5int,
    {
        let ghost t0 = self.toks();
        let ghost p0 = self.at();
        let ghost j0 = self.junk();
        let next = self.peek();
        let mut lhs: Expr;
        if is_operator(&next) && !is_some_and_kind(&next, TokenKind::LBracket) {
            let op = self.parse_token();
            let r_bp = match prefix_binding_power(op.token.kind) {
                Some(bp) => bp,
                None => 29,
            };
            proof {
                assert(r_bp == 29);
            }
            let ghost p1 = self.at();
            let rhs = self.parse_expression_bp(r_bp);
            lhs = bake_unary_expression(op, rhs, false);
            proof {
                if toks_nonempty(t0) {
                    lemma_real_join(t0, p0, p1, self.at(), st_toks(op), expr_toks(rhs));
                }
                assert(expr_wf(lhs, min_bp));
                assert(next_op_bound(peek_tok(*self), lhs));
            }
        } else if is_some_and_kind(&next, TokenKind::LParen) {
            let lparen = self.parse_token();
            let ghost p1 = self.at();
            let expr = self.parse_expression_bp(0);
            let ghost p2 = self.at();
            let rparen = self.parse_expected_token(TokenKind::RParen);
            lhs = decorate_expression(lparen, rparen, expr);
            proof {
                if toks_nonempty(t0) {
                    lemma_real_join(t0, p0, p1, p2, st_toks(lparen), expr_toks(expr));
                    lemma_real_join(
                        t0,
                        p0,
                        p2,
                        self.at(),
                        st_toks(lparen) + expr_toks(expr),
                        st_toks(rparen),
                    );
                }
            }
        } else {
            lhs = self.parse_expression_atom();
        }
        loop
            invariant
                t0 == old(self).toks(),
                p0 == old(self).at(),
                self.wf(),
                self.toks() == t0,
                self.junk() == j0,
                0 <= p0 <= self.at() <= t0.len(),
                toks_nonempty(t0) ==> real_toks(expr_toks(lhs)) == t0.subrange(p0, self.at()),
                is_expression_start(peek_tok(*old(self))) ==> p0 < self.at(),
                expr_wf(lhs, min_bp),
                next_op_bound(peek_tok(*self), lhs),
            ensures
                self.wf(),
                self.toks() == t0,
                self.junk() == j0,
                0 <= p0 <= self.at() <= t0.len(),
                toks_nonempty(t0) ==> real_toks(expr_toks(lhs)) == t0.subrange(p0, self.at()),
                is_expression_start(peek_tok(*old(self))) ==> p0 < self.at(),
                expr_wf(lhs, min_bp),
                next_op_bound(peek_tok(*self), lhs),
                expr_stop(peek_tok(*self), min_bp),
            decreases t0.len() - self.at(),
        {
            let next = self.peek();
            if !is_operator(&next) {
                break;
            }
            let nk = match &next {
                Some(t) => t.kind,
                None => TokenKind::Unknown,
            };
            match postfix_binding_power(nk) {
                Some(l_bp) => {
                    if l_bp < min_bp {
                        break;
                    }
                    let ghost pa = self.at();
                    let op = self.parse_token();
                    let is_index = match op.token.kind {
                        TokenKind::LBracket => true,
                        TokenKind::QuestionLBracket => true,
                        _ => false,
                    };
                    if is_index {
                        let ghost pb = self.at();
                        let inner = self.parse_expression_bp(0);
                        let ghost pc = self.at();
                        let rbracket = self.parse_expected_token(TokenKind::RBracket);
                        let prev = lhs;
                        lhs = Expr::Index {
                            lhs: Box::new(prev),
                            lbracket: op,
                            expr: Box::new(inner),
                            rbracket,
                        };
                        proof {
                            if toks_nonempty(t0) {
                                lemma_real_join(t0, p0, pa, pb, expr_toks(prev), st_toks(op));
                                lemma_real_join(
                                    t0,
                                    p0,
                                    pb,
                                    pc,
                                    expr_toks(prev) + st_toks(op),
                                    expr_toks(inner),
                                );
                                lemma_real_join(
                                    t0,
                                    p0,
                                    pc,
                                    self.at(),
                                    expr_toks(prev) + st_toks(op) + expr_toks(inner),
                                    st_toks(rbracket),
                                );
                            }
                        }
                    } else {
                        let prev = lhs;
                        lhs = bake_unary_expression(op, prev, true);
                        proof {
                            if toks_nonempty(t0) {
                                lemma_real_join(t0, p0, pa, self.at(), expr_toks(prev), st_toks(
                                    op));
                            }
                        }
                    }
                },
                None => {
                    match infix_binding_power(nk) {
                        Some((l_bp, r_bp)) => {
                            if l_bp < min_bp {
                                break;
                            }
                            let ghost pa = self.at();
                            let op = self.parse_token();
                            let is_ternary = match op.token.kind {
                                TokenKind::Question => true,
                                _ => false,
                            };
                            if is_ternary {
                                let ghost pb = self.at();
                                let mhs = self.parse_expression_bp(0);
                                let ghost pc = self.at();
                                let op2 = self.parse_expected_token(TokenKind::Colon);
                                let ghost pd = self.at();
                                let rhs = self.parse_expression_bp(r_bp);
                                let prev = lhs;
                                lhs = bake_ternary_expression(prev, op, mhs, op2, rhs);
                                proof {
                                    if toks_nonempty(t0) {
                                        lemma_real_join(t0, p0, pa, pb, expr_toks(prev), st_toks(
                                            op));
                                        lemma_real_join(
                                            t0,
                                            p0,
                                            pb,
                                            pc,
                                            expr_toks(prev) + st_toks(op),
                                            expr_toks(mhs),
                                        );
                                        lemma_real_join(
                                            t0,
                                            p0,
                                            pc,
                                            pd,
                                            expr_toks(prev) + st_toks(op) + expr_toks(mhs),
                                            st_toks(op2),
                                        );
                                        lemma_real_join(
                                            t0,
                                            p0,
                                            pd,
                                            self.at(),
                                            expr_toks(prev) + st_toks(op) + expr_toks(mhs)
                                                + st_toks(op2),
                                            expr_toks(rhs),
                                        );
                                    }
                                }
                            } else {
                                let ghost pb = self.at();
                                let rhs = self.parse_expression_bp(r_bp);
                                let prev = lhs;
                                lhs = bake_binary_expression(prev, op, rhs);
                                proof {
                                    if toks_nonempty(t0) {
                                        lemma_real_join(t0, p0, pa, pb, expr_toks(prev), st_toks(
                                            op));
                                        lemma_real_join(
                                            t0,
                                            p0,
                                            pb,
                                            self.at(),
                                            expr_toks(prev) + st_toks(op),
                                            expr_toks(rhs),
                                        );
                                    }
                                }
                            }
                        },
                        None => {
                            break;
                        },
                    }
                },
            }
        }
        lhs
    }

    /// Parse an expression atom: a literal, an array initializer, a match
    /// expression, or an identifier (a call when `(` follows). Where no atom
    /// can start, a missing identifier is synthesized with a diagnostic.
    fn parse_expression_atom(&mut self) -> (r: Expr)
        requires
            old(self).wf(),
        ensures
            final(self).wf(),
            final(self).toks() == old(self).toks(),
            final(self).junk() == old(self).junk(),
            old(self).at() <= final(self).at(),
            toks_nonempty(old(self).toks()) ==> real_toks(expr_toks(r)) == old(
                self).toks().subrange(old(self).at(), final(self).at()),
            is_expression_start(peek_tok(*old(self))) && !is_operator_kind(
                peek_tok(*old(self))->Some_0.kind,
            ) ==> old(self).at() < final(self).at(),
            opt_kind_is(peek_tok(*old(self)), TokenKind::LBracket) ==> old(self).at() < final(
                self).at(),
            ({
                let k = peek_tok(*old(self));
                &&& k is Some && k->Some_0.kind is NumberLiteral ==> r is Literal
                &&& k is Some && k->Some_0.kind is StringLiteral ==> r is Literal
                &&& k is Some && k->Some_0.kind is CharLiteral ==> r is Literal
                &&& k is Some && k->Some_0.kind is TrueKeyword ==> r is Literal
                &&& k is Some && k->Some_0.kind is FalseKeyword ==> r is Literal
                &&& k is Some && k->Some_0.kind is LBracket ==> r is ArrayInitializer
                &&& k is Some && k->Some_0.kind is MatchKeyword ==> r is Match
            }),
            forall|mm: u8| expr_wf(r, mm),
            right_min(r) == 1000,
        decreases self.toks().len() - self.at(), 4int,
    {
        let ghost t0 = self.toks();
        let ghost p0 = self.at();
        let next = self.peek();
        match next {
            Some(t) => {
                match t.kind {
                    TokenKind::NumberLiteral { .. } => {
                        let number_literal = self.parse_token();
                        Expr::Literal { kind: LiteralKind::Number { number_literal } }
                    },
                    TokenKind::StringLiteral { .. } => {
                        let string_literal = self.parse_token();
                        Expr::Literal { kind: LiteralKind::Str { string_literal } }
                    },
                    TokenKind::CharLiteral { .. } => {
                        let char_literal = self.parse_token();
                        Expr::Literal { kind: LiteralKind::Char { char_literal } }
                    },
                    TokenKind::TrueKeyword | TokenKind::FalseKeyword => {
                        let bool_literal = self.parse_token();
                        Expr::Literal { kind: LiteralKind::Bool { bool_literal } }
                    },
                    TokenKind::LBracket => self.parse_array_initializer(),
                    TokenKind::MatchKeyword => self.parse_match_expression(),
                    TokenKind::Identifier => {
                        let identifier = self.parse_identifier();
                        let after = self.peek();
                        if is_some_and_kind(&after, TokenKind::LParen) {
                            self.parse_call(identifier)
                        } else {
                            Expr::IdentifierUsage { identifier }
                        }
                    },
                    _ => {
                        // no expression can start here: stand in a missing
                        // identifier and let the caller carry on
                        let identifier = self.parse_identifier();
                        Expr::IdentifierUsage { identifier }
                    },
                }
            },
            None => {
                let identifier = self.parse_identifier();
                Expr::IdentifierUsage { identifier }
            },
        }
    }

    /// Parse `[ expr (, expr)* ,? ]`; the empty initializer is allowed.
    fn parse_array_initializer(&mut self) -> (r: Expr)
        requires
            old(self).wf(),
            opt_kind_is(peek_tok(*old(self)), TokenKind::LBracket),
        ensures
            final(self).wf(),
            final(self).toks() == old(self).toks(),
            final(self).junk() == old(self).junk(),
            old(self).at() < final(self).at(),
            toks_nonempty(old(self).toks()) ==> real_toks(expr_toks(r)) == old(
                self).toks().subrange(old(self).at(), final(self).at()),
            r is ArrayInitializer,
            forall|mm: u8| expr_wf(r, mm),
            right_min(r) == 1000,
        decreases self.toks().len() - self.at(), 3int,
    {
        let ghost t0 = self.toks();
        let ghost p0 = self.at();
        let ghost j0 = self.junk();
        let lbracket = self.parse_token();
        let ghost p1 = self.at();
        let mut items: Vec<InitializerItem> = Vec::new();
        proof {
            lemma_real_empty();
            assert(items_toks(items@) =~= Seq::<Token>::empty());
            assert(t0.subrange(p1, p1) =~= Seq::<Token>::empty());
        }
        loop
            invariant
                t0 == old(self).toks(),
                old(self).at() < p1,
                self.wf(),
                self.toks() == t0,
                self.junk() == j0,
                0 <= p1 <= self.at() <= t0.len(),
                toks_nonempty(t0) ==> real_toks(items_toks(items@)) == t0.subrange(p1, self.at()),
                forall|i: int| 0 <= i < items@.len() ==> expr_wf((#[trigger] items@[i]).expr, 0),
            decreases t0.len() - self.at(),
        {
            let next = self.peek();
            if !is_possible_expression(&next) {
                break;
            }
            let ghost prior = items@;
            let ghost pa = self.at();
            let expr = self.parse_expression();
            let ghost pb = self.at();
            let comma_token = self.parse_token_if(TokenKind::Comma);
            let x = InitializerItem { expr, comma_token };
            items.push(x);
            proof {
                if toks_nonempty(t0) {
                    lemma_real_join(t0, pa, pb, self.at(), expr_toks(x.expr), opt_st_toks(
                        x.comma_token));
                    crate::nodes::lemma_items_toks_push(prior, x);
                    lemma_real_join(t0, p1, pa, self.at(), items_toks(prior), crate::nodes::item_toks(
                        x));
                }
            }
        }
        let ghost p2 = self.at();
        let rbracket = self.parse_expected_token(TokenKind::RBracket);
        let r = Expr::ArrayInitializer { lbracket, items, rbracket };
        proof {
            if toks_nonempty(t0) {
                lemma_real_join(t0, p0, p1, p2, st_toks(lbracket), items_toks(
                    r->ArrayInitializer_items@));
                lemma_real_join(
                    t0,
                    p0,
                    p2,
                    self.at(),
                    st_toks(lbracket) + items_toks(r->ArrayInitializer_items@),
                    st_toks(rbracket),
                );
            }
        }
        r
    }

    /// Parse `match <expr> { <arms> }`.
    fn parse_match_expression(&mut self) -> (r: Expr)
        requires
            old(self).wf(),
            opt_kind_is(peek_tok(*old(self)), TokenKind::MatchKeyword),
        ensures
            final(self).wf(),
            final(self).toks() == old(self).toks(),
            final(self).junk() == old(self).junk(),
            old(self).at() < final(self).at(),
            toks_nonempty(old(self).toks()) ==> real_toks(expr_toks(r)) == old(
                self).toks().subrange(old(self).at(), final(self).at()),
            r is Match,
            forall|mm: u8| expr_wf(r, mm),
            right_min(r) == 1000,
        decreases self.toks().len() - self.at(), 3int,
    {
        let ghost t0 = self.toks();
        let ghost p0 = self.at();
        let match_token = self.parse_token();
        let ghost p1 = self.at();
        let expr = self.parse_expression();
        let ghost p2 = self.at();
        let body = self.parse_match_body();
        let r = Expr::Match { match_token, expr: Box::new(expr), body };
        proof {
            if toks_nonempty(t0) {
                lemma_real_join(t0, p0, p1, p2, st_toks(match_token), expr_toks(expr));
                lemma_real_join(
                    t0,
                    p0,
                    p2,
                    self.at(),
                    st_toks(match_token) + expr_toks(expr),
                    matchbody_toks(body),
                );
            }
        }
        r
    }

    /// Parse the `{ <arms> }` of a match expression. Whatever stands where
    /// `{` belongs is taken as the opening token; only at the very end of
    /// the input is a missing `{` synthesized.
    fn parse_match_body(&mut self) -> (r: MatchBody)
        requires
            old(self).wf(),
        ensures
            final(self).wf(),
            final(self).toks() == old(self).toks(),
            final(self).junk() == old(self).junk(),
            old(self).at() <= final(self).at(),
            toks_nonempty(old(self).toks()) ==> real_toks(matchbody_toks(r)) == old(
                self).toks().subrange(old(self).at(), final(self).at()),
            forall|i: int| 0 <= i < r.arms@.len() ==> expr_wf((#[trigger] r.arms@[i]).expr, 0),
        decreases self.toks().len() - self.at(), 2int,
    {
        let ghost t0 = self.toks();
        let ghost p0 = self.at();
        let ghost j0 = self.junk();
        let has_next = self.peek().is_some();
        let l_brace = if has_next {
            self.parse_token()
        } else {
            self.parse_expected_token(TokenKind::LBrace)
        };
        let ghost p1 = self.at();
        let mut arms: Vec<MatchArm> = Vec::new();
        proof {
            lemma_real_empty();
            assert(arms_toks(arms@) =~= Seq::<Token>::empty());
            assert(t0.subrange(p1, p1) =~= Seq::<Token>::empty());
        }
        loop
            invariant
                t0 == old(self).toks(),
                old(self).at() <= p1,
                self.wf(),
                self.toks() == t0,
                self.junk() == j0,
                0 <= p1 <= self.at() <= t0.len(),
                toks_nonempty(t0) ==> real_toks(arms_toks(arms@)) == t0.subrange(p1, self.at()),
                forall|i: int| 0 <= i < arms@.len() ==> expr_wf((#[trigger] arms@[i]).expr, 0),
            decreases t0.len() - self.at(),
        {
            let next = self.peek();
            if !is_possible_match_arm(&next) {
                break;
            }
            let ghost prior = arms@;
            let ghost pa = self.at();
            let arm = self.parse_match_arm();
            arms.push(arm);
            proof {
                if toks_nonempty(t0) {
                    crate::nodes::lemma_arms_toks_push(prior, arm);
                    lemma_real_join(t0, p1, pa, self.at(), arms_toks(prior), crate::nodes::arm_toks(
                        arm));
                }
            }
        }
        let ghost p2 = self.at();
        let r_brace = self.parse_expected_token(TokenKind::RBrace);
        let r = MatchBody { l_brace, r_brace, arms };
        proof {
            if toks_nonempty(t0) {
                lemma_real_join(t0, p0, p1, p2, st_toks(r.l_brace), arms_toks(r.arms@));
                lemma_real_join(
                    t0,
                    p0,
                    p2,
                    self.at(),
                    st_toks(r.l_brace) + arms_toks(r.arms@),
                    st_toks(r.r_brace),
                );
            }
        }
        r
    }

    /// Parse one match arm: `<pattern> => <expr> ,?`; the pattern is a
    /// literal token.
    fn parse_match_arm(&mut self) -> (r: MatchArm)
        requires
            old(self).wf(),
            is_match_arm_start(peek_tok(*old(self))),
        ensures
            final(self).wf(),
            final(self).toks() == old(self).toks(),
            final(self).junk() == old(self).junk(),
            old(self).at() < final(self).at(),
            toks_nonempty(old(self).toks()) ==> real_toks(crate::nodes::arm_toks(r)) == old(
                self).toks().subrange(old(self).at(), final(self).at()),
            expr_wf(r.expr, 0),
        decreases self.toks().len() - self.at(), 1int,
    {
        let ghost t0 = self.toks();
        let ghost p0 = self.at();
        let pattern_token = self.parse_token();
        let pattern = MatchPattern::Literal(pattern_token);
        let ghost p1 = self.at();
        let fat_arrow = self.parse_expected_token(TokenKind::EqualsGreater);
        let ghost p2 = self.at();
        let expr = self.parse_expression();
        let ghost p3 = self.at();
        let comma_token = self.parse_token_if(TokenKind::Comma);
        let r = MatchArm { pattern, fat_arrow, expr, comma_token };
        proof {
            if toks_nonempty(t0) {
                assert(pattern_toks(r.pattern) == st_toks(r.pattern->0));
                lemma_real_join(t0, p0, p1, p2, pattern_toks(r.pattern), st_toks(r.fat_arrow));
                lemma_real_join(
                    t0,
                    p0,
                    p2,
                    p3,
                    pattern_toks(r.pattern) + st_toks(r.fat_arrow),
                    expr_toks(r.expr),
                );
                lemma_real_join(
                    t0,
                    p0,
                    p3,
                    self.at(),
                    pattern_toks(r.pattern) + st_toks(r.fat_arrow) + expr_toks(r.expr),
                    opt_st_toks(r.comma_token),
                );
            }
        }
        r
    }

    /// Parse the argument list of a call on `identifier`.
    fn parse_call(&mut self, identifier: Identifier) -> (r: Expr)
        requires
            old(self).wf(),
            opt_kind_is(peek_tok(*old(self)), TokenKind::LParen),
        ensures
            final(self).wf(),
            final(self).toks() == old(self).toks(),
            final(self).junk() == old(self).junk(),
            old(self).at() < final(self).at(),
            toks_nonempty(old(self).toks()) ==> real_toks(expr_toks(r)) == real_toks(ident_toks(
                identifier)) + old(self).toks().subrange(old(self).at(), final(self).at()),
            forall|mm: u8| expr_wf(r, mm),
            right_min(r) == 1000,
        decreases self.toks().len() - self.at(), 3int,
    {
        let ghost t0 = self.toks();
        let argument_list = self.parse_argument_list();
        let r = Expr::Call { identifier, argument_list };
        proof {
            if toks_nonempty(t0) {
                lemma_real_add(ident_toks(r->Call_identifier), arglist_toks(r->Call_argument_list));
            }
        }
        r
    }

    /// Parse `( expr (, expr)* ,? )`; the empty list is allowed.
    fn parse_argument_list(&mut self) -> (r: ArgumentList)
        requires
            old(self).wf(),
            opt_kind_is(peek_tok(*old(self)), TokenKind::LParen),
        ensures
            final(self).wf(),
            final(self).toks() == old(self).toks(),
            final(self).junk() == old(self).junk(),
            old(self).at() < final(self).at(),
            toks_nonempty(old(self).toks()) ==> real_toks(arglist_toks(r)) == old(
                self).toks().subrange(old(self).at(), final(self).at()),
            forall|i: int|
                0 <= i < r.arguments@.len() ==> expr_wf((#[trigger] r.arguments@[i]).expr, 0),
        decreases self.toks().len() - self.at(), 2int,
    {
        let ghost t0 = self.toks();
        let ghost p0 = self.at();
        let ghost j0 = self.junk();
        let l_paran = self.parse_token();
        let ghost p1 = self.at();
        let mut arguments: Vec<Argument> = Vec::new();
        proof {
            lemma_real_empty();
            assert(args_toks(arguments@) =~= Seq::<Token>::empty());
            assert(t0.subrange(p1, p1) =~= Seq::<Token>::empty());
        }
        loop
            invariant
                t0 == old(self).toks(),
                old(self).at() < p1,
                self.wf(),
                self.toks() == t0,
                self.junk() == j0,
                0 <= p1 <= self.at() <= t0.len(),
                toks_nonempty(t0) ==> real_toks(args_toks(arguments@)) == t0.subrange(
                    p1,
                    self.at(),
                ),
                forall|i: int|
                    0 <= i < arguments@.len() ==> expr_wf((#[trigger] arguments@[i]).expr, 0),
            decreases t0.len() - self.at(),
        {
            let next = self.peek();
            if !is_possible_expression(&next) {
                break;
            }
            let ghost prior = arguments@;
            let ghost pa = self.at();
            let expr = self.parse_expression();
            let ghost pb = self.at();
            let comma_token = self.parse_token_if(TokenKind::Comma);
            let a = Argument { expr, comma_token };
            arguments.push(a);
            proof {
                if toks_nonempty(t0) {
                    lemma_real_join(t0, pa, pb, self.at(), expr_toks(a.expr), opt_st_toks(
                        a.comma_token));
                    crate::nodes::lemma_args_toks_push(prior, a);
                    lemma_real_join(t0, p1, pa, self.at(), args_toks(prior), crate::nodes::arg_toks(
                        a));
                }
            }
        }
        let ghost p2 = self.at();
        let r_paran = self.parse_expected_token(TokenKind::RParen);
        let r = ArgumentList { l_paran, r_paran, arguments };
        proof {
            if toks_nonempty(t0) {
                lemma_real_join(t0, p0, p1, p2, st_toks(r.l_paran), args_toks(r.arguments@));
                lemma_real_join(
                    t0,
                    p0,
                    p2,
                    self.at(),
                    st_toks(r.l_paran) + args_toks(r.arguments@),
                    st_toks(r.r_paran),
                );
            }
        }
        r
    }
}

} // verus!

// Statements, and the parser's entry points.

verus! {

/// An exactly-consumed chunk is a merge with nothing discarded.
proof fn lemma_merge_exact(t0: Seq<Token>, p0: int, p1: int, a: Seq<Token>, j: Seq<Token>)
    requires
        0 <= p0 <= p1 <= t0.len(),
        a == t0.subrange(p0, p1),
    ensures
        is_interleaving(t0.subrange(p0, p1), a, junk_delta(j, j)),
{
    lemma_interleaving_id(t0.subrange(p0, p1));
    assert(junk_delta(j, j) =~= Seq::<Token>::empty());
}

/// Merges of adjacent consumed ranges, with junk logs growing `j0` to `j1`
/// to `j2`, fold into one merge.
proof fn lemma_merge_step(
    t0: Seq<Token>,
    p0: int,
    p1: int,
    p2: int,
    a: Seq<Token>,
    b: Seq<Token>,
    j0: Seq<Token>,
    j1: Seq<Token>,
    j2: Seq<Token>,
)
    requires
        0 <= p0 <= p1 <= p2 <= t0.len(),
        is_interleaving(t0.subrange(p0, p1), a, junk_delta(j0, j1)),
        is_interleaving(t0.subrange(p1, p2), b, junk_delta(j1, j2)),
        j0.is_prefix_of(j1),
        j1.is_prefix_of(j2),
    ensures
        is_interleaving(t0.subrange(p0, p2), a + b, junk_delta(j0, j2)),
{
    lemma_interleaving_add(
        t0.subrange(p0, p1),
        a,
        junk_delta(j0, j1),
        t0.subrange(p1, p2),
        b,
        junk_delta(j1, j2),
    );
    assert(t0.subrange(p0, p1) + t0.subrange(p1, p2) =~= t0.subrange(p0, p2));
    lemma_skip_chain(j0, j1, j2);
    assert(junk_delta(j0, j1) + junk_delta(j1, j2) =~= junk_delta(j0, j2));
}

/// Discarded-token bounds over adjacent log segments fold into one.
proof fn lemma_dead_join(j0: Seq<Token>, j1: Seq<Token>, j2: Seq<Token>)
    requires
        j0.is_prefix_of(j1),
        j1.is_prefix_of(j2),
        junk_tokens_dead(j1, j0.len() as int, j1.len() as int),
        junk_tokens_dead(j2, j1.len() as int, j2.len() as int),
    ensures
        junk_tokens_dead(j2, j0.len() as int, j2.len() as int),
{
    assert forall|i: int| j0.len() <= i < j2.len() implies !can_start_statement(
        #[trigger] j2[i],
    ) by {
        if i < j1.len() {
            lemma_prefix_index(j1, j2, i);
        }
    }
}

/// A prefix of a prefix is a prefix.
proof fn lemma_prefix_trans<A>(a: Seq<A>, b: Seq<A>, c: Seq<A>)
    requires
        a.is_prefix_of(b),
        b.is_prefix_of(c),
    ensures
        a.is_prefix_of(c),
{
    assert(a =~= c.subrange(0, a.len() as int));
}

impl Parser {
    /// Parse `= <expr>` (or `??= <expr>`) when an assignment token is next;
    /// otherwise `None`.
    fn parse_equals_value(&mut self) -> (r: Option<EqualsValue>)
        requires
            old(self).wf(),
        ensures
            final(self).wf(),
            final(self).toks() == old(self).toks(),
            final(self).junk() == old(self).junk(),
            old(self).at() <= final(self).at(),
            toks_nonempty(old(self).toks()) ==> real_toks(opt_equals_value_toks(r)) == old(
                self).toks().subrange(old(self).at(), final(self).at()),
            r is Some <==> (peek_tok(*old(self)) is Some && is_assignment_kind(
                peek_tok(*old(self))->Some_0.kind,
            )),
            r is Some ==> expr_wf(r->Some_0.expression, 0) && is_assignment_kind(
                r->Some_0.equals_token.token.kind,
            ) && r->Some_0.equals_token.diagnostics@.len() == 0,
    {
        let ghost t0 = self.toks();
        let ghost p0 = self.at();
        let next = self.peek();
        let starts = match &next {
            Some(t) => match t.kind {
                TokenKind::Equal => true,
                TokenKind::QuestionQuestionEquals => true,
                _ => false,
            },
            None => false,
        };
        if !starts {
            proof {
                lemma_real_empty();
                assert(t0.subrange(p0, p0) =~= Seq::<Token>::empty());
            }
            return None;
        }
        let equals_token = self.parse_token();
        let ghost p1 = self.at();
        let expression = self.parse_expression();
        let r = Some(EqualsValue { equals_token, expression });
        proof {
            if toks_nonempty(t0) {
                lemma_real_join(t0, p0, p1, self.at(), st_toks(r->Some_0.equals_token), expr_toks(
                    r->Some_0.expression));
            }
        }
        r
    }

    /// Parse `<ident> : <type> ,?` parameters while an identifier is next.
    fn parse_parameters(&mut self) -> (r: Vec<Parameter>)
        requires
            old(self).wf(),
        ensures
            final(self).wf(),
            final(self).toks() == old(self).toks(),
            final(self).junk() == old(self).junk(),
            old(self).at() <= final(self).at(),
            toks_nonempty(old(self).toks()) ==> real_toks(params_toks(r@)) == old(
                self).toks().subrange(old(self).at(), final(self).at()),
            forall|i: int|
                0 <= i < r@.len() ==> {
                    let p = #[trigger] r@[i];
                    &&& p.identifier.identifier.token.kind is Identifier
                    &&& p.identifier.identifier.diagnostics@.len() == 0
                    &&& p.type_id.colon_token.token.kind is Colon
                    &&& (p.type_id.colon_token.diagnostics@.len() != 0 ==> is_missing_of(
                        p.type_id.colon_token,
                        TokenKind::Colon,
                    ))
                    &&& (p.comma_token is Some ==> p.comma_token->Some_0.token.kind is Comma
                        && p.comma_token->Some_0.diagnostics@.len() == 0)
                },
    {
        let ghost t0 = self.toks();
        let ghost p0 = self.at();
        let ghost j0 = self.junk();
        let mut parameters: Vec<Parameter> = Vec::new();
        proof {
            lemma_real_empty();
            assert(params_toks(parameters@) =~= Seq::<Token>::empty());
            assert(t0.subrange(p0, p0) =~= Seq::<Token>::empty());
        }
        loop
            invariant
                t0 == old(self).toks(),
                old(self).at() <= p0,
                self.wf(),
                self.toks() == t0,
                self.junk() == j0,
                0 <= p0 <= self.at() <= t0.len(),
                toks_nonempty(t0) ==> real_toks(params_toks(parameters@)) == t0.subrange(
                    p0,
                    self.at(),
                ),
                forall|i: int|
                    0 <= i < parameters@.len() ==> {
                        let p = #[trigger] parameters@[i];
                        &&& p.identifier.identifier.token.kind is Identifier
                        &&& p.identifier.identifier.diagnostics@.len() == 0
                        &&& p.type_id.colon_token.token.kind is Colon
                        &&& (p.type_id.colon_token.diagnostics@.len() != 0 ==> is_missing_of(
                            p.type_id.colon_token,
                            TokenKind::Colon,
                        ))
                        &&& (p.comma_token is Some ==> p.comma_token->Some_0.token.kind is Comma
                            && p.comma_token->Some_0.diagnostics@.len() == 0)
                    },
            decreases t0.len() - self.at(),
        {
            let next = self.peek();
            if !is_some_and_kind(&next, TokenKind::Identifier) {
                break;
            }
            let ghost prior = parameters@;
            let ghost pa = self.at();
            let identifier = self.parse_identifier();
            let ghost pb = self.at();
            let colon_token = self.parse_expected_token(TokenKind::Colon);
            let ghost pc = self.at();
            let type_kind = self.parse_type();
            let type_id = TypeId { colon_token, type_kind };
            let ghost pd = self.at();
            let comma_token = self.parse_token_if(TokenKind::Comma);
            let p = Parameter { identifier, type_id, comma_token };
            parameters.push(p);
            proof {
                if toks_nonempty(t0) {
                    lemma_real_join(t0, pb, pc, pd, st_toks(p.type_id.colon_token), type_kind_toks(
                        p.type_id.type_kind));
                    lemma_real_join(t0, pa, pb, pd, ident_toks(p.identifier), type_id_toks(
                        p.type_id));
                    lemma_real_join(
                        t0,
                        pa,
                        pd,
                        self.at(),
                        ident_toks(p.identifier) + type_id_toks(p.type_id),
                        opt_st_toks(p.comma_token),
                    );
                    crate::nodes::lemma_params_toks_push(prior, p);
                    lemma_real_join(t0, p0, pa, self.at(), params_toks(prior), param_toks(p));
                }
            }
        }
        parameters
    }

    /// Parse `( <params> )`. Whatever stands where `(` belongs is taken as
    /// the opening token; only at the very end of the input is a missing `(`
    /// synthesized.
    fn parse_parameter_list(&mut self) -> (r: ParameterList)
        requires
            old(self).wf(),
        ensures
            final(self).wf(),
            final(self).toks() == old(self).toks(),
            final(self).junk() == old(self).junk(),
            old(self).at() <= final(self).at(),
            toks_nonempty(old(self).toks()) ==> real_toks(paramlist_toks(r)) == old(
                self).toks().subrange(old(self).at(), final(self).at()),
    {
        let ghost t0 = self.toks();
        let ghost p0 = self.at();
        let has_next = self.peek().is_some();
        let l_paran = if has_next {
            self.parse_token()
        } else {
            self.parse_expected_token(TokenKind::LParen)
        };
        let ghost p1 = self.at();
        let parameters = self.parse_parameters();
        let ghost p2 = self.at();
        let r_paran = self.parse_expected_token(TokenKind::RParen);
        let r = ParameterList { l_paran, r_paran, parameters };
        proof {
            if toks_nonempty(t0) {
                lemma_real_join(t0, p0, p1, p2, st_toks(r.l_paran), params_toks(r.parameters@));
                lemma_real_join(
                    t0,
                    p0,
                    p2,
                    self.at(),
                    st_toks(r.l_paran) + params_toks(r.parameters@),
                    st_toks(r.r_paran),
                );
            }
        }
        r
    }

    /// Parse `-> <type>` when an arrow is next; otherwise `None`.
    fn parse_function_return_type(&mut self) -> (r: Option<ReturnType>)
        requires
            old(self).wf(),
        ensures
            final(self).wf(),
            final(self).toks() == old(self).toks(),
            final(self).junk() == old(self).junk(),
            old(self).at() <= final(self).at(),
            toks_nonempty(old(self).toks()) ==> real_toks(opt_rettype_toks(r)) == old(
                self).toks().subrange(old(self).at(), final(self).at()),
            r is Some <==> opt_kind_is(peek_tok(*old(self)), TokenKind::MinusGreater),
    {
        let ghost t0 = self.toks();
        let ghost p0 = self.at();
        let next = self.peek();
        if !is_some_and_kind(&next, TokenKind::MinusGreater) {
            proof {
                lemma_real_empty();
                assert(t0.subrange(p0, p0) =~= Seq::<Token>::empty());
            }
            return None;
        }
        let small_arrow_token = self.parse_token();
        let ghost p1 = self.at();
        let type_kind = self.parse_type();
        let r = Some(ReturnType { small_arrow_token, type_kind });
        proof {
            if toks_nonempty(t0) {
                lemma_real_join(t0, p0, p1, self.at(), st_toks(r->Some_0.small_arrow_token),
                    type_kind_toks(r->Some_0.type_kind));
            }
        }
        r
    }

    /// Parse `let [mut] <ident> [: <type>] [= <expr>] ;`.
    fn parse_var_definition(&mut self) -> (r: Stat)
        requires
            old(self).wf(),
            opt_kind_is(peek_tok(*old(self)), TokenKind::LetKeyword),
        ensures
            final(self).wf(),
            final(self).toks() == old(self).toks(),
            final(self).junk() == old(self).junk(),
            old(self).at() < final(self).at(),
            toks_nonempty(old(self).toks()) ==> real_toks(stat_toks(r)) == old(
                self).toks().subrange(old(self).at(), final(self).at()),
            toks_nonempty(old(self).toks()) ==> is_interleaving(
                old(self).toks().subrange(old(self).at(), final(self).at()),
                real_toks(stat_toks(r)),
                junk_delta(old(self).junk(), final(self).junk()),
            ),
            junk_tokens_dead(
                final(self).junk(),
                old(self).junk().len() as int,
                final(self).junk().len() as int,
            ),
            r is VarDefinition,
            stat_exprs_wf(r),
            r->VarDefinition_let_token.token.kind is LetKeyword,
            r->VarDefinition_let_token.diagnostics@.len() == 0,
            r->VarDefinition_semicolon_token.token.kind is Semicolon,
            r->VarDefinition_semicolon_token.diagnostics@.len() != 0 ==> is_missing_of(
                r->VarDefinition_semicolon_token,
                TokenKind::Semicolon,
            ),
            r->VarDefinition_mut_token is Some ==> r->VarDefinition_mut_token->Some_0.token.kind
                is MutKeyword && r->VarDefinition_mut_token->Some_0.diagnostics@.len() == 0,
            r->VarDefinition_initial_value is Some ==> expr_wf(
                r->VarDefinition_initial_value->Some_0.expression,
                0,
            ),
            r->VarDefinition_type_id is Some ==> (r->VarDefinition_type_id->Some_0.type_kind
                is Internal <==> is_internal_name(
                type_kind_ident(r->VarDefinition_type_id->Some_0.type_kind).identifier.token.value@,
            )),
            ({
                let ts = old(self).toks();
                let q1 = old(self).at() + st_toks(r->VarDefinition_let_token).len();
                let q2 = q1 + opt_st_toks(r->VarDefinition_mut_token).len();
                &&& (r->VarDefinition_mut_token is Some <==> opt_kind_is(
                    token_at(ts, q1),
                    TokenKind::MutKeyword,
                ))
                &&& (r->VarDefinition_identifier.identifier.diagnostics@.len() == 0 <==>
                opt_kind_is(token_at(ts, q2), TokenKind::Identifier))
                &&& (r->VarDefinition_identifier.identifier.diagnostics@.len() == 0 ==> {
                    let q3 = q2 + ident_toks(r->VarDefinition_identifier).len();
                    r->VarDefinition_type_id is Some <==> opt_kind_is(
                        token_at(ts, q3),
                        TokenKind::Colon,
                    )
                })
                &&& (r->VarDefinition_identifier.identifier.diagnostics@.len() == 0
                    && type_id_clean(r->VarDefinition_type_id) ==> {
                    let q3 = q2 + ident_toks(r->VarDefinition_identifier).len();
                    let q4 = q3 + opt_type_id_toks(r->VarDefinition_type_id).len();
                    r->VarDefinition_initial_value is Some <==> (token_at(ts, q4) is Some
                        && is_assignment_kind(token_at(ts, q4)->Some_0.kind))
                })
            }),
    {
        let ghost t0 = self.toks();
        let ghost p0 = self.at();
        let let_token = self.parse_token();
        let ghost p1 = self.at();
        let mut_token = self.parse_token_if(TokenKind::MutKeyword);
        let ghost p2 = self.at();
        let identifier = self.parse_identifier();
        let ghost p3 = self.at();
        let type_id = self.parse_type_id();
        let ghost p4 = self.at();
        let initial_value = self.parse_equals_value();
        let ghost p5 = self.at();
        let semicolon_token = self.parse_expected_token(TokenKind::Semicolon);
        let r = Stat::VarDefinition {
            let_token,
            mut_token,
            identifier,
            type_id,
            initial_value,
            semicolon_token,
        };
        proof {
            if toks_nonempty(t0) {
                let a = st_toks(r->VarDefinition_let_token);
                let b = opt_st_toks(r->VarDefinition_mut_token);
                let c = ident_toks(r->VarDefinition_identifier);
                let d = opt_type_id_toks(r->VarDefinition_type_id);
                let e = opt_equals_value_toks(r->VarDefinition_initial_value);
                let f = st_toks(r->VarDefinition_semicolon_token);
                lemma_real_join(t0, p0, p1, p2, a, b);
                lemma_real_join(t0, p0, p2, p3, a + b, c);
                lemma_real_join(t0, p0, p3, p4, a + b + c, d);
                lemma_real_join(t0, p0, p4, p5, a + b + c + d, e);
                lemma_real_join(t0, p0, p5, self.at(), a + b + c + d + e, f);
                lemma_merge_exact(t0, p0, self.at(), real_toks(stat_toks(r)), self.junk());
            }
        }
        r
    }

    /// Parse `<expr> ;`.
    fn parse_expression_statement(&mut self) -> (r: Stat)
        requires
            old(self).wf(),
        ensures
            final(self).wf(),
            final(self).toks() == old(self).toks(),
            final(self).junk() == old(self).junk(),
            old(self).at() <= final(self).at(),
            toks_nonempty(old(self).toks()) ==> real_toks(stat_toks(r)) == old(
                self).toks().subrange(old(self).at(), final(self).at()),
            toks_nonempty(old(self).toks()) ==> is_interleaving(
                old(self).toks().subrange(old(self).at(), final(self).at()),
                real_toks(stat_toks(r)),
                junk_delta(old(self).junk(), final(self).junk()),
            ),
            junk_tokens_dead(
                final(self).junk(),
                old(self).junk().len() as int,
                final(self).junk().len() as int,
            ),
            is_expression_start(peek_tok(*old(self))) ==> old(self).at() < final(self).at(),
            r is Expr,
            stat_exprs_wf(r),
            expr_wf(r->Expr_expr, 0),
            r->Expr_semicolon_token.token.kind is Semicolon,
            r->Expr_semicolon_token.diagnostics@.len() != 0 ==> is_missing_of(
                r->Expr_semicolon_token,
                TokenKind::Semicolon,
            ),
    {
        let ghost t0 = self.toks();
        let ghost p0 = self.at();
        let expr = self.parse_expression();
        let ghost p1 = self.at();
        let semicolon_token = self.parse_expected_token(TokenKind::Semicolon);
        let r = Stat::Expr { expr, semicolon_token };
        proof {
            if toks_nonempty(t0) {
                lemma_real_join(t0, p0, p1, self.at(), expr_toks(r->Expr_expr), st_toks(
                    r->Expr_semicolon_token));
                lemma_merge_exact(t0, p0, self.at(), real_toks(stat_toks(r)), self.junk());
            }
        }
        r
    }

    /// Parse `return [expr] ;`.
    fn parse_return_statement(&mut self) -> (r: Stat)
        requires
            old(self).wf(),
            opt_kind_is(peek_tok(*old(self)), TokenKind::ReturnKeyword),
        ensures
            final(self).wf(),
            final(self).toks() == old(self).toks(),
            final(self).junk() == old(self).junk(),
            old(self).at() < final(self).at(),
            toks_nonempty(old(self).toks()) ==> real_toks(stat_toks(r)) == old(
                self).toks().subrange(old(self).at(), final(self).at()),
            toks_nonempty(old(self).toks()) ==> is_interleaving(
                old(self).toks().subrange(old(self).at(), final(self).at()),
                real_toks(stat_toks(r)),
                junk_delta(old(self).junk(), final(self).junk()),
            ),
            junk_tokens_dead(
                final(self).junk(),
                old(self).junk().len() as int,
                final(self).junk().len() as int,
            ),
            r is Return,
            stat_exprs_wf(r),
            r->Return_return_token.token.kind is ReturnKeyword,
            r->Return_semicolon_token.token.kind is Semicolon,
            r->Return_semicolon_token.diagnostics@.len() != 0 ==> is_missing_of(
                r->Return_semicolon_token,
                TokenKind::Semicolon,
            ),
            r->Return_expression is Some ==> expr_wf(r->Return_expression->Some_0, 0),
            r->Return_expression is None <==> opt_kind_is(
                token_at(old(self).toks(), old(self).at() + st_toks(
                    r->Return_return_token,
                ).len()),
                TokenKind::Semicolon,
            ),
    {
        let ghost t0 = self.toks();
        let ghost p0 = self.at();
        let return_token = self.parse_token();
        let ghost p1 = self.at();
        let next = self.peek();
        let expression = if !is_some_and_kind(&next, TokenKind::Semicolon) {
            Some(self.parse_expression())
        } else {
            None
        };
        let ghost p2 = self.at();
        let semicolon_token = self.parse_expected_token(TokenKind::Semicolon);
        let r = Stat::Return { return_token, expression, semicolon_token };
        proof {
            if toks_nonempty(t0) {
                assert(real_toks(opt_expr_toks(r->Return_expression)) == t0.subrange(p1, p2)) by {
                    if r->Return_expression is None {
                        lemma_real_empty();
                        assert(t0.subrange(p1, p1) =~= Seq::<Token>::empty());
                    }
                }
                lemma_real_join(t0, p0, p1, p2, st_toks(r->Return_return_token), opt_expr_toks(
                    r->Return_expression));
                lemma_real_join(
                    t0,
                    p0,
                    p2,
                    self.at(),
                    st_toks(r->Return_return_token) + opt_expr_toks(r->Return_expression),
                    st_toks(r->Return_semicolon_token),
                );
                lemma_merge_exact(t0, p0, self.at(), real_toks(stat_toks(r)), self.junk());
            }
        }
        r
    }

    /// Parse `break ;`.
    fn parse_break_statement(&mut self) -> (r: Stat)
        requires
            old(self).wf(),
            opt_kind_is(peek_tok(*old(self)), TokenKind::BreakKeyword),
        ensures
            final(self).wf(),
            final(self).toks() == old(self).toks(),
            final(self).junk() == old(self).junk(),
            old(self).at() < final(self).at(),
            toks_nonempty(old(self).toks()) ==> real_toks(stat_toks(r)) == old(
                self).toks().subrange(old(self).at(), final(self).at()),
            toks_nonempty(old(self).toks()) ==> is_interleaving(
                old(self).toks().subrange(old(self).at(), final(self).at()),
                real_toks(stat_toks(r)),
                junk_delta(old(self).junk(), final(self).junk()),
            ),
            junk_tokens_dead(
                final(self).junk(),
                old(self).junk().len() as int,
                final(self).junk().len() as int,
            ),
            r is Break,
            stat_exprs_wf(r),
            r->Break_semicolon_token.token.kind is Semicolon,
            r->Break_semicolon_token.diagnostics@.len() != 0 ==> is_missing_of(
                r->Break_semicolon_token,
                TokenKind::Semicolon,
            ),
    {
        let ghost t0 = self.toks();
        let ghost p0 = self.at();
        let break_token = self.parse_token();
        let ghost p1 = self.at();
        let semicolon_token = self.parse_expected_token(TokenKind::Semicolon);
        let r = Stat::Break { break_token, semicolon_token };
        proof {
            if toks_nonempty(t0) {
                lemma_real_join(t0, p0, p1, self.at(), st_toks(r->Break_break_token), st_toks(
                    r->Break_semicolon_token));
                lemma_merge_exact(t0, p0, self.at(), real_toks(stat_toks(r)), self.junk());
            }
        }
        r
    }
}

} // verus!

// The mutually recursive statement parsers, and the entry points.

verus! {

impl Parser {
    /// Parse one statement. The next significant token picks the production;
    /// a token that can start nothing is discarded (and logged in the ghost
    /// `discarded` sequence) and parsing retries. At the end of the input a
    /// statement of synthesized tokens stands in, so the result is total.
    fn parse_statement(&mut self) -> (r: Stat)
        requires
            old(self).wf(),
        ensures
            final(self).wf(),
            final(self).toks() == old(self).toks(),
            old(self).junk().is_prefix_of(final(self).junk()),
            old(self).at() <= final(self).at(),
            old(self).at() < old(self).toks().len() ==> old(self).at() < final(self).at(),
            (toks_nonempty(old(self).toks()) && final(self).junk() == old(self).junk())
                ==> real_toks(stat_toks(r)) == old(self).toks().subrange(
                old(self).at(),
                final(self).at(),
            ),
            toks_nonempty(old(self).toks()) ==> is_interleaving(
                old(self).toks().subrange(old(self).at(), final(self).at()),
                real_toks(stat_toks(r)),
                junk_delta(old(self).junk(), final(self).junk()),
            ),
            junk_tokens_dead(
                final(self).junk(),
                old(self).junk().len() as int,
                final(self).junk().len() as int,
            ),
            opt_kind_is(peek_tok(*old(self)), TokenKind::LetKeyword) ==> r is VarDefinition,
            opt_kind_is(peek_tok(*old(self)), TokenKind::LBrace) ==> r is Block,
            opt_kind_is(peek_tok(*old(self)), TokenKind::IfKeyword) ==> r is If,
            opt_kind_is(peek_tok(*old(self)), TokenKind::BreakKeyword) ==> r is Break,
            opt_kind_is(peek_tok(*old(self)), TokenKind::ReturnKeyword) ==> r is Return,
            opt_kind_is(peek_tok(*old(self)), TokenKind::WhileKeyword) ==> r is While,
            opt_kind_is(peek_tok(*old(self)), TokenKind::FunctionKeyword)
                ==> r is FunctionDefinition,
            opt_kind_is(peek_tok(*old(self)), TokenKind::ForKeyword) ==> r is For,
            peek_tok(*old(self)) is None ==> r is Expr,
            is_expression_start(peek_tok(*old(self))) && !opt_kind_is(
                peek_tok(*old(self)),
                TokenKind::LBrace,
            ) ==> r is Expr,
            stat_closers_ok(r),
            stat_exprs_wf(r),
        decreases self.toks().len() - self.at(), 3int,
    {
        let ghost t0 = self.toks();
        let ghost p0 = self.at();
        let ghost j0 = self.junk();
        let next = self.peek();
        let kind_opt: Option<TokenKind> = match &next {
            Some(t) => Some(t.kind),
            None => None,
        };
        match kind_opt {
            None => {
                // end of the tokens at a statement boundary: stand in an
                // empty expression statement of synthesized tokens
                let identifier = self.parse_identifier();
                let expr = Expr::IdentifierUsage { identifier };
                let ghost p1 = self.at();
                let semicolon_token = self.parse_expected_token(TokenKind::Semicolon);
                let r = Stat::Expr { expr, semicolon_token };
                proof {
                    if toks_nonempty(t0) {
                        lemma_real_join(t0, p0, p1, self.at(), expr_toks(r->Expr_expr), st_toks(
                            r->Expr_semicolon_token));
                        lemma_merge_exact(t0, p0, self.at(), real_toks(stat_toks(r)), j0);
                    }
                }
                r
            },
            Some(TokenKind::LetKeyword) => self.parse_var_definition(),
            Some(TokenKind::LBrace) => self.parse_block_statement(),
            Some(TokenKind::IfKeyword) => self.parse_if_statement(),
            Some(TokenKind::BreakKeyword) => self.parse_break_statement(),
            Some(TokenKind::ReturnKeyword) => self.parse_return_statement(),
            Some(TokenKind::WhileKeyword) => self.parse_while_statement(),
            Some(TokenKind::FunctionKeyword) => self.parse_function_definition(),
            Some(TokenKind::ForKeyword) => self.parse_for_statement(),
            Some(_) => {
                if is_possible_expression(&next) {
                    self.parse_expression_statement()
                } else {
                    // error recovery: discard the token and try again
                    let junked = self.eat().unwrap();
                    proof {
                        assert(j0.is_prefix_of(j0.push(junked)));
                    }
                    self.discarded = Ghost(self.discarded@.push(junked));
                    let ghost j1 = self.junk();
                    let r = self.parse_statement();
                    proof {
                        lemma_prefix_trans(j0, j1, self.junk());
                        assert(j1.len() <= self.junk().len());
                        assert(self.junk().len() > j0.len());
                        if toks_nonempty(t0) {
                            lemma_interleaving_junk_head(
                                t0.subrange(p0 + 1, self.at()),
                                real_toks(stat_toks(r)),
                                junk_delta(j1, self.junk()),
                                junked,
                            );
                            assert(seq![junked] + t0.subrange(p0 + 1, self.at()) =~= t0.subrange(
                                p0,
                                self.at(),
                            ));
                            assert(seq![junked] + junk_delta(j1, self.junk()) =~= junk_delta(
                                j0,
                                self.junk(),
                            )) by {
                                assert forall|i: int|
                                    0 <= i < self.junk().len() - j0.len() implies (seq![junked]
                                    + junk_delta(j1, self.junk()))[i] == junk_delta(
                                    j0,
                                    self.junk(),
                                )[i] by {
                                    if i == 0 {
                                        lemma_prefix_index(j1, self.junk(), j0.len() as int);
                                    }
                                }
                            }
                        }
                        assert(!can_start_statement(junked));
                        assert forall|i: int|
                            j0.len() <= i < self.junk().len() implies !can_start_statement(
                            #[trigger] self.junk()[i],
                        ) by {
                            if i == j0.len() {
                                lemma_prefix_index(j1, self.junk(), i);
                            }
                        }
                    }
                    r
                }
            },
        }
    }

    /// Parse `{ <statements> }`. An unterminated block gets a synthesized
    /// missing `}` with a diagnostic.
    fn parse_block_statement(&mut self) -> (r: Stat)
        requires
            old(self).wf(),
        ensures
            final(self).wf(),
            final(self).toks() == old(self).toks(),
            old(self).junk().is_prefix_of(final(self).junk()),
            old(self).at() <= final(self).at(),
            peek_tok(*old(self)) is Some ==> old(self).at() < final(self).at(),
            (toks_nonempty(old(self).toks()) && final(self).junk() == old(self).junk())
                ==> real_toks(stat_toks(r)) == old(self).toks().subrange(
                old(self).at(),
                final(self).at(),
            ),
            toks_nonempty(old(self).toks()) ==> is_interleaving(
                old(self).toks().subrange(old(self).at(), final(self).at()),
                real_toks(stat_toks(r)),
                junk_delta(old(self).junk(), final(self).junk()),
            ),
            junk_tokens_dead(
                final(self).junk(),
                old(self).junk().len() as int,
                final(self).junk().len() as int,
            ),
            r is Block,
            stat_exprs_wf(r),
            r->Block_r_brace.token.kind is RBrace,
            r->Block_r_brace.diagnostics@.len() != 0 ==> is_missing_of(
                r->Block_r_brace,
                TokenKind::RBrace,
            ),
        decreases self.toks().len() - self.at(), 1int,
    {
        let ghost t0 = self.toks();
        let ghost p0 = self.at();
        let ghost j0 = self.junk();
        let has_next = self.peek().is_some();
        if !has_next {
            let l_brace = self.parse_expected_token(TokenKind::LBrace);
            let ghost p1 = self.at();
            let r_brace = self.parse_expected_token(TokenKind::RBrace);
            let r = Stat::Block { l_brace, statements: Vec::new(), r_brace };
            proof {
                if toks_nonempty(t0) {
                    assert(stats_toks(r->Block_statements@) == Seq::<Token>::empty());
                    lemma_real_empty();
                    assert(real_toks(stats_toks(r->Block_statements@)) =~= t0.subrange(p1, p1));
                    lemma_real_join(t0, p0, p1, p1, st_toks(r->Block_l_brace), stats_toks(
                        r->Block_statements@));
                    lemma_real_join(
                        t0,
                        p0,
                        p1,
                        self.at(),
                        st_toks(r->Block_l_brace) + stats_toks(r->Block_statements@),
                        st_toks(r->Block_r_brace),
                    );
                    lemma_merge_exact(t0, p0, self.at(), real_toks(stat_toks(r)), self.junk());
                }
            }
            return r;
        }
        let l_brace = self.parse_token();
        let ghost p1 = self.at();
        let mut statements: Vec<Stat> = Vec::new();
        proof {
            lemma_real_empty();
            assert(stats_toks(statements@) =~= Seq::<Token>::empty());
            assert(t0.subrange(p1, p1) =~= Seq::<Token>::empty());
        }
        proof {
            lemma_merge_exact(t0, p1, p1, real_toks(stats_toks(statements@)), j0);
        }
        loop
            invariant
                t0 == old(self).toks(),
                old(self).at() < p1,
                self.wf(),
                self.toks() == t0,
                j0.is_prefix_of(self.junk()),
                0 <= p1 <= self.at() <= t0.len(),
                (toks_nonempty(t0) && self.junk() == j0) ==> real_toks(stats_toks(statements@))
                    == t0.subrange(p1, self.at()),
                toks_nonempty(t0) ==> is_interleaving(
                    t0.subrange(p1, self.at()),
                    real_toks(stats_toks(statements@)),
                    junk_delta(j0, self.junk()),
                ),
                junk_tokens_dead(self.junk(), j0.len() as int, self.junk().len() as int),
                forall|i: int|
                    0 <= i < statements@.len() ==> stat_exprs_wf(#[trigger] statements@[i]),
            decreases t0.len() - self.at(),
        {
            let next = self.peek();
            if next.is_none() || is_some_and_kind(&next, TokenKind::RBrace) {
                break;
            }
            let ghost prior = statements@;
            let ghost pa = self.at();
            let ghost ja = self.junk();
            let s = self.parse_statement();
            statements.push(s);
            proof {
                lemma_prefix_trans(j0, ja, self.junk());
                crate::nodes::lemma_stats_toks_push(prior, s);
                lemma_dead_join(j0, ja, self.junk());
                if toks_nonempty(t0) {
                    lemma_merge_step(t0, p1, pa, self.at(), real_toks(stats_toks(prior)),
                        real_toks(stat_toks(s)), j0, ja, self.junk());
                    lemma_real_add(stats_toks(prior), stat_toks(s));
                }
                if toks_nonempty(t0) && self.junk() == j0 {
                    assert(ja =~= j0) by {
                        assert(j0.is_prefix_of(ja));
                        assert(ja.is_prefix_of(self.junk()));
                    }
                    lemma_real_join(t0, p1, pa, self.at(), stats_toks(prior), stat_toks(s));
                }
            }
        }
        let ghost p2 = self.at();
        let ghost j2 = self.junk();
        let r_brace = self.parse_expected_token(TokenKind::RBrace);
        let r = Stat::Block { l_brace, statements, r_brace };
        proof {
            let a = st_toks(r->Block_l_brace);
            let m = stats_toks(r->Block_statements@);
            let f = st_toks(r->Block_r_brace);
            if toks_nonempty(t0) {
                lemma_merge_exact(t0, p0, p1, real_toks(a), j0);
                assert(real_toks(a) == t0.subrange(p0, p1)) by {
                    lemma_real_subrange(t0, p0, p1);
                }
                assert(j0.is_prefix_of(j0));
                lemma_merge_step(t0, p0, p1, p2, real_toks(a), real_toks(m), j0, j0, j2);
                lemma_merge_exact(t0, p2, self.at(), real_toks(f), j2);
                assert(j2.is_prefix_of(j2));
                lemma_merge_step(t0, p0, p2, self.at(), real_toks(a) + real_toks(m), real_toks(f),
                    j0, j2, j2);
                lemma_real_add(a, m);
                lemma_real_add(a + m, f);
                assert(stat_toks(r) == a + m + f);
            }
            if toks_nonempty(t0) && self.junk() == j0 {
                lemma_real_join(t0, p0, p1, p2, st_toks(r->Block_l_brace), stats_toks(
                    r->Block_statements@));
                lemma_real_join(
                    t0,
                    p0,
                    p2,
                    self.at(),
                    st_toks(r->Block_l_brace) + stats_toks(r->Block_statements@),
                    st_toks(r->Block_r_brace),
                );
            }
        }
        r
    }

    /// Parse `if <expr> <statement> [else <statement>]`.
    fn parse_if_statement(&mut self) -> (r: Stat)
        requires
            old(self).wf(),
            opt_kind_is(peek_tok(*old(self)), TokenKind::IfKeyword),
        ensures
            final(self).wf(),
            final(self).toks() == old(self).toks(),
            old(self).junk().is_prefix_of(final(self).junk()),
            old(self).at() < final(self).at(),
            (toks_nonempty(old(self).toks()) && final(self).junk() == old(self).junk())
                ==> real_toks(stat_toks(r)) == old(self).toks().subrange(
                old(self).at(),
                final(self).at(),
            ),
            toks_nonempty(old(self).toks()) ==> is_interleaving(
                old(self).toks().subrange(old(self).at(), final(self).at()),
                real_toks(stat_toks(r)),
                junk_delta(old(self).junk(), final(self).junk()),
            ),
            junk_tokens_dead(
                final(self).junk(),
                old(self).junk().len() as int,
                final(self).junk().len() as int,
            ),
            r is If,
            stat_exprs_wf(r),
        decreases self.toks().len() - self.at(), 1int,
    {
        let ghost t0 = self.toks();
        let ghost p0 = self.at();
        let ghost j0 = self.junk();
        let if_token = self.parse_token();
        let ghost p1 = self.at();
        let expression = self.parse_expression();
        let ghost p2 = self.at();
        let statement = self.parse_statement();
        let ghost p3 = self.at();
        let ghost ja = self.junk();
        let else_statement = self.parse_else_statement();
        let r = Stat::If {
            if_token,
            expression,
            statement: Box::new(statement),
            else_statement,
        };
        proof {
            lemma_prefix_trans(j0, ja, self.junk());
            let a = st_toks(r->If_if_token);
            let b = expr_toks(r->If_expression);
            let c = stat_toks(*r->If_statement);
            let d = opt_boxed_stat_toks(r->If_else_statement);
            if toks_nonempty(t0) {
                lemma_real_join(t0, p0, p1, p2, a, b);
                lemma_merge_exact(t0, p0, p2, real_toks(a + b), j0);
                assert(j0.is_prefix_of(j0));
                lemma_merge_step(t0, p0, p2, p3, real_toks(a + b), real_toks(c), j0, j0, ja);
                lemma_merge_step(
                    t0,
                    p0,
                    p3,
                    self.at(),
                    real_toks(a + b) + real_toks(c),
                    real_toks(d),
                    j0,
                    ja,
                    self.junk(),
                );
                lemma_real_add(a + b, c);
                lemma_real_add(a + b + c, d);
                assert(stat_toks(r) == a + b + c + d);
            }
            lemma_dead_join(j0, ja, self.junk());
            if toks_nonempty(t0) && self.junk() == j0 {
                assert(ja =~= j0) by {
                    assert(j0.is_prefix_of(ja));
                    assert(ja.is_prefix_of(self.junk()));
                }
                lemma_real_join(t0, p0, p2, p3, a + b, c);
                lemma_real_join(t0, p0, p3, self.at(), a + b + c, d);
            }
        }
        r
    }

    /// Parse `else <statement>` when `else` is next; otherwise `None`.
    fn parse_else_statement(&mut self) -> (r: Option<Box<Stat>>)
        requires
            old(self).wf(),
        ensures
            final(self).wf(),
            final(self).toks() == old(self).toks(),
            old(self).junk().is_prefix_of(final(self).junk()),
            old(self).at() <= final(self).at(),
            r is Some <==> opt_kind_is(peek_tok(*old(self)), TokenKind::ElseKeyword),
            r is Some ==> (*r->Some_0) is Else && (*r->Some_0)->Else_else_token.token.kind
                is ElseKeyword && (*r->Some_0)->Else_else_token.diagnostics@.len() == 0,
            r is Some ==> stat_exprs_wf(*r->Some_0),
            (toks_nonempty(old(self).toks()) && final(self).junk() == old(self).junk())
                ==> real_toks(opt_boxed_stat_toks(r)) == old(self).toks().subrange(
                old(self).at(),
                final(self).at(),
            ),
            toks_nonempty(old(self).toks()) ==> is_interleaving(
                old(self).toks().subrange(old(self).at(), final(self).at()),
                real_toks(opt_boxed_stat_toks(r)),
                junk_delta(old(self).junk(), final(self).junk()),
            ),
            junk_tokens_dead(
                final(self).junk(),
                old(self).junk().len() as int,
                final(self).junk().len() as int,
            ),
        decreases self.toks().len() - self.at(), 1int,
    {
        let ghost t0 = self.toks();
        let ghost p0 = self.at();
        let next = self.peek();
        if !is_some_and_kind(&next, TokenKind::ElseKeyword) {
            proof {
                lemma_real_empty();
                assert(t0.subrange(p0, p0) =~= Seq::<Token>::empty());
                lemma_merge_exact(t0, p0, p0, real_toks(opt_boxed_stat_toks(None::<Box<Stat>>)),
                    self.junk());
            }
            return None;
        }
        let else_token = self.parse_token();
        let ghost p1 = self.at();
        let statement = self.parse_statement();
        let inner = Stat::Else { else_token, statement: Box::new(statement) };
        let r = Some(Box::new(inner));
        proof {
            let ghost j0 = old(self).junk();
            let s = *r->Some_0;
            let a = st_toks(s->Else_else_token);
            let c = stat_toks(*s->Else_statement);
            if toks_nonempty(t0) {
                lemma_merge_exact(t0, p0, p1, a, j0);
                assert(j0.is_prefix_of(j0));
                lemma_merge_step(t0, p0, p1, self.at(), a, real_toks(c), j0, j0, self.junk());
                lemma_real_add(a, c);
                assert(real_toks(a) =~= a) by {
                    lemma_real_subrange(t0, p0, p1);
                }
                assert(opt_boxed_stat_toks(r) == a + c);
                if self.junk() == j0 {
                    lemma_real_join(t0, p0, p1, self.at(), a, c);
                }
            }
        }
        r
    }

    /// Parse `while <expr> <statement>`.
    fn parse_while_statement(&mut self) -> (r: Stat)
        requires
            old(self).wf(),
            opt_kind_is(peek_tok(*old(self)), TokenKind::WhileKeyword),
        ensures
            final(self).wf(),
            final(self).toks() == old(self).toks(),
            old(self).junk().is_prefix_of(final(self).junk()),
            old(self).at() < final(self).at(),
            (toks_nonempty(old(self).toks()) && final(self).junk() == old(self).junk())
                ==> real_toks(stat_toks(r)) == old(self).toks().subrange(
                old(self).at(),
                final(self).at(),
            ),
            toks_nonempty(old(self).toks()) ==> is_interleaving(
                old(self).toks().subrange(old(self).at(), final(self).at()),
                real_toks(stat_toks(r)),
                junk_delta(old(self).junk(), final(self).junk()),
            ),
            junk_tokens_dead(
                final(self).junk(),
                old(self).junk().len() as int,
                final(self).junk().len() as int,
            ),
            r is While,
            stat_exprs_wf(r),
        decreases self.toks().len() - self.at(), 1int,
    {
        let ghost t0 = self.toks();
        let ghost p0 = self.at();
        let while_token = self.parse_token();
        let ghost p1 = self.at();
        let expression = self.parse_expression();
        let ghost p2 = self.at();
        let statement = self.parse_statement();
        let r = Stat::While { while_token, expression, statement: Box::new(statement) };
        proof {
            let ghost j0 = old(self).junk();
            if toks_nonempty(t0) {
                let a = st_toks(r->While_while_token);
                let b = expr_toks(r->While_expression);
                let c = stat_toks(*r->While_statement);
                lemma_real_join(t0, p0, p1, p2, a, b);
                lemma_merge_exact(t0, p0, p2, real_toks(a + b), j0);
                assert(j0.is_prefix_of(j0));
                lemma_merge_step(t0, p0, p2, self.at(), real_toks(a + b), real_toks(c), j0, j0,
                    self.junk());
                lemma_real_add(a + b, c);
                assert(stat_toks(r) == a + b + c);
                if self.junk() == j0 {
                    lemma_real_join(t0, p0, p2, self.at(), a + b, c);
                }
            }
        }
        r
    }

    /// Parse `for <ident> in <expr> <statement>`.
    fn parse_for_statement(&mut self) -> (r: Stat)
        requires
            old(self).wf(),
            opt_kind_is(peek_tok(*old(self)), TokenKind::ForKeyword),
        ensures
            final(self).wf(),
            final(self).toks() == old(self).toks(),
            old(self).junk().is_prefix_of(final(self).junk()),
            old(self).at() < final(self).at(),
            (toks_nonempty(old(self).toks()) && final(self).junk() == old(self).junk())
                ==> real_toks(stat_toks(r)) == old(self).toks().subrange(
                old(self).at(),
                final(self).at(),
            ),
            toks_nonempty(old(self).toks()) ==> is_interleaving(
                old(self).toks().subrange(old(self).at(), final(self).at()),
                real_toks(stat_toks(r)),
                junk_delta(old(self).junk(), final(self).junk()),
            ),
            junk_tokens_dead(
                final(self).junk(),
                old(self).junk().len() as int,
                final(self).junk().len() as int,
            ),
            r is For,
            stat_exprs_wf(r),
        decreases self.toks().len() - self.at(), 1int,
    {
        let ghost t0 = self.toks();
        let ghost p0 = self.at();
        let for_token = self.parse_token();
        let ghost p1 = self.at();
        let identifier = self.parse_identifier();
        let ghost p2 = self.at();
        let in_token = self.parse_expected_token(TokenKind::InKeyword);
        let ghost p3 = self.at();
        let range = self.parse_expression();
        let ghost p4 = self.at();
        let statement = self.parse_statement();
        let r = Stat::For {
            for_token,
            identifier,
            in_token,
            range,
            statement: Box::new(statement),
        };
        proof {
            let ghost j0 = old(self).junk();
            if toks_nonempty(t0) {
                let a = st_toks(r->For_for_token);
                let b = ident_toks(r->For_identifier);
                let c = st_toks(r->For_in_token);
                let d = expr_toks(r->For_range);
                let e = stat_toks(*r->For_statement);
                lemma_real_join(t0, p0, p1, p2, a, b);
                lemma_real_join(t0, p0, p2, p3, a + b, c);
                lemma_real_join(t0, p0, p3, p4, a + b + c, d);
                lemma_merge_exact(t0, p0, p4, real_toks(a + b + c + d), j0);
                assert(j0.is_prefix_of(j0));
                lemma_merge_step(t0, p0, p4, self.at(), real_toks(a + b + c + d), real_toks(e),
                    j0, j0, self.junk());
                lemma_real_add(a + b + c + d, e);
                assert(stat_toks(r) == a + b + c + d + e);
                if self.junk() == j0 {
                    lemma_real_join(t0, p0, p4, self.at(), a + b + c + d, e);
                }
            }
        }
        r
    }

    /// Parse `fn <ident> ( <params> ) [-> <type>] <body>`.
    fn parse_function_definition(&mut self) -> (r: Stat)
        requires
            old(self).wf(),
            opt_kind_is(peek_tok(*old(self)), TokenKind::FunctionKeyword),
        ensures
            final(self).wf(),
            final(self).toks() == old(self).toks(),
            old(self).junk().is_prefix_of(final(self).junk()),
            old(self).at() < final(self).at(),
            (toks_nonempty(old(self).toks()) && final(self).junk() == old(self).junk())
                ==> real_toks(stat_toks(r)) == old(self).toks().subrange(
                old(self).at(),
                final(self).at(),
            ),
            toks_nonempty(old(self).toks()) ==> is_interleaving(
                old(self).toks().subrange(old(self).at(), final(self).at()),
                real_toks(stat_toks(r)),
                junk_delta(old(self).junk(), final(self).junk()),
            ),
            junk_tokens_dead(
                final(self).junk(),
                old(self).junk().len() as int,
                final(self).junk().len() as int,
            ),
            r is FunctionDefinition,
            stat_exprs_wf(r),
        decreases self.toks().len() - self.at(), 1int,
    {
        let ghost t0 = self.toks();
        let ghost p0 = self.at();
        let fn_token = self.parse_token();
        let ghost p1 = self.at();
        let identifier = self.parse_identifier();
        let ghost p2 = self.at();
        let parameter_list = self.parse_parameter_list();
        let ghost p3 = self.at();
        let return_type = self.parse_function_return_type();
        let ghost p4 = self.at();
        let body = self.parse_function_body();
        let r = Stat::FunctionDefinition {
            fn_token,
            identifier,
            parameter_list,
            return_type,
            body,
        };
        proof {
            let ghost j0 = old(self).junk();
            if toks_nonempty(t0) {
                let a = st_toks(r->FunctionDefinition_fn_token);
                let b = ident_toks(r->FunctionDefinition_identifier);
                let c = paramlist_toks(r->FunctionDefinition_parameter_list);
                let d = opt_rettype_toks(r->FunctionDefinition_return_type);
                let e = fnbody_toks(*r->FunctionDefinition_body);
                lemma_real_join(t0, p0, p1, p2, a, b);
                lemma_real_join(t0, p0, p2, p3, a + b, c);
                lemma_real_join(t0, p0, p3, p4, a + b + c, d);
                lemma_merge_exact(t0, p0, p4, real_toks(a + b + c + d), j0);
                assert(j0.is_prefix_of(j0));
                lemma_merge_step(t0, p0, p4, self.at(), real_toks(a + b + c + d), real_toks(e),
                    j0, j0, self.junk());
                lemma_real_add(a + b + c + d, e);
                assert(stat_toks(r) == a + b + c + d + e);
                if self.junk() == j0 {
                    lemma_real_join(t0, p0, p4, self.at(), a + b + c + d, e);
                }
            }
        }
        r
    }

    /// Parse a function body: `=> <statement>`, or a block.
    fn parse_function_body(&mut self) -> (r: Box<FunctionBody>)
        requires
            old(self).wf(),
        ensures
            final(self).wf(),
            final(self).toks() == old(self).toks(),
            old(self).junk().is_prefix_of(final(self).junk()),
            old(self).at() <= final(self).at(),
            fnbody_exprs_wf(*r),
            (toks_nonempty(old(self).toks()) && final(self).junk() == old(self).junk())
                ==> real_toks(fnbody_toks(*r)) == old(self).toks().subrange(
                old(self).at(),
                final(self).at(),
            ),
            toks_nonempty(old(self).toks()) ==> is_interleaving(
                old(self).toks().subrange(old(self).at(), final(self).at()),
                real_toks(fnbody_toks(*r)),
                junk_delta(old(self).junk(), final(self).junk()),
            ),
            junk_tokens_dead(
                final(self).junk(),
                old(self).junk().len() as int,
                final(self).junk().len() as int,
            ),
        decreases self.toks().len() - self.at(), 2int,
    {
        let ghost t0 = self.toks();
        let ghost p0 = self.at();
        let next = self.peek();
        if is_some_and_kind(&next, TokenKind::EqualsGreater) {
            let fat_arrow_token = self.parse_token();
            let ghost p1 = self.at();
            let statement = self.parse_statement();
            let r = Box::new(FunctionBody::ExpressionBody { fat_arrow_token, statement });
            proof {
                let ghost j0 = old(self).junk();
                let body = *r;
                let a = st_toks(body->ExpressionBody_fat_arrow_token);
                let c = stat_toks(body->ExpressionBody_statement);
                if toks_nonempty(t0) {
                    lemma_merge_exact(t0, p0, p1, a, j0);
                    assert(j0.is_prefix_of(j0));
                    lemma_merge_step(t0, p0, p1, self.at(), a, real_toks(c), j0, j0, self.junk());
                    lemma_real_add(a, c);
                    assert(real_toks(a) =~= a) by {
                        lemma_real_subrange(t0, p0, p1);
                    }
                    assert(fnbody_toks(*r) == a + c);
                    if self.junk() == j0 {
                        lemma_real_join(t0, p0, p1, self.at(), a, c);
                    }
                }
            }
            r
        } else {
            let block = self.parse_block_statement();
            let r = Box::new(FunctionBody::BlockStatement { block });
            proof {
                assert(fnbody_toks(*r) == stat_toks(r->BlockStatement_block));
            }
            r
        }
    }

    /// Parse statements until the tokens run out.
    fn parse_statements(&mut self) -> (r: Vec<Stat>)
        requires
            old(self).wf(),
        ensures
            final(self).wf(),
            final(self).toks() == old(self).toks(),
            old(self).junk().is_prefix_of(final(self).junk()),
            final(self).at() == final(self).toks().len(),
            old(self).at() == old(self).toks().len() ==> final(self).junk() == old(self).junk()
                && r@.len() == 0,
            (toks_nonempty(old(self).toks()) && final(self).junk() == old(self).junk())
                ==> real_toks(stats_toks(r@)) == old(self).toks().subrange(
                old(self).at(),
                final(self).at(),
            ),
            toks_nonempty(old(self).toks()) ==> is_interleaving(
                old(self).toks().subrange(old(self).at(), final(self).at()),
                real_toks(stats_toks(r@)),
                junk_delta(old(self).junk(), final(self).junk()),
            ),
            junk_tokens_dead(
                final(self).junk(),
                old(self).junk().len() as int,
                final(self).junk().len() as int,
            ),
            forall|i: int| 0 <= i < r@.len() ==> stat_closers_ok(#[trigger] r@[i]),
            forall|i: int| 0 <= i < r@.len() ==> stat_exprs_wf(#[trigger] r@[i]),
    {
        let ghost t0 = self.toks();
        let ghost p0 = self.at();
        let ghost j0 = self.junk();
        let mut statements: Vec<Stat> = Vec::new();
        proof {
            lemma_real_empty();
            assert(stats_toks(statements@) =~= Seq::<Token>::empty());
            assert(t0.subrange(p0, p0) =~= Seq::<Token>::empty());
        }
        proof {
            lemma_merge_exact(t0, p0, p0, real_toks(stats_toks(statements@)), j0);
        }
        loop
            invariant
                t0 == old(self).toks(),
                old(self).at() <= p0,
                self.wf(),
                self.toks() == t0,
                j0.is_prefix_of(self.junk()),
                0 <= p0 <= self.at() <= t0.len(),
                p0 == self.at() ==> self.junk() == j0 && statements@.len() == 0,
                (toks_nonempty(t0) && self.junk() == j0) ==> real_toks(stats_toks(statements@))
                    == t0.subrange(p0, self.at()),
                toks_nonempty(t0) ==> is_interleaving(
                    t0.subrange(p0, self.at()),
                    real_toks(stats_toks(statements@)),
                    junk_delta(j0, self.junk()),
                ),
                junk_tokens_dead(self.junk(), j0.len() as int, self.junk().len() as int),
                forall|i: int|
                    0 <= i < statements@.len() ==> stat_closers_ok(#[trigger] statements@[i]),
                forall|i: int|
                    0 <= i < statements@.len() ==> stat_exprs_wf(#[trigger] statements@[i]),
            ensures
                self.wf(),
                self.toks() == t0,
                j0.is_prefix_of(self.junk()),
                0 <= p0 <= self.at() <= t0.len(),
                self.at() == t0.len(),
                p0 == self.at() ==> self.junk() == j0 && statements@.len() == 0,
                (toks_nonempty(t0) && self.junk() == j0) ==> real_toks(stats_toks(statements@))
                    == t0.subrange(p0, self.at()),
                toks_nonempty(t0) ==> is_interleaving(
                    t0.subrange(p0, self.at()),
                    real_toks(stats_toks(statements@)),
                    junk_delta(j0, self.junk()),
                ),
                junk_tokens_dead(self.junk(), j0.len() as int, self.junk().len() as int),
                forall|i: int|
                    0 <= i < statements@.len() ==> stat_closers_ok(#[trigger] statements@[i]),
                forall|i: int|
                    0 <= i < statements@.len() ==> stat_exprs_wf(#[trigger] statements@[i]),
            decreases t0.len() - self.at(),
        {
            let next = self.peek();
            if next.is_none() {
                break;
            }
            let ghost prior = statements@;
            let ghost pa = self.at();
            let ghost ja = self.junk();
            let s = self.parse_statement();
            statements.push(s);
            proof {
                lemma_prefix_trans(j0, ja, self.junk());
                crate::nodes::lemma_stats_toks_push(prior, s);
                lemma_dead_join(j0, ja, self.junk());
                if toks_nonempty(t0) {
                    lemma_merge_step(t0, p0, pa, self.at(), real_toks(stats_toks(prior)),
                        real_toks(stat_toks(s)), j0, ja, self.junk());
                    lemma_real_add(stats_toks(prior), stat_toks(s));
                }
                if toks_nonempty(t0) && self.junk() == j0 {
                    assert(ja =~= j0) by {
                        assert(j0.is_prefix_of(ja));
                        assert(ja.is_prefix_of(self.junk()));
                    }
                    lemma_real_join(t0, p0, pa, self.at(), stats_toks(prior), stat_toks(s));
                }
            }
        }
        statements
    }

    /// Parse the whole token buffer into a compilation unit: drain the
    /// leading trivia, then parse statements until the tokens run out.
    ///
    /// Token conservation: when nothing was discarded by error recovery (the
    /// `discarded` log kept its value) and every token has text, the real
    /// tokens of the tree are exactly the remaining input tokens, in order —
    /// so the tree serializes back to the source.
    pub fn parse(&mut self) -> (cu: CompilationUnit)
        requires
            old(self).wf(),
        ensures
            final(self).wf(),
            final(self).toks() == old(self).toks(),
            old(self).junk().is_prefix_of(final(self).junk()),
            final(self).at() == final(self).toks().len(),
            forall|i: int|
                0 <= i < cu.leading_trivia@.len() ==> is_trivia_kind(
                    (#[trigger] cu.leading_trivia@[i]).trivia_token.kind,
                ),
            trivia_toks(cu.leading_trivia@) == old(self).toks().subrange(
                old(self).at(),
                trivia_run_end(old(self).toks(), old(self).at()),
            ),
            old(self).at() == old(self).toks().len() ==> final(self).junk() == old(self).junk()
                && cu.leading_trivia@.len() == 0 && cu.statements@.len() == 0,
            (toks_nonempty(old(self).toks()) && final(self).junk() == old(self).junk())
                ==> real_toks(cu_toks(cu)) == old(self).toks().subrange(
                old(self).at(),
                old(self).toks().len() as int,
            ),
            toks_nonempty(old(self).toks()) ==> is_interleaving(
                old(self).toks().subrange(old(self).at(), old(self).toks().len() as int),
                real_toks(cu_toks(cu)),
                junk_delta(old(self).junk(), final(self).junk()),
            ),
            junk_tokens_dead(
                final(self).junk(),
                old(self).junk().len() as int,
                final(self).junk().len() as int,
            ),
            forall|i: int|
                0 <= i < cu.statements@.len() ==> stat_closers_ok(#[trigger] cu.statements@[i]),
            forall|i: int|
                0 <= i < cu.statements@.len() ==> stat_exprs_wf(#[trigger] cu.statements@[i]),
    {
        let ghost t0 = self.toks();
        let ghost p0 = self.at();
        let ghost j0 = self.junk();
        let leading_trivia = self.eat_trivia();
        let ghost p1 = self.at();
        let statements = self.parse_statements();
        let cu = CompilationUnit { leading_trivia, statements };
        proof {
            if toks_nonempty(t0) {
                lemma_merge_exact(t0, p0, p1, real_toks(trivia_toks(cu.leading_trivia@)), j0);
                assert(j0.is_prefix_of(j0));
                lemma_merge_step(
                    t0,
                    p0,
                    p1,
                    self.at(),
                    real_toks(trivia_toks(cu.leading_trivia@)),
                    real_toks(stats_toks(cu.statements@)),
                    j0,
                    j0,
                    self.junk(),
                );
                lemma_real_add(trivia_toks(cu.leading_trivia@), stats_toks(cu.statements@));
                assert(cu_toks(cu) == trivia_toks(cu.leading_trivia@) + stats_toks(
                    cu.statements@));
            }
            if toks_nonempty(t0) && self.junk() == j0 {
                lemma_real_join(t0, p0, p1, self.at(), trivia_toks(cu.leading_trivia@), stats_toks(
                    cu.statements@));
            }
            if p0 == t0.len() {
                assert(cu.leading_trivia@.len() == 0) by {
                    assert(trivia_toks(cu.leading_trivia@).len() == 0);
                }
            }
        }
        cu
    }
}

/// Parse a token sequence into a lossless tree. The empty input gives the
/// empty compilation unit.
pub fn generate_ast(tokens: Vec<Token>) -> (cu: CompilationUnit)
    ensures
        tokens@.len() == 0 ==> cu.leading_trivia@.len() == 0 && cu.statements@.len() == 0,
        forall|i: int|
            0 <= i < cu.leading_trivia@.len() ==> is_trivia_kind(
                (#[trigger] cu.leading_trivia@[i]).trivia_token.kind,
            ),
        trivia_toks(cu.leading_trivia@) == tokens@.take(trivia_run_end(tokens@, 0)),
        toks_nonempty(tokens@) ==> exists|d: Seq<Token>|
            is_interleaving(tokens@, real_toks(cu_toks(cu)), d) && junk_tokens_dead(
                d,
                0,
                d.len() as int,
            ),
        forall|i: int|
            0 <= i < cu.statements@.len() ==> stat_closers_ok(#[trigger] cu.statements@[i]),
        forall|i: int|
            0 <= i < cu.statements@.len() ==> stat_exprs_wf(#[trigger] cu.statements@[i]),
{
    let mut parser = Parser::new(tokens);
    let ghost input = parser.toks();
    let cu = parser.parse();
    proof {
        if toks_nonempty(input) {
            let d = junk_delta(Seq::<Token>::empty(), parser.junk());
            assert(d =~= parser.junk());
            assert(input.subrange(0, input.len() as int) =~= input);
            assert(is_interleaving(input, real_toks(cu_toks(cu)), d));
            assert(junk_tokens_dead(d, 0, d.len() as int));
        }
    }
    cu
}

} // verus!
