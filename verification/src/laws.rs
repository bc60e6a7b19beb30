//! The round-trip and grouping laws of the front end, stated over the
//! contracts of [`crate::lexer::tokenize`] and
//! [`crate::parser::Parser::parse`].
//!
//! `tokenize` promises that its tokens' texts concatenate back to the input;
//! `parse` promises that the input tokens are an in-order merge of the
//! tree's real tokens with the discarded ones — an equality when nothing was
//! discarded. The first lemmas close the round trip: under those facts the
//! tree serializes back to the source, character for character. The
//! remaining lemmas read the operator-precedence laws off the well-formedness
//! predicate every parsed expression satisfies.

use vstd::prelude::*;

use crate::nodes::CompilationUnit;
use crate::nodes::Expr;
use crate::nodes::cu_toks;
use crate::nodes::serialize;
use crate::parser::expr_wf;
use crate::parser::right_min;
use crate::parser::spec_infix_bp;
use crate::tokens::Token;
use crate::tokens::TokenKind;
use crate::tokens::lemma_real_text;
use crate::tokens::real_toks;
use crate::tokens::toks_text;

verus! {

/// Lossless parsing, tree side: a tree whose real tokens are exactly `ts`
/// serializes to the text of `ts`. The synthesized placeholders that the
/// filter drops have empty text, so they add nothing.
pub proof fn lemma_tree_serialization(ts: Seq<Token>, cu: CompilationUnit)
    requires
        real_toks(cu_toks(cu)) == ts,
    ensures
        serialize(cu) == toks_text(ts),
{
    lemma_real_text(cu_toks(cu));
}

/// Lossless parsing, end to end: if lexing an input `src` gave the tokens
/// `ts` (so their texts concatenate to `src`), and parsing placed exactly
/// those tokens in the tree (nothing discarded), then serializing the tree
/// reproduces `src` exactly.
pub proof fn lemma_lossless_pipeline(src: Seq<char>, ts: Seq<Token>, cu: CompilationUnit)
    requires
        toks_text(ts) == src,
        real_toks(cu_toks(cu)) == ts,
    ensures
        serialize(cu) == src,
{
    lemma_tree_serialization(ts, cu);
}

} // verus!

// Grouping laws. Every expression the parser returns satisfies
// [`expr_wf`] at the binding power it was parsed at (an ensures of
// `parse_expression`), and these lemmas read the operator-precedence laws
// off that predicate: the shapes spec'd away cannot occur in a well-formed
// tree, so for instance `a + b * c` can only parse with the `*` nested
// under the `+`.

verus! {

/// Multiplication binds tighter than addition: in a well-formed tree no
/// `*` node has a `+` node as its left operand, so `a + b * c` cannot have
/// grouped as `(a + b) * c`.
pub proof fn lemma_mul_binds_tighter_than_add(e: Expr)
    requires
        e is Binary,
        e->Binary_op.token.kind is Star,
        (*e->Binary_lhs) is Binary,
        expr_wf(e, 0),
    ensures
        !((*e->Binary_lhs)->Binary_op.token.kind is Plus),
{
}

/// Assignment is right-associative: no `=` node has an `=` node as its
/// left operand, so `a = b = c` can only group as `a = (b = c)`.
pub proof fn lemma_assignment_right_associative(e: Expr)
    requires
        e is Binary,
        e->Binary_op.token.kind is Equal,
        (*e->Binary_lhs) is Binary,
        expr_wf(e, 0),
    ensures
        !((*e->Binary_lhs)->Binary_op.token.kind is Equal),
{
}

/// Subtraction is left-associative: no `-` node has a `-` node as its
/// right operand, so `a - b - c` can only group as `(a - b) - c`.
pub proof fn lemma_subtraction_left_associative(e: Expr)
    requires
        e is Binary,
        e->Binary_op.token.kind is Minus,
        (*e->Binary_rhs) is Binary,
        expr_wf(e, 0),
    ensures
        !((*e->Binary_rhs)->Binary_op.token.kind is Minus),
{
    assert(spec_infix_bp(TokenKind::Minus) == Some((23u8, 24u8)));
    assert(expr_wf(*e->Binary_rhs, 24));
}

/// The ternary operator is right-associative: no ternary node has a
/// ternary condition, so `a ? b : c ? d : e` nests in the else branch.
pub proof fn lemma_ternary_right_associative(e: Expr)
    requires
        e is Ternary,
        expr_wf(e, 0),
    ensures
        !((*e->Ternary_lhs) is Ternary),
{
}

/// A subscript binds tighter than a prefix operator: a prefix unary can
/// never be the base of an index node, so `-a[0]` can only group as
/// `-(a[0])`.
pub proof fn lemma_index_binds_tighter_than_prefix(e: Expr)
    requires
        e is Index,
        expr_wf(e, 0),
        (*e->Index_lhs) is Unary,
    ensures
        (*e->Index_lhs)->Unary_postfix,
{
    assert(right_min(*e->Index_lhs) > 30);
}

} // verus!
