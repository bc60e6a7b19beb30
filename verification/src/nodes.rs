//! The lossless concrete syntax tree.
//!
//! Every node owns the syntax tokens of its keywords and punctuation, each
//! syntax token carries the trivia that followed it, and missing tokens are
//! zero-length placeholders with a [`Diagnostic`]. The `*_toks` spec
//! functions list, for each node, every token in the subtree in source order;
//! the `serialize` functions below them give the corresponding text, so that
//! a tree can be held to the source it was parsed from.

use vstd::prelude::*;

use crate::tokens::Token;
use crate::tokens::toks_text;

verus! {

/// A trivia token (whitespace, newline or comment) attached to the syntax
/// token it follows. Trivia never carry diagnostics: this type has no room
/// for one.
#[derive(Debug)]
pub struct Trivia {
    pub trivia_token: Token,
}

/// The one kind of parse error: an expected token was not found. `expected`
/// is the zero-length placeholder put into the tree, `actual` what stood in
/// its place, if anything.
#[derive(Debug)]
pub enum ErrorKind {
    MissingToken { expected: Token, actual: Option<Token> },
}

/// An error recorded at the position of a syntax token.
#[derive(Debug)]
pub struct Diagnostic {
    pub kind: ErrorKind,
}

/// A significant token together with its trailing trivia and any diagnostics
/// recorded at its position.
#[derive(Debug)]
pub struct SyntaxToken {
    pub token: Token,
    pub trivia: Vec<Trivia>,
    pub diagnostics: Vec<Diagnostic>,
}

/// An identifier occurrence.
#[derive(Debug)]
pub struct Identifier {
    pub identifier: SyntaxToken,
}

/// A type name, classified at parse time: `Internal` when the text is one of
/// the built-in type names, `UserDefined` otherwise.
#[derive(Debug)]
pub enum TypeKind {
    UserDefined { identifier: Identifier },
    Internal { identifier: Identifier },
}

/// `: <type>` in a variable definition or parameter.
#[derive(Debug)]
pub struct TypeId {
    pub colon_token: SyntaxToken,
    pub type_kind: TypeKind,
}

/// The kind of a literal expression.
#[derive(Debug)]
pub enum LiteralKind {
    Number { number_literal: SyntaxToken },
    Str { string_literal: SyntaxToken },
    Char { char_literal: SyntaxToken },
    Bool { bool_literal: SyntaxToken },
}

/// One call argument with its optional trailing comma.
#[derive(Debug)]
pub struct Argument {
    pub expr: Expr,
    pub comma_token: Option<SyntaxToken>,
}

/// `( <args> )` of a call.
#[derive(Debug)]
pub struct ArgumentList {
    pub l_paran: SyntaxToken,
    pub r_paran: SyntaxToken,
    pub arguments: Vec<Argument>,
}

/// One element of an array initializer with its optional trailing comma.
#[derive(Debug)]
pub struct InitializerItem {
    pub expr: Expr,
    pub comma_token: Option<SyntaxToken>,
}

/// A match pattern: a literal token.
#[derive(Debug)]
pub enum MatchPattern {
    Literal(SyntaxToken),
}

/// One arm of a match expression: `<pattern> => <expr> ,?`.
#[derive(Debug)]
pub struct MatchArm {
    pub pattern: MatchPattern,
    pub fat_arrow: SyntaxToken,
    pub expr: Expr,
    pub comma_token: Option<SyntaxToken>,
}

/// `{ <arms> }` of a match expression.
#[derive(Debug)]
pub struct MatchBody {
    pub l_brace: SyntaxToken,
    pub r_brace: SyntaxToken,
    pub arms: Vec<MatchArm>,
}

/// An expression. `Unary` serves prefix and postfix operators alike;
/// `postfix` records on which side of the operand the operator stood, so the
/// tree stays lossless.
#[derive(Debug)]
pub enum Expr {
    Literal { kind: LiteralKind },
    Decorated { l: SyntaxToken, expr: Box<Expr>, r: SyntaxToken },
    Index { lhs: Box<Expr>, lbracket: SyntaxToken, expr: Box<Expr>, rbracket: SyntaxToken },
    IdentifierUsage { identifier: Identifier },
    Call { identifier: Identifier, argument_list: ArgumentList },
    Unary { op: SyntaxToken, operand: Box<Expr>, postfix: bool },
    Binary { lhs: Box<Expr>, op: SyntaxToken, rhs: Box<Expr> },
    Ternary {
        lhs: Box<Expr>,
        op1: SyntaxToken,
        mhs: Box<Expr>,
        op2: SyntaxToken,
        rhs: Box<Expr>,
    },
    ArrayInitializer { lbracket: SyntaxToken, items: Vec<InitializerItem>, rbracket: SyntaxToken },
    Match { match_token: SyntaxToken, expr: Box<Expr>, body: MatchBody },
}

/// `-> <type>` of a function definition.
#[derive(Debug)]
pub struct ReturnType {
    pub small_arrow_token: SyntaxToken,
    pub type_kind: TypeKind,
}

/// One parameter: `<ident> : <type> ,?`.
#[derive(Debug)]
pub struct Parameter {
    pub identifier: Identifier,
    pub type_id: TypeId,
    pub comma_token: Option<SyntaxToken>,
}

/// `( <params> )` of a function definition.
#[derive(Debug)]
pub struct ParameterList {
    pub l_paran: SyntaxToken,
    pub r_paran: SyntaxToken,
    pub parameters: Vec<Parameter>,
}

/// A function body: a block, or `=> <statement>`.
#[derive(Debug)]
pub enum FunctionBody {
    BlockStatement { block: Stat },
    ExpressionBody { fat_arrow_token: SyntaxToken, statement: Stat },
}

/// `= <expr>` of a variable definition.
#[derive(Debug)]
pub struct EqualsValue {
    pub equals_token: SyntaxToken,
    pub expression: Expr,
}

/// A statement.
#[derive(Debug)]
#[allow(inconsistent_fields)]
pub enum Stat {
    VarDefinition {
        let_token: SyntaxToken,
        mut_token: Option<SyntaxToken>,
        identifier: Identifier,
        type_id: Option<TypeId>,
        initial_value: Option<EqualsValue>,
        semicolon_token: SyntaxToken,
    },
    Expr { expr: Expr, semicolon_token: SyntaxToken },
    Block { l_brace: SyntaxToken, statements: Vec<Stat>, r_brace: SyntaxToken },
    For {
        for_token: SyntaxToken,
        identifier: Identifier,
        in_token: SyntaxToken,
        range: Expr,
        statement: Box<Stat>,
    },
    While { while_token: SyntaxToken, expression: Expr, statement: Box<Stat> },
    FunctionDefinition {
        fn_token: SyntaxToken,
        identifier: Identifier,
        parameter_list: ParameterList,
        return_type: Option<ReturnType>,
        body: Box<FunctionBody>,
    },
    If {
        if_token: SyntaxToken,
        expression: Expr,
        statement: Box<Stat>,
        else_statement: Option<Box<Stat>>,
    },
    Else { else_token: SyntaxToken, statement: Box<Stat> },
    Break { break_token: SyntaxToken, semicolon_token: SyntaxToken },
    Return { return_token: SyntaxToken, expression: Option<Expr>, semicolon_token: SyntaxToken },
}

/// The root of the tree: trivia before the first significant token, then the
/// top-level statements.
#[derive(Debug)]
pub struct CompilationUnit {
    pub leading_trivia: Vec<Trivia>,
    pub statements: Vec<Stat>,
}

impl CompilationUnit {
    /// Hand each top-level statement, in source order, to `it`. Descending
    /// into children is the callback's business.
    pub fn walk<F: Fn(&Stat)>(&self, it: F)
        requires
            forall|s: &Stat| it.requires((s,)),
    {
        let n = self.statements.len();
        let mut i: usize = 0;
        while i < n
            invariant
                n == self.statements.len(),
                i <= n,
                forall|s: &Stat| it.requires((s,)),
            decreases n - i,
        {
            it(&self.statements[i]);
            i = i + 1;
        }
    }
}

// In-order token sequences. For each node they list every token in the
// subtree, synthesized placeholders included, in source order.

/// The tokens of a trivia list.
pub open spec fn trivia_toks(ts: Seq<Trivia>) -> Seq<Token> {
    ts.map_values(|tr: Trivia| tr.trivia_token)
}

/// The tokens of a syntax token: the token itself, then its trivia.
pub open spec fn st_toks(st: SyntaxToken) -> Seq<Token> {
    seq![st.token] + trivia_toks(st.trivia@)
}

/// The tokens of an optional syntax token.
pub open spec fn opt_st_toks(o: Option<SyntaxToken>) -> Seq<Token> {
    match o {
        Some(st) => st_toks(st),
        None => Seq::empty(),
    }
}

/// The tokens of an identifier.
pub open spec fn ident_toks(id: Identifier) -> Seq<Token> {
    st_toks(id.identifier)
}

/// The tokens of a type name.
pub open spec fn type_kind_toks(tk: TypeKind) -> Seq<Token> {
    match tk {
        TypeKind::UserDefined { identifier } => ident_toks(identifier),
        TypeKind::Internal { identifier } => ident_toks(identifier),
    }
}

/// The tokens of a `: <type>` annotation.
pub open spec fn type_id_toks(ti: TypeId) -> Seq<Token> {
    st_toks(ti.colon_token) + type_kind_toks(ti.type_kind)
}

/// The tokens of an optional `: <type>` annotation.
pub open spec fn opt_type_id_toks(o: Option<TypeId>) -> Seq<Token> {
    match o {
        Some(ti) => type_id_toks(ti),
        None => Seq::empty(),
    }
}

/// The tokens of a literal expression.
pub open spec fn lit_toks(k: LiteralKind) -> Seq<Token> {
    match k {
        LiteralKind::Number { number_literal } => st_toks(number_literal),
        LiteralKind::Str { string_literal } => st_toks(string_literal),
        LiteralKind::Char { char_literal } => st_toks(char_literal),
        LiteralKind::Bool { bool_literal } => st_toks(bool_literal),
    }
}

/// The tokens of a match pattern.
pub open spec fn pattern_toks(p: MatchPattern) -> Seq<Token> {
    match p {
        MatchPattern::Literal(st) => st_toks(st),
    }
}

/// The tokens of an expression, in source order. A postfix unary places its
/// operator after the operand.
pub open spec fn expr_toks(e: Expr) -> Seq<Token>
    decreases e,
{
    match e {
        Expr::Literal { kind } => lit_toks(kind),
        Expr::Decorated { l, expr, r } => st_toks(l) + expr_toks(*expr) + st_toks(r),
        Expr::Index { lhs, lbracket, expr, rbracket } => expr_toks(*lhs) + st_toks(lbracket)
            + expr_toks(*expr) + st_toks(rbracket),
        Expr::IdentifierUsage { identifier } => ident_toks(identifier),
        Expr::Call { identifier, argument_list } => ident_toks(identifier) + arglist_toks(
            argument_list,
        ),
        Expr::Unary { op, operand, postfix } => if postfix {
            expr_toks(*operand) + st_toks(op)
        } else {
            st_toks(op) + expr_toks(*operand)
        },
        Expr::Binary { lhs, op, rhs } => expr_toks(*lhs) + st_toks(op) + expr_toks(*rhs),
        Expr::Ternary { lhs, op1, mhs, op2, rhs } => expr_toks(*lhs) + st_toks(op1) + expr_toks(
            *mhs,
        ) + st_toks(op2) + expr_toks(*rhs),
        Expr::ArrayInitializer { lbracket, items, rbracket } => st_toks(lbracket) + items_toks(
            items@,
        ) + st_toks(rbracket),
        Expr::Match { match_token, expr, body } => st_toks(match_token) + expr_toks(*expr)
            + matchbody_toks(body),
    }
}

/// The tokens of a call's argument list.
pub open spec fn arglist_toks(al: ArgumentList) -> Seq<Token>
    decreases al,
{
    st_toks(al.l_paran) + args_toks(al.arguments@) + st_toks(al.r_paran)
}

/// The tokens of one call argument.
pub open spec fn arg_toks(a: Argument) -> Seq<Token>
    decreases a,
{
    expr_toks(a.expr) + opt_st_toks(a.comma_token)
}

/// The tokens of call arguments.
pub open spec fn args_toks(args: Seq<Argument>) -> Seq<Token>
    decreases args,
{
    if args.len() == 0 {
        Seq::empty()
    } else {
        arg_toks(args[0]) + args_toks(args.drop_first())
    }
}

/// The tokens of one array-initializer item.
pub open spec fn item_toks(x: InitializerItem) -> Seq<Token>
    decreases x,
{
    expr_toks(x.expr) + opt_st_toks(x.comma_token)
}

/// The tokens of array-initializer items.
pub open spec fn items_toks(items: Seq<InitializerItem>) -> Seq<Token>
    decreases items,
{
    if items.len() == 0 {
        Seq::empty()
    } else {
        item_toks(items[0]) + items_toks(items.drop_first())
    }
}

/// The tokens of a match body.
pub open spec fn matchbody_toks(b: MatchBody) -> Seq<Token>
    decreases b,
{
    st_toks(b.l_brace) + arms_toks(b.arms@) + st_toks(b.r_brace)
}

/// The tokens of one match arm.
pub open spec fn arm_toks(a: MatchArm) -> Seq<Token>
    decreases a,
{
    pattern_toks(a.pattern) + st_toks(a.fat_arrow) + expr_toks(a.expr) + opt_st_toks(a.comma_token)
}

/// The tokens of match arms.
pub open spec fn arms_toks(arms: Seq<MatchArm>) -> Seq<Token>
    decreases arms,
{
    if arms.len() == 0 {
        Seq::empty()
    } else {
        arm_toks(arms[0]) + arms_toks(arms.drop_first())
    }
}

/// The tokens of an `= <expr>` initializer.
pub open spec fn equals_value_toks(ev: EqualsValue) -> Seq<Token> {
    st_toks(ev.equals_token) + expr_toks(ev.expression)
}

/// The tokens of an optional `= <expr>` initializer.
pub open spec fn opt_equals_value_toks(o: Option<EqualsValue>) -> Seq<Token> {
    match o {
        Some(ev) => equals_value_toks(ev),
        None => Seq::empty(),
    }
}

/// The tokens of an optional expression.
pub open spec fn opt_expr_toks(o: Option<Expr>) -> Seq<Token> {
    match o {
        Some(e) => expr_toks(e),
        None => Seq::empty(),
    }
}

/// The tokens of one parameter.
pub open spec fn param_toks(p: Parameter) -> Seq<Token> {
    ident_toks(p.identifier) + type_id_toks(p.type_id) + opt_st_toks(p.comma_token)
}

/// The tokens of a parameter sequence.
pub open spec fn params_toks(ps: Seq<Parameter>) -> Seq<Token>
    decreases ps,
{
    if ps.len() == 0 {
        Seq::empty()
    } else {
        param_toks(ps[0]) + params_toks(ps.drop_first())
    }
}

/// The tokens of a parameter list.
pub open spec fn paramlist_toks(pl: ParameterList) -> Seq<Token> {
    st_toks(pl.l_paran) + params_toks(pl.parameters@) + st_toks(pl.r_paran)
}

/// The tokens of a return type annotation.
pub open spec fn rettype_toks(rt: ReturnType) -> Seq<Token> {
    st_toks(rt.small_arrow_token) + type_kind_toks(rt.type_kind)
}

/// The tokens of an optional return type annotation.
pub open spec fn opt_rettype_toks(o: Option<ReturnType>) -> Seq<Token> {
    match o {
        Some(rt) => rettype_toks(rt),
        None => Seq::empty(),
    }
}

/// The tokens of a statement, in source order.
pub open spec fn stat_toks(s: Stat) -> Seq<Token>
    decreases s,
{
    match s {
        Stat::VarDefinition {
            let_token,
            mut_token,
            identifier,
            type_id,
            initial_value,
            semicolon_token,
        } => st_toks(let_token) + opt_st_toks(mut_token) + ident_toks(identifier)
            + opt_type_id_toks(type_id) + opt_equals_value_toks(initial_value) + st_toks(
            semicolon_token,
        ),
        Stat::Expr { expr, semicolon_token } => expr_toks(expr) + st_toks(semicolon_token),
        Stat::Block { l_brace, statements, r_brace } => st_toks(l_brace) + stats_toks(statements@)
            + st_toks(r_brace),
        Stat::For { for_token, identifier, in_token, range, statement } => st_toks(for_token)
            + ident_toks(identifier) + st_toks(in_token) + expr_toks(range) + stat_toks(
            *statement,
        ),
        Stat::While { while_token, expression, statement } => st_toks(while_token) + expr_toks(
            expression,
        ) + stat_toks(*statement),
        Stat::FunctionDefinition { fn_token, identifier, parameter_list, return_type, body } =>
            st_toks(fn_token) + ident_toks(identifier) + paramlist_toks(parameter_list)
            + opt_rettype_toks(return_type) + fnbody_toks(*body),
        Stat::If { if_token, expression, statement, else_statement } => st_toks(if_token)
            + expr_toks(expression) + stat_toks(*statement) + opt_boxed_stat_toks(else_statement),
        Stat::Else { else_token, statement } => st_toks(else_token) + stat_toks(*statement),
        Stat::Break { break_token, semicolon_token } => st_toks(break_token) + st_toks(
            semicolon_token,
        ),
        Stat::Return { return_token, expression, semicolon_token } => st_toks(return_token)
            + opt_expr_toks(expression) + st_toks(semicolon_token),
    }
}

/// The tokens of an optional boxed statement (an else branch).
pub open spec fn opt_boxed_stat_toks(o: Option<Box<Stat>>) -> Seq<Token>
    decreases o,
{
    match o {
        Some(s) => stat_toks(*s),
        None => Seq::empty(),
    }
}

/// The tokens of a statement sequence.
pub open spec fn stats_toks(ss: Seq<Stat>) -> Seq<Token>
    decreases ss,
{
    if ss.len() == 0 {
        Seq::empty()
    } else {
        stat_toks(ss[0]) + stats_toks(ss.drop_first())
    }
}

/// The tokens of a function body.
pub open spec fn fnbody_toks(b: FunctionBody) -> Seq<Token>
    decreases b,
{
    match b {
        FunctionBody::BlockStatement { block } => stat_toks(block),
        FunctionBody::ExpressionBody { fat_arrow_token, statement } => st_toks(fat_arrow_token)
            + stat_toks(statement),
    }
}

/// Every token of a compilation unit, in source order: the leading trivia,
/// then the tokens of each statement.
pub open spec fn cu_toks(cu: CompilationUnit) -> Seq<Token> {
    trivia_toks(cu.leading_trivia@) + stats_toks(cu.statements@)
}

/// The serialization of a compilation unit: the texts of all its tokens, in
/// source order. For a tree parsed without error recovery this reproduces the
/// source exactly.
pub open spec fn serialize(cu: CompilationUnit) -> Seq<char> {
    toks_text(cu_toks(cu))
}

} // verus!

// Appending to a child list appends that child's tokens: the step the
// parser's collection loops rest on.

verus! {

/// Appending an argument appends its tokens.
pub proof fn lemma_args_toks_push(args: Seq<Argument>, a: Argument)
    ensures
        args_toks(args.push(a)) == args_toks(args) + arg_toks(a),
    decreases args.len(),
{
    if args.len() == 0 {
        assert(args.push(a)[0] == a);
        assert(args.push(a).drop_first() =~= Seq::<Argument>::empty());
        assert(args_toks(Seq::<Argument>::empty()) == Seq::<Token>::empty());
        assert(args_toks(args.push(a)) =~= args_toks(args) + arg_toks(a));
    } else {
        assert(args.push(a).drop_first() =~= args.drop_first().push(a));
        lemma_args_toks_push(args.drop_first(), a);
        assert(args_toks(args.push(a)) =~= args_toks(args) + arg_toks(a));
    }
}

/// Appending an initializer item appends its tokens.
pub proof fn lemma_items_toks_push(items: Seq<InitializerItem>, x: InitializerItem)
    ensures
        items_toks(items.push(x)) == items_toks(items) + item_toks(x),
    decreases items.len(),
{
    if items.len() == 0 {
        assert(items.push(x)[0] == x);
        assert(items.push(x).drop_first() =~= Seq::<InitializerItem>::empty());
        assert(items_toks(Seq::<InitializerItem>::empty()) == Seq::<Token>::empty());
        assert(items_toks(items.push(x)) =~= items_toks(items) + item_toks(x));
    } else {
        assert(items.push(x).drop_first() =~= items.drop_first().push(x));
        lemma_items_toks_push(items.drop_first(), x);
        assert(items_toks(items.push(x)) =~= items_toks(items) + item_toks(x));
    }
}

/// Appending a match arm appends its tokens.
pub proof fn lemma_arms_toks_push(arms: Seq<MatchArm>, a: MatchArm)
    ensures
        arms_toks(arms.push(a)) == arms_toks(arms) + arm_toks(a),
    decreases arms.len(),
{
    if arms.len() == 0 {
        assert(arms.push(a)[0] == a);
        assert(arms.push(a).drop_first() =~= Seq::<MatchArm>::empty());
        assert(arms_toks(Seq::<MatchArm>::empty()) == Seq::<Token>::empty());
        assert(arms_toks(arms.push(a)) =~= arms_toks(arms) + arm_toks(a));
    } else {
        assert(arms.push(a).drop_first() =~= arms.drop_first().push(a));
        lemma_arms_toks_push(arms.drop_first(), a);
        assert(arms_toks(arms.push(a)) =~= arms_toks(arms) + arm_toks(a));
    }
}

/// Appending a parameter appends its tokens.
pub proof fn lemma_params_toks_push(ps: Seq<Parameter>, p: Parameter)
    ensures
        params_toks(ps.push(p)) == params_toks(ps) + param_toks(p),
    decreases ps.len(),
{
    if ps.len() == 0 {
        assert(ps.push(p)[0] == p);
        assert(ps.push(p).drop_first() =~= Seq::<Parameter>::empty());
        assert(params_toks(Seq::<Parameter>::empty()) == Seq::<Token>::empty());
        assert(params_toks(ps.push(p)) =~= params_toks(ps) + param_toks(p));
    } else {
        assert(ps.push(p).drop_first() =~= ps.drop_first().push(p));
        lemma_params_toks_push(ps.drop_first(), p);
        assert(params_toks(ps.push(p)) =~= params_toks(ps) + param_toks(p));
    }
}

/// Appending a statement appends its tokens.
pub proof fn lemma_stats_toks_push(ss: Seq<Stat>, s: Stat)
    ensures
        stats_toks(ss.push(s)) == stats_toks(ss) + stat_toks(s),
    decreases ss.len(),
{
    if ss.len() == 0 {
        assert(ss.push(s)[0] == s);
        assert(ss.push(s).drop_first() =~= Seq::<Stat>::empty());
        assert(stats_toks(Seq::<Stat>::empty()) == Seq::<Token>::empty());
        assert(stats_toks(ss.push(s)) =~= stats_toks(ss) + stat_toks(s));
    } else {
        assert(ss.push(s).drop_first() =~= ss.drop_first().push(s));
        lemma_stats_toks_push(ss.drop_first(), s);
        assert(stats_toks(ss.push(s)) =~= stats_toks(ss) + stat_toks(s));
    }
}

} // verus!
