use ferrousc::lexer::tokenize;
use ferrousc::nodes::ArgumentList;
use ferrousc::nodes::CompilationUnit;
use ferrousc::nodes::EqualsValue;
use ferrousc::nodes::ErrorKind;
use ferrousc::nodes::Expr;
use ferrousc::nodes::FunctionBody;
use ferrousc::nodes::Identifier;
use ferrousc::nodes::LiteralKind;
use ferrousc::nodes::MatchPattern;
use ferrousc::nodes::Stat;
use ferrousc::nodes::SyntaxToken;
use ferrousc::nodes::TypeKind;
use ferrousc::parser::Parser;
use ferrousc::parser::generate_ast;
use ferrousc::tokens::Base;
use ferrousc::tokens::TokenKind;

fn parse_source(src: &str) -> CompilationUnit {
    generate_ast(tokenize(src))
}

fn only_statement(cu: &CompilationUnit) -> &Stat {
    assert_eq!(cu.statements.len(), 1);
    &cu.statements[0]
}

fn expression_of(cu: &CompilationUnit) -> &Expr {
    match only_statement(cu) {
        Stat::Expr { expr, .. } => expr,
        other => panic!("expected an expression statement, got {:?}", other),
    }
}

fn ident_text(id: &Identifier) -> &str {
    &id.identifier.token.value
}

fn as_identifier(e: &Expr) -> &str {
    match e {
        Expr::IdentifierUsage { identifier } => ident_text(identifier),
        other => panic!("expected an identifier, got {:?}", other),
    }
}

fn as_number(e: &Expr) -> &str {
    match e {
        Expr::Literal { kind: LiteralKind::Number { number_literal } } => {
            &number_literal.token.value
        },
        other => panic!("expected a number literal, got {:?}", other),
    }
}

fn as_binary(e: &Expr) -> (&Expr, &SyntaxToken, &Expr) {
    match e {
        Expr::Binary { lhs, op, rhs } => (lhs, op, rhs),
        other => panic!("expected a binary expression, got {:?}", other),
    }
}

#[test]
fn additive_binds_looser_than_multiplicative() {
    let cu = parse_source("a + b * c;");
    let (lhs, op, rhs) = as_binary(expression_of(&cu));
    assert_eq!(op.token.kind, TokenKind::Plus);
    assert_eq!(as_identifier(lhs), "a");
    let (l2, op2, r2) = as_binary(rhs);
    assert_eq!(op2.token.kind, TokenKind::Star);
    assert_eq!(as_identifier(l2), "b");
    assert_eq!(as_identifier(r2), "c");
}

#[test]
fn assignment_is_right_associative() {
    let cu = parse_source("a = b = c;");
    let (lhs, op, rhs) = as_binary(expression_of(&cu));
    assert_eq!(op.token.kind, TokenKind::Equal);
    assert_eq!(as_identifier(lhs), "a");
    let (l2, op2, r2) = as_binary(rhs);
    assert_eq!(op2.token.kind, TokenKind::Equal);
    assert_eq!(as_identifier(l2), "b");
    assert_eq!(as_identifier(r2), "c");
}

#[test]
fn subtraction_is_left_associative() {
    let cu = parse_source("a - b - c;");
    let (lhs, op, rhs) = as_binary(expression_of(&cu));
    assert_eq!(op.token.kind, TokenKind::Minus);
    assert_eq!(as_identifier(rhs), "c");
    let (l2, op2, r2) = as_binary(lhs);
    assert_eq!(op2.token.kind, TokenKind::Minus);
    assert_eq!(as_identifier(l2), "a");
    assert_eq!(as_identifier(r2), "b");
}

#[test]
fn ternary_is_right_associative() {
    let cu = parse_source("a ? b : c ? d : e;");
    match expression_of(&cu) {
        Expr::Ternary { lhs, mhs, rhs, .. } => {
            assert_eq!(as_identifier(lhs), "a");
            assert_eq!(as_identifier(mhs), "b");
            match rhs.as_ref() {
                Expr::Ternary { lhs, mhs, rhs, .. } => {
                    assert_eq!(as_identifier(lhs), "c");
                    assert_eq!(as_identifier(mhs), "d");
                    assert_eq!(as_identifier(rhs), "e");
                },
                other => panic!("expected a nested ternary, got {:?}", other),
            }
        },
        other => panic!("expected a ternary, got {:?}", other),
    }
}

#[test]
fn postfix_index_binds_tighter_than_prefix_minus() {
    let cu = parse_source("-a[0];");
    match expression_of(&cu) {
        Expr::Unary { op, operand, postfix } => {
            assert_eq!(op.token.kind, TokenKind::Minus);
            assert!(!postfix);
            match operand.as_ref() {
                Expr::Index { lhs, lbracket, expr, .. } => {
                    assert_eq!(as_identifier(lhs), "a");
                    assert_eq!(lbracket.token.kind, TokenKind::LBracket);
                    assert_eq!(as_number(expr), "0");
                },
                other => panic!("expected an index, got {:?}", other),
            }
        },
        other => panic!("expected a unary, got {:?}", other),
    }
}

#[test]
fn empty_input_gives_empty_unit() {
    assert!(tokenize("").is_empty());
    let cu = parse_source("");
    assert!(cu.leading_trivia.is_empty());
    assert!(cu.statements.is_empty());
}

#[test]
fn variable_definition() {
    let cu = parse_source("let mut x: i32 = 5;");
    match only_statement(&cu) {
        Stat::VarDefinition { let_token, mut_token, identifier, type_id, initial_value, semicolon_token } => {
            assert_eq!(let_token.token.kind, TokenKind::LetKeyword);
            assert!(mut_token.is_some());
            assert_eq!(ident_text(identifier), "x");
            let tid = type_id.as_ref().expect("type annotation");
            match &tid.type_kind {
                TypeKind::Internal { identifier } => assert_eq!(ident_text(identifier), "i32"),
                other => panic!("expected a built-in type, got {:?}", other),
            }
            let EqualsValue { equals_token, expression } =
                initial_value.as_ref().expect("initializer");
            assert_eq!(equals_token.token.kind, TokenKind::Equal);
            assert_eq!(as_number(expression), "5");
            assert_eq!(
                semicolon_token.token.kind,
                TokenKind::Semicolon,
            );
            assert!(semicolon_token.diagnostics.is_empty());
        },
        other => panic!("expected a variable definition, got {:?}", other),
    }
}

#[test]
fn user_defined_type_name() {
    let cu = parse_source("let y: widget = 1;");
    match only_statement(&cu) {
        Stat::VarDefinition { type_id, .. } => {
            match &type_id.as_ref().expect("type annotation").type_kind {
                TypeKind::UserDefined { identifier } => {
                    assert_eq!(ident_text(identifier), "widget")
                },
                other => panic!("expected a user-defined type, got {:?}", other),
            }
        },
        other => panic!("expected a variable definition, got {:?}", other),
    }
}

#[test]
fn missing_semicolon_is_synthesized() {
    let cu = parse_source("let x = 5");
    match only_statement(&cu) {
        Stat::VarDefinition { semicolon_token, .. } => {
            assert_eq!(semicolon_token.token.kind, TokenKind::Semicolon);
            assert_eq!(semicolon_token.token.value, "");
            assert_eq!(semicolon_token.token.len, 0);
            assert_eq!(semicolon_token.diagnostics.len(), 1);
            match &semicolon_token.diagnostics[0].kind {
                ErrorKind::MissingToken { expected, actual } => {
                    assert_eq!(expected.kind, TokenKind::Semicolon);
                    assert_eq!(expected.len, 0);
                    assert!(actual.is_none());
                },
            }
        },
        other => panic!("expected a variable definition, got {:?}", other),
    }
}

#[test]
fn missing_token_records_the_actual_token() {
    let cu = parse_source("(1;");
    // `(` cannot start a statement: it is discarded, `1` parses as an
    // expression statement, and the `;` closes it
    match only_statement(&cu) {
        Stat::Expr { expr, semicolon_token } => {
            assert_eq!(as_number(expr), "1");
            assert!(semicolon_token.diagnostics.is_empty());
        },
        other => panic!("expected an expression statement, got {:?}", other),
    }

    let cu = parse_source("{ let x = 5; ");
    match only_statement(&cu) {
        Stat::Block { r_brace, .. } => {
            assert_eq!(r_brace.token.kind, TokenKind::RBrace);
            assert_eq!(r_brace.token.len, 0);
            assert_eq!(r_brace.diagnostics.len(), 1);
        },
        other => panic!("expected a block, got {:?}", other),
    }
}

#[test]
fn precedence_inside_return() {
    let cu = parse_source("return 1 + 2 * 3;");
    match only_statement(&cu) {
        Stat::Return { return_token, expression, semicolon_token } => {
            assert_eq!(return_token.token.kind, TokenKind::ReturnKeyword);
            assert!(semicolon_token.diagnostics.is_empty());
            let (lhs, op, rhs) = as_binary(expression.as_ref().expect("return value"));
            assert_eq!(op.token.kind, TokenKind::Plus);
            assert_eq!(as_number(lhs), "1");
            let (l2, op2, r2) = as_binary(rhs);
            assert_eq!(op2.token.kind, TokenKind::Star);
            assert_eq!(as_number(l2), "2");
            assert_eq!(as_number(r2), "3");
        },
        other => panic!("expected a return, got {:?}", other),
    }
}

#[test]
fn call_with_arguments() {
    let cu = parse_source("f(1, g(2));");
    match expression_of(&cu) {
        Expr::Call { identifier, argument_list: ArgumentList { l_paran, r_paran, arguments } } => {
            assert_eq!(ident_text(identifier), "f");
            assert_eq!(l_paran.token.kind, TokenKind::LParen);
            assert_eq!(r_paran.token.kind, TokenKind::RParen);
            assert_eq!(arguments.len(), 2);
            assert_eq!(as_number(&arguments[0].expr), "1");
            assert!(arguments[0].comma_token.is_some());
            match &arguments[1].expr {
                Expr::Call { identifier, argument_list } => {
                    assert_eq!(ident_text(identifier), "g");
                    assert_eq!(argument_list.arguments.len(), 1);
                },
                other => panic!("expected a nested call, got {:?}", other),
            }
        },
        other => panic!("expected a call, got {:?}", other),
    }
}

#[test]
fn array_initializer_and_match() {
    let cu = parse_source("x = [1, 2,];");
    let (_, op, rhs) = as_binary(expression_of(&cu));
    assert_eq!(op.token.kind, TokenKind::Equal);
    match rhs {
        Expr::ArrayInitializer { items, .. } => {
            assert_eq!(items.len(), 2);
            assert_eq!(as_number(&items[0].expr), "1");
            assert!(items[0].comma_token.is_some());
            assert!(items[1].comma_token.is_some());
        },
        other => panic!("expected an array initializer, got {:?}", other),
    }

    let cu = parse_source("y = match x { 1 => 2, true => 3 };");
    let (_, _, rhs) = as_binary(expression_of(&cu));
    match rhs {
        Expr::Match { match_token, expr, body } => {
            assert_eq!(match_token.token.kind, TokenKind::MatchKeyword);
            assert_eq!(as_identifier(expr), "x");
            assert_eq!(body.arms.len(), 2);
            let MatchPattern::Literal(first) = &body.arms[0].pattern;
            assert_eq!(first.token.value, "1");
            assert_eq!(as_number(&body.arms[0].expr), "2");
            assert!(body.arms[0].comma_token.is_some());
            assert!(body.arms[1].comma_token.is_none());
        },
        other => panic!("expected a match expression, got {:?}", other),
    }
}

#[test]
fn if_else_chain() {
    let cu = parse_source("if 1 {} else if 2 {} else {}");
    match only_statement(&cu) {
        Stat::If { expression, else_statement, .. } => {
            assert_eq!(as_number(expression), "1");
            let else_stat = else_statement.as_ref().expect("else branch");
            match else_stat.as_ref() {
                Stat::Else { statement, .. } => match statement.as_ref() {
                    Stat::If { else_statement, .. } => {
                        assert!(else_statement.is_some());
                    },
                    other => panic!("expected a nested if, got {:?}", other),
                },
                other => panic!("expected an else, got {:?}", other),
            }
        },
        other => panic!("expected an if, got {:?}", other),
    }
}

#[test]
fn function_definitions() {
    let cu = parse_source("fn are_equal(a: bool, b: bool,) -> bool { return false; }");
    match only_statement(&cu) {
        Stat::FunctionDefinition { identifier, parameter_list, return_type, body, .. } => {
            assert_eq!(ident_text(identifier), "are_equal");
            assert_eq!(parameter_list.parameters.len(), 2);
            assert_eq!(ident_text(&parameter_list.parameters[0].identifier), "a");
            assert!(parameter_list.parameters[0].comma_token.is_some());
            assert!(parameter_list.parameters[1].comma_token.is_some());
            let rt = return_type.as_ref().expect("return type");
            match &rt.type_kind {
                TypeKind::Internal { identifier } => assert_eq!(ident_text(identifier), "bool"),
                other => panic!("expected a built-in type, got {:?}", other),
            }
            match body.as_ref() {
                FunctionBody::BlockStatement { block } => match block {
                    Stat::Block { statements, .. } => assert_eq!(statements.len(), 1),
                    other => panic!("expected a block, got {:?}", other),
                },
                other => panic!("expected a block body, got {:?}", other),
            }
        },
        other => panic!("expected a function definition, got {:?}", other),
    }

    let cu = parse_source("fn test(a: bool) => return 5;");
    match only_statement(&cu) {
        Stat::FunctionDefinition { body, .. } => match body.as_ref() {
            FunctionBody::ExpressionBody { fat_arrow_token, statement } => {
                assert_eq!(fat_arrow_token.token.kind, TokenKind::EqualsGreater);
                assert!(matches!(statement, Stat::Return { .. }));
            },
            other => panic!("expected an expression body, got {:?}", other),
        },
        other => panic!("expected a function definition, got {:?}", other),
    }
}

#[test]
fn for_and_while_statements() {
    let cu = parse_source("for n in 0..5 { break; }");
    match only_statement(&cu) {
        Stat::For { identifier, in_token, range, statement, .. } => {
            assert_eq!(ident_text(identifier), "n");
            assert_eq!(in_token.token.kind, TokenKind::InKeyword);
            let (lhs, op, rhs) = as_binary(range);
            assert_eq!(op.token.kind, TokenKind::DotDot);
            assert_eq!(as_number(lhs), "0");
            assert_eq!(as_number(rhs), "5");
            assert!(matches!(statement.as_ref(), Stat::Block { .. }));
        },
        other => panic!("expected a for, got {:?}", other),
    }

    let cu = parse_source("while true { break; }");
    match only_statement(&cu) {
        Stat::While { expression, .. } => match expression {
            Expr::Literal { kind: LiteralKind::Bool { bool_literal } } => {
                assert_eq!(bool_literal.token.kind, TokenKind::TrueKeyword);
            },
            other => panic!("expected a bool literal, got {:?}", other),
        },
        other => panic!("expected a while, got {:?}", other),
    }
}

#[test]
fn trivia_attach_to_preceding_token() {
    let cu = parse_source("  let x = 5; // done\n");
    assert_eq!(cu.leading_trivia.len(), 1);
    assert_eq!(cu.leading_trivia[0].trivia_token.kind, TokenKind::Whitespace);
    match only_statement(&cu) {
        Stat::VarDefinition { let_token, semicolon_token, .. } => {
            assert_eq!(let_token.trivia.len(), 1);
            assert_eq!(let_token.trivia[0].trivia_token.value, " ");
            let trailing: Vec<&str> = semicolon_token
                .trivia
                .iter()
                .map(|t| t.trivia_token.value.as_str())
                .collect();
            assert_eq!(trailing, vec![" ", "// done", "\n"]);
        },
        other => panic!("expected a variable definition, got {:?}", other),
    }
}

#[test]
fn unexpected_tokens_are_skipped() {
    let cu = parse_source("] } let x = 5;");
    assert_eq!(cu.statements.len(), 1);
    assert!(matches!(only_statement(&cu), Stat::VarDefinition { .. }));
}

#[test]
fn walk_visits_top_level_statements() {
    let cu = parse_source("let x = 5; break; { }");
    let seen = std::cell::RefCell::new(Vec::new());
    cu.walk(|s: &Stat| {
        let tag = match s {
            Stat::VarDefinition { .. } => "var",
            Stat::Break { .. } => "break",
            Stat::Block { .. } => "block",
            _ => "other",
        };
        seen.borrow_mut().push(tag);
    });
    assert_eq!(seen.into_inner(), vec!["var", "break", "block"]);
}

// A serializer over the public tree, used to check that parsing is lossless:
// every token of the source ends up in the tree, in order, and nothing else.

fn push_syntax(out: &mut String, st: &SyntaxToken) {
    out.push_str(&st.token.value);
    for tr in &st.trivia {
        out.push_str(&tr.trivia_token.value);
    }
}

fn push_opt(out: &mut String, st: &Option<SyntaxToken>) {
    if let Some(st) = st {
        push_syntax(out, st);
    }
}

fn push_ident(out: &mut String, id: &Identifier) {
    push_syntax(out, &id.identifier);
}

fn push_type_kind(out: &mut String, tk: &TypeKind) {
    match tk {
        TypeKind::UserDefined { identifier } => push_ident(out, identifier),
        TypeKind::Internal { identifier } => push_ident(out, identifier),
    }
}

fn push_expr(out: &mut String, e: &Expr) {
    match e {
        Expr::Literal { kind } => match kind {
            LiteralKind::Number { number_literal } => push_syntax(out, number_literal),
            LiteralKind::Str { string_literal } => push_syntax(out, string_literal),
            LiteralKind::Char { char_literal } => push_syntax(out, char_literal),
            LiteralKind::Bool { bool_literal } => push_syntax(out, bool_literal),
        },
        Expr::Decorated { l, expr, r } => {
            push_syntax(out, l);
            push_expr(out, expr);
            push_syntax(out, r);
        },
        Expr::Index { lhs, lbracket, expr, rbracket } => {
            push_expr(out, lhs);
            push_syntax(out, lbracket);
            push_expr(out, expr);
            push_syntax(out, rbracket);
        },
        Expr::IdentifierUsage { identifier } => push_ident(out, identifier),
        Expr::Call { identifier, argument_list } => {
            push_ident(out, identifier);
            push_syntax(out, &argument_list.l_paran);
            for a in &argument_list.arguments {
                push_expr(out, &a.expr);
                push_opt(out, &a.comma_token);
            }
            push_syntax(out, &argument_list.r_paran);
        },
        Expr::Unary { op, operand, postfix } => {
            if *postfix {
                push_expr(out, operand);
                push_syntax(out, op);
            } else {
                push_syntax(out, op);
                push_expr(out, operand);
            }
        },
        Expr::Binary { lhs, op, rhs } => {
            push_expr(out, lhs);
            push_syntax(out, op);
            push_expr(out, rhs);
        },
        Expr::Ternary { lhs, op1, mhs, op2, rhs } => {
            push_expr(out, lhs);
            push_syntax(out, op1);
            push_expr(out, mhs);
            push_syntax(out, op2);
            push_expr(out, rhs);
        },
        Expr::ArrayInitializer { lbracket, items, rbracket } => {
            push_syntax(out, lbracket);
            for x in items {
                push_expr(out, &x.expr);
                push_opt(out, &x.comma_token);
            }
            push_syntax(out, rbracket);
        },
        Expr::Match { match_token, expr, body } => {
            push_syntax(out, match_token);
            push_expr(out, expr);
            push_syntax(out, &body.l_brace);
            for arm in &body.arms {
                let MatchPattern::Literal(p) = &arm.pattern;
                push_syntax(out, p);
                push_syntax(out, &arm.fat_arrow);
                push_expr(out, &arm.expr);
                push_opt(out, &arm.comma_token);
            }
            push_syntax(out, &body.r_brace);
        },
    }
}

fn push_stat(out: &mut String, s: &Stat) {
    match s {
        Stat::VarDefinition {
            let_token,
            mut_token,
            identifier,
            type_id,
            initial_value,
            semicolon_token,
        } => {
            push_syntax(out, let_token);
            push_opt(out, mut_token);
            push_ident(out, identifier);
            if let Some(tid) = type_id {
                push_syntax(out, &tid.colon_token);
                push_type_kind(out, &tid.type_kind);
            }
            if let Some(ev) = initial_value {
                push_syntax(out, &ev.equals_token);
                push_expr(out, &ev.expression);
            }
            push_syntax(out, semicolon_token);
        },
        Stat::Expr { expr, semicolon_token } => {
            push_expr(out, expr);
            push_syntax(out, semicolon_token);
        },
        Stat::Block { l_brace, statements, r_brace } => {
            push_syntax(out, l_brace);
            for s in statements {
                push_stat(out, s);
            }
            push_syntax(out, r_brace);
        },
        Stat::For { for_token, identifier, in_token, range, statement } => {
            push_syntax(out, for_token);
            push_ident(out, identifier);
            push_syntax(out, in_token);
            push_expr(out, range);
            push_stat(out, statement);
        },
        Stat::While { while_token, expression, statement } => {
            push_syntax(out, while_token);
            push_expr(out, expression);
            push_stat(out, statement);
        },
        Stat::FunctionDefinition { fn_token, identifier, parameter_list, return_type, body } => {
            push_syntax(out, fn_token);
            push_ident(out, identifier);
            push_syntax(out, &parameter_list.l_paran);
            for p in &parameter_list.parameters {
                push_ident(out, &p.identifier);
                push_syntax(out, &p.type_id.colon_token);
                push_type_kind(out, &p.type_id.type_kind);
                push_opt(out, &p.comma_token);
            }
            push_syntax(out, &parameter_list.r_paran);
            if let Some(rt) = return_type {
                push_syntax(out, &rt.small_arrow_token);
                push_type_kind(out, &rt.type_kind);
            }
            match body.as_ref() {
                FunctionBody::BlockStatement { block } => push_stat(out, block),
                FunctionBody::ExpressionBody { fat_arrow_token, statement } => {
                    push_syntax(out, fat_arrow_token);
                    push_stat(out, statement);
                },
            }
        },
        Stat::If { if_token, expression, statement, else_statement } => {
            push_syntax(out, if_token);
            push_expr(out, expression);
            push_stat(out, statement);
            if let Some(e) = else_statement {
                push_stat(out, e);
            }
        },
        Stat::Else { else_token, statement } => {
            push_syntax(out, else_token);
            push_stat(out, statement);
        },
        Stat::Break { break_token, semicolon_token } => {
            push_syntax(out, break_token);
            push_syntax(out, semicolon_token);
        },
        Stat::Return { return_token, expression, semicolon_token } => {
            push_syntax(out, return_token);
            if let Some(e) = expression {
                push_expr(out, e);
            }
            push_syntax(out, semicolon_token);
        },
    }
}

fn render(cu: &CompilationUnit) -> String {
    let mut out = String::new();
    for tr in &cu.leading_trivia {
        out.push_str(&tr.trivia_token.value);
    }
    for s in &cu.statements {
        push_stat(&mut out, s);
    }
    out
}

#[test]
fn parsing_is_lossless() {
    let sources = [
        ferrousc::driver::TEST_CODE,
        "",
        "let x = 5",
        "let mut x: i32 = 5;",
        "if 1 < 2 { return; } else { break; }",
        "f(1, g(2 + 3 * 4),);",
        "-a[0] ?? b ? c : d;",
        "fn t(a: bool) => return 5;  /* tail",
        "{ { let a = 'x'; } ",
        "y = match x { 1 => 2, };",
    ];
    for src in sources {
        let cu = parse_source(src);
        assert_eq!(render(&cu), *src, "serialization differs for {:?}", src);
    }
}

#[test]
fn parser_type_is_usable_directly() {
    let mut parser = Parser::new(tokenize("break;"));
    let cu = parser.parse();
    assert!(matches!(only_statement(&cu), Stat::Break { .. }));
}

#[test]
fn run_exercises_the_pipeline() {
    ferrousc::driver::run();
    let cu = parse_source(ferrousc::driver::TEST_CODE);
    assert!(cu.statements.len() >= 10);
}
