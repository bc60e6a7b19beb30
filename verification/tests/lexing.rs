use ferrousc::lexer::bake_keyword;
use ferrousc::lexer::current_token;
use ferrousc::lexer::tokenize;
use ferrousc::tokens::Base;
use ferrousc::tokens::TokenKind;

fn check_lexing(src: &str, expected: Vec<(TokenKind, &str, usize)>) {
    let actual: Vec<(TokenKind, String, usize)> =
        tokenize(src).into_iter().map(|t| (t.kind, t.value, t.len)).collect();
    let wanted: Vec<(TokenKind, String, usize)> =
        expected.into_iter().map(|(k, v, n)| (k, v.to_string(), n)).collect();
    assert_eq!(actual, wanted);
}

fn num(base: Base, has_digits: bool) -> TokenKind {
    TokenKind::NumberLiteral { base, has_digits }
}

#[test]
fn smoke_test() {
    check_lexing(
        r"
// This is some test code
/*
    It contains stuff
*/
fn maybe_main(i: int) -> bool {
    while true 
        if is_nice {
            return true;
        }
        else {
            return false;
        }
}
",
        vec![
            (TokenKind::Newline, "\n", 1),
            (TokenKind::LineComment, "// This is some test code", 25),
            (TokenKind::Newline, "\n", 1),
            (
                TokenKind::MultilineComment { terminated: true },
                "/*\n    It contains stuff\n*/",
                27,
            ),
            (TokenKind::Newline, "\n", 1),
            (TokenKind::FunctionKeyword, "fn", 2),
            (TokenKind::Whitespace, " ", 1),
            (TokenKind::Identifier, "maybe_main", 10),
            (TokenKind::LParen, "(", 1),
            (TokenKind::Identifier, "i", 1),
            (TokenKind::Colon, ":", 1),
            (TokenKind::Whitespace, " ", 1),
            (TokenKind::Identifier, "int", 3),
            (TokenKind::RParen, ")", 1),
            (TokenKind::Whitespace, " ", 1),
            (TokenKind::MinusGreater, "->", 2),
            (TokenKind::Whitespace, " ", 1),
            (TokenKind::Identifier, "bool", 4),
            (TokenKind::Whitespace, " ", 1),
            (TokenKind::LBrace, "{", 1),
            (TokenKind::Newline, "\n", 1),
            (TokenKind::Whitespace, "    ", 4),
            (TokenKind::WhileKeyword, "while", 5),
            (TokenKind::Whitespace, " ", 1),
            (TokenKind::TrueKeyword, "true", 4),
            (TokenKind::Whitespace, " ", 1),
            (TokenKind::Newline, "\n", 1),
            (TokenKind::Whitespace, "        ", 8),
            (TokenKind::IfKeyword, "if", 2),
            (TokenKind::Whitespace, " ", 1),
            (TokenKind::Identifier, "is_nice", 7),
            (TokenKind::Whitespace, " ", 1),
            (TokenKind::LBrace, "{", 1),
            (TokenKind::Newline, "\n", 1),
            (TokenKind::Whitespace, "            ", 12),
            (TokenKind::ReturnKeyword, "return", 6),
            (TokenKind::Whitespace, " ", 1),
            (TokenKind::TrueKeyword, "true", 4),
            (TokenKind::Semicolon, ";", 1),
            (TokenKind::Newline, "\n", 1),
            (TokenKind::Whitespace, "        ", 8),
            (TokenKind::RBrace, "}", 1),
            (TokenKind::Newline, "\n", 1),
            (TokenKind::Whitespace, "        ", 8),
            (TokenKind::ElseKeyword, "else", 4),
            (TokenKind::Whitespace, " ", 1),
            (TokenKind::LBrace, "{", 1),
            (TokenKind::Newline, "\n", 1),
            (TokenKind::Whitespace, "            ", 12),
            (TokenKind::ReturnKeyword, "return", 6),
            (TokenKind::Whitespace, " ", 1),
            (TokenKind::FalseKeyword, "false", 5),
            (TokenKind::Semicolon, ";", 1),
            (TokenKind::Newline, "\n", 1),
            (TokenKind::Whitespace, "        ", 8),
            (TokenKind::RBrace, "}", 1),
            (TokenKind::Newline, "\n", 1),
            (TokenKind::RBrace, "}", 1),
            (TokenKind::Newline, "\n", 1),
        ],
    )
}

#[test]
fn operators() {
    check_lexing(
        "()[]+++---!%&|<",
        vec![
            (TokenKind::LParen, "(", 1),
            (TokenKind::RParen, ")", 1),
            (TokenKind::LBracket, "[", 1),
            (TokenKind::RBracket, "]", 1),
            (TokenKind::PlusPlus, "++", 2),
            (TokenKind::Plus, "+", 1),
            (TokenKind::MinusMinus, "--", 2),
            (TokenKind::Minus, "-", 1),
            (TokenKind::Bang, "!", 1),
            (TokenKind::Percent, "%", 1),
            (TokenKind::Amp, "&", 1),
            (TokenKind::Bar, "|", 1),
            (TokenKind::Less, "<", 1),
        ],
    )
}

#[test]
fn numbers() {
    check_lexing(
        "\n123 5. .5 1232.25 0b10_14 0o17_29 0xaf_Fah 0x 0x_ 0b 0b_ 0o 0o_ 0b_1 0b1_ 0..5\n",
        vec![
            (TokenKind::Newline, "\n", 1),
            (num(Base::Decimal, true), "123", 3),
            (TokenKind::Whitespace, " ", 1),
            (num(Base::Decimal, true), "5.", 2),
            (TokenKind::Whitespace, " ", 1),
            (TokenKind::Dot, ".", 1),
            (num(Base::Decimal, true), "5", 1),
            (TokenKind::Whitespace, " ", 1),
            (num(Base::Decimal, true), "1232.25", 7),
            (TokenKind::Whitespace, " ", 1),
            (num(Base::Binary, true), "0b10_1", 6),
            (num(Base::Decimal, true), "4", 1),
            (TokenKind::Whitespace, " ", 1),
            (num(Base::Octal, true), "0o17_2", 6),
            (num(Base::Decimal, true), "9", 1),
            (TokenKind::Whitespace, " ", 1),
            (num(Base::Hexadecimal, true), "0xaf_Fa", 7),
            (TokenKind::Identifier, "h", 1),
            (TokenKind::Whitespace, " ", 1),
            (num(Base::Hexadecimal, false), "0x", 2),
            (TokenKind::Whitespace, " ", 1),
            (num(Base::Hexadecimal, false), "0x_", 3),
            (TokenKind::Whitespace, " ", 1),
            (num(Base::Binary, false), "0b", 2),
            (TokenKind::Whitespace, " ", 1),
            (num(Base::Binary, false), "0b_", 3),
            (TokenKind::Whitespace, " ", 1),
            (num(Base::Octal, false), "0o", 2),
            (TokenKind::Whitespace, " ", 1),
            (num(Base::Octal, false), "0o_", 3),
            (TokenKind::Whitespace, " ", 1),
            (num(Base::Binary, true), "0b_1", 4),
            (TokenKind::Whitespace, " ", 1),
            (num(Base::Binary, true), "0b1_", 4),
            (TokenKind::Whitespace, " ", 1),
            (num(Base::Decimal, true), "0", 1),
            (TokenKind::DotDot, "..", 2),
            (num(Base::Decimal, true), "5", 1),
            (TokenKind::Newline, "\n", 1),
        ],
    )
}

#[test]
fn strings() {
    check_lexing(
        "\n\"string\" \"string with spaces\" \"string with a '\\\"'\" \"string with a newline\nends here\" \"test\u{e4}\u{f9} \u{5e78}\u{9a13}test\"\n",
        vec![
            (TokenKind::Newline, "\n", 1),
            (TokenKind::StringLiteral { terminated: true }, "\"string\"", 8),
            (TokenKind::Whitespace, " ", 1),
            (TokenKind::StringLiteral { terminated: true }, "\"string with spaces\"", 20),
            (TokenKind::Whitespace, " ", 1),
            (TokenKind::StringLiteral { terminated: true }, "\"string with a '\\\"'\"", 20),
            (TokenKind::Whitespace, " ", 1),
            (
                TokenKind::StringLiteral { terminated: true },
                "\"string with a newline\nends here\"",
                33,
            ),
            (TokenKind::Whitespace, " ", 1),
            (
                TokenKind::StringLiteral { terminated: true },
                "\"test\u{e4}\u{f9} \u{5e78}\u{9a13}test\"",
                15,
            ),
            (TokenKind::Newline, "\n", 1),
        ],
    )
}

#[test]
fn chars() {
    check_lexing(
        "\n's' '\\n' '\\x' 'too long' '\\'' '\"'\n",
        vec![
            (TokenKind::Newline, "\n", 1),
            (TokenKind::CharLiteral { terminated: true }, "'s'", 3),
            (TokenKind::Whitespace, " ", 1),
            (TokenKind::CharLiteral { terminated: true }, "'\\n'", 4),
            (TokenKind::Whitespace, " ", 1),
            (TokenKind::CharLiteral { terminated: true }, "'\\x'", 4),
            (TokenKind::Whitespace, " ", 1),
            (TokenKind::CharLiteral { terminated: true }, "'too long'", 10),
            (TokenKind::Whitespace, " ", 1),
            (TokenKind::CharLiteral { terminated: true }, "'\\''", 4),
            (TokenKind::Whitespace, " ", 1),
            (TokenKind::CharLiteral { terminated: true }, "'\"'", 3),
            (TokenKind::Newline, "\n", 1),
        ],
    )
}

#[test]
fn identifier() {
    check_lexing(
        "\n_test test 1 _1 __1 a-ha a_ha \u{e4}\u{f2}test test\u{e4}\u{f9} \u{5e78}\u{9a13}test TEST TestTest\n",
        vec![
            (TokenKind::Newline, "\n", 1),
            (TokenKind::Identifier, "_test", 5),
            (TokenKind::Whitespace, " ", 1),
            (TokenKind::Identifier, "test", 4),
            (TokenKind::Whitespace, " ", 1),
            (num(Base::Decimal, true), "1", 1),
            (TokenKind::Whitespace, " ", 1),
            (TokenKind::Identifier, "_1", 2),
            (TokenKind::Whitespace, " ", 1),
            (TokenKind::Identifier, "__1", 3),
            (TokenKind::Whitespace, " ", 1),
            (TokenKind::Identifier, "a", 1),
            (TokenKind::Minus, "-", 1),
            (TokenKind::Identifier, "ha", 2),
            (TokenKind::Whitespace, " ", 1),
            (TokenKind::Identifier, "a_ha", 4),
            (TokenKind::Whitespace, " ", 1),
            (TokenKind::Identifier, "\u{e4}\u{f2}test", 6),
            (TokenKind::Whitespace, " ", 1),
            (TokenKind::Identifier, "test\u{e4}\u{f9}", 6),
            (TokenKind::Whitespace, " ", 1),
            (TokenKind::Identifier, "\u{5e78}\u{9a13}test", 6),
            (TokenKind::Whitespace, " ", 1),
            (TokenKind::Identifier, "TEST", 4),
            (TokenKind::Whitespace, " ", 1),
            (TokenKind::Identifier, "TestTest", 8),
            (TokenKind::Newline, "\n", 1),
        ],
    )
}

#[test]
fn comments() {
    check_lexing(
        r"
// line
/// line too
//// line also
//! still a line
//* also a line
//* not affected by */
// also not affected by */
/* block */
/** also block */
/*** also also block */
/*** also also also block ***/
/*! also also also block */
/**/
/***/
/* /* can also be nested */ */
/* 
    block multiline
*/
/* not terminated! // is a line comment
",
        vec![
            (TokenKind::Newline, "\n", 1),
            (TokenKind::LineComment, "// line", 7),
            (TokenKind::Newline, "\n", 1),
            (TokenKind::LineComment, "/// line too", 12),
            (TokenKind::Newline, "\n", 1),
            (TokenKind::LineComment, "//// line also", 14),
            (TokenKind::Newline, "\n", 1),
            (TokenKind::LineComment, "//! still a line", 16),
            (TokenKind::Newline, "\n", 1),
            (TokenKind::LineComment, "//* also a line", 15),
            (TokenKind::Newline, "\n", 1),
            (TokenKind::LineComment, "//* not affected by */", 22),
            (TokenKind::Newline, "\n", 1),
            (TokenKind::LineComment, "// also not affected by */", 26),
            (TokenKind::Newline, "\n", 1),
            (TokenKind::MultilineComment { terminated: true }, "/* block */", 11),
            (TokenKind::Newline, "\n", 1),
            (TokenKind::MultilineComment { terminated: true }, "/** also block */", 17),
            (TokenKind::Newline, "\n", 1),
            (
                TokenKind::MultilineComment { terminated: true },
                "/*** also also block */",
                23,
            ),
            (TokenKind::Newline, "\n", 1),
            (
                TokenKind::MultilineComment { terminated: true },
                "/*** also also also block ***/",
                30,
            ),
            (TokenKind::Newline, "\n", 1),
            (
                TokenKind::MultilineComment { terminated: true },
                "/*! also also also block */",
                27,
            ),
            (TokenKind::Newline, "\n", 1),
            (TokenKind::MultilineComment { terminated: true }, "/**/", 4),
            (TokenKind::Newline, "\n", 1),
            (TokenKind::MultilineComment { terminated: true }, "/***/", 5),
            (TokenKind::Newline, "\n", 1),
            (
                TokenKind::MultilineComment { terminated: true },
                "/* /* can also be nested */",
                27,
            ),
            (TokenKind::Whitespace, " ", 1),
            (TokenKind::Star, "*", 1),
            (TokenKind::Slash, "/", 1),
            (TokenKind::Newline, "\n", 1),
            (
                TokenKind::MultilineComment { terminated: true },
                "/* \n    block multiline\n*/",
                26,
            ),
            (TokenKind::Newline, "\n", 1),
            (
                TokenKind::MultilineComment { terminated: false },
                "/* not terminated! // is a line comment\n",
                40,
            ),
        ],
    )
}

#[test]
fn empty_input_yields_nothing() {
    assert!(tokenize("").is_empty());
}

#[test]
fn unterminated_string() {
    let tokens = tokenize("\"abc");
    assert_eq!(tokens.len(), 1);
    assert_eq!(tokens[0].kind, TokenKind::StringLiteral { terminated: false });
    assert_eq!(tokens[0].value, "\"abc");
    assert_eq!(tokens[0].len, 4);
}

#[test]
fn number_edge_cases() {
    let tokens = tokenize("0b");
    assert_eq!(tokens.len(), 1);
    assert_eq!(tokens[0].kind, num(Base::Binary, false));
    assert_eq!(tokens[0].value, "0b");

    let tokens = tokenize("0..5");
    assert_eq!(tokens.len(), 3);
    assert_eq!(tokens[0].kind, num(Base::Decimal, true));
    assert_eq!(tokens[0].value, "0");
    assert_eq!(tokens[1].kind, TokenKind::DotDot);
    assert_eq!(tokens[2].kind, num(Base::Decimal, true));
    assert_eq!(tokens[2].value, "5");
}

#[test]
fn tokens_concatenate_to_source() {
    let sources = [
        ferrousc::driver::TEST_CODE,
        "let x = 5",
        "\"abc",
        "0b 0..5 '\u{5e78}'",
        "a\u{0}b",
    ];
    for src in sources {
        let tokens = tokenize(src);
        let mut joined = String::new();
        for t in &tokens {
            assert_eq!(t.len, t.value.chars().count());
            assert!(t.len > 0);
            joined.push_str(&t.value);
        }
        assert_eq!(joined, *src);
    }
}

#[test]
fn first_token_of_source() {
    let t = current_token("let x = 5;");
    assert_eq!(t.kind, TokenKind::LetKeyword);
    assert_eq!(t.value, "let");
    assert_eq!(t.len, 3);

    let t = current_token("?");
    assert_eq!(t.kind, TokenKind::Question);
    assert_eq!(t.value, "?");

    let t = current_token("/=3");
    assert_eq!(t.kind, TokenKind::SlashEqual);
    assert_eq!(t.value, "/=");
}

#[test]
fn keyword_baking() {
    assert_eq!(bake_keyword(&String::from("while")), Some(TokenKind::WhileKeyword));
    assert_eq!(bake_keyword(&String::from("match")), Some(TokenKind::MatchKeyword));
    assert_eq!(bake_keyword(&String::from("whilee")), None);
    assert_eq!(bake_keyword(&String::from("")), None);
}
