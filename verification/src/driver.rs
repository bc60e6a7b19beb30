//! A small driver that runs the whole front end over a built-in sample
//! program, exercising every statement and expression production.

use vstd::prelude::*;

use crate::lexer::tokenize;
use crate::parser::generate_ast;

verus! {

/// A sample program covering the statement and expression grammar.
pub const TEST_CODE: &'static str = r#"
if 1 < 2 {
    test = 53;
}

if !true == false {

}

if "string".2 > 3 {

}

if "test"[5] < 8 {

}

for n in 0..5 {

}

let mut test1: aha = 525.52;
let test2 = "test string";
let test3 = 'c';
let test4 = false;
{}

for v in 25 {

}

fn test(a: bool, b: bool) {
    return 5;
}

fn test(a: bool, b: bool) => return 5;

fn are_equal(a: bool, b: bool) -> bool {
    return false;
}

while true {

}

if 2 {

}
else if 5 {
}
else {
    return;
    return 5;
    break;
}

{
    let test = 2;
    {
        let test = 56;
    }
}
"#;

/// Lex and parse the sample program.
pub fn run() {
    let tokens = tokenize(TEST_CODE);
    let _ = generate_ast(tokens);
}

} // verus!
