use ssc::error::CompilerError;
use ssc::lexer::Lexer;
use ssc::parser::AstNode;
use ssc::parser::Parser;
use ssc::semantic::SemanticAnalyzer;

fn analyze(src: &str) -> Result<(), CompilerError> {
    let mut lexer = Lexer::new(src);
    let tokens = lexer.tokenize().expect("lexing should succeed");
    let mut parser = Parser::new(tokens);
    let ast: AstNode = parser.parse().expect("parsing should succeed");
    let mut semantic = SemanticAnalyzer::new();
    semantic.analyze(&ast)
}

fn rejects(src: &str) {
    match analyze(src) {
        Ok(()) => panic!("semantic analysis should reject: {}", src),
        Err(e) => assert!(matches!(e, CompilerError::SemanticError(_))),
    }
}

#[test]
fn shadowing_in_inner_scope_is_accepted() {
    // inner `x` shadows the outer one across nested scopes
    analyze("fn f() { let x: i32 = 1; if (true) { let x: i32 = 2; } }")
        .expect("shadowing must be accepted");
}

#[test]
fn redeclaration_in_same_scope_is_rejected() {
    rejects("fn f() { let x: i32 = 1; let x: i32 = 2; }");
}

#[test]
fn undeclared_use_is_rejected() {
    rejects("fn f() { let x: i32 = y; }");
    rejects("fn f() { y; }");
}

#[test]
fn assignment_to_immutable_is_rejected() {
    rejects("fn f() { let x: i32 = 1; x = 2; }");
}

#[test]
fn assignment_to_mutable_succeeds() {
    analyze("fn f() { let mut x: i32 = 1; x = 2; }").expect("mutable assignment must be accepted");
}

#[test]
fn assignment_to_undeclared_is_rejected() {
    rejects("fn f() { x = 2; }");
}

#[test]
fn declaration_type_mismatch_is_rejected() {
    rejects("fn f() { let x: bool = 1; }");
}

#[test]
fn declaration_without_type_or_value_is_rejected() {
    rejects("fn f() { let x; }");
}

#[test]
fn assignment_type_mismatch_is_rejected() {
    rejects("fn f() { let mut x: i32 = 1; x = true; }");
}

#[test]
fn binary_operands_must_share_a_type() {
    rejects("fn f() { 1 + true; }");
    analyze("fn f() { 1 + 2; }").expect("well-typed arithmetic must be accepted");
}

#[test]
fn comparisons_yield_boolean() {
    analyze("fn f() { let b: bool = 1 < 2; }").expect("comparison types as bool");
    rejects("fn f() { let b: i32 = 1 < 2; }");
}

#[test]
fn conditions_must_be_boolean() {
    rejects("fn f() { if (1) { } }");
    rejects("fn f() { while (1) { } }");
    analyze("fn f() { if (true) { } else { } }").expect("boolean condition accepted");
}

#[test]
fn parameters_are_declared_immutable() {
    rejects("fn f(a: i32) { a = 1; }");
    analyze("fn f(a: i32) { let b: i32 = a; }").expect("parameter use accepted");
}

#[test]
fn return_type_must_match() {
    rejects("fn f() -> bool { return 1; }");
    analyze("fn f() -> i32 { return 1; }").expect("matching return accepted");
}

#[test]
fn for_iterator_is_a_signed_32_bit_immutable() {
    analyze("fn f() { for (i in 0..3) { let x: i32 = i; } }").expect("iterator typed i32");
    rejects("fn f() { for (i in 0..3) { i = 1; } }");
    rejects("fn f() { for (i in 0..3) { let b: bool = i; } }");
}

#[test]
fn loop_scopes_do_not_leak() {
    rejects("fn f() { if (true) { let x: i32 = 1; } x; }");
    rejects("fn f() { for (i in 0..3) { } i; }");
}

#[test]
fn calls_are_optimistically_32_bit_integers() {
    analyze("fn f() { let x: i32 = g(); }").expect("calls type as i32");
    rejects("fn f() { let b: bool = g(); }");
}

#[test]
fn array_literals_must_be_homogeneous() {
    analyze("fn f() { let a: [i32; 2] = [1, 2]; }").expect("homogeneous array accepted");
    rejects("fn f() { [1, true]; }");
    rejects("fn f() { let a: [i32; 3] = [1, 2]; }");
}

#[test]
fn indexing_requires_an_array() {
    analyze("fn f() { let a: [i32; 2] = [1, 2]; let x: i32 = a[0]; }")
        .expect("array indexing accepted");
    rejects("fn f() { let x: i32 = 1; x[0]; }");
}

#[test]
fn semantic_error_is_stage_qualified() {
    match analyze("fn f() { y; }") {
        Err(e) => assert!(e.describe().starts_with("Semantic error: ")),
        Ok(()) => panic!("should reject"),
    }
}
